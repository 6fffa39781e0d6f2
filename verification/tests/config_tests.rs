use media_sorter::config::Config;
use media_sorter::config::Opts;
use media_sorter::config::get_path;

#[test]
fn from_opts_default() {
    let home = String::from("/home/user");

    let config: Config = Config::from_opts(
        Opts { src: None, target: None, ext: None, keep: false },
        None,
        None,
        Some(home.clone()),
    )
    .unwrap();

    let mut t = home.clone();
    t.push_str("/Videos");
    let mut s = home.clone();
    s.push_str("/Downloads");
    assert_eq!(config.src, s);
    assert_eq!(config.target, t);
    assert_eq!(config.ext, vec![String::from("mp4")]);
}

#[test]
fn from_opts_with_args() {
    let config: Config = Config::from_opts(
        Opts {
            src: Some(String::from("/foo")),
            target: Some(String::from("/bar")),
            ext: Some(vec![String::from("mkv")]),
            keep: false,
        },
        None,
        None,
        None,
    )
    .unwrap();

    assert_eq!(config.src, String::from("/foo"));
    assert_eq!(config.target, String::from("/bar"));
    assert_eq!(config.ext, vec![String::from("mkv")]);
}

#[test]
fn get_pathbuf_src() {
    let mut home = String::from("/home/user");
    home.push_str("/Downloads");
    assert_eq!(get_path(true, None, Some(String::from("/home/user"))).unwrap(), home);
}

#[test]
fn get_pathbuf_target() {
    let mut home = String::from("/home/user");
    home.push_str("/Videos");
    assert_eq!(get_path(false, None, Some(String::from("/home/user"))).unwrap(), home);
}

#[test]
fn env_override_wins_over_home() {
    let r = get_path(true, Some(String::from("/elsewhere")), Some(String::from("/home/user")));
    assert_eq!(r.unwrap(), String::from("/elsewhere"));
}

#[test]
fn no_home_and_no_env_fails() {
    let r = Config::from_opts(
        Opts { src: None, target: Some(String::from("/bar")), ext: None, keep: false },
        None,
        None,
        None,
    );
    assert!(r.is_err());
}
