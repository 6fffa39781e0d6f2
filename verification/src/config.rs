//! Configuration resolution. Option values come first, then environment
//! overrides, then fixed locations under the home directory. The caller
//! reads the environment and hands the values in; the precedence rules
//! live here.

use vstd::prelude::*;
use vstd::string::*;

verus! {

/// The options as the command line supplies them; every path may be
/// absent and fall back to an environment value or a default.
pub struct Opts {
    pub target: Option<String>,
    pub src: Option<String>,
    pub ext: Option<Vec<String>>,
    pub keep: bool,
}

/// A fully resolved configuration.
pub struct Config {
    pub src: String,
    pub target: String,
    pub ext: Vec<String>,
    pub keep: bool,
}

/// Configuration resolution can fail only when a path has neither an
/// option value, nor an environment override, nor a home directory to
/// fall back to.
#[derive(Debug)]
pub enum ConfigError {
    NoHome,
}

/// The path a directory option resolves to: the option itself, else the
/// environment override, else `sub` under the home directory; absent
/// when none of the three is available.
pub open spec fn resolve_path(
    dir: Option<String>,
    env_val: Option<String>,
    home: Option<String>,
    sub: Seq<char>,
) -> Option<Seq<char>> {
    match dir {
        Some(d) => Some(d@),
        None => match env_val {
            Some(v) => Some(v@),
            None => match home {
                Some(h) => Some(h@ + sub),
                None => None,
            },
        },
    }
}

/// The default location: the environment override when set, else the
/// fixed subdirectory under home.
pub fn get_path(is_src: bool, env_val: Option<String>, home: Option<String>) -> (r: Result<
    String,
    ConfigError,
>)
    ensures
        match r {
            Ok(p) => resolve_path(None, env_val, home, if is_src {
                "/Downloads"@
            } else {
                "/Videos"@
            }) == Some(p@),
            Err(e) => env_val is None && home is None && e == ConfigError::NoHome,
        },
{
    match env_val {
        Some(v) => Ok(v),
        None => match home {
            Some(h) => {
                let mut p = h;
                if is_src {
                    p.append("/Downloads");
                } else {
                    p.append("/Videos");
                }
                Ok(p)
            },
            None => Err(ConfigError::NoHome),
        },
    }
}

/// The source directory: the option when given, else the environment
/// override, else `/Downloads` under home.
pub fn get_source(dir: Option<String>, env_val: Option<String>, home: Option<String>) -> (r: Result<
    String,
    ConfigError,
>)
    ensures
        match r {
            Ok(p) => resolve_path(dir, env_val, home, "/Downloads"@) == Some(p@),
            Err(e) => resolve_path(dir, env_val, home, "/Downloads"@) is None,
        },
{
    match dir {
        Some(v) => Ok(v),
        None => get_path(true, env_val, home),
    }
}

/// The target directory: the option when given, else the environment
/// override, else `/Videos` under home.
pub fn get_target(dir: Option<String>, env_val: Option<String>, home: Option<String>) -> (r: Result<
    String,
    ConfigError,
>)
    ensures
        match r {
            Ok(p) => resolve_path(dir, env_val, home, "/Videos"@) == Some(p@),
            Err(e) => resolve_path(dir, env_val, home, "/Videos"@) is None,
        },
{
    match dir {
        Some(v) => Ok(v),
        None => get_path(false, env_val, home),
    }
}

/// The extension set: the option when given, else just `mp4`.
pub fn get_extension(ext: Option<Vec<String>>) -> (r: Vec<String>)
    ensures
        match ext {
            Some(v) => r == v,
            None => r.deep_view() == seq!["mp4"@],
        },
{
    match ext {
        Some(v) => v,
        None => {
            let mut v: Vec<String> = Vec::new();
            v.push(String::from_str("mp4"));
            proof {
                assert(v.deep_view() =~= seq!["mp4"@]);
            }
            v
        },
    }
}

impl Config {
    /// Resolves a configuration from options and the environment values
    /// the caller read: the two directory overrides and the home
    /// directory.
    pub fn from_opts(
        opts: Opts,
        src_env: Option<String>,
        target_env: Option<String>,
        home: Option<String>,
    ) -> (r: Result<Config, ConfigError>)
        ensures
            match r {
                Ok(c) => {
                    &&& resolve_path(opts.src, src_env, home, "/Downloads"@) == Some(c.src@)
                    &&& resolve_path(opts.target, target_env, home, "/Videos"@) == Some(c.target@)
                    &&& match opts.ext {
                        Some(v) => c.ext == v,
                        None => c.ext.deep_view() == seq!["mp4"@],
                    }
                    &&& c.keep == opts.keep
                },
                Err(e) => resolve_path(opts.src, src_env, home, "/Downloads"@) is None
                    || resolve_path(opts.target, target_env, home, "/Videos"@) is None,
            },
    {
        let home2 = match &home {
            Some(h) => Some(h.clone()),
            None => None,
        };
        let src = match get_source(opts.src, src_env, home) {
            Ok(v) => v,
            Err(e) => {
                return Err(e);
            },
        };
        let target = match get_target(opts.target, target_env, home2) {
            Ok(v) => v,
            Err(e) => {
                return Err(e);
            },
        };
        let ext = get_extension(opts.ext);
        Ok(Config { src, target, ext, keep: opts.keep })
    }
}

} // verus!
