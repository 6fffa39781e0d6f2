//! A path here is a plain string whose components are separated by `/`.
//! These functions model the handful of path operations the sorter needs:
//! reading a file name's extension and replacing the file-name component
//! while keeping the original extension.

use vstd::prelude::*;
use vstd::string::*;

use crate::text::last_ix;
use crate::text::lemma_last_ix;
use crate::text::rfind_char;

verus! {

/// The file-name component of `p`: everything after the last `/`, or all
/// of `p` when it has no `/`.
pub open spec fn spec_file_name(p: Seq<char>) -> Seq<char> {
    p.skip(last_ix(p, '/') + 1)
}

/// The directory part of `p`, up to and including the last `/`; empty when
/// `p` has no `/`.
pub open spec fn spec_dir_part(p: Seq<char>) -> Seq<char> {
    p.take(last_ix(p, '/') + 1)
}

/// The extension of a file name: the text after the last `.`, absent when
/// the name has no `.` or only a leading one.
pub open spec fn spec_ext_of(name: Seq<char>) -> Option<Seq<char>> {
    let d = last_ix(name, '.');
    if d > 0 {
        Some(name.skip(d + 1))
    } else {
        None
    }
}

/// The stem of a file name: the text before the last `.`, or the whole
/// name when it has no extension position.
pub open spec fn spec_stem(name: Seq<char>) -> Seq<char> {
    let d = last_ix(name, '.');
    if d > 0 {
        name.take(d)
    } else {
        name
    }
}

/// A file name with its extension replaced by `e`; an empty `e` leaves
/// just the stem.
pub open spec fn spec_set_ext(name: Seq<char>, e: Seq<char>) -> Seq<char> {
    if e.len() == 0 {
        spec_stem(name)
    } else {
        spec_stem(name) + seq!['.'] + e
    }
}

/// `p` with its file-name component replaced by `name`.
pub open spec fn spec_with_file_name(p: Seq<char>, name: Seq<char>) -> Seq<char> {
    spec_dir_part(p) + name
}

/// `p` with its file name replaced by `name`, re-applying the extension of
/// the original file name so that a replacement containing dots is not
/// truncated.
pub open spec fn spec_change_file_name(p: Seq<char>, name: Seq<char>) -> Seq<char> {
    match spec_ext_of(spec_file_name(p)) {
        Some(e) => spec_dir_part(p) + spec_set_ext(name, e),
        None => spec_dir_part(p) + name,
    }
}

/// The extension of the file name `name`, as `Path::extension` reads it.
pub fn extension_of(name: &str) -> (r: Option<String>)
    ensures
        match r {
            Some(e) => spec_ext_of(name@) == Some(e@),
            None => spec_ext_of(name@) is None,
        },
{
    let n = name.unicode_len();
    match rfind_char(name, '.') {
        Some(d) => {
            proof {
                lemma_last_ix(name@, '.');
            }
            if d > 0 {
                let e = name.substring_char(d + 1, n);
                proof {
                    assert(e@ =~= name@.skip(last_ix(name@, '.') + 1));
                }
                Some(String::from_str(e))
            } else {
                None
            }
        },
        None => None,
    }
}

/// `name` with its extension replaced by `e`.
pub fn with_extension(name: &str, e: &str) -> (r: String)
    ensures
        r@ == spec_set_ext(name@, e@),
{
    let mut r: String;
    match rfind_char(name, '.') {
        Some(d) => {
            proof {
                lemma_last_ix(name@, '.');
            }
            if d > 0 {
                let stem = name.substring_char(0, d);
                proof {
                    assert(stem@ =~= spec_stem(name@));
                }
                r = String::from_str(stem);
            } else {
                r = String::from_str(name);
            }
        },
        None => {
            r = String::from_str(name);
        },
    }
    if e.unicode_len() > 0 {
        proof {
            reveal_strlit(".");
        }
        r.append(".");
        r.append(e);
        proof {
            assert(r@ =~= spec_set_ext(name@, e@));
        }
    }
    r
}

/// `path` with its file-name component replaced by `name`, keeping the
/// original file name's extension.
pub fn change_file_name(path: &str, name: &str) -> (r: String)
    ensures
        r@ == spec_change_file_name(path@, name@),
{
    let n = path.unicode_len();
    let fstart: usize;
    match rfind_char(path, '/') {
        Some(i) => {
            proof {
                lemma_last_ix(path@, '/');
            }
            fstart = i + 1;
        },
        None => {
            fstart = 0;
        },
    }
    let dir = path.substring_char(0, fstart);
    let fname = path.substring_char(fstart, n);
    proof {
        assert(dir@ =~= spec_dir_part(path@));
        assert(fname@ =~= spec_file_name(path@));
    }
    let mut r = String::from_str(dir);
    match extension_of(fname) {
        Some(e) => {
            let nn = with_extension(name, e.as_str());
            r.append(nn.as_str());
        },
        None => {
            r.append(name);
        },
    }
    r
}

} // verus!
