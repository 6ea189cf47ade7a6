//! Project identity keys: the stable string that identifies a project
//! directory across renames and moves. A directory with a git `origin`
//! remote is keyed by the normalised remote URL; anything else is keyed by
//! a stamp — the identifier stored in the directory's stamp file, or a
//! freshly generated one when the file is absent or empty.
//!
//! Reading the remote and the stamp file is the host's work; the functions
//! here turn what it found into the key.

use crate::session::fresh_id;
use crate::text::starts_with_seq;
use crate::text::trim_end_char;
use crate::text::trim_end_matches_char;
use crate::text::trim_end_matches_str;
use crate::text::trim_end_seq;
use crate::text::trim_str;
use crate::text::trimmed;
use vstd::prelude::*;
use vstd::string::*;

verus! {

/// A remote URL normalised for identity: surrounding whitespace, trailing
/// slashes and `.git` suffixes dropped, so the fetch and clone spellings of
/// one remote give one key.
pub open spec fn normalized_remote(url: Seq<char>) -> Seq<char> {
    trim_end_seq(trim_end_char(trimmed(url), '/'), ".git"@)
}

/// The identity key of a project with a git `origin` remote.
pub fn remote_identity_key(url: &str) -> (r: String)
    ensures
        r@ == "git:"@ + normalized_remote(url@),
{
    proof {
        reveal_strlit(".git");
    }
    let normalised = trim_end_matches_str(trim_end_matches_char(trim_str(url), '/'), ".git");
    let mut r = String::from_str("git:");
    r.append(normalised);
    r
}

/// The identity key of a project without a usable remote: the trimmed stamp
/// file content when there is one, else a fresh identifier. The caller
/// writes a freshly generated identifier back to the stamp file, best
/// effort.
pub fn stamp_identity_key(stamp_content: Option<&str>, fresh: &str) -> (r: String)
    ensures
        match stamp_content {
            Option::Some(c) => if trimmed(c@).len() > 0 {
                r@ == "stamp:"@ + trimmed(c@)
            } else {
                r@ == "stamp:"@ + fresh@
            },
            Option::None => r@ == "stamp:"@ + fresh@,
        },
{
    let mut r = String::from_str("stamp:");
    match stamp_content {
        Some(c) => {
            let t = trim_str(c);
            if t.unicode_len() > 0 {
                r.append(t);
            } else {
                r.append(fresh);
            }
        },
        None => {
            r.append(fresh);
        },
    }
    r
}

/// The identity key of a project directory, from what the host read there:
/// the `origin` remote URL if the directory is a git repository with one,
/// else the stamp file's content, else a freshly generated stamp.
pub fn compute_identity_key(remote_url: Option<&str>, stamp_content: Option<&str>) -> (r: String)
    ensures
        remote_url matches Some(u) ==> r@ == "git:"@ + normalized_remote(u@),
        remote_url is None ==> (match stamp_content {
            Option::Some(c) => trimmed(c@).len() > 0 ==> r@ == "stamp:"@ + trimmed(c@),
            Option::None => true,
        }),
        remote_url is None ==> r@.len() > "stamp:"@.len() && starts_with_seq(r@, "stamp:"@),
{
    match remote_url {
        Some(u) => remote_identity_key(u),
        None => {
            let fresh = fresh_id();
            let r = stamp_identity_key(stamp_content, fresh.as_str());
            proof {
                reveal_strlit("stamp:");
                assert(r@.subrange(0, "stamp:"@.len() as int) =~= "stamp:"@);
            }
            r
        },
    }
}

} // verus!
