//! Parsing of GitHub remote and issue URLs into `owner/repo` form and issue
//! numbers. These are the pure halves of the issue-tracker integration; the
//! network and repository I/O around them lives in the host.

use crate::text::find_char;
use crate::text::is_first_index_of;
use crate::text::last_index_of;
use crate::text::lemma_last_index_none;
use crate::text::lemma_last_index_unique;
use crate::text::parse_i64;
use crate::text::parse_i64_spec;
use crate::text::starts_with_seq;
use crate::text::starts_with_str;
use crate::text::trim_end_char;
use crate::text::trim_end_matches_char;
use crate::text::trim_end_matches_str;
use crate::text::trim_end_seq;
use crate::text::trim_str;
use crate::text::trimmed;
use vstd::prelude::*;
use vstd::string::*;

verus! {

/// The remote path left after trimming the URL and removing one of the two
/// accepted GitHub prefixes, with trailing slashes and `.git` suffixes
/// stripped; `None` when neither prefix matches.
pub open spec fn github_repo_path(url: Seq<char>) -> Option<Seq<char>> {
    let u = trimmed(url);
    if starts_with_seq(u, "https://github.com/"@) {
        Option::Some(
            trim_end_seq(
                trim_end_char(u.subrange("https://github.com/"@.len() as int, u.len() as int), '/'),
                ".git"@,
            ),
        )
    } else if starts_with_seq(u, "git@github.com:"@) {
        Option::Some(
            trim_end_seq(
                trim_end_char(u.subrange("git@github.com:"@.len() as int, u.len() as int), '/'),
                ".git"@,
            ),
        )
    } else {
        Option::None
    }
}

/// What `parse_github_repo` accepts of a stripped remote path: splitting at
/// the first slash must leave a non-empty owner and a non-empty remainder.
pub open spec fn owner_repo_shaped(repo: Seq<char>) -> bool {
    exists|k: int| is_first_index_of(repo, '/', k) && 0 < k < repo.len() - 1
}

/// The `owner/repo` string a GitHub remote URL denotes, if it has one.
pub open spec fn github_repo_spec(url: Seq<char>) -> Option<Seq<char>> {
    match github_repo_path(url) {
        Option::Some(repo) => if owner_repo_shaped(repo) {
            Option::Some(repo)
        } else {
            Option::None
        },
        Option::None => Option::None,
    }
}

/// Parses a GitHub remote URL into `owner/repo` form. Both the HTTPS form
/// (`https://github.com/owner/repo.git`) and the SSH form
/// (`git@github.com:owner/repo.git`) are accepted; trailing slashes and
/// `.git` suffixes are dropped, and anything whose first slash does not
/// separate two non-empty parts is rejected.
pub fn parse_github_repo(url: &str) -> (r: Option<String>)
    ensures
        r matches Some(s) ==> github_repo_spec(url@) == Option::Some(s@),
        r is None ==> github_repo_spec(url@) is None,
{
    let u = trim_str(url);
    let un = u.unicode_len();
    let path: &str = if starts_with_str(u, "https://github.com/") {
        proof {
            reveal_strlit("https://github.com/");
        }
        u.substring_char(19, un)
    } else if starts_with_str(u, "git@github.com:") {
        proof {
            reveal_strlit("git@github.com:");
            reveal_strlit("https://github.com/");
        }
        u.substring_char(15, un)
    } else {
        return None;
    };
    proof {
        reveal_strlit(".git");
    }
    let repo = trim_end_matches_str(trim_end_matches_char(path, '/'), ".git");
    proof {
        assert(github_repo_path(url@) == Option::Some(repo@));
    }
    let rn = repo.unicode_len();
    match find_char(repo, '/') {
        Some(k) => {
            if k > 0 && k + 1 < rn {
                proof {
                    assert(is_first_index_of(repo@, '/', k as int));
                }
                Some(String::from_str(repo))
            } else {
                proof {
                    assert forall|j: int|
                        !(is_first_index_of(repo@, '/', j) && 0 < j < repo@.len() - 1) by {
                        if is_first_index_of(repo@, '/', j) {
                            assert(j == k);
                        }
                    }
                }
                None
            }
        },
        None => {
            proof {
                assert forall|j: int|
                    !(is_first_index_of(repo@, '/', j) && 0 < j < repo@.len() - 1) by {}
            }
            None
        },
    }
}

/// The trailing path segment of a URL: everything after the last slash, or
/// the whole string when it has none.
pub open spec fn last_segment(url: Seq<char>) -> Seq<char> {
    url.subrange(last_index_of(url, '/') + 1, url.len() as int)
}

/// Reads the issue number from a GitHub issue URL such as
/// `https://github.com/owner/repo/issues/123`: the segment after the last
/// slash, as a signed 64-bit decimal.
pub fn parse_issue_number(url: &str) -> (r: Option<i64>)
    ensures
        r == parse_i64_spec(last_segment(url@)),
{
    let n = url.unicode_len();
    let start: usize = match crate::text::rfind_char(url, '/') {
        Some(i) => {
            proof {
                lemma_last_index_unique(url@, '/', i as int);
            }
            i + 1
        },
        None => {
            proof {
                lemma_last_index_none(url@, '/');
            }
            0
        },
    };
    let tail = url.substring_char(start, n);
    proof {
        assert(tail@ == last_segment(url@));
    }
    parse_i64(tail)
}

/// The `owner/repo` part of a GitHub issue URL: the first two path segments
/// after the host prefix, or `None` when the prefix is missing or no slash
/// follows the owner.
pub open spec fn repo_from_url_spec(url: Seq<char>) -> Option<Seq<char>> {
    if !starts_with_seq(url, "https://github.com/"@) {
        Option::None
    } else {
        let path = url.subrange("https://github.com/"@.len() as int, url.len() as int);
        if exists|k: int| is_first_index_of(path, '/', k) {
            let k = choose|k: int| is_first_index_of(path, '/', k);
            let rest = path.subrange(k + 1, path.len() as int);
            let second = if exists|m: int| is_first_index_of(rest, '/', m) {
                rest.take(choose|m: int| is_first_index_of(rest, '/', m))
            } else {
                rest
            };
            Option::Some(path.take(k) + seq!['/'] + second)
        } else {
            Option::None
        }
    }
}

/// Reads `owner/repo` out of a GitHub issue URL such as
/// `https://github.com/owner/repo/issues/123`.
pub fn parse_repo_from_url(url: &str) -> (r: Option<String>)
    ensures
        r matches Some(s) ==> repo_from_url_spec(url@) == Option::Some(s@),
        r is None ==> repo_from_url_spec(url@) is None,
{
    let n = url.unicode_len();
    if !starts_with_str(url, "https://github.com/") {
        return None;
    }
    proof {
        reveal_strlit("https://github.com/");
    }
    let path = url.substring_char(19, n);
    let pn = path.unicode_len();
    let k = match find_char(path, '/') {
        Some(k) => k,
        None => {
            proof {
                assert(!(exists|k: int| is_first_index_of(path@, '/', k)));
            }
            return None;
        },
    };
    proof {
        assert(is_first_index_of(path@, '/', k as int));
        let kk = choose|j: int| is_first_index_of(path@, '/', j);
        assert(kk == k);
    }
    let owner = path.substring_char(0, k);
    let rest = path.substring_char(k + 1, pn);
    let second: &str = match find_char(rest, '/') {
        Some(m) => {
            proof {
                assert(is_first_index_of(rest@, '/', m as int));
                let mm = choose|j: int| is_first_index_of(rest@, '/', j);
                assert(mm == m);
            }
            rest.substring_char(0, m)
        },
        None => {
            proof {
                assert(!(exists|m: int| is_first_index_of(rest@, '/', m)));
            }
            rest
        },
    };
    let mut r = String::from_str(owner);
    crate::text::push_char(&mut r, '/');
    r.append(second);
    proof {
        assert(owner@ == path@.take(k as int));
        assert(owner@.push('/') =~= path@.take(k as int) + seq!['/']);
        assert(repo_from_url_spec(url@) == Option::Some(r@));
    }
    Some(r)
}

} // verus!
