//! Component-wise path containment: whether one canonical path lies within
//! another. The comparison is by path segments, not by string prefix, so a
//! sibling whose name merely extends the base directory's name (for example
//! `/home/user2` against `/home/user`) is correctly rejected. The host
//! canonicalizes both paths first; the decision here is pure.

use crate::text::first_index_of;
use crate::text::lemma_first_index_absent;
use crate::text::lemma_first_index_unique;
use crate::text::str_eq;
use vstd::prelude::*;
use vstd::string::*;

verus! {

/// The non-empty segments of a path, in order: the pieces between slashes,
/// with empty pieces (leading, trailing or doubled separators) dropped.
pub open spec fn path_segments(p: Seq<char>) -> Seq<Seq<char>>
    decreases p.len(),
{
    if p.len() == 0 {
        Seq::empty()
    } else if first_index_of(p, '/') >= p.len() {
        seq![p]
    } else {
        let k = first_index_of(p, '/') as int;
        let rest = path_segments(p.subrange(k + 1, p.len() as int));
        if k == 0 {
            rest
        } else {
            seq![p.take(k)] + rest
        }
    }
}

/// `path` lies within `base`: every segment of `base`, in order, begins the
/// segment list of `path`.
pub open spec fn path_within_spec(path: Seq<char>, base: Seq<char>) -> bool {
    path_segments(base).is_prefix_of(path_segments(path))
}

fn split_segments(s: &str) -> (segs: Vec<String>)
    ensures
        segs@.len() == path_segments(s@).len(),
        forall|i: int| 0 <= i < segs@.len() ==> (#[trigger] segs@[i])@ == path_segments(s@)[i],
{
    let n = s.unicode_len();
    let mut segs: Vec<String> = Vec::new();
    let ghost mut done: Seq<Seq<char>> = Seq::empty();
    let mut pos: usize = 0;
    proof {
        assert(done + path_segments(s@.subrange(0, n as int)) =~= path_segments(
            s@.subrange(0, n as int),
        ));
        assert(s@.subrange(0, n as int) =~= s@);
    }
    while pos < n
        invariant
            n == s@.len(),
            pos <= n,
            path_segments(s@) == done + path_segments(s@.subrange(pos as int, n as int)),
            segs@.len() == done.len(),
            forall|i: int| 0 <= i < segs@.len() ==> (#[trigger] segs@[i])@ == done[i],
        decreases n - pos,
    {
        let ghost rest = s@.subrange(pos as int, n as int);
        let (seg_end, next_pos): (usize, usize) = match crate::text::find_char_from(s, '/', pos) {
            Some(k) => {
                proof {
                    assert(rest[k - pos] == s@[k as int]);
                    assert(forall|j: int|
                        0 <= j < k - pos ==> rest[j] == s@[pos + j] && rest[j] != '/');
                    lemma_first_index_unique(rest, '/', k - pos);
                }
                (k, k + 1)
            },
            None => {
                proof {
                    assert(forall|j: int|
                        0 <= j < rest.len() ==> rest[j] == s@[pos + j] && rest[j] != '/');
                    lemma_first_index_absent(rest, '/');
                }
                (n, n)
            },
        };
        let ghost done_next = if seg_end == pos {
            done
        } else {
            done.push(rest.take(seg_end - pos))
        };
        proof {
            if seg_end < n {
                assert(rest.subrange(seg_end - pos + 1, rest.len() as int) =~= s@.subrange(
                    next_pos as int,
                    n as int,
                ));
                if seg_end == pos {
                    assert(path_segments(rest) == path_segments(
                        s@.subrange(next_pos as int, n as int),
                    ));
                } else {
                    assert(path_segments(rest) == seq![rest.take(seg_end - pos)] + path_segments(
                        s@.subrange(next_pos as int, n as int),
                    ));
                }
            } else {
                assert(rest.len() > 0);
                assert(rest.take(seg_end - pos) =~= rest);
                assert(path_segments(rest) == seq![rest]);
                assert(s@.subrange(next_pos as int, n as int).len() == 0);
                assert(path_segments(s@.subrange(next_pos as int, n as int)) == Seq::<
                    Seq<char>,
                >::empty());
                assert(path_segments(rest) =~= seq![rest.take(seg_end - pos)] + path_segments(
                    s@.subrange(next_pos as int, n as int),
                ));
            }
            if seg_end == pos {
                assert(done + path_segments(rest) =~= done_next + path_segments(
                    s@.subrange(next_pos as int, n as int),
                ));
            } else {
                assert(done + path_segments(rest) =~= done_next + path_segments(
                    s@.subrange(next_pos as int, n as int),
                ));
            }
        }
        if seg_end > pos {
            let seg = s.substring_char(pos, seg_end);
            proof {
                assert(seg@ =~= rest.take(seg_end - pos));
            }
            segs.push(String::from_str(seg));
        }
        proof {
            done = done_next;
        }
        pos = next_pos;
    }
    proof {
        assert(s@.subrange(pos as int, n as int).len() == 0);
        assert(path_segments(s@.subrange(pos as int, n as int)) == Seq::<Seq<char>>::empty());
        assert(path_segments(s@) =~= done);
    }
    segs
}

/// Decides whether `path` lies within `base`, segment by segment. Both are
/// expected in canonical form (absolute, separators collapsed, no relative
/// steps); the host canonicalizes before asking.
pub fn path_within(path: &str, base: &str) -> (r: bool)
    ensures
        r == path_within_spec(path@, base@),
{
    let ps = split_segments(path);
    let bs = split_segments(base);
    if bs.len() > ps.len() {
        return false;
    }
    let mut i: usize = 0;
    while i < bs.len()
        invariant
            i <= bs@.len(),
            bs@.len() <= ps@.len(),
            bs@.len() == path_segments(base@).len(),
            ps@.len() == path_segments(path@).len(),
            forall|j: int| 0 <= j < bs@.len() ==> (#[trigger] bs@[j])@ == path_segments(base@)[j],
            forall|j: int| 0 <= j < ps@.len() ==> (#[trigger] ps@[j])@ == path_segments(path@)[j],
            forall|j: int| 0 <= j < i ==> path_segments(base@)[j] == path_segments(path@)[j],
        decreases bs@.len() - i,
    {
        if !str_eq(bs[i].as_str(), ps[i].as_str()) {
            proof {
                assert(path_segments(base@)[i as int] != path_segments(path@)[i as int]);
                assert(!path_segments(base@).is_prefix_of(path_segments(path@)));
            }
            return false;
        }
        i = i + 1;
    }
    proof {
        assert(path_segments(base@) =~= path_segments(path@).subrange(
            0,
            path_segments(base@).len() as int,
        ));
    }
    true
}

} // verus!
