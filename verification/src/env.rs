//! Parsing of `.env` file content into key/value pairs, with
//! secret-looking keys flagged for masking. Reading and writing the files
//! themselves is the host's work; the parsing here is pure.

use crate::models::EnvVar;
use crate::text::contains_seq;
use crate::text::contains_sub_ci;
use crate::text::find_char;
use crate::text::find_char_from;
use crate::text::first_index_of;
use crate::text::lemma_first_index_absent;
use crate::text::lemma_first_index_unique;
use crate::text::lowered;
use crate::text::trim_str;
use crate::text::trimmed;
use vstd::prelude::*;
use vstd::string::*;

verus! {

// ─── Splitting into lines ────────────────────────────────────────────────────

/// A line with one trailing carriage return removed, as text split on
/// newlines reads it.
pub open spec fn strip_cr(l: Seq<char>) -> Seq<char> {
    if l.len() > 0 && l.last() == '\r' {
        l.drop_last()
    } else {
        l
    }
}

/// The lines of a text: split on `\n`, each line's trailing `\r` removed,
/// with no empty line after a final newline.
pub open spec fn split_lines(s: Seq<char>) -> Seq<Seq<char>>
    decreases s.len(),
{
    if s.len() == 0 {
        Seq::empty()
    } else if first_index_of(s, '\n') >= s.len() {
        seq![strip_cr(s)]
    } else {
        seq![strip_cr(s.take(first_index_of(s, '\n') as int))] + split_lines(
            s.subrange(first_index_of(s, '\n') as int + 1, s.len() as int),
        )
    }
}

// ─── Reading one line ────────────────────────────────────────────────────────

/// A key that looks like it holds a secret and is masked by default: its
/// ASCII-case-folded form contains one of the well-known sensitive words.
pub open spec fn is_secret_spec(key: Seq<char>) -> bool {
    contains_seq(lowered(key), "secret"@) || contains_seq(lowered(key), "password"@)
        || contains_seq(lowered(key), "token"@) || contains_seq(lowered(key), "key"@)
        || contains_seq(lowered(key), "api"@) || contains_seq(lowered(key), "auth"@)
        || contains_seq(lowered(key), "private"@) || contains_seq(lowered(key), "credential"@)
}

/// Whether a key looks like it holds a secret and should be masked.
pub fn is_secret_key(key: &str) -> (r: bool)
    ensures
        r == is_secret_spec(key@),
{
    contains_sub_ci(key, "secret") || contains_sub_ci(key, "password") || contains_sub_ci(
        key,
        "token",
    ) || contains_sub_ci(key, "key") || contains_sub_ci(key, "api") || contains_sub_ci(key, "auth")
        || contains_sub_ci(key, "private") || contains_sub_ci(key, "credential")
}

/// The variable one line declares, if any: comments and blank lines carry
/// none; otherwise the key is what precedes the first `=`, trimmed, and the
/// value is what follows it, trimmed, with one pair of surrounding matching
/// quotes removed.
pub open spec fn env_line_var(l: Seq<char>) -> Option<(Seq<char>, Seq<char>, bool)> {
    if l.len() > 0 && l[0] == '#' {
        Option::None
    } else if trimmed(l).len() == 0 {
        Option::None
    } else if first_index_of(l, '=') >= l.len() {
        Option::None
    } else {
        let e = first_index_of(l, '=') as int;
        let key = trimmed(l.take(e));
        let raw = trimmed(l.subrange(e + 1, l.len() as int));
        let value = if raw.len() >= 2 && ((raw.first() == '"' && raw.last() == '"') || (raw.first()
            == '\'' && raw.last() == '\'')) {
            raw.subrange(1, raw.len() - 1)
        } else {
            raw
        };
        Option::Some((key, value, is_secret_spec(key)))
    }
}

/// The variables a sequence of lines declares, in order.
pub open spec fn env_vars_of(lines: Seq<Seq<char>>) -> Seq<(Seq<char>, Seq<char>, bool)>
    decreases lines.len(),
{
    if lines.len() == 0 {
        Seq::empty()
    } else {
        let rest = env_vars_of(lines.drop_last());
        match env_line_var(lines.last()) {
            Option::Some(v) => rest.push(v),
            Option::None => rest,
        }
    }
}

/// The variables an `.env` file's content declares, in order.
pub open spec fn parsed_env(content: Seq<char>) -> Seq<(Seq<char>, Seq<char>, bool)> {
    env_vars_of(split_lines(content))
}

fn parse_env_line(line: &str) -> (r: Option<EnvVar>)
    ensures
        r is Some <==> env_line_var(line@) is Some,
        r matches Some(v) ==> (env_line_var(line@) matches Some(m) && v.key@ == m.0 && v.value@
            == m.1 && v.masked == m.2),
{
    let n = line.unicode_len();
    if n > 0 && line.get_char(0) == '#' {
        return None;
    }
    let t = trim_str(line);
    if t.unicode_len() == 0 {
        return None;
    }
    let e = match find_char(line, '=') {
        Some(e) => {
            proof {
                lemma_first_index_unique(line@, '=', e as int);
            }
            e
        },
        None => {
            proof {
                lemma_first_index_absent(line@, '=');
            }
            return None;
        },
    };
    let key_part = trim_str(line.substring_char(0, e));
    proof {
        assert(line@.subrange(0, e as int) =~= line@.take(e as int));
    }
    let raw = trim_str(line.substring_char(e + 1, n));
    let rn = raw.unicode_len();
    let value: &str = if rn >= 2 && ((raw.get_char(0) == '"' && raw.get_char(rn - 1) == '"') || (
    raw.get_char(0) == '\'' && raw.get_char(rn - 1) == '\'')) {
        raw.substring_char(1, rn - 1)
    } else {
        raw
    };
    let masked = is_secret_key(key_part);
    Some(EnvVar { key: String::from_str(key_part), value: String::from_str(value), masked })
}

/// Parses `.env` file content into its declared variables, in order,
/// with secret-looking keys flagged for masking.
pub fn parse_env_content(content: &str) -> (vars: Vec<EnvVar>)
    ensures
        vars@.len() == parsed_env(content@).len(),
        forall|i: int|
            0 <= i < vars@.len() ==> (#[trigger] vars@[i]).key@ == parsed_env(content@)[i].0
                && vars@[i].value@ == parsed_env(content@)[i].1 && vars@[i].masked == parsed_env(
                content@,
            )[i].2,
{
    let n = content.unicode_len();
    let mut vars: Vec<EnvVar> = Vec::new();
    let ghost mut done: Seq<Seq<char>> = Seq::empty();
    let mut pos: usize = 0;
    proof {
        assert(done + split_lines(content@.subrange(0, n as int)) =~= split_lines(
            content@.subrange(0, n as int),
        ));
        assert(content@.subrange(0, n as int) =~= content@);
    }
    while pos < n
        invariant
            n == content@.len(),
            pos <= n,
            split_lines(content@) == done + split_lines(content@.subrange(pos as int, n as int)),
            vars@.len() == env_vars_of(done).len(),
            forall|i: int|
                0 <= i < vars@.len() ==> (#[trigger] vars@[i]).key@ == env_vars_of(done)[i].0
                    && vars@[i].value@ == env_vars_of(done)[i].1 && vars@[i].masked == env_vars_of(
                    done,
                )[i].2,
        decreases n - pos,
    {
        let ghost rest = content@.subrange(pos as int, n as int);
        let (line_end, next_pos): (usize, usize) = match find_char_from(content, '\n', pos) {
            Some(k) => {
                proof {
                    assert(rest[k - pos] == content@[k as int]);
                    assert(forall|j: int|
                        0 <= j < k - pos ==> rest[j] == content@[pos + j] && rest[j] != '\n');
                    lemma_first_index_unique(rest, '\n', k - pos);
                }
                (k, k + 1)
            },
            None => {
                proof {
                    assert(forall|j: int|
                        0 <= j < rest.len() ==> rest[j] == content@[pos + j] && rest[j] != '\n');
                    lemma_first_index_absent(rest, '\n');
                }
                (n, n)
            },
        };
        let raw_line = content.substring_char(pos, line_end);
        let rl = raw_line.unicode_len();
        let line: &str = if rl > 0 && raw_line.get_char(rl - 1) == '\r' {
            raw_line.substring_char(0, rl - 1)
        } else {
            raw_line
        };
        proof {
            if line_end < n {
                assert(raw_line@ =~= rest.take(first_index_of(rest, '\n') as int));
            } else {
                assert(raw_line@ =~= rest);
            }
            assert(line@ == strip_cr(raw_line@));
            if line_end < n {
                assert(rest.subrange(first_index_of(rest, '\n') as int + 1, rest.len() as int)
                    =~= content@.subrange(next_pos as int, n as int));
                assert(split_lines(rest) == seq![line@] + split_lines(
                    content@.subrange(next_pos as int, n as int),
                ));
            } else {
                assert(split_lines(rest) == seq![line@]);
                assert(content@.subrange(next_pos as int, n as int).len() == 0);
                assert(split_lines(content@.subrange(next_pos as int, n as int))
                    == Seq::<Seq<char>>::empty());
                assert(split_lines(rest) =~= seq![line@] + split_lines(
                    content@.subrange(next_pos as int, n as int),
                ));
            }
        }
        let ghost done_next = done.push(line@);
        proof {
            assert(done_next.drop_last() =~= done);
            assert(done_next.last() == line@);
            assert(done + split_lines(rest) =~= done_next + split_lines(
                content@.subrange(next_pos as int, n as int),
            ));
        }
        match parse_env_line(line) {
            Some(v) => {
                vars.push(v);
            },
            None => {},
        }
        proof {
            done = done_next;
        }
        pos = next_pos;
    }
    proof {
        assert(content@.subrange(pos as int, n as int).len() == 0);
        assert(split_lines(content@.subrange(pos as int, n as int)) == Seq::<Seq<char>>::empty());
        assert(split_lines(content@) =~= done);
    }
    vars
}

} // verus!
