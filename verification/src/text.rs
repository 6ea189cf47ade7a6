//! Verified character-level string helpers: substring search (plain and
//! ASCII case-folded), equality, and scanning for the last occurrence of a
//! character. These are the primitives the path classification and parsing
//! modules build on.

use vstd::prelude::*;
use vstd::string::*;

verus! {

/// `needle` occurs in `hay` starting exactly at position `i`.
pub open spec fn contains_at(hay: Seq<char>, needle: Seq<char>, i: int) -> bool {
    0 <= i && i + needle.len() <= hay.len() && hay.subrange(i, i + needle.len()) == needle
}

/// `needle` occurs contiguously somewhere in `hay`.
pub open spec fn contains_seq(hay: Seq<char>, needle: Seq<char>) -> bool {
    exists|i: int| contains_at(hay, needle, i)
}

fn match_at(hay: &str, needle: &str, i: usize, hay_len: usize) -> (b: bool)
    requires
        hay_len == hay@.len(),
        i + needle@.len() <= hay_len,
    ensures
        b == contains_at(hay@, needle@, i as int),
{
    let n = needle.unicode_len();
    let mut j: usize = 0;
    while j < n
        invariant
            n == needle@.len(),
            i + n <= hay_len,
            hay_len == hay@.len(),
            j <= n,
            forall|k: int| 0 <= k < j ==> hay@[i + k] == needle@[k],
        decreases n - j,
    {
        if hay.get_char(i + j) != needle.get_char(j) {
            proof {
                assert(hay@.subrange(i as int, i + n)[j as int] == hay@[i + j]);
            }
            return false;
        }
        j = j + 1;
    }
    proof {
        assert(hay@.subrange(i as int, i + n) =~= needle@);
    }
    true
}

/// Whether `needle` occurs contiguously anywhere in `hay`.
pub fn contains_sub(hay: &str, needle: &str) -> (b: bool)
    ensures
        b == contains_seq(hay@, needle@),
{
    let h = hay.unicode_len();
    let n = needle.unicode_len();
    if n > h {
        proof {
            assert(forall|k: int| !contains_at(hay@, needle@, k));
        }
        return false;
    }
    if n == 0 {
        proof {
            assert(hay@.subrange(0, 0) =~= needle@);
            assert(contains_at(hay@, needle@, 0));
        }
        return true;
    }
    let mut i: usize = 0;
    while i <= h - n
        invariant
            1 <= n <= h,
            h == hay@.len(),
            n == needle@.len(),
            i <= h,
            forall|k: int| 0 <= k < i ==> !contains_at(hay@, needle@, k),
        decreases h - i,
    {
        if match_at(hay, needle, i, h) {
            proof {
                assert(contains_at(hay@, needle@, i as int));
            }
            return true;
        }
        i = i + 1;
    }
    proof {
        assert(!contains_seq(hay@, needle@)) by {
            assert forall|k: int| !contains_at(hay@, needle@, k) by {
                if 0 <= k && k + needle@.len() <= hay@.len() {
                    assert(k < i);
                }
            }
        }
    }
    false
}

/// Character-for-character equality of two string slices.
pub fn str_eq(a: &str, b: &str) -> (r: bool)
    ensures
        r == (a@ == b@),
{
    let n = a.unicode_len();
    if n != b.unicode_len() {
        return false;
    }
    let mut i: usize = 0;
    while i < n
        invariant
            n == a@.len(),
            n == b@.len(),
            i <= n,
            forall|k: int| 0 <= k < i ==> a@[k] == b@[k],
        decreases n - i,
    {
        if a.get_char(i) != b.get_char(i) {
            return false;
        }
        i = i + 1;
    }
    proof {
        assert(a@ =~= b@);
    }
    true
}

/// ASCII case folding of one character: the uppercase letters fold to their
/// lowercase forms, every other character is unchanged.
pub open spec fn lower_char(c: char) -> char {
    if 65 <= c as u32 && c as u32 <= 90 {
        (((c as u32) + 32) as u8) as char
    } else {
        c
    }
}

/// A character sequence with every character ASCII-case-folded.
pub open spec fn lowered(s: Seq<char>) -> Seq<char> {
    s.map_values(|c: char| lower_char(c))
}

/// ASCII case folding of one character.
pub fn to_lower_char(c: char) -> (r: char)
    ensures
        r == lower_char(c),
{
    let u = c as u32;
    if 65 <= u && u <= 90 {
        ((u + 32) as u8) as char
    } else {
        c
    }
}

fn match_at_ci(hay: &str, needle: &str, i: usize, hay_len: usize) -> (b: bool)
    requires
        hay_len == hay@.len(),
        i + needle@.len() <= hay_len,
    ensures
        b == contains_at(lowered(hay@), needle@, i as int),
{
    let n = needle.unicode_len();
    let mut j: usize = 0;
    while j < n
        invariant
            n == needle@.len(),
            i + n <= hay_len,
            hay_len == hay@.len(),
            j <= n,
            forall|k: int| 0 <= k < j ==> lowered(hay@)[i + k] == needle@[k],
        decreases n - j,
    {
        if to_lower_char(hay.get_char(i + j)) != needle.get_char(j) {
            proof {
                assert(lowered(hay@).subrange(i as int, i + n)[j as int] == lowered(hay@)[i + j]);
            }
            return false;
        }
        j = j + 1;
    }
    proof {
        assert(lowered(hay@).subrange(i as int, i + n) =~= needle@);
    }
    true
}

/// Whether `needle` — given already in lowercase — occurs anywhere in the
/// ASCII-case-folded form of `hay`.
pub fn contains_sub_ci(hay: &str, needle: &str) -> (b: bool)
    ensures
        b == contains_seq(lowered(hay@), needle@),
{
    let h = hay.unicode_len();
    let n = needle.unicode_len();
    if n > h {
        proof {
            assert(forall|k: int| !contains_at(lowered(hay@), needle@, k));
        }
        return false;
    }
    if n == 0 {
        proof {
            assert(lowered(hay@).subrange(0, 0) =~= needle@);
            assert(contains_at(lowered(hay@), needle@, 0));
        }
        return true;
    }
    let mut i: usize = 0;
    while i <= h - n
        invariant
            1 <= n <= h,
            h == hay@.len(),
            n == needle@.len(),
            i <= h,
            forall|k: int| 0 <= k < i ==> !contains_at(lowered(hay@), needle@, k),
        decreases h - i,
    {
        if match_at_ci(hay, needle, i, h) {
            proof {
                assert(contains_at(lowered(hay@), needle@, i as int));
            }
            return true;
        }
        i = i + 1;
    }
    proof {
        assert(!contains_seq(lowered(hay@), needle@)) by {
            assert forall|k: int| !contains_at(lowered(hay@), needle@, k) by {
                if 0 <= k && k + needle@.len() <= lowered(hay@).len() {
                    assert(k < i);
                }
            }
        }
    }
    false
}

/// Index of the last occurrence of `c` in `s`, if any.
pub fn rfind_char(s: &str, c: char) -> (r: Option<usize>)
    ensures
        r matches Some(i) ==> i < s@.len() && s@[i as int] == c && forall|j: int|
            i < j < s@.len() ==> s@[j] != c,
        r is None ==> forall|j: int| 0 <= j < s@.len() ==> s@[j] != c,
{
    let n = s.unicode_len();
    let mut i: usize = n;
    while i > 0
        invariant
            n == s@.len(),
            i <= n,
            forall|j: int| i <= j < n ==> s@[j] != c,
        decreases i,
    {
        i = i - 1;
        if s.get_char(i) == c {
            return Some(i);
        }
    }
    None
}


/// Relies on `String::push`: appends exactly the given character to the end
/// of the string.
#[verifier::external_body]
pub(crate) fn push_char(s: &mut String, c: char)
    ensures
        final(s)@ == old(s)@.push(c),
{
    s.push(c);
}

/// Index of the first occurrence of `c` in `s`, if any.
pub fn find_char(s: &str, c: char) -> (r: Option<usize>)
    ensures
        r matches Some(i) ==> i < s@.len() && s@[i as int] == c && forall|j: int|
            0 <= j < i ==> s@[j] != c,
        r is None ==> forall|j: int| 0 <= j < s@.len() ==> s@[j] != c,
{
    let n = s.unicode_len();
    let mut i: usize = 0;
    while i < n
        invariant
            n == s@.len(),
            i <= n,
            forall|j: int| 0 <= j < i ==> s@[j] != c,
        decreases n - i,
    {
        if s.get_char(i) == c {
            return Some(i);
        }
        i = i + 1;
    }
    None
}

/// `s` begins with `prefix`.
pub open spec fn starts_with_seq(s: Seq<char>, prefix: Seq<char>) -> bool {
    prefix.len() <= s.len() && s.subrange(0, prefix.len() as int) == prefix
}

/// `s` ends with `suffix`.
pub open spec fn ends_with_seq(s: Seq<char>, suffix: Seq<char>) -> bool {
    suffix.len() <= s.len() && s.subrange(s.len() - suffix.len(), s.len() as int) == suffix
}

/// Tests whether `s` begins with `prefix`.
pub fn starts_with_str(s: &str, prefix: &str) -> (b: bool)
    ensures
        b == starts_with_seq(s@, prefix@),
{
    let h = s.unicode_len();
    let n = prefix.unicode_len();
    if n > h {
        return false;
    }
    match_at(s, prefix, 0, h)
}

/// Tests whether `s` ends with `suffix`.
pub fn ends_with_str(s: &str, suffix: &str) -> (b: bool)
    ensures
        b == ends_with_seq(s@, suffix@),
{
    let h = s.unicode_len();
    let n = suffix.unicode_len();
    if n > h {
        return false;
    }
    match_at(s, suffix, h - n, h)
}

// ─── Decimal parsing ─────────────────────────────────────────────────────────

/// A decimal digit character.
pub open spec fn is_digit(c: char) -> bool {
    48 <= c as u32 <= 57
}

/// The numeric value of a digit character.
pub open spec fn digit_val(c: char) -> int {
    c as u32 - 48
}

/// Every character of `s` is a decimal digit.
pub open spec fn all_digits(s: Seq<char>) -> bool {
    forall|i: int| 0 <= i < s.len() ==> is_digit(#[trigger] s[i])
}

/// The value of a digit string read most-significant first.
pub open spec fn digits_val(s: Seq<char>) -> int
    decreases s.len(),
{
    if s.len() == 0 {
        0
    } else {
        digits_val(s.drop_last()) * 10 + digit_val(s.last())
    }
}

proof fn lemma_digits_val_bounds(s: Seq<char>)
    requires
        all_digits(s),
    ensures
        digits_val(s) >= 0,
        s.len() > 0 ==> digits_val(s) >= digits_val(s.drop_last()),
    decreases s.len(),
{
    if s.len() > 0 {
        assert(all_digits(s.drop_last())) by {
            assert(forall|i: int| 0 <= i < s.len() - 1 ==> s.drop_last()[i] == s[i]);
        }
        lemma_digits_val_bounds(s.drop_last());
        assert(s[s.len() - 1] == s.last());
        assert(is_digit(s.last()));
    }
}

proof fn lemma_digits_val_monotone(s: Seq<char>, i: int)
    requires
        all_digits(s),
        0 <= i <= s.len(),
    ensures
        digits_val(s) >= digits_val(s.take(i)),
    decreases s.len() - i,
{
    lemma_digits_val_bounds(s);
    if i < s.len() {
        lemma_digits_val_monotone(s, i + 1);
        assert(all_digits(s.take(i + 1))) by {
            assert(forall|j: int| 0 <= j < i + 1 ==> s.take(i + 1)[j] == s[j]);
        }
        lemma_digits_val_bounds(s.take(i + 1));
        assert(s.take(i + 1).drop_last() =~= s.take(i));
        assert(digits_val(s.take(i + 1)) == digits_val(s.take(i)) * 10 + digit_val(s[i]));
    } else {
        assert(s.take(i) =~= s);
    }
}

/// How a signed 64-bit integer is read from a decimal string: one optional
/// sign, then at least one digit and nothing else, rejecting values outside
/// the representable range.
pub open spec fn parse_i64_spec(s: Seq<char>) -> Option<i64> {
    let neg = s.len() >= 1 && s[0] == '-';
    let body = if s.len() >= 1 && (s[0] == '-' || s[0] == '+') {
        s.subrange(1, s.len() as int)
    } else {
        s
    };
    if body.len() == 0 || !all_digits(body) {
        Option::None
    } else if neg {
        if digits_val(body) <= 0x8000_0000_0000_0000 {
            Option::Some((0 - digits_val(body)) as i64)
        } else {
            Option::None
        }
    } else {
        if digits_val(body) <= 0x7fff_ffff_ffff_ffff {
            Option::Some(digits_val(body) as i64)
        } else {
            Option::None
        }
    }
}

/// Reads a signed 64-bit integer from a decimal string: an optional sign,
/// then digits only, rejecting anything else or a value out of range.
pub fn parse_i64(s: &str) -> (r: Option<i64>)
    ensures
        r == parse_i64_spec(s@),
{
    let n = s.unicode_len();
    if n == 0 {
        return None;
    }
    let c0 = s.get_char(0);
    let (neg, start): (bool, usize) = if c0 == '-' {
        (true, 1)
    } else if c0 == '+' {
        (false, 1)
    } else {
        (false, 0)
    };
    let body = s.substring_char(start, n);
    let ghost bodyv = body@;
    proof {
        if start == 1 {
            assert(bodyv =~= s@.subrange(1, s@.len() as int));
        } else {
            assert(bodyv =~= s@);
        }
    }
    let m = body.unicode_len();
    if m == 0 {
        return None;
    }
    let limit: u64 = if neg {
        0x8000_0000_0000_0000
    } else {
        0x7fff_ffff_ffff_ffff
    };
    let mut acc: u64 = 0;
    let mut i: usize = 0;
    while i < m
        invariant
            m == bodyv.len(),
            bodyv == body@,
            s@.len() > 0,
            bodyv == (if s@[0] == '-' || s@[0] == '+' {
                s@.subrange(1, s@.len() as int)
            } else {
                s@
            }),
            neg == (s@[0] == '-'),
            i <= m,
            all_digits(bodyv.take(i as int)),
            acc == digits_val(bodyv.take(i as int)),
        decreases m - i,
    {
        let c = body.get_char(i);
        let u = c as u32;
        if u < 48 || u > 57 {
            proof {
                assert(!all_digits(bodyv));
            }
            return None;
        }
        let d = (u - 48) as u64;
        proof {
            assert(bodyv.take(i + 1).drop_last() =~= bodyv.take(i as int));
            assert(bodyv.take(i + 1).last() == bodyv[i as int]);
            assert(all_digits(bodyv.take(i + 1))) by {
                assert(forall|j: int|
                    0 <= j < i ==> bodyv.take(i + 1)[j] == bodyv.take(i as int)[j]);
            }
            assert(digits_val(bodyv.take(i + 1)) == acc * 10 + d);
        }
        if acc > 0x0ccc_cccc_cccc_cccc {
            // from here the value can only grow, and it already exceeds
            // both representable limits
            proof {
                if all_digits(bodyv) {
                    lemma_digits_val_monotone(bodyv, i + 1);
                    assert(digits_val(bodyv) >= acc * 10 + d);
                }
            }
            return None;
        }
        acc = acc * 10 + d;
        i = i + 1;
    }
    proof {
        assert(bodyv.take(m as int) =~= bodyv);
    }
    if acc > limit {
        return None;
    }
    if neg {
        if acc == 0x8000_0000_0000_0000 {
            Some(i64::MIN)
        } else {
            Some(-(acc as i64))
        }
    } else {
        Some(acc as i64)
    }
}


// ─── Last occurrence ─────────────────────────────────────────────────────────

/// Index of the last occurrence of `c` in `s`, or `-1` if `c` does not occur.
pub open spec fn last_index_of(s: Seq<char>, c: char) -> int
    decreases s.len(),
{
    if s.len() == 0 {
        -1
    } else if s.last() == c {
        s.len() - 1
    } else {
        last_index_of(s.drop_last(), c)
    }
}

pub(crate) proof fn lemma_last_index_of(s: Seq<char>, c: char)
    ensures
        -1 <= last_index_of(s, c) < s.len(),
        last_index_of(s, c) >= 0 ==> s[last_index_of(s, c)] == c,
        forall|j: int| last_index_of(s, c) < j < s.len() ==> s[j] != c,
    decreases s.len(),
{
    if s.len() > 0 && s.last() != c {
        lemma_last_index_of(s.drop_last(), c);
        assert(forall|j: int| 0 <= j < s.len() - 1 ==> s[j] == s.drop_last()[j]);
    }
}

pub(crate) proof fn lemma_last_index_unique(s: Seq<char>, c: char, i: int)
    requires
        0 <= i < s.len(),
        s[i] == c,
        forall|j: int| i < j < s.len() ==> s[j] != c,
    ensures
        last_index_of(s, c) == i,
{
    lemma_last_index_of(s, c);
}

pub(crate) proof fn lemma_last_index_none(s: Seq<char>, c: char)
    requires
        forall|j: int| 0 <= j < s.len() ==> s[j] != c,
    ensures
        last_index_of(s, c) == -1,
{
    lemma_last_index_of(s, c);
}

/// Index of the first occurrence of `c` in `s` at or after `from`, if any.
pub fn find_char_from(s: &str, c: char, from: usize) -> (r: Option<usize>)
    requires
        from <= s@.len(),
    ensures
        r matches Some(i) ==> from <= i < s@.len() && s@[i as int] == c && forall|j: int|
            from <= j < i ==> s@[j] != c,
        r is None ==> forall|j: int| from <= j < s@.len() ==> s@[j] != c,
{
    let n = s.unicode_len();
    let mut i: usize = from;
    while i < n
        invariant
            n == s@.len(),
            from <= i <= n,
            forall|j: int| from <= j < i ==> s@[j] != c,
        decreases n - i,
    {
        if s.get_char(i) == c {
            return Some(i);
        }
        i = i + 1;
    }
    None
}

// ─── Whitespace trimming ─────────────────────────────────────────────────────

/// An ASCII whitespace character. (Trimming here folds only ASCII
/// whitespace, not the full Unicode whitespace set.)
pub open spec fn is_space(c: char) -> bool {
    c == ' ' || c == '\t' || c == '\n' || c == '\r' || c == '\u{0B}' || c == '\u{0C}'
}

/// `s` without its leading whitespace.
pub open spec fn trim_left(s: Seq<char>) -> Seq<char>
    decreases s.len(),
{
    if s.len() > 0 && is_space(s.first()) {
        trim_left(s.drop_first())
    } else {
        s
    }
}

/// `s` without its trailing whitespace.
pub open spec fn trim_right(s: Seq<char>) -> Seq<char>
    decreases s.len(),
{
    if s.len() > 0 && is_space(s.last()) {
        trim_right(s.drop_last())
    } else {
        s
    }
}

/// `s` without leading and trailing whitespace.
pub open spec fn trimmed(s: Seq<char>) -> Seq<char> {
    trim_right(trim_left(s))
}

proof fn lemma_trim_left_at(s: Seq<char>, a: int)
    requires
        0 <= a <= s.len(),
        forall|j: int| 0 <= j < a ==> is_space(s[j]),
        a == s.len() || !is_space(s[a]),
    ensures
        trim_left(s) == s.subrange(a, s.len() as int),
    decreases a,
{
    if a == 0 {
        assert(s.subrange(0, s.len() as int) =~= s);
    } else {
        assert(is_space(s.first()));
        lemma_trim_left_at(s.drop_first(), a - 1);
        assert(s.drop_first().subrange(a - 1, s.drop_first().len() as int) =~= s.subrange(
            a,
            s.len() as int,
        ));
    }
}

proof fn lemma_trim_right_at(s: Seq<char>, b: int)
    requires
        0 <= b <= s.len(),
        forall|j: int| b <= j < s.len() ==> is_space(s[j]),
        b == 0 || !is_space(s[b - 1]),
    ensures
        trim_right(s) == s.take(b),
    decreases s.len(),
{
    if b == s.len() {
        if s.len() > 0 {
            assert(!is_space(s.last()));
        }
        assert(s.take(b) =~= s);
    } else {
        assert(is_space(s.last()));
        lemma_trim_right_at(s.drop_last(), b);
        assert(s.drop_last().take(b) =~= s.take(b));
    }
}

fn is_space_char(c: char) -> (r: bool)
    ensures
        r == is_space(c),
{
    c == ' ' || c == '\t' || c == '\n' || c == '\r' || c == '\u{0B}' || c == '\u{0C}'
}

/// `s` without leading and trailing ASCII whitespace.
pub fn trim_str(s: &str) -> (r: &str)
    ensures
        r@ == trimmed(s@),
{
    let n = s.unicode_len();
    let mut a: usize = 0;
    while a < n && is_space_char(s.get_char(a))
        invariant
            n == s@.len(),
            a <= n,
            forall|j: int| 0 <= j < a ==> is_space(s@[j]),
        decreases n - a,
    {
        a = a + 1;
    }
    proof {
        lemma_trim_left_at(s@, a as int);
    }
    let mut b: usize = n;
    while b > a && is_space_char(s.get_char(b - 1))
        invariant
            n == s@.len(),
            a <= b <= n,
            forall|j: int| b <= j < n ==> is_space(s@[j]),
        decreases b,
    {
        b = b - 1;
    }
    let r = s.substring_char(a, b);
    proof {
        let t = s@.subrange(a as int, n as int);
        assert(forall|j: int| b - a <= j < t.len() ==> is_space(#[trigger] t[j]));
        if b > a {
            assert(!is_space(t[b - a - 1]));
        } else {
            assert(a == b);
            if a < n {
                assert(!is_space(s@[a as int]));
                assert(!is_space(t[0]));
            }
        }
        lemma_trim_right_at(t, b - a);
        assert(t.take(b - a) =~= s@.subrange(a as int, b as int));
    }
    r
}

// ─── Stripping repeated suffixes ─────────────────────────────────────────────

/// `s` without any trailing occurrences of the character `c`.
pub open spec fn trim_end_char(s: Seq<char>, c: char) -> Seq<char>
    decreases s.len(),
{
    if s.len() > 0 && s.last() == c {
        trim_end_char(s.drop_last(), c)
    } else {
        s
    }
}

/// `s` without any trailing occurrences of the (non-empty) pattern `pat`.
pub open spec fn trim_end_seq(s: Seq<char>, pat: Seq<char>) -> Seq<char>
    decreases s.len(),
{
    if pat.len() > 0 && ends_with_seq(s, pat) {
        trim_end_seq(s.take(s.len() - pat.len()), pat)
    } else {
        s
    }
}

/// `s` without any trailing occurrences of the character `c`.
pub fn trim_end_matches_char(s: &str, c: char) -> (r: &str)
    ensures
        r@ == trim_end_char(s@, c),
{
    let n = s.unicode_len();
    let mut e: usize = n;
    proof {
        assert(s@.take(n as int) =~= s@);
    }
    while e > 0 && s.get_char(e - 1) == c
        invariant
            n == s@.len(),
            e <= n,
            trim_end_char(s@, c) == trim_end_char(s@.take(e as int), c),
        decreases e,
    {
        proof {
            assert(s@.take(e as int).last() == s@[e - 1]);
            assert(s@.take(e as int).drop_last() =~= s@.take(e - 1));
        }
        e = e - 1;
    }
    proof {
        if e > 0 {
            assert(s@.take(e as int).last() == s@[e - 1]);
        }
        assert(trim_end_char(s@.take(e as int), c) == s@.take(e as int));
    }
    s.substring_char(0, e)
}

/// `s` without any trailing occurrences of the non-empty pattern `pat`.
pub fn trim_end_matches_str<'a>(s: &'a str, pat: &str) -> (r: &'a str)
    requires
        pat@.len() > 0,
    ensures
        r@ == trim_end_seq(s@, pat@),
{
    let n = s.unicode_len();
    let p = pat.unicode_len();
    let mut e: usize = n;
    proof {
        assert(s@.take(n as int) =~= s@);
    }
    loop
        invariant
            n == s@.len(),
            p == pat@.len(),
            0 < p,
            e <= n,
            trim_end_seq(s@, pat@) == trim_end_seq(s@.take(e as int), pat@),
        ensures
            trim_end_seq(s@, pat@) == s@.take(e as int),
            e <= n,
        decreases e,
    {
        if e < p || !match_at(s, pat, e - p, n) {
            proof {
                let t = s@.take(e as int);
                if e >= p {
                    assert(t.subrange(t.len() - pat@.len(), t.len() as int) =~= s@.subrange(
                        e - p,
                        e as int,
                    ));
                }
                assert(!ends_with_seq(t, pat@));
            }
            break ;
        }
        proof {
            let t = s@.take(e as int);
            assert(t.subrange(t.len() - pat@.len(), t.len() as int) =~= s@.subrange(
                e - p,
                e as int,
            ));
            assert(ends_with_seq(t, pat@));
            assert(t.take(t.len() - pat@.len()) =~= s@.take(e - p));
        }
        e = e - p;
    }
    s.substring_char(0, e)
}

/// View of an optional string as an optional sequence of characters.
pub open spec fn opt_str_view(o: Option<String>) -> Option<Seq<char>> {
    match o {
        Option::Some(s) => Option::Some(s@),
        Option::None => Option::None,
    }
}


// ─── First occurrence ────────────────────────────────────────────────────────

/// `c` first occurs in `s` at position `k`.
pub open spec fn is_first_index_of(s: Seq<char>, c: char, k: int) -> bool {
    0 <= k < s.len() && s[k] == c && forall|j: int| 0 <= j < k ==> s[j] != c
}

/// Index of the first occurrence of `c` in `s`, or the length of `s` if `c`
/// does not occur.
pub open spec fn first_index_of(s: Seq<char>, c: char) -> nat
    decreases s.len(),
{
    if s.len() == 0 {
        0
    } else if s.first() == c {
        0
    } else {
        1 + first_index_of(s.drop_first(), c)
    }
}

pub(crate) proof fn lemma_first_index_of(s: Seq<char>, c: char)
    ensures
        first_index_of(s, c) <= s.len(),
        first_index_of(s, c) < s.len() ==> s[first_index_of(s, c) as int] == c,
        forall|j: int| 0 <= j < first_index_of(s, c) ==> s[j] != c,
    decreases s.len(),
{
    if s.len() > 0 && s.first() != c {
        lemma_first_index_of(s.drop_first(), c);
        assert(forall|j: int| 1 <= j < s.len() ==> s[j] == s.drop_first()[j - 1]);
    }
}

pub(crate) proof fn lemma_first_index_unique(s: Seq<char>, c: char, i: int)
    requires
        is_first_index_of(s, c, i),
    ensures
        first_index_of(s, c) == i,
{
    lemma_first_index_of(s, c);
}

pub(crate) proof fn lemma_first_index_absent(s: Seq<char>, c: char)
    requires
        forall|j: int| 0 <= j < s.len() ==> s[j] != c,
    ensures
        first_index_of(s, c) == s.len(),
{
    lemma_first_index_of(s, c);
}

} // verus!
