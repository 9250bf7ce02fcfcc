//! Small verified string utilities shared by the URL normalizer and the
//! vendor-header decoders.

use vstd::prelude::*;

verus! {

/// `prefix` is an initial segment of `s`.
pub open spec fn spec_starts_with(s: Seq<char>, prefix: Seq<char>) -> bool {
    prefix.len() <= s.len() && (forall|i: int| 0 <= i < prefix.len() ==> s[i] == prefix[i])
}

/// Character-wise prefix test.
pub fn starts_with(s: &str, prefix: &str) -> (r: bool)
    ensures
        r == spec_starts_with(s@, prefix@),
{
    let n = prefix.unicode_len();
    if s.unicode_len() < n {
        return false;
    }
    let mut i: usize = 0;
    while i < n
        invariant
            0 <= i <= n,
            n == prefix@.len(),
            n <= s@.len(),
            forall|j: int| 0 <= j < i ==> s@[j] == prefix@[j],
        decreases n - i,
    {
        if s.get_char(i) != prefix.get_char(i) {
            return false;
        }
        i = i + 1;
    }
    true
}

/// Index of the first occurrence of `c` in `s`, or -1 when `c` does not occur.
pub open spec fn find_char(s: Seq<char>, c: char) -> int
    decreases s.len(),
{
    if s.len() == 0 {
        -1
    } else if s[0] == c {
        0
    } else {
        let r = find_char(s.drop_first(), c);
        if r == -1 {
            -1
        } else {
            r + 1
        }
    }
}

/// `find_char` returns -1 exactly when `c` is absent, and otherwise the
/// first position holding `c`.
pub proof fn lemma_find_char(s: Seq<char>, c: char)
    ensures
        find_char(s, c) == -1 ==> forall|i: int| 0 <= i < s.len() ==> s[i] != c,
        find_char(s, c) != -1 ==> 0 <= find_char(s, c) < s.len() && s[find_char(s, c)] == c
            && (forall|i: int| 0 <= i < find_char(s, c) ==> s[i] != c),
    decreases s.len(),
{
    if s.len() > 0 && s[0] != c {
        lemma_find_char(s.drop_first(), c);
        let r = find_char(s.drop_first(), c);
        if r == -1 {
            assert forall|i: int| 0 <= i < s.len() implies s[i] != c by {
                if i > 0 {
                    assert(s.drop_first()[i - 1] == s[i]);
                }
            }
        } else {
            assert(s.drop_first()[r] == s[r + 1]);
            assert forall|i: int| 0 <= i < r + 1 implies s[i] != c by {
                if i > 0 {
                    assert(s.drop_first()[i - 1] == s[i]);
                }
            }
        }
    }
}

/// The pieces of `s` between occurrences of `sep`, in order.  Splitting
/// always yields at least one piece; a separator at either end or two in a
/// row yield empty pieces, as `str::split` does.
pub open spec fn split_on(s: Seq<char>, sep: char) -> Seq<Seq<char>>
    decreases s.len(),
{
    let i = find_char(s, sep);
    if 0 <= i < s.len() {
        seq![s.subrange(0, i)] + split_on(s.subrange(i + 1, s.len() as int), sep)
    } else {
        seq![s]
    }
}

pub proof fn lemma_split_on_len(s: Seq<char>, sep: char)
    ensures
        split_on(s, sep).len() >= 1,
    decreases s.len(),
{
    let i = find_char(s, sep);
    if 0 <= i < s.len() {
        lemma_split_on_len(s.subrange(i + 1, s.len() as int), sep);
    }
}

/// Position of the first occurrence of `sep` in `s`, if any.
pub fn find_in(s: &str, sep: char) -> (r: Option<usize>)
    ensures
        match r {
            Some(i) => i == find_char(s@, sep) && 0 <= i < s@.len(),
            None => find_char(s@, sep) == -1,
        },
{
    let n = s.unicode_len();
    let mut i: usize = 0;
    while i < n
        invariant
            0 <= i <= n,
            n == s@.len(),
            forall|j: int| 0 <= j < i ==> s@[j] != sep,
        decreases n - i,
    {
        if s.get_char(i) == sep {
            proof {
                lemma_find_char(s@, sep);
            }
            return Some(i);
        }
        i = i + 1;
    }
    proof {
        lemma_find_char(s@, sep);
    }
    None
}

/// Splits `s` on `sep`, as `str::split` does.
pub fn split_str(s: &str, sep: char) -> (r: Vec<String>)
    ensures
        r.deep_view() == split_on(s@, sep),
{
    let mut result: Vec<String> = Vec::new();
    let mut rest: &str = s;
    loop
        invariant_except_break
            result.deep_view() + split_on(rest@, sep) =~= split_on(s@, sep),
        ensures
            result.deep_view() =~= split_on(s@, sep),
        decreases rest@.len(),
    {
        let ghost prev = result.deep_view();
        match find_in(rest, sep) {
            Some(i) => {
                let ghost old_rest = rest@;
                let piece = rest.substring_char(0, i);
                result.push(piece.to_owned());
                let m = rest.unicode_len();
                rest = rest.substring_char(i + 1, m);
                proof {
                    assert(result.deep_view() =~= prev.push(old_rest.subrange(0, i as int)));
                    assert(split_on(old_rest, sep) == seq![old_rest.subrange(0, i as int)]
                        + split_on(rest@, sep));
                    assert(result.deep_view() + split_on(rest@, sep) =~= prev + split_on(
                        old_rest,
                        sep,
                    ));
                }
            },
            None => {
                result.push(rest.to_owned());
                proof {
                    assert(split_on(rest@, sep) == seq![rest@]);
                    assert(result.deep_view() =~= prev.push(rest@));
                }
                break ;
            },
        }
    }
    proof {
        assert(result.deep_view() == split_on(s@, sep));
    }
    result
}

pub open spec fn is_digit_char(c: char) -> bool {
    '0' <= c && c <= '9'
}

pub open spec fn digit_val(c: char) -> int {
    c as int - '0' as int
}

pub open spec fn all_digits(s: Seq<char>) -> bool {
    forall|i: int| 0 <= i < s.len() ==> is_digit_char(s[i])
}

/// Numeric value of a digit string, most significant digit first.
pub open spec fn digits_val(s: Seq<char>) -> int
    decreases s.len(),
{
    if s.len() == 0 {
        0
    } else {
        digits_val(s.drop_last()) * 10 + digit_val(s.last())
    }
}

pub proof fn lemma_digits_val_nonneg(s: Seq<char>)
    requires
        all_digits(s),
    ensures
        digits_val(s) >= 0,
    decreases s.len(),
{
    if s.len() > 0 {
        assert(all_digits(s.drop_last()));
        lemma_digits_val_nonneg(s.drop_last());
    }
}

/// The value of a digit string is at least the value of any of its prefixes.
pub proof fn lemma_digits_val_prefix(s: Seq<char>, k: int)
    requires
        all_digits(s),
        0 <= k <= s.len(),
    ensures
        digits_val(s.take(k)) <= digits_val(s),
    decreases s.len() - k,
{
    if k < s.len() {
        lemma_digits_val_prefix(s, k + 1);
        assert(s.take(k + 1).drop_last() =~= s.take(k));
        assert(all_digits(s.take(k)));
        lemma_digits_val_nonneg(s.take(k));
        assert(digits_val(s.take(k + 1)) == digits_val(s.take(k)) * 10 + digit_val(
            s.take(k + 1).last(),
        ));
    } else {
        assert(s.take(k) =~= s);
    }
}

/// `s` without a single leading `+`, if it has one.
pub open spec fn trim_plus(s: Seq<char>) -> Seq<char> {
    if s.len() > 0 && s[0] == '+' {
        s.drop_first()
    } else {
        s
    }
}

/// The value `s` denotes as an unsigned 16-bit integer: an optional leading
/// `+`, then one or more decimal digits, denoting at most `u16::MAX`;
/// anything else denotes nothing.
pub open spec fn spec_parse_u16(s: Seq<char>) -> Option<u16> {
    let t = trim_plus(s);
    if t.len() > 0 && all_digits(t) && digits_val(t) <= u16::MAX {
        Some(digits_val(t) as u16)
    } else {
        None
    }
}

/// Parses a decimal unsigned 16-bit integer.
pub fn parse_u16(s: &str) -> (r: Option<u16>)
    ensures
        r == spec_parse_u16(s@),
{
    let n = s.unicode_len();
    if n == 0 {
        return None;
    }
    let start: usize = if s.get_char(0) == '+' {
        1
    } else {
        0
    };
    let ghost t = trim_plus(s@);
    assert(t.len() == n - start);
    assert(forall|j: int| 0 <= j < t.len() ==> t[j] == s@[j + start]);
    if n == start {
        return None;
    }
    let mut acc: u32 = 0;
    let mut i: usize = start;
    while i < n
        invariant
            start <= i <= n,
            n == s@.len(),
            start == 0 || start == 1,
            t == trim_plus(s@),
            t.len() == n - start,
            t.len() > 0,
            forall|j: int| 0 <= j < t.len() ==> t[j] == s@[j + start],
            all_digits(t.take(i - start)),
            acc == digits_val(t.take(i - start)),
            acc <= u16::MAX,
        decreases n - i,
    {
        let c = s.get_char(i);
        proof {
            assert(t[i - start] == c);
        }
        if !(c >= '0' && c <= '9') {
            assert(!is_digit_char(t[i - start]));
            assert(!all_digits(t));
            return None;
        }
        let d: u32 = (c as u32) - ('0' as u32);
        acc = acc * 10 + d;
        proof {
            assert(t.take(i - start + 1).drop_last() =~= t.take(i - start));
            assert(t.take(i - start + 1).last() == t[i - start]);
            assert(acc == digits_val(t.take(i - start + 1)));
        }
        i = i + 1;
        if acc > 65535 {
            proof {
                if all_digits(t) {
                    lemma_digits_val_prefix(t, i - start);
                    assert(digits_val(t) > u16::MAX);
                }
            }
            return None;
        }
    }
    proof {
        assert(t.take(i - start) =~= t);
    }
    Some(acc as u16)
}

/// `s` ends with the character `c`.
pub open spec fn spec_ends_with(s: Seq<char>, c: char) -> bool {
    s.len() > 0 && s.last() == c
}

pub fn ends_with_char(s: &str, c: char) -> (r: bool)
    ensures
        r == spec_ends_with(s@, c),
{
    let n = s.unicode_len();
    if n == 0 {
        false
    } else {
        s.get_char(n - 1) == c
    }
}

/// The two characters agree up to ASCII case: equal outright, or the same
/// letter with one of them upper case.
pub open spec fn char_eq_nocase(a: char, b: char) -> bool {
    a == b || ('A' <= a && a <= 'Z' && b as int == a as int + 32) || ('A' <= b && b <= 'Z'
        && a as int == b as int + 32)
}

/// The two strings agree character by character up to ASCII case.
pub open spec fn eq_nocase(a: Seq<char>, b: Seq<char>) -> bool {
    a.len() == b.len() && forall|i: int| 0 <= i < a.len() ==> char_eq_nocase(a[i], b[i])
}

fn char_matches_nocase(a: char, b: char) -> (r: bool)
    ensures
        r == char_eq_nocase(a, b),
{
    if a == b {
        true
    } else if a >= 'A' && a <= 'Z' {
        b as u32 == a as u32 + 32
    } else if b >= 'A' && b <= 'Z' {
        a as u32 == b as u32 + 32
    } else {
        false
    }
}

/// ASCII-case-insensitive string comparison, as HTTP header names are
/// compared.
pub fn str_eq_nocase(a: &str, b: &str) -> (r: bool)
    ensures
        r == eq_nocase(a@, b@),
{
    let n = a.unicode_len();
    if b.unicode_len() != n {
        return false;
    }
    let mut i: usize = 0;
    while i < n
        invariant
            0 <= i <= n,
            n == a@.len(),
            n == b@.len(),
            forall|j: int| 0 <= j < i ==> char_eq_nocase(a@[j], b@[j]),
        decreases n - i,
    {
        if !char_matches_nocase(a.get_char(i), b.get_char(i)) {
            return false;
        }
        i = i + 1;
    }
    true
}

/// Exact string equality.
pub fn str_eq(a: &str, b: &str) -> (r: bool)
    ensures
        r == (a@ == b@),
{
    let n = a.unicode_len();
    if b.unicode_len() != n {
        return false;
    }
    let mut i: usize = 0;
    while i < n
        invariant
            0 <= i <= n,
            n == a@.len(),
            n == b@.len(),
            forall|j: int| 0 <= j < i ==> a@[j] == b@[j],
        decreases n - i,
    {
        if a.get_char(i) != b.get_char(i) {
            return false;
        }
        i = i + 1;
    }
    proof {
        assert(a@ =~= b@);
    }
    true
}

} // verus!
