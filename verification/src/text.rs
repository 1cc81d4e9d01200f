//! Small helpers on strings, stated over sequences of characters.
use vstd::prelude::*;
use vstd::string::*;

verus! {

/// Whether two string slices hold the same characters.
pub fn str_eq(a: &str, b: &str) -> (r: bool)
    ensures
        r == (a@ == b@),
{
    a.to_owned() == b.to_owned()
}

/// The characters of `s`, in order.
pub fn chars_of(s: &str) -> (r: Vec<char>)
    ensures
        r@ == s@,
{
    let n: usize = s.unicode_len();
    let mut out: Vec<char> = Vec::new();
    let mut i: usize = 0;
    while i < n
        invariant
            n == s@.len(),
            i <= n,
            out@ == s@.subrange(0, i as int),
        decreases n - i,
    {
        out.push(s.get_char(i));
        i += 1;
        assert(out@ =~= s@.subrange(0, i as int));
    }
    assert(s@.subrange(0, n as int) =~= s@);
    out
}

/// `head` followed by `tail`, as a new string.
pub fn join2(head: &str, tail: &str) -> (r: String)
    ensures
        r@ == head@ + tail@,
{
    let mut out: String = head.to_owned();
    out.append(tail);
    out
}

/// `head`, `middle` and `tail` in a row, as a new string.
pub fn join3(head: &str, middle: &str, tail: &str) -> (r: String)
    ensures
        r@ == head@ + middle@ + tail@,
{
    let mut out: String = head.to_owned();
    out.append(middle);
    out.append(tail);
    out
}

/// Whether `pattern` stands in `s` at position `at`.
pub open spec fn occurs_at(s: Seq<char>, pattern: Seq<char>, at: int) -> bool {
    &&& 0 <= at
    &&& at + pattern.len() <= s.len()
    &&& s.subrange(at, at + pattern.len()) == pattern
}

/// Whether `pattern` stands somewhere in `s`.
pub open spec fn occurs_in(s: Seq<char>, pattern: Seq<char>) -> bool {
    exists|at: int| occurs_at(s, pattern, at)
}

/// Whether `s` ends with `pattern`.
pub open spec fn ends_with(s: Seq<char>, pattern: Seq<char>) -> bool {
    occurs_at(s, pattern, s.len() - pattern.len())
}

/// Whether `pattern` stands in `s` at position `at`.
pub fn matches_at(s: &Vec<char>, pattern: &Vec<char>, at: usize) -> (r: bool)
    requires
        at + pattern.len() <= s.len(),
    ensures
        r == occurs_at(s@, pattern@, at as int),
{
    let mut k: usize = 0;
    while k < pattern.len()
        invariant
            k <= pattern.len(),
            at + pattern.len() <= s.len(),
            forall|j: int| 0 <= j < k ==> s@[at + j] == pattern@[j],
        decreases pattern.len() - k,
    {
        if s[at + k] != pattern[k] {
            assert(s@.subrange(at as int, at + pattern.len())[k as int] == s@[at + k]);
            return false;
        }
        k += 1;
    }
    assert(s@.subrange(at as int, at + pattern.len()) =~= pattern@);
    true
}

/// Whether `s` ends with `pattern`.
pub fn str_ends_with(s: &str, pattern: &str) -> (r: bool)
    ensures
        r == ends_with(s@, pattern@),
{
    let sc = chars_of(s);
    let pc = chars_of(pattern);
    if pc.len() > sc.len() {
        return false;
    }
    matches_at(&sc, &pc, sc.len() - pc.len())
}

/// Whether `pattern` stands somewhere in `s`.
pub fn str_contains(s: &str, pattern: &str) -> (r: bool)
    ensures
        r == occurs_in(s@, pattern@),
{
    let sc = chars_of(s);
    let pc = chars_of(pattern);
    if pc.len() > sc.len() {
        assert(!occurs_in(s@, pattern@));
        return false;
    }
    if pc.len() == 0 {
        assert(s@.subrange(0, 0) =~= pattern@);
        assert(occurs_at(s@, pattern@, 0));
        return true;
    }
    let last: usize = sc.len() - pc.len();
    let mut at: usize = 0;
    while at <= last
        invariant
            sc@ == s@,
            pc@ == pattern@,
            0 < pc.len() <= sc.len(),
            last == sc.len() - pc.len(),
            at <= last + 1,
            forall|k: int| 0 <= k < at ==> !occurs_at(s@, pattern@, k),
        decreases last + 1 - at,
    {
        if matches_at(&sc, &pc, at) {
            return true;
        }
        at += 1;
    }
    assert(!occurs_in(s@, pattern@));
    false
}

/// A decimal digit of ASCII.
pub open spec fn is_digit(c: char) -> bool {
    '0' <= c && c <= '9'
}

/// The number that a decimal digit stands for.
pub open spec fn digit_value(c: char) -> nat {
    (c as u32 - '0' as u32) as nat
}

/// The number that the first `n` characters of `s` spell, read as decimal
/// digits.
pub open spec fn digits_value(s: Seq<char>, n: nat) -> nat
    decreases n,
{
    if n == 0 || n > s.len() {
        0
    } else {
        digits_value(s, (n - 1) as nat) * 10 + digit_value(s[n - 1])
    }
}

/// Whether every character of `s` is a decimal digit.
pub open spec fn all_digits(s: Seq<char>) -> bool {
    forall|i: int| 0 <= i < s.len() ==> is_digit(#[trigger] s[i])
}

/// The number that `s` spells: an optional `+`, then one decimal digit or
/// more, and nothing else.
pub open spec fn decimal_number(s: Seq<char>) -> Option<nat> {
    let body = if s.len() > 0 && s[0] == '+' {
        s.subrange(1, s.len() as int)
    } else {
        s
    };
    if body.len() > 0 && all_digits(body) {
        Some(digits_value(body, body.len()))
    } else {
        None
    }
}

/// The number that `s` spells, if it spells one that a `usize` can hold.
pub open spec fn parsed_usize(s: Seq<char>) -> Option<usize> {
    match decimal_number(s) {
        Some(v) => if v <= usize::MAX {
            Some(v as usize)
        } else {
            None
        },
        None => None,
    }
}

proof fn lemma_digits_value_grows(s: Seq<char>, n: nat, m: nat)
    requires
        n <= m <= s.len(),
    ensures
        digits_value(s, n) <= digits_value(s, m),
    decreases m,
{
    if n < m {
        lemma_digits_value_grows(s, n, (m - 1) as nat);
    }
}

/// Reads an unsigned number as `str::parse::<usize>` does: an optional
/// `+`, then decimal digits only, at least one; a number that does not fit
/// is refused.
pub fn parse_usize(s: &str) -> (r: Option<usize>)
    ensures
        r == parsed_usize(s@),
{
    let chars = chars_of(s);
    let start: usize = if chars.len() > 0 && chars[0] == '+' {
        1
    } else {
        0
    };
    let ghost body = if s@.len() > 0 && s@[0] == '+' {
        s@.subrange(1, s@.len() as int)
    } else {
        s@
    };
    if start == chars.len() {
        return None;
    }
    assert(s@.subrange(0, s@.len() as int) =~= s@);
    let mut value: usize = 0;
    let mut i: usize = start;
    while i < chars.len()
        invariant
            chars@ == s@,
            start <= i <= chars.len(),
            body == (if s@.len() > 0 && s@[0] == '+' {
                s@.subrange(1, s@.len() as int)
            } else {
                s@
            }),
            body.len() == chars.len() - start,
            forall|k: int| 0 <= k < body.len() ==> body[k] == s@[start + k],
            forall|k: int| 0 <= k < i - start ==> is_digit(#[trigger] body[k]),
            value == digits_value(body, (i - start) as nat),
        decreases chars.len() - i,
    {
        let c: char = chars[i];
        assert(body[i - start] == c);
        if !('0' <= c && c <= '9') {
            assert(!is_digit(body[i - start]));
            assert(!all_digits(body));
            return None;
        }
        let d: usize = (c as u32 - '0' as u32) as usize;
        let ghost next = digits_value(body, (i - start + 1) as nat);
        assert(next == value * 10 + d);
        proof {
            lemma_digits_value_grows(body, (i - start + 1) as nat, body.len());
        }
        match value.checked_mul(10) {
            None => {
                assert(value * 10 > usize::MAX);
                assert(next > usize::MAX);
                assert(digits_value(body, body.len()) >= next);
                assert(digits_value(body, body.len()) > usize::MAX);
                return None;
            },
            Some(tenfold) => match tenfold.checked_add(d) {
                None => {
                    assert(digits_value(body, body.len()) > usize::MAX);
                    return None;
                },
                Some(sum) => {
                    value = sum;
                },
            },
        }
        i += 1;
    }
    assert(all_digits(body));
    Some(value)
}

} // verus!
