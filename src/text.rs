//! Text searching and number formatting on character sequences.
use vstd::prelude::*;

verus! {

/// `needle` occurs in `s` starting at position `k`.
pub open spec fn occurs_at(s: Seq<char>, needle: Seq<char>, k: int) -> bool {
    0 <= k && k + needle.len() <= s.len() && s.subrange(k, k + needle.len()) == needle
}

/// `needle` occurs somewhere in `s`.
pub open spec fn contains_text(s: Seq<char>, needle: Seq<char>) -> bool {
    exists|k: int| occurs_at(s, needle, k)
}

/// Whether `needle` occurs in `s` starting at position `k`.
pub fn matches_at(s: &str, needle: &str, k: usize) -> (r: bool)
    ensures
        r == occurs_at(s@, needle@, k as int),
{
    let n = s.unicode_len();
    let m = needle.unicode_len();
    if k > n || m > n - k {
        return false;
    }
    let mut j: usize = 0;
    while j < m
        invariant
            j <= m,
            k + m <= n,
            n == s@.len(),
            m == needle@.len(),
            forall|t: int| 0 <= t < j ==> s@[k + t] == needle@[t],
        decreases m - j,
    {
        if s.get_char(k + j) != needle.get_char(j) {
            proof {
                assert(s@.subrange(k as int, k + m)[j as int] != needle@[j as int]);
            }
            return false;
        }
        j += 1;
    }
    proof {
        assert(s@.subrange(k as int, k + m) =~= needle@);
    }
    true
}

/// Whether `s` starts with `prefix`.
pub fn starts_with(s: &str, prefix: &str) -> (r: bool)
    ensures
        r == prefix@.is_prefix_of(s@),
{
    let r = matches_at(s, prefix, 0);
    proof {
        if prefix@.is_prefix_of(s@) {
            assert(s@.subrange(0, prefix@.len() as int) =~= prefix@);
        }
    }
    r
}

/// Whether `needle` occurs anywhere in `s`.
pub fn contains(s: &str, needle: &str) -> (r: bool)
    ensures
        r == contains_text(s@, needle@),
{
    let n = s.unicode_len();
    let mut k: usize = 0;
    while k < n
        invariant
            k <= n,
            n == s@.len(),
            forall|t: int| 0 <= t < k ==> !occurs_at(s@, needle@, t),
        decreases n - k,
    {
        if matches_at(s, needle, k) {
            return true;
        }
        k += 1;
    }
    matches_at(s, needle, n)
}

/// Whether `s` is exactly `t`.
pub fn same_text(s: &str, t: &str) -> (r: bool)
    ensures
        r == (s@ == t@),
{
    if s.unicode_len() != t.unicode_len() {
        return false;
    }
    let r = starts_with(s, t);
    proof {
        if r {
            assert(s@ =~= t@);
        }
    }
    r
}

/// The digits, in order of value.
pub const DIGITS: &'static str = "0123456789abcdef";

/// The digit for the value `d`.
pub open spec fn digit_char(d: nat) -> char {
    DIGITS@[d as int]
}

/// `n` written in base `base`, most significant digit first, without
/// leading zeros (zero is written `0`).
pub open spec fn digits(n: nat, base: nat) -> Seq<char>
    decreases n,
    via digits_decreases
{
    if base < 2 || n < base {
        seq![digit_char(n)]
    } else {
        digits(n / base, base).push(digit_char(n % base))
    }
}

#[via_fn]
proof fn digits_decreases(n: nat, base: nat) {
    if !(base < 2 || n < base) {
        assert(n / base < n) by (nonlinear_arith)
            requires
                n >= base >= 2,
        ;
    }
}

/// `n` in decimal.
pub open spec fn decimal(n: nat) -> Seq<char> {
    digits(n, 10)
}

/// `s` right-aligned in a field of `width` characters: spaces are put in
/// front of a shorter `s`; a longer one is kept whole.
pub open spec fn padded(s: Seq<char>, width: nat) -> Seq<char> {
    if s.len() < width {
        Seq::new((width - s.len()) as nat, |k: int| ' ') + s
    } else {
        s
    }
}

/// Appends the digit for the value `d`.
fn push_digit(out: &mut String, d: usize)
    requires
        d < 16,
    ensures
        final(out)@ == old(out)@.push(digit_char(d as nat)),
{
    proof {
        reveal_strlit("0123456789abcdef");
    }
    let digit = DIGITS.substring_ascii(d, d + 1);
    assert(digit@ =~= seq![digit_char(d as nat)]);
    out.append(digit);
}

/// Appends `n` written in base `base`.
pub fn push_digits(out: &mut String, n: usize, base: usize)
    requires
        2 <= base <= 16,
    ensures
        final(out)@ == old(out)@ + digits(n as nat, base as nat),
    decreases n,
{
    if n >= base {
        assert(n / base < n) by (nonlinear_arith)
            requires
                n >= base >= 2,
        ;
        push_digits(out, n / base, base);
        assert(digits(n as nat, base as nat) == digits((n / base) as nat, base as nat).push(
            digit_char((n % base) as nat),
        ));
    } else {
        assert(n % base == n) by (nonlinear_arith)
            requires
                n < base,
        ;
    }
    push_digit(out, n % base);
    assert(out@ =~= old(out)@ + digits(n as nat, base as nat));
}

/// Appends `n` in decimal, right-aligned in a field of `width` characters.
pub fn push_padded_decimal(out: &mut String, n: usize, width: usize)
    ensures
        final(out)@ == old(out)@ + padded(decimal(n as nat), width as nat),
{
    let mut text = String::new();
    push_digits(&mut text, n, 10);
    assert(text@ =~= decimal(n as nat));
    let len = text.as_str().unicode_len();
    let mut k = len;
    proof {
        reveal_strlit(" ");
        assert(" "@ =~= seq![' ']);
    }
    while k < width
        invariant
            len == text@.len(),
            " "@ == seq![' '],
            len <= k <= width || (k == len && len >= width),
            out@ == old(out)@ + Seq::new((k - len) as nat, |i: int| ' '),
        decreases width - k,
    {
        out.append(" ");
        k += 1;
        assert(out@ =~= old(out)@ + Seq::new((k - len) as nat, |i: int| ' '));
    }
    out.append(text.as_str());
    assert(out@ =~= old(out)@ + padded(decimal(n as nat), width as nat));
}

} // verus!
