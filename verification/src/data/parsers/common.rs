//! Text utilities the record extractors and the snapshot codec share: the
//! character classes of the dump row patterns, run scanners for them, and
//! decimal id parsing.

use vstd::prelude::*;

verus! {

/// A decimal digit.
pub open spec fn is_digit(c: char) -> bool {
    48 <= c as u32 && c as u32 <= 57
}

/// A digit or a dot (the dump's floating-point fields).
pub open spec fn is_digit_dot(c: char) -> bool {
    is_digit(c) || c as u32 == 46
}

/// Anything but a single quote (the dump's string fields).
pub open spec fn is_nonquote(c: char) -> bool {
    c as u32 != 39
}

/// Anything but a closing parenthesis (the dump's trailing fields).
pub open spec fn is_nonparen(c: char) -> bool {
    c as u32 != 41
}

/// The position where the digit run starting at `i` ends.
pub open spec fn digits_end(s: Seq<char>, i: int) -> int
    decreases s.len() - i when 0 <= i <= s.len()

{
    if i >= s.len() || !is_digit(s[i]) {
        i
    } else {
        digits_end(s, i + 1)
    }
}

/// The position where the digit-or-dot run starting at `i` ends.
pub open spec fn digit_dots_end(s: Seq<char>, i: int) -> int
    decreases s.len() - i when 0 <= i <= s.len()

{
    if i >= s.len() || !is_digit_dot(s[i]) {
        i
    } else {
        digit_dots_end(s, i + 1)
    }
}

/// The position where the quoteless run starting at `i` ends.
pub open spec fn nonquote_end(s: Seq<char>, i: int) -> int
    decreases s.len() - i when 0 <= i <= s.len()

{
    if i >= s.len() || !is_nonquote(s[i]) {
        i
    } else {
        nonquote_end(s, i + 1)
    }
}

/// The position where the parenthesisless run starting at `i` ends.
pub open spec fn nonparen_end(s: Seq<char>, i: int) -> int
    decreases s.len() - i when 0 <= i <= s.len()

{
    if i >= s.len() || !is_nonparen(s[i]) {
        i
    } else {
        nonparen_end(s, i + 1)
    }
}

/// The decimal value of the digits `s[i..j)`.
pub open spec fn digits_val(s: Seq<char>, i: int, j: int) -> int
    decreases j - i when i <= j

{
    if i >= j {
        0
    } else {
        digits_val(s, i, j - 1) * 10 + (s[j - 1] as u32 - 48)
    }
}

/// Ten to the `k`.
pub open spec fn pow10(k: nat) -> int
    decreases k,
{
    if k == 0 {
        1
    } else {
        10 * pow10((k - 1) as nat)
    }
}

/// The id an all-digit field stands for: its decimal value, provided the
/// field is short enough to read without overflowing and the value fits a
/// 32-bit id. A field that does not is treated as malformed.
pub open spec fn id_of_digits(s: Seq<char>, i: int, j: int) -> Option<i32> {
    if j - i <= 10 && digits_val(s, i, j) <= i32::MAX {
        Some(digits_val(s, i, j) as i32)
    } else {
        None
    }
}

/// Everything before a digit run's end is a digit.
pub proof fn lemma_digits_end_range(s: Seq<char>, i: int)
    requires
        0 <= i <= s.len(),
    ensures
        forall|m: int| i <= m < digits_end(s, i) ==> is_digit(#[trigger] s[m]),
    decreases s.len() - i,
{
    if i < s.len() && is_digit(s[i]) {
        lemma_digits_end_range(s, i + 1);
    }
}

/// A digit run's value is below ten to its length.
pub proof fn lemma_digits_val_bound(s: Seq<char>, i: int, j: int)
    requires
        i <= j,
        forall|m: int| i <= m < j ==> is_digit(#[trigger] s[m]),
    ensures
        0 <= digits_val(s, i, j) < pow10((j - i) as nat),
    decreases j - i,
{
    if i < j {
        lemma_digits_val_bound(s, i, j - 1);
    }
}

/// Scans the digit run starting at `i`, executably.
pub fn scan_digits(s: &Vec<char>, i: usize) -> (j: usize)
    requires
        i <= s@.len(),
    ensures
        j as int == digits_end(s@, i as int),
        i <= j <= s@.len(),
    decreases s@.len() - i,
{
    if i < s.len() {
        let u = s[i] as u32;
        if 48 <= u && u <= 57 {
            return scan_digits(s, i + 1);
        }
    }
    i
}

/// Scans the digit-or-dot run starting at `i`, executably.
pub fn scan_digit_dots(s: &Vec<char>, i: usize) -> (j: usize)
    requires
        i <= s@.len(),
    ensures
        j as int == digit_dots_end(s@, i as int),
        i <= j <= s@.len(),
    decreases s@.len() - i,
{
    if i < s.len() {
        let u = s[i] as u32;
        if (48 <= u && u <= 57) || u == 46 {
            return scan_digit_dots(s, i + 1);
        }
    }
    i
}

/// Scans the quoteless run starting at `i`, executably.
pub fn scan_nonquote(s: &Vec<char>, i: usize) -> (j: usize)
    requires
        i <= s@.len(),
    ensures
        j as int == nonquote_end(s@, i as int),
        i <= j <= s@.len(),
    decreases s@.len() - i,
{
    if i < s.len() {
        if s[i] as u32 != 39 {
            return scan_nonquote(s, i + 1);
        }
    }
    i
}

/// Scans the parenthesisless run starting at `i`, executably.
pub fn scan_nonparen(s: &Vec<char>, i: usize) -> (j: usize)
    requires
        i <= s@.len(),
    ensures
        j as int == nonparen_end(s@, i as int),
        i <= j <= s@.len(),
    decreases s@.len() - i,
{
    if i < s.len() {
        if s[i] as u32 != 41 {
            return scan_nonparen(s, i + 1);
        }
    }
    i
}

/// Reads the id an all-digit field stands for, executably.
pub fn digits_to_id(s: &Vec<char>, i: usize, j: usize) -> (result: Option<i32>)
    requires
        i <= j <= s@.len(),
        forall|m: int| i <= m < j ==> is_digit(#[trigger] s@[m]),
    ensures
        result == id_of_digits(s@, i as int, j as int),
{
    if j - i > 10 {
        return None;
    }
    let mut val: u64 = 0;
    let mut k = i;
    while k < j
        invariant
            i <= k <= j <= s@.len(),
            j - i <= 10,
            forall|m: int| i <= m < j ==> is_digit(#[trigger] s@[m]),
            val as int == digits_val(s@, i as int, k as int),
            val < pow10((k - i) as nat),
        decreases j - k,
    {
        proof {
            lemma_digits_val_bound(s@, i as int, k as int);
            lemma_pow10_le(((k - i) + 1) as nat, 10);
            lemma_pow10_ten();
        }
        let d = (s[k] as u32 - 48) as u64;
        val = val * 10 + d;
        k = k + 1;
    }
    if val > 0x7FFF_FFFF {
        return None;
    }
    Some(val as i32)
}

/// Ten to the `k` never shrinks as `k` grows, and ten to the tenth is what
/// it is.
proof fn lemma_pow10_le(k: nat, m: nat)
    requires
        k <= m,
    ensures
        pow10(k) <= pow10(m),
        pow10(k) >= 1,
    decreases m,
{
    if m > 0 {
        if k == m {
            lemma_pow10_le((m - 1) as nat, (m - 1) as nat);
        } else {
            lemma_pow10_le(k, (m - 1) as nat);
        }
    }
}

/// Ten to the tenth, concretely.
proof fn lemma_pow10_ten()
    ensures
        pow10(10) == 10_000_000_000,
{
    reveal_with_fuel(pow10, 11);
}

/// The character at `i` is `c` and in bounds, executably.
pub fn char_at_is(s: &Vec<char>, i: usize, c: char) -> (result: bool)
    ensures
        result == (i < s@.len() && s@[i as int] == c),
{
    i < s.len() && s[i] == c
}

/// A string's characters, one by one.
pub fn str_chars(s: &str) -> (result: Vec<char>)
    ensures
        result@ == s@,
{
    let n = s.unicode_len();
    let mut chars: Vec<char> = Vec::new();
    let mut i: usize = 0;
    while i < n
        invariant
            n == s@.len(),
            i <= n,
            chars@ == s@.take(i as int),
        decreases n - i,
    {
        chars.push(s.get_char(i));
        proof {
            assert(s@.take(i + 1) =~= s@.take(i as int).push(s@[i as int]));
        }
        i = i + 1;
    }
    proof {
        assert(s@.take(n as int) =~= s@);
    }
    chars
}

/// Relies on char::from_u32: it answers `Some` exactly for Unicode scalar
/// values (not a surrogate, at most 0x10FFFF) and keeps the code point.
#[verifier::external_body]
pub(crate) fn char_from_u32(x: u32) -> (result: Option<char>)
    ensures
        match result {
            Some(c) => c as u32 == x,
            None => !vstd::utf8::is_scalar(x),
        },
        result is Some <==> vstd::utf8::is_scalar(x),
{
    char::from_u32(x)
}

/// Relies on String's FromIterator<char> impl: collecting characters builds
/// the string of exactly those characters, in order.
#[verifier::external_body]
pub(crate) fn chars_to_string(chars: &Vec<char>) -> (result: String)
    ensures
        result@ == chars@,
{
    chars.iter().collect()
}

} // verus!
