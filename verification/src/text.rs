//! Characters, digits and the text forms of numbers.

use vstd::prelude::*;
use vstd::string::*;

verus! {

/// `String::push` of the standard library: the character is appended at the
/// end of the string, and nothing else changes.
pub assume_specification[ String::push ](s: &mut String, ch: char)
    ensures
        final(s)@ == old(s)@.push(ch),
;

/// A blank: space, tab, line feed or carriage return.
pub open spec fn is_space(c: char) -> bool {
    c == ' ' || c == '\t' || c == '\n' || c == '\r'
}

/// An ASCII letter.
pub open spec fn is_alpha(c: char) -> bool {
    ('a' <= c && c <= 'z') || ('A' <= c && c <= 'Z')
}

/// An ASCII decimal digit.
pub open spec fn is_digit(c: char) -> bool {
    '0' <= c && c <= '9'
}

/// A character that may follow the first letter of an identifier.
pub open spec fn is_ident_char(c: char) -> bool {
    is_alpha(c) || is_digit(c) || c == '_'
}

/// The digit character of a number below ten.
pub open spec fn digit_char(d: int) -> char {
    (48 + d) as u8 as char
}

/// The number a digit character stands for.
pub open spec fn digit_value(c: char) -> int {
    c as u32 - 48
}

/// The decimal digits of a natural number, most significant first.
pub open spec fn digits_of(n: nat) -> Seq<char>
    decreases n,
{
    if n < 10 {
        seq![digit_char(n as int)]
    } else {
        digits_of(n / 10).push(digit_char((n % 10) as int))
    }
}

/// The decimal text of an integer: a minus sign where it is negative, then
/// the digits of its magnitude.
pub open spec fn int_text(n: int) -> Seq<char> {
    if n < 0 {
        seq!['-'] + digits_of((-n) as nat)
    } else {
        digits_of(n as nat)
    }
}

/// The number that a run of digits denotes (zero for the empty run).
pub open spec fn decimal_value(d: Seq<char>) -> nat
    decreases d.len(),
{
    if d.len() == 0 {
        0
    } else {
        (10 * decimal_value(d.drop_last()) + digit_value(d.last())) as nat
    }
}

/// Where the digits that count start: leading zeros are passed over, but
/// the last digit is always kept.
pub open spec fn first_significant(d: Seq<char>, i: int) -> int
    decreases d.len() - i,
{
    if 0 <= i && i + 1 < d.len() && d[i] == '0' {
        first_significant(d, i + 1)
    } else {
        i
    }
}

/// Where the digits that count end: trailing zeros before `n` are dropped.
pub open spec fn last_significant(d: Seq<char>, n: int) -> int
    decreases n,
{
    if 0 < n && n <= d.len() && d[n - 1] == '0' {
        last_significant(d, n - 1)
    } else {
        n
    }
}

/// The text of a decimal number given by the digits before and after its
/// point: no leading zeros in front of the point, no trailing zeros behind
/// it, and no point where nothing is left behind it.
pub open spec fn decimal_text(whole: Seq<char>, frac: Seq<char>) -> Seq<char> {
    let from = first_significant(whole, 0);
    let to = last_significant(frac, frac.len() as int);
    if to == 0 {
        whole.subrange(from, whole.len() as int)
    } else {
        whole.subrange(from, whole.len() as int).push('.') + frac.subrange(0, to)
    }
}

/// Whether `c` is a blank.
pub fn space(c: char) -> (r: bool)
    ensures
        r == is_space(c),
{
    c == ' ' || c == '\t' || c == '\n' || c == '\r'
}

/// Whether `c` is an ASCII letter.
pub fn alpha(c: char) -> (r: bool)
    ensures
        r == is_alpha(c),
{
    (c >= 'a' && c <= 'z') || (c >= 'A' && c <= 'Z')
}

/// Whether `c` is an ASCII decimal digit.
pub fn digit(c: char) -> (r: bool)
    ensures
        r == is_digit(c),
{
    c >= '0' && c <= '9'
}

/// Whether `c` may follow the first letter of an identifier.
pub fn ident_char(c: char) -> (r: bool)
    ensures
        r == is_ident_char(c),
{
    alpha(c) || digit(c) || c == '_'
}

/// The characters of a string slice, in order.
pub fn chars_of(s: &str) -> (v: Vec<char>)
    ensures
        v@ == s@,
{
    let mut v: Vec<char> = Vec::new();
    for c in it: s.chars()
        invariant
            v@ == it.seq().take(it.index() as int),
            it.seq() == s@,
    {
        v.push(c);
    }
    v
}

/// The characters `from..to` of `src` as a string.
pub(crate) fn text_of(src: &Vec<char>, from: usize, to: usize) -> (r: String)
    requires
        from <= to <= src@.len(),
    ensures
        r@ == src@.subrange(from as int, to as int),
{
    let mut r = String::new();
    let mut i: usize = from;
    while i < to
        invariant
            from <= i <= to <= src@.len(),
            r@ == src@.subrange(from as int, i as int),
        decreases to - i,
    {
        r.push(src[i]);
        i = i + 1;
    }
    r
}

/// Appends the characters `from..to` of `src` to `out`.
fn push_range(out: &mut String, src: &Vec<char>, from: usize, to: usize)
    requires
        from <= to <= src@.len(),
    ensures
        final(out)@ == old(out)@ + src@.subrange(from as int, to as int),
{
    let mut i: usize = from;
    while i < to
        invariant
            from <= i <= to <= src@.len(),
            out@ == old(out)@ + src@.subrange(from as int, i as int),
        decreases to - i,
    {
        out.push(src[i]);
        i = i + 1;
    }
}

/// The decimal digits of an unsigned number.
pub fn render_nat(n: u64) -> (r: String)
    ensures
        r@ == digits_of(n as nat),
{
    let mut mag: u64 = n;
    // the digits, least significant first
    let mut rev: Vec<char> = Vec::new();
    rev.push(digit_to_char((mag % 10) as u8));
    mag = mag / 10;
    while mag > 0
        invariant
            rev@.len() >= 1,
            digits_of(n as nat) == (if mag == 0 {
                Seq::<char>::empty()
            } else {
                digits_of(mag as nat)
            }) + Seq::new(rev@.len(), |j: int| rev@[rev@.len() - 1 - j]),
        decreases mag,
    {
        let ghost before = Seq::new(rev@.len(), |j: int| rev@[rev@.len() - 1 - j]);
        let d = digit_to_char((mag % 10) as u8);
        rev.push(d);
        let ghost high = if mag / 10 == 0 {
            Seq::<char>::empty()
        } else {
            digits_of((mag / 10) as nat)
        };
        assert(digits_of(mag as nat) == high.push(d));
        assert(Seq::new(rev@.len(), |j: int| rev@[rev@.len() - 1 - j]) =~= seq![d] + before);
        assert(high.push(d) + before =~= high + (seq![d] + before));
        mag = mag / 10;
    }
    let ghost digits = Seq::new(rev@.len(), |j: int| rev@[rev@.len() - 1 - j]);
    assert(digits_of(n as nat) =~= digits);
    let mut r = String::new();
    let mut k: usize = rev.len();
    while k > 0
        invariant
            k <= rev@.len(),
            digits == Seq::new(rev@.len(), |j: int| rev@[rev@.len() - 1 - j]),
            r@ == digits.take(rev@.len() - k),
        decreases k,
    {
        k = k - 1;
        r.push(rev[k]);
        assert(digits.take(rev@.len() - k) =~= digits.take(rev@.len() - k - 1).push(
            rev@[k as int],
        ));
    }
    assert(digits.take(rev@.len() as int) =~= digits);
    r
}

/// The decimal text of a 64-bit integer.
pub fn render_int(n: i64) -> (r: String)
    ensures
        r@ == int_text(n as int),
{
    if n < 0 {
        let mag: u64 = ((-(n + 1)) as u64) + 1;
        let digits = render_nat(mag);
        let mut r = String::new();
        r.push('-');
        r.append(digits.as_str());
        assert(r@ =~= seq!['-'] + digits@);
        r
    } else {
        render_nat(n as u64)
    }
}

/// The digit character of a number below ten.
fn digit_to_char(d: u8) -> (c: char)
    requires
        d < 10,
    ensures
        c == digit_char(d as int),
{
    (48u8 + d) as char
}

/// The number a digit character stands for.
pub(crate) fn digit_of(c: char) -> (d: u8)
    requires
        is_digit(c),
    ensures
        d == digit_value(c),
        d < 10,
{
    (c as u32 - 48) as u8
}

/// The text of the decimal number with the digits `whole` before the point
/// and `frac` behind it.
pub fn render_decimal(whole: &str, frac: &str) -> (r: String)
    ensures
        r@ == decimal_text(whole@, frac@),
{
    let w = chars_of(whole);
    let f = chars_of(frac);
    let n = w.len();
    let mut from: usize = 0;
    while n > 0 && from < n - 1 && w[from] == '0'
        invariant
            n == w@.len(),
            from <= w@.len(),
            first_significant(w@, 0) == first_significant(w@, from as int),
        decreases w@.len() - from,
    {
        from = from + 1;
    }
    let mut to: usize = f.len();
    while to > 0 && f[to - 1] == '0'
        invariant
            to <= f@.len(),
            last_significant(f@, f@.len() as int) == last_significant(f@, to as int),
        decreases to,
    {
        to = to - 1;
    }
    let mut r = String::new();
    push_range(&mut r, &w, from, w.len());
    if to > 0 {
        r.push('.');
        push_range(&mut r, &f, 0, to);
    }
    r
}

} // verus!
