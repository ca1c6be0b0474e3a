//! Text building blocks: decimal and hexadecimal rendering of integers,
//! character sequences of strings and string comparison.

use vstd::prelude::*;
use vstd::string::*;

verus! {

/// The ASCII digit character for a value below ten.
pub open spec fn digit_char(d: int) -> char {
    if d == 0 { '0' }
    else if d == 1 { '1' }
    else if d == 2 { '2' }
    else if d == 3 { '3' }
    else if d == 4 { '4' }
    else if d == 5 { '5' }
    else if d == 6 { '6' }
    else if d == 7 { '7' }
    else if d == 8 { '8' }
    else { '9' }
}

/// Decimal rendering of a natural number without leading zeros.
pub open spec fn decimal(n: nat) -> Seq<char>
    decreases n,
{
    if n < 10 {
        seq![digit_char(n as int)]
    } else {
        decimal(n / 10).push(digit_char((n % 10) as int))
    }
}

fn digit_str(d: u64) -> (s: &'static str)
    requires
        d < 10,
    ensures
        s@ == seq![digit_char(d as int)],
{
    proof {
        reveal_strlit("0");
        reveal_strlit("1");
        reveal_strlit("2");
        reveal_strlit("3");
        reveal_strlit("4");
        reveal_strlit("5");
        reveal_strlit("6");
        reveal_strlit("7");
        reveal_strlit("8");
        reveal_strlit("9");
    }
    if d == 0 { "0" }
    else if d == 1 { "1" }
    else if d == 2 { "2" }
    else if d == 3 { "3" }
    else if d == 4 { "4" }
    else if d == 5 { "5" }
    else if d == 6 { "6" }
    else if d == 7 { "7" }
    else if d == 8 { "8" }
    else { "9" }
}

/// Appends the decimal rendering of `n` to `s`.
pub fn push_decimal(s: &mut String, n: u64)
    ensures
        final(s)@ == old(s)@ + decimal(n as nat),
    decreases n,
{
    if n >= 10 {
        push_decimal(s, n / 10);
    }
    let d = n % 10;
    s.append(digit_str(d));
    proof {
        if n >= 10 {
            assert(decimal(n as nat) == decimal((n / 10) as nat).push(digit_char(d as int)));
        }
    }
}

/// The decimal rendering of `n` as a new string.
pub fn decimal_text(n: u64) -> (s: String)
    ensures
        s@ == decimal(n as nat),
{
    let mut s = String::new();
    push_decimal(&mut s, n);
    s
}

} // verus!

verus! {

/// The upper-case hexadecimal digit for a value below sixteen.
pub open spec fn hex_digit_upper(d: int) -> char {
    if d < 10 { digit_char(d) }
    else if d == 10 { 'A' }
    else if d == 11 { 'B' }
    else if d == 12 { 'C' }
    else if d == 13 { 'D' }
    else if d == 14 { 'E' }
    else { 'F' }
}

/// The lower-case hexadecimal digit for a value below sixteen.
pub open spec fn hex_digit_lower(d: int) -> char {
    if d < 10 { digit_char(d) }
    else if d == 10 { 'a' }
    else if d == 11 { 'b' }
    else if d == 12 { 'c' }
    else if d == 13 { 'd' }
    else if d == 14 { 'e' }
    else { 'f' }
}

/// The `width` least significant hexadecimal digits of `n`, most
/// significant first, in upper or lower case.
pub open spec fn hex_fixed(n: nat, width: nat, upper: bool) -> Seq<char>
    decreases width,
{
    if width == 0 {
        Seq::empty()
    } else {
        let d = (n % 16) as int;
        hex_fixed(n / 16, (width - 1) as nat, upper).push(
            if upper { hex_digit_upper(d) } else { hex_digit_lower(d) },
        )
    }
}

fn hex_digit_str(d: u64, upper: bool) -> (s: &'static str)
    requires
        d < 16,
    ensures
        s@ == seq![if upper { hex_digit_upper(d as int) } else { hex_digit_lower(d as int) }],
{
    if d < 10 {
        return digit_str(d);
    }
    proof {
        reveal_strlit("A");
        reveal_strlit("B");
        reveal_strlit("C");
        reveal_strlit("D");
        reveal_strlit("E");
        reveal_strlit("F");
        reveal_strlit("a");
        reveal_strlit("b");
        reveal_strlit("c");
        reveal_strlit("d");
        reveal_strlit("e");
        reveal_strlit("f");
    }
    if upper {
        if d == 10 { "A" } else if d == 11 { "B" } else if d == 12 { "C" }
        else if d == 13 { "D" } else if d == 14 { "E" } else { "F" }
    } else {
        if d == 10 { "a" } else if d == 11 { "b" } else if d == 12 { "c" }
        else if d == 13 { "d" } else if d == 14 { "e" } else { "f" }
    }
}

/// Appends the `width` least significant hexadecimal digits of `n`.
pub fn push_hex(s: &mut String, n: u64, width: u64, upper: bool)
    ensures
        final(s)@ == old(s)@ + hex_fixed(n as nat, width as nat, upper),
    decreases width,
{
    if width == 0 {
        assert(old(s)@ + Seq::<char>::empty() =~= old(s)@);
        return;
    }
    push_hex(s, n / 16, width - 1, upper);
    s.append(hex_digit_str(n % 16, upper));
    assert(hex_fixed(n as nat, width as nat, upper) == hex_fixed((n / 16) as nat, (width - 1) as nat, upper).push(
        if upper { hex_digit_upper((n % 16) as int) } else { hex_digit_lower((n % 16) as int) }));
}

/// Appends the characters of a string slice (a named form of `append`).
pub fn push_str(s: &mut String, t: &str)
    ensures
        final(s)@ == old(s)@ + t@,
{
    s.append(t);
}

/// The characters of a string slice, in order.
pub fn chars_of(s: &str) -> (v: Vec<char>)
    ensures
        v@ == s@,
{
    let mut v: Vec<char> = Vec::new();
    for c in iter: s.chars()
        invariant
            v@ == iter.seq().take(iter.index() as int),
            iter.seq() == s@,
    {
        v.push(c);
    }
    v
}

} // verus!

verus! {

/// `String::push`: appends one character. The contract claims only what
/// the standard library documents, that the character is appended.
#[verifier::external_body]
pub fn push_char(s: &mut String, c: char)
    ensures
        final(s)@ == old(s)@.push(c),
{
    s.push(c);
}

/// A new string holding the given characters.
pub fn string_from_chars(chars: &[char]) -> (s: String)
    ensures
        s@ == chars@,
{
    let mut s = String::new();
    let mut i: usize = 0;
    while i < chars.len()
        invariant
            i <= chars@.len(),
            s@ == chars@.take(i as int),
        decreases chars.len() - i,
    {
        push_char(&mut s, chars[i]);
        assert(chars@.take(i as int + 1) =~= chars@.take(i as int).push(chars@[i as int]));
        i = i + 1;
    }
    assert(chars@.take(chars@.len() as int) =~= chars@);
    s
}

/// Whether two character slices are equal.
pub fn chars_eq(a: &[char], b: &[char]) -> (r: bool)
    ensures
        r == (a@ == b@),
{
    if a.len() != b.len() {
        return false;
    }
    let mut i: usize = 0;
    while i < a.len()
        invariant
            a@.len() == b@.len(),
            i <= a@.len(),
            forall|j: int| 0 <= j < i ==> a@[j] == b@[j],
        decreases a.len() - i,
    {
        if a[i] != b[i] {
            return false;
        }
        i = i + 1;
    }
    assert(a@ =~= b@);
    true
}

/// Whether two string slices hold the same characters.
pub fn str_eq(a: &str, b: &str) -> (r: bool)
    ensures
        r == (a@ == b@),
{
    let ca = chars_of(a);
    let cb = chars_of(b);
    chars_eq(ca.as_slice(), cb.as_slice())
}

} // verus!
