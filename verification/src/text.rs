//! Building and reading text: decimal and hexadecimal numerals, characters.
use vstd::prelude::*;
use vstd::string::*;

verus! {

/// `String::push` appends the character to the end of the string.
pub assume_specification[ std::string::String::push ](s: &mut std::string::String, c: char)
    ensures
        final(s)@ == old(s)@.push(c),
;

/// The ASCII numeral of `n` in base ten, without leading zeros.
pub open spec fn digits(n: nat) -> Seq<u8>
    decreases n,
{
    if n < 10 {
        seq![(48 + n) as u8]
    } else {
        digits(n / 10).push((48 + n % 10) as u8)
    }
}

/// The ASCII numeral of a signed integer: a minus sign before a negative one.
pub open spec fn signed_digits(n: int) -> Seq<u8> {
    if n < 0 {
        seq![45u8] + digits((-n) as nat)
    } else {
        digits(n as nat)
    }
}

/// `numeral` with zeros before it up to `width` digits.
pub open spec fn padded(numeral: Seq<u8>, width: nat) -> Seq<u8> {
    if numeral.len() < width {
        Seq::new((width - numeral.len()) as nat, |i: int| 48u8) + numeral
    } else {
        numeral
    }
}

/// The characters with the given code points.
pub open spec fn as_chars(bytes: Seq<u8>) -> Seq<char> {
    Seq::new(bytes.len(), |i: int| bytes[i] as char)
}

/// The lower-case hexadecimal digit of `d`.
pub open spec fn hex_digit(d: int) -> char {
    if d < 10 {
        (48 + d) as u8 as char
    } else {
        (87 + d) as u8 as char
    }
}

/// The last `width` hexadecimal digits of `n`, most significant first.
pub open spec fn hex_digits(n: nat, width: nat) -> Seq<char>
    decreases width,
{
    if width == 0 {
        Seq::empty()
    } else {
        hex_digits(n / 16, (width - 1) as nat).push(hex_digit((n % 16) as int))
    }
}

/// The decimal numeral of `n`.
pub fn decimal(n: u128) -> (numeral: Vec<u8>)
    ensures
        numeral@ == digits(n as nat),
    decreases n,
{
    if n < 10 {
        let mut out: Vec<u8> = Vec::new();
        out.push(48 + n as u8);
        assert(out@ =~= digits(n as nat));
        out
    } else {
        let mut out: Vec<u8> = decimal(n / 10);
        out.push(48 + (n % 10) as u8);
        out
    }
}

/// The decimal numeral of a signed integer.
pub fn signed_decimal(n: i128) -> (numeral: Vec<u8>)
    ensures
        numeral@ == signed_digits(n as int),
{
    if n < 0 {
        let magnitude: u128 = (-(n + 1)) as u128 + 1;
        let mut out: Vec<u8> = Vec::new();
        out.push(45);
        let mut rest: Vec<u8> = decimal(magnitude);
        out.append(&mut rest);
        assert(out@ =~= signed_digits(n as int));
        out
    } else {
        decimal(n as u128)
    }
}

/// The decimal numeral of `n`, zero-padded to at least `width` digits.
pub fn padded_decimal(n: u128, width: usize) -> (numeral: Vec<u8>)
    ensures
        numeral@ == padded(digits(n as nat), width as nat),
{
    let mut tail: Vec<u8> = decimal(n);
    let mut out: Vec<u8> = Vec::new();
    if tail.len() < width {
        let zeros: usize = width - tail.len();
        let mut i: usize = 0;
        while i < zeros
            invariant
                i <= zeros,
                out@ =~= Seq::new(i as nat, |k: int| 48u8),
            decreases zeros - i,
        {
            out.push(48);
            i = i + 1;
        }
    }
    out.append(&mut tail);
    assert(out@ =~= padded(digits(n as nat), width as nat));
    out
}

/// Appends the characters with the given code points.
pub fn append_bytes(out: &mut String, bytes: &[u8])
    ensures
        final(out)@ == old(out)@ + as_chars(bytes@),
{
    let mut i: usize = 0;
    while i < bytes.len()
        invariant
            i <= bytes@.len(),
            out@ =~= old(out)@ + as_chars(bytes@.take(i as int)),
        decreases bytes@.len() - i,
    {
        out.push(bytes[i] as char);
        i = i + 1;
    }
    assert(bytes@.take(i as int) =~= bytes@);
}

/// Appends the decimal numeral of `n`.
pub fn append_number(out: &mut String, n: u128)
    ensures
        final(out)@ == old(out)@ + as_chars(digits(n as nat)),
{
    let numeral: Vec<u8> = decimal(n);
    append_bytes(out, numeral.as_slice());
}

/// Appends characters one by one.
pub fn append_chars(out: &mut String, chars: &[char])
    ensures
        final(out)@ == old(out)@ + chars@,
{
    let mut i: usize = 0;
    while i < chars.len()
        invariant
            i <= chars@.len(),
            out@ =~= old(out)@ + chars@.take(i as int),
        decreases chars@.len() - i,
    {
        out.push(chars[i]);
        i = i + 1;
    }
    assert(chars@.take(i as int) =~= chars@);
}

/// The characters of a string.
pub fn chars_of(text: &str) -> (chars: Vec<char>)
    ensures
        chars@ == text@,
{
    let mut chars: Vec<char> = Vec::new();
    for c in iter: text.chars()
        invariant
            iter.seq() == text@,
            chars@ =~= text@.take(iter.index() as int),
    {
        chars.push(c);
    }
    assert(chars@ =~= text@);
    chars
}

/// The string of the given characters.
pub fn string_of(chars: &[char]) -> (text: String)
    ensures
        text@ == chars@,
{
    let mut out: String = String::new();
    append_chars(&mut out, chars);
    assert(out@ =~= chars@);
    out
}

/// Whether two texts are the same.
pub fn same_text(a: &str, b: &str) -> (same: bool)
    ensures
        same == (a@ == b@),
{
    let left: Vec<char> = chars_of(a);
    let right: Vec<char> = chars_of(b);
    if left.len() != right.len() {
        return false;
    }
    let mut i: usize = 0;
    while i < left.len()
        invariant
            left@ == a@,
            right@ == b@,
            left@.len() == right@.len(),
            i <= left@.len(),
            forall|k: int| 0 <= k < i ==> left@[k] == right@[k],
        decreases left@.len() - i,
    {
        if left[i] != right[i] {
            return false;
        }
        i = i + 1;
    }
    assert(a@ =~= b@);
    true
}

fn hex_char(d: u8) -> (c: char)
    requires
        d < 16,
    ensures
        c == hex_digit(d as int),
{
    if d < 10 {
        (48 + d) as char
    } else {
        (87 + d) as char
    }
}

fn append_hex(out: &mut String, n: u64, width: usize)
    ensures
        final(out)@ == old(out)@ + hex_digits(n as nat, width as nat),
    decreases width,
{
    if width == 0 {
        assert(out@ =~= old(out)@ + hex_digits(n as nat, 0));
    } else {
        append_hex(out, n / 16, width - 1);
        out.push(hex_char((n % 16) as u8));
        assert(out@ =~= old(out)@ + hex_digits(n as nat, width as nat));
    }
}

/// Sixteen lower-case hexadecimal digits.
pub fn hex16(n: u64) -> (text: String)
    ensures
        text@ == hex_digits(n as nat, 16),
{
    let mut out: String = String::new();
    append_hex(&mut out, n, 16);
    assert(out@ =~= hex_digits(n as nat, 16));
    out
}

proof fn hex_digit_injective(a: int, b: int)
    requires
        0 <= a < 16,
        0 <= b < 16,
        hex_digit(a) == hex_digit(b),
    ensures
        a == b,
{
}

/// A fixed-width hexadecimal numeral determines the number it stands for.
pub proof fn hex_digits_injective(a: nat, b: nat, width: nat)
    requires
        a < vstd::arithmetic::power::pow(16, width),
        b < vstd::arithmetic::power::pow(16, width),
        hex_digits(a, width) == hex_digits(b, width),
    ensures
        a == b,
    decreases width,
{
    reveal(vstd::arithmetic::power::pow);
    if width > 0 {
        let x = hex_digits(a, width);
        let y = hex_digits(b, width);
        let w = (width - 1) as nat;
        assert(x.drop_last() =~= hex_digits(a / 16, w));
        assert(y.drop_last() =~= hex_digits(b / 16, w));
        assert(x.last() == y.last());
        hex_digit_injective((a % 16) as int, (b % 16) as int);
        assert(vstd::arithmetic::power::pow(16, width) == 16 * vstd::arithmetic::power::pow(16, w));
        hex_digits_injective(a / 16, b / 16, w);
    }
}

/// So many hexadecimal digits are so many characters, each a decimal digit or a
/// letter from `a` to `f`.
pub proof fn hex_digits_shape(n: nat, width: nat)
    ensures
        hex_digits(n, width).len() == width,
        forall|i: int|
            0 <= i < width ==> {
                let c = #[trigger] hex_digits(n, width)[i];
                '0' <= c <= '9' || 'a' <= c <= 'f'
            },
    decreases width,
{
    if width > 0 {
        hex_digits_shape(n / 16, (width - 1) as nat);
    }
}

}
