//! Normalising error texts, so that two reports of one defect read the same.
//!
//! Addresses, line numbers, long hashes, time stamps and reported values change
//! from run to run; each is replaced by a fixed word. White space is collapsed.
use crate::text::{chars_of, string_of};
use vstd::prelude::*;

verus! {

/// Classes of characters that the scanner reads in runs.
#[derive(Debug, Clone, Copy, PartialEq, Eq, Structural)]
pub enum Class {
    /// Decimal digits.
    Digit,
    /// Hexadecimal digits of either case.
    Hex,
    /// Unicode white space.
    Space,
}

/// A decimal digit.
pub open spec fn is_digit(c: char) -> bool {
    '0' <= c <= '9'
}

/// A hexadecimal digit of either case.
pub open spec fn is_hex(c: char) -> bool {
    is_digit(c) || 'a' <= c <= 'f' || 'A' <= c <= 'F'
}

/// The characters with the Unicode property `White_Space`.
pub open spec fn is_space(c: char) -> bool {
    ||| '\u{9}' <= c <= '\u{d}'
    ||| c == ' '
    ||| c == '\u{85}'
    ||| c == '\u{a0}'
    ||| c == '\u{1680}'
    ||| '\u{2000}' <= c <= '\u{200a}'
    ||| c == '\u{2028}'
    ||| c == '\u{2029}'
    ||| c == '\u{202f}'
    ||| c == '\u{205f}'
    ||| c == '\u{3000}'
}

/// Membership in a class.
pub open spec fn in_class(c: char, class: Class) -> bool {
    match class {
        Class::Digit => is_digit(c),
        Class::Hex => is_hex(c),
        Class::Space => is_space(c),
    }
}

/// How many characters at the start of `t` belong to the class.
pub open spec fn run(t: Seq<char>, class: Class) -> nat
    decreases t.len(),
{
    if t.len() > 0 && in_class(t[0], class) {
        1 + run(t.skip(1), class)
    } else {
        0
    }
}

/// An address stands at the start of `t`.
pub open spec fn addressed(t: Seq<char>) -> bool {
    t.len() >= 2 && t[0] == '0' && t[1] == 'x'
}

/// A long hash stands at the start of `t`.
pub open spec fn hashed(t: Seq<char>) -> bool {
    run(t, Class::Hex) >= 32
}

/// A date `dddd-dd-dd` stands at the start of `t`.
#[verifier::opaque]
pub open spec fn dated(t: Seq<char>) -> bool {
    &&& t.len() >= 10
    &&& is_digit(t[0]) && is_digit(t[1]) && is_digit(t[2]) && is_digit(t[3])
    &&& t[4] == '-' && is_digit(t[5]) && is_digit(t[6])
    &&& t[7] == '-' && is_digit(t[8]) && is_digit(t[9])
    &&& !(t.len() > 10 && is_digit(t[10]))
    &&& !hashed(t.skip(8))
}

/// How many of the first two characters of `t` are the digits of an hour.
pub open spec fn hours(t: Seq<char>) -> nat {
    if t.len() == 0 || !is_digit(t[0]) {
        0
    } else if t.len() == 1 || !is_digit(t[1]) {
        1
    } else {
        2
    }
}

/// A clock time with seconds, `d:dd:dd` or `dd:dd:dd`, stands at the start of `t`.
#[verifier::opaque]
pub open spec fn clocked(t: Seq<char>) -> bool {
    let h = hours(t) as int;
    &&& h > 0 && t.len() >= h + 6
    &&& t[h] == ':' && is_digit(t[h + 1]) && is_digit(t[h + 2])
    &&& t[h + 3] == ':' && is_digit(t[h + 4]) && is_digit(t[h + 5])
    &&& !(t.len() > h + 6 && is_digit(t[h + 6]))
    &&& !hashed(t.skip(h + 4))
}

/// A word of its own stands at the start of `t`, so that the digits there belong
/// to no number before it: an address, a hash, a date or a clock time.
pub open spec fn opens_word(t: Seq<char>) -> bool {
    addressed(t) || hashed(t) || dated(t) || clocked(t)
}

/// Length of the point and the decimal places at the start of `t`; zero if there
/// are none.
pub open spec fn fraction(t: Seq<char>) -> nat {
    if t.len() >= 2 && t[0] == '.' && is_digit(t[1]) && !opens_word(t.skip(1)) {
        1 + run(t.skip(1), Class::Digit)
    } else {
        0
    }
}

/// Length of the colon and the line number at the start of `t`; zero if there is
/// none.
pub open spec fn line(t: Seq<char>) -> nat {
    if t.len() >= 2 && t[0] == ':' && is_digit(t[1]) && !opens_word(t.skip(1)) {
        1 + run(t.skip(1), Class::Digit)
    } else {
        0
    }
}

/// Length of the time stamp at the start of `t`; zero if there is none. It is a
/// date, a clock time with its fraction of a second, or the digits of an hour with
/// what reads as a line number, which minutes do.
#[verifier::opaque]
pub open spec fn stamp(t: Seq<char>) -> nat {
    let h = hours(t);
    if dated(t) {
        10
    } else if clocked(t) {
        h + 6 + fraction(t.skip(h as int + 6))
    } else if h > 0 && line(t.skip(h as int)) > 0 {
        h + line(t.skip(h as int))
    } else {
        0
    }
}

/// Length of the label `value:` or `got:` at the start of `t`; zero if there is
/// none.
pub open spec fn label(t: Seq<char>) -> nat {
    if t.len() >= 6 && t[0] == 'v' && t[1] == 'a' && t[2] == 'l' && t[3] == 'u' && t[4] == 'e'
        && t[5] == ':' {
        6
    } else if t.len() >= 4 && t[0] == 'g' && t[1] == 'o' && t[2] == 't' && t[3] == ':' {
        4
    } else {
        0
    }
}

/// A plus or a minus sign.
pub open spec fn is_sign(c: char) -> bool {
    c == '+' || c == '-'
}

/// How many characters at the start of `t` are its sign.
pub open spec fn sign(t: Seq<char>) -> nat {
    if t.len() > 0 && is_sign(t[0]) {
        1
    } else {
        0
    }
}

/// Length of the exponent at the start of `t`, such as `e5` or `E-10`; zero if
/// there is none.
pub open spec fn exponent(t: Seq<char>) -> nat {
    if t.len() > 0 && (t[0] == 'e' || t[0] == 'E') {
        let k = 1 + sign(t.skip(1));
        let count = run(t.skip(k as int), Class::Digit);
        if count > 0 && !opens_word(t.skip(k as int)) {
            k + count
        } else {
            0
        }
    } else {
        0
    }
}

/// Length of the decimal number without a sign at the start of `t`: digits,
/// decimal places and an exponent. Zero if there is none.
pub open spec fn decimal(t: Seq<char>) -> nat {
    let whole = run(t, Class::Digit);
    if whole == 0 {
        0
    } else {
        let places = whole + fraction(t.skip(whole as int));
        places + exponent(t.skip(places as int))
    }
}

/// Length of the value without a sign at the start of `t`: that of a decimal
/// number, unless a word of its own stands there. Any number of decimal digits is
/// a number.
#[verifier::opaque]
pub open spec fn extent(t: Seq<char>) -> nat {
    if addressed(t) || dated(t) || clocked(t) || (hashed(t) && run(t, Class::Digit) < run(
        t,
        Class::Hex,
    )) {
        0
    } else {
        decimal(t)
    }
}

/// Length of the optional white space, the optional sign and the value at the
/// start of `t`; zero if no value stands there.
#[verifier::opaque]
pub open spec fn number(t: Seq<char>) -> nat {
    let blank = run(t, Class::Space);
    let first = blank + sign(t.skip(blank as int));
    let count = extent(t.skip(first as int));
    if count == 0 {
        0
    } else {
        first + count
    }
}

/// A letter or an underscore that is no hexadecimal digit. The `T` between a date
/// and a clock time does not count.
pub open spec fn is_letter(c: char) -> bool {
    &&& 'a' <= c <= 'z' || 'A' <= c <= 'Z' || c == '_'
    &&& !is_hex(c)
    &&& c != 'T'
}

/// Length of the letter and the digits behind it at the start of `t`, which belong
/// to one name; zero if there are none.
pub open spec fn named(t: Seq<char>) -> nat {
    if t.len() >= 2 && is_letter(t[0]) && is_digit(t[1]) && !opens_word(t.skip(1)) {
        1 + run(t.skip(1), Class::Digit)
    } else {
        0
    }
}

/// What the scanner writes for the start of a non-empty text, and how many
/// characters it reads for it.
pub open spec fn token(t: Seq<char>) -> (Seq<char>, nat) {
    if addressed(t) {
        (seq!['0', 'x', 'A', 'D', 'D', 'R'], 2 + run(t.skip(2), Class::Hex))
    } else if line(t) > 0 {
        (seq![':', 'L', 'I', 'N', 'E'], line(t))
    } else if label(t) > 0 && number(t.skip(label(t) as int)) > 0 {
        (
            t.take(label(t) as int) + seq![' ', 'V', 'A', 'L', 'U', 'E'],
            label(t) + number(t.skip(label(t) as int)),
        )
    } else if stamp(t) > 0 {
        (seq!['T', 'I', 'M', 'E'], stamp(t))
    } else if hashed(t) {
        (seq!['H', 'A', 'S', 'H'], run(t, Class::Hex))
    } else if run(t, Class::Hex) > 0 {
        (t.take(run(t, Class::Hex) as int), run(t, Class::Hex))
    } else if named(t) > 0 {
        (t.take(named(t) as int), named(t))
    } else {
        (t.take(1), 1)
    }
}

/// A run is no longer than the text.
pub proof fn run_bound(t: Seq<char>, class: Class)
    ensures
        run(t, class) <= t.len(),
    decreases t.len(),
{
    if t.len() > 0 {
        run_bound(t.skip(1), class);
    }
}

proof fn fraction_bound(t: Seq<char>)
    ensures
        fraction(t) <= t.len(),
        line(t) <= t.len(),
        named(t) <= t.len(),
{
    if t.len() >= 2 {
        run_bound(t.skip(1), Class::Digit);
    }
}

proof fn stamp_bound(t: Seq<char>)
    ensures
        stamp(t) <= t.len(),
{
    reveal(stamp);
    reveal(clocked);
    reveal(dated);
    let h = hours(t) as int;
    if clocked(t) {
        fraction_bound(t.skip(h + 6));
    }
    fraction_bound(t.skip(h));
}

proof fn exponent_bound(t: Seq<char>)
    ensures
        exponent(t) <= t.len(),
{
    if t.len() > 0 {
        let k = 1 + sign(t.skip(1));
        run_bound(t.skip(k as int), Class::Digit);
    }
}

proof fn extent_bound(t: Seq<char>)
    ensures
        extent(t) <= t.len(),
{
    reveal(extent);
    run_bound(t, Class::Digit);
    let whole = run(t, Class::Digit);
    fraction_bound(t.skip(whole as int));
    exponent_bound(t.skip((whole + fraction(t.skip(whole as int))) as int));
}

proof fn number_bound(t: Seq<char>)
    ensures
        number(t) <= t.len(),
{
    reveal(number);
    run_bound(t, Class::Space);
    let blank = run(t, Class::Space);
    extent_bound(t.skip((blank + sign(t.skip(blank as int))) as int));
}

/// A token covers at least one character and ends within the text.
pub proof fn token_bound(t: Seq<char>)
    requires
        t.len() > 0,
    ensures
        0 < token(t).1 <= t.len(),
{
    run_bound(t, Class::Hex);
    stamp_bound(t);
    fraction_bound(t);
    if t.len() >= 2 {
        run_bound(t.skip(2), Class::Hex);
    }
    if label(t) > 0 {
        number_bound(t.skip(label(t) as int));
    }
}

/// The text with each token replaced.
pub open spec fn rewritten(t: Seq<char>) -> Seq<char>
    decreases t.len(),
{
    if t.len() == 0 {
        Seq::empty()
    } else {
        proof {
            token_bound(t);
        }
        token(t).0 + rewritten(t.skip(token(t).1 as int))
    }
}

/// The text with each run of white space replaced by one blank.
pub open spec fn collapsed(t: Seq<char>) -> Seq<char>
    decreases t.len(),
{
    if t.len() == 0 {
        Seq::empty()
    } else {
        let before = collapsed(t.drop_last());
        if !is_space(t.last()) {
            before.push(t.last())
        } else if t.len() >= 2 && is_space(t[t.len() - 2]) {
            before
        } else {
            before.push(' ')
        }
    }
}

/// The text without white space at its end.
pub open spec fn trimmed_end(t: Seq<char>) -> Seq<char>
    decreases t.len(),
{
    if t.len() > 0 && is_space(t.last()) {
        trimmed_end(t.drop_last())
    } else {
        t
    }
}

/// The text without white space at its ends.
pub open spec fn trimmed(t: Seq<char>) -> Seq<char> {
    trimmed_end(t.skip(run(t, Class::Space) as int))
}

/// The normal form of an error text.
pub open spec fn normalised(error: Seq<char>) -> Seq<char> {
    trimmed(collapsed(rewritten(error)))
}

fn digit(c: char) -> (yes: bool)
    ensures
        yes == is_digit(c),
{
    '0' <= c && c <= '9'
}

fn hex(c: char) -> (yes: bool)
    ensures
        yes == is_hex(c),
{
    digit(c) || ('a' <= c && c <= 'f') || ('A' <= c && c <= 'F')
}

/// Whether a character is white space.
pub fn space(c: char) -> (yes: bool)
    ensures
        yes == is_space(c),
{
    ('\u{9}' <= c && c <= '\u{d}') || c == ' ' || c == '\u{85}' || c == '\u{a0}' || c == '\u{1680}'
        || ('\u{2000}' <= c && c <= '\u{200a}') || c == '\u{2028}' || c == '\u{2029}' || c
        == '\u{202f}' || c == '\u{205f}' || c == '\u{3000}'
}

fn belongs(c: char, class: Class) -> (yes: bool)
    ensures
        yes == in_class(c, class),
{
    match class {
        Class::Digit => digit(c),
        Class::Hex => hex(c),
        Class::Space => space(c),
    }
}

fn run_at(chars: &Vec<char>, start: usize, class: Class) -> (count: usize)
    requires
        start <= chars@.len(),
    ensures
        count == run(chars@.skip(start as int), class),
        start + count <= chars@.len(),
{
    let mut end: usize = start;
    while end < chars.len() && belongs(chars[end], class)
        invariant
            start <= end <= chars@.len(),
            run(chars@.skip(start as int), class) == (end - start) + run(
                chars@.skip(end as int),
                class,
            ),
        decreases chars@.len() - end,
    {
        assert(chars@.skip(end as int).skip(1) =~= chars@.skip(end + 1));
        end = end + 1;
    }
    assert(end < chars@.len() ==> chars@.skip(end as int)[0] == chars@[end as int]);
    end - start
}

fn addressed_at(chars: &Vec<char>, i: usize) -> (yes: bool)
    requires
        i <= chars@.len(),
    ensures
        yes == addressed(chars@.skip(i as int)),
{
    chars.len() - i >= 2 && chars[i] == '0' && chars[i + 1] == 'x'
}

fn dated_at(chars: &Vec<char>, i: usize) -> (yes: bool)
    requires
        i <= chars@.len(),
    ensures
        yes == dated(chars@.skip(i as int)),
{
    reveal(dated);
    if chars.len() - i < 10 {
        return false;
    }
    assert(chars@.skip(i as int).skip(8) =~= chars@.skip(i + 8));
    digit(chars[i]) && digit(chars[i + 1]) && digit(chars[i + 2]) && digit(chars[i + 3]) && chars[i
        + 4] == '-' && digit(chars[i + 5]) && digit(chars[i + 6]) && chars[i + 7] == '-' && digit(
        chars[i + 8],
    ) && digit(chars[i + 9]) && !(chars.len() - i > 10 && digit(chars[i + 10])) && run_at(
        chars,
        i + 8,
        Class::Hex,
    ) < 32
}

fn hours_at(chars: &Vec<char>, i: usize) -> (count: usize)
    requires
        i <= chars@.len(),
    ensures
        count == hours(chars@.skip(i as int)),
        i + count <= chars@.len(),
{
    let left: usize = chars.len() - i;
    if left == 0 || !digit(chars[i]) {
        0
    } else if left == 1 || !digit(chars[i + 1]) {
        1
    } else {
        2
    }
}

fn clocked_at(chars: &Vec<char>, i: usize) -> (yes: bool)
    requires
        i <= chars@.len(),
    ensures
        yes == clocked(chars@.skip(i as int)),
{
    reveal(clocked);
    let h: usize = hours_at(chars, i);
    if h == 0 || chars.len() - i < h + 6 {
        return false;
    }
    let m: usize = i + h;
    assert(chars@.skip(i as int).skip(h + 4) =~= chars@.skip(m + 4));
    chars[m] == ':' && digit(chars[m + 1]) && digit(chars[m + 2]) && chars[m + 3] == ':' && digit(
        chars[m + 4],
    ) && digit(chars[m + 5]) && !(chars.len() - m > 6 && digit(chars[m + 6])) && run_at(
        chars,
        m + 4,
        Class::Hex,
    ) < 32
}

fn opens_at(chars: &Vec<char>, i: usize) -> (yes: bool)
    requires
        i <= chars@.len(),
    ensures
        yes == opens_word(chars@.skip(i as int)),
{
    addressed_at(chars, i) || run_at(chars, i, Class::Hex) >= 32 || dated_at(chars, i)
        || clocked_at(chars, i)
}

/// Length of a character of a kind and the digits behind it.
fn led_digits_at(chars: &Vec<char>, i: usize, leads: bool) -> (count: usize)
    requires
        i <= chars@.len(),
    ensures
        ({
            let t = chars@.skip(i as int);
            count == if leads && t.len() >= 2 && is_digit(t[1]) && !opens_word(t.skip(1)) {
                1 + run(t.skip(1), Class::Digit)
            } else {
                0
            }
        }),
        i + count <= chars@.len(),
{
    if !leads || chars.len() - i < 2 || !digit(chars[i + 1]) {
        return 0;
    }
    assert(chars@.skip(i as int).skip(1) =~= chars@.skip(i + 1));
    if opens_at(chars, i + 1) {
        0
    } else {
        1 + run_at(chars, i + 1, Class::Digit)
    }
}

fn fraction_at(chars: &Vec<char>, i: usize) -> (count: usize)
    requires
        i <= chars@.len(),
    ensures
        count == fraction(chars@.skip(i as int)),
        i + count <= chars@.len(),
{
    led_digits_at(chars, i, i < chars.len() && chars[i] == '.')
}

fn line_at(chars: &Vec<char>, i: usize) -> (count: usize)
    requires
        i <= chars@.len(),
    ensures
        count == line(chars@.skip(i as int)),
        i + count <= chars@.len(),
{
    led_digits_at(chars, i, i < chars.len() && chars[i] == ':')
}

fn letter(c: char) -> (yes: bool)
    ensures
        yes == is_letter(c),
{
    (('a' <= c && c <= 'z') || ('A' <= c && c <= 'Z') || c == '_') && !hex(c) && c != 'T'
}

fn named_at(chars: &Vec<char>, i: usize) -> (count: usize)
    requires
        i <= chars@.len(),
    ensures
        count == named(chars@.skip(i as int)),
        i + count <= chars@.len(),
{
    led_digits_at(chars, i, i < chars.len() && letter(chars[i]))
}

fn stamp_at(chars: &Vec<char>, i: usize) -> (count: usize)
    requires
        i <= chars@.len(),
    ensures
        count == stamp(chars@.skip(i as int)),
        i + count <= chars@.len(),
{
    reveal(stamp);
    reveal(clocked);
    reveal(dated);
    if i >= chars.len() {
        return 0;
    }
    let ghost t = chars@.skip(i as int);
    proof {
        stamp_bound(t);
    }
    let h: usize = hours_at(chars, i);
    if dated_at(chars, i) {
        10
    } else if clocked_at(chars, i) {
        assert(t.skip(h + 6) =~= chars@.skip(i + h + 6));
        h + 6 + fraction_at(chars, i + h + 6)
    } else {
        assert(t.skip(h as int) =~= chars@.skip(i + h));
        let minutes: usize = line_at(chars, i + h);
        if h > 0 && minutes > 0 {
            h + minutes
        } else {
            0
        }
    }
}

fn label_at(chars: &Vec<char>, i: usize) -> (count: usize)
    requires
        i <= chars@.len(),
    ensures
        count == label(chars@.skip(i as int)),
        i + count <= chars@.len(),
{
    let left: usize = chars.len() - i;
    if left >= 6 && chars[i] == 'v' && chars[i + 1] == 'a' && chars[i + 2] == 'l' && chars[i + 3]
        == 'u' && chars[i + 4] == 'e' && chars[i + 5] == ':' {
        6
    } else if left >= 4 && chars[i] == 'g' && chars[i + 1] == 'o' && chars[i + 2] == 't'
        && chars[i + 3] == ':' {
        4
    } else {
        0
    }
}

fn sign_at(chars: &Vec<char>, i: usize) -> (count: usize)
    requires
        i <= chars@.len(),
    ensures
        count == sign(chars@.skip(i as int)),
        i + count <= chars@.len(),
{
    if i < chars.len() && (chars[i] == '+' || chars[i] == '-') {
        1
    } else {
        0
    }
}

fn exponent_at(chars: &Vec<char>, i: usize) -> (count: usize)
    requires
        i <= chars@.len(),
    ensures
        count == exponent(chars@.skip(i as int)),
        i + count <= chars@.len(),
{
    if i == chars.len() || (chars[i] != 'e' && chars[i] != 'E') {
        return 0;
    }
    let ghost t = chars@.skip(i as int);
    assert(t.skip(1) =~= chars@.skip(i + 1));
    let k: usize = 1 + sign_at(chars, i + 1);
    assert(t.skip(k as int) =~= chars@.skip(i + k));
    let count: usize = run_at(chars, i + k, Class::Digit);
    if count > 0 && !opens_at(chars, i + k) {
        k + count
    } else {
        0
    }
}

fn extent_at(chars: &Vec<char>, i: usize) -> (count: usize)
    requires
        i <= chars@.len(),
    ensures
        count == extent(chars@.skip(i as int)),
        i + count <= chars@.len(),
{
    reveal(extent);
    if i >= chars.len() {
        return 0;
    }
    let ghost t = chars@.skip(i as int);
    let whole: usize = run_at(chars, i, Class::Digit);
    if whole == 0 || addressed_at(chars, i) || dated_at(chars, i) || clocked_at(chars, i) {
        return 0;
    }
    let digits: usize = run_at(chars, i, Class::Hex);
    if digits >= 32 && whole < digits {
        return 0;
    }
    assert(t.skip(whole as int) =~= chars@.skip(i + whole));
    let places: usize = whole + fraction_at(chars, i + whole);
    assert(t.skip(places as int) =~= chars@.skip(i + places));
    places + exponent_at(chars, i + places)
}

fn number_at(chars: &Vec<char>, i: usize) -> (count: usize)
    requires
        i <= chars@.len(),
    ensures
        count == number(chars@.skip(i as int)),
        i + count <= chars@.len(),
{
    reveal(number);
    reveal(extent);
    if i >= chars.len() {
        return 0;
    }
    let ghost t = chars@.skip(i as int);
    let blank: usize = run_at(chars, i, Class::Space);
    assert(t.skip(blank as int) =~= chars@.skip(i + blank));
    let first: usize = blank + sign_at(chars, i + blank);
    assert(t.skip(first as int) =~= chars@.skip(i + first));
    let count: usize = extent_at(chars, i + first);
    if count == 0 {
        0
    } else {
        first + count
    }
}

fn push_range(out: &mut Vec<char>, chars: &Vec<char>, start: usize, end: usize)
    requires
        start <= end <= chars@.len(),
    ensures
        final(out)@ == old(out)@ + chars@.subrange(start as int, end as int),
{
    let mut i: usize = start;
    while i < end
        invariant
            start <= i <= end <= chars@.len(),
            out@ =~= old(out)@ + chars@.subrange(start as int, i as int),
        decreases end - i,
    {
        out.push(chars[i]);
        i = i + 1;
    }
}

/// Writes the token at `i` and returns where the next one starts.
fn rewrite_token(out: &mut Vec<char>, chars: &Vec<char>, i: usize) -> (next: usize)
    requires
        i < chars@.len(),
    ensures
        next == i + token(chars@.skip(i as int)).1,
        i < next <= chars@.len(),
        final(out)@ == old(out)@ + token(chars@.skip(i as int)).0,
{
    let ghost t = chars@.skip(i as int);
    proof {
        token_bound(t);
    }
    if chars.len() - i >= 2 && addressed_at(chars, i) {
        assert(t.skip(2) =~= chars@.skip(i + 2));
        let count: usize = run_at(chars, i + 2, Class::Hex);
        let mut word: Vec<char> = vec!['0', 'x', 'A', 'D', 'D', 'R'];
        assert(word@ =~= token(t).0);
        out.append(&mut word);
        return i + 2 + count;
    }
    let numbered: usize = line_at(chars, i);
    if numbered > 0 {
        let mut word: Vec<char> = vec![':', 'L', 'I', 'N', 'E'];
        assert(word@ =~= token(t).0);
        out.append(&mut word);
        return i + numbered;
    }
    let named: usize = label_at(chars, i);
    if named > 0 {
        assert(t.skip(named as int) =~= chars@.skip(i + named));
        let count: usize = number_at(chars, i + named);
        if count > 0 {
            push_range(out, chars, i, i + named);
            let mut word: Vec<char> = vec![' ', 'V', 'A', 'L', 'U', 'E'];
            assert(chars@.subrange(i as int, i + named) =~= t.take(named as int));
            assert(word@ =~= seq![' ', 'V', 'A', 'L', 'U', 'E']);
            out.append(&mut word);
            assert(out@ =~= old(out)@ + token(t).0);
            return i + named + count;
        }
    }
    let timed: usize = stamp_at(chars, i);
    if timed > 0 {
        let mut word: Vec<char> = vec!['T', 'I', 'M', 'E'];
        assert(word@ =~= token(t).0);
        out.append(&mut word);
        return i + timed;
    }
    let count: usize = run_at(chars, i, Class::Hex);
    if count >= 32 {
        let mut word: Vec<char> = vec!['H', 'A', 'S', 'H'];
        assert(word@ =~= token(t).0);
        out.append(&mut word);
        i + count
    } else if count > 0 {
        push_range(out, chars, i, i + count);
        assert(chars@.subrange(i as int, i + count) =~= t.take(count as int));
        i + count
    } else {
        let letters: usize = named_at(chars, i);
        let end: usize = if letters > 0 {
            i + letters
        } else {
            i + 1
        };
        push_range(out, chars, i, end);
        assert(chars@.subrange(i as int, end as int) =~= t.take(end - i));
        end
    }
}

fn rewrite(chars: &Vec<char>) -> (out: Vec<char>)
    ensures
        out@ == rewritten(chars@),
{
    let mut out: Vec<char> = Vec::new();
    let mut i: usize = 0;
    assert(chars@.skip(0) =~= chars@);
    assert(out@ + rewritten(chars@) =~= rewritten(chars@));
    while i < chars.len()
        invariant
            i <= chars@.len(),
            out@ + rewritten(chars@.skip(i as int)) == rewritten(chars@),
        decreases chars@.len() - i,
    {
        let ghost t = chars@.skip(i as int);
        let ghost before = out@;
        let next: usize = rewrite_token(&mut out, chars, i);
        assert(t.skip(token(t).1 as int) =~= chars@.skip(next as int));
        assert(out@ + rewritten(chars@.skip(next as int)) =~= before + rewritten(t));
        i = next;
    }
    assert(out@ + rewritten(chars@.skip(i as int)) =~= out@);
    out
}

fn collapse(chars: &Vec<char>) -> (out: Vec<char>)
    ensures
        out@ == collapsed(chars@),
{
    let mut out: Vec<char> = Vec::new();
    let mut prev_space: bool = false;
    let mut i: usize = 0;
    while i < chars.len()
        invariant
            i <= chars@.len(),
            out@ == collapsed(chars@.take(i as int)),
            prev_space == (i > 0 && is_space(chars@[i - 1])),
        decreases chars@.len() - i,
    {
        let c: char = chars[i];
        assert(chars@.take(i + 1).drop_last() =~= chars@.take(i as int));
        if space(c) {
            if !prev_space {
                out.push(' ');
            }
            prev_space = true;
        } else {
            out.push(c);
            prev_space = false;
        }
        i = i + 1;
    }
    assert(chars@.take(i as int) =~= chars@);
    out
}

fn trim(chars: &Vec<char>) -> (out: Vec<char>)
    ensures
        out@ == trimmed(chars@),
{
    assert(chars@.skip(0) =~= chars@);
    let start: usize = run_at(chars, 0, Class::Space);
    let mut end: usize = chars.len();
    assert(chars@.subrange(start as int, end as int) =~= chars@.skip(start as int));
    while end > start && space(chars[end - 1])
        invariant
            start <= end <= chars@.len(),
            trimmed_end(chars@.subrange(start as int, end as int)) == trimmed(chars@),
        decreases end,
    {
        assert(chars@.subrange(start as int, end as int).drop_last() =~= chars@.subrange(
            start as int,
            end - 1,
        ));
        end = end - 1;
    }
    let mut out: Vec<char> = Vec::new();
    push_range(&mut out, chars, start, end);
    assert(out@ =~= chars@.subrange(start as int, end as int));
    out
}

/// Replaces what varies from run to run in an error text.
pub fn normalise_error(error: &str) -> (text: String)
    ensures
        text@ == normalised(error@),
{
    let chars: Vec<char> = chars_of(error);
    let scanned: Vec<char> = rewrite(&chars);
    let single: Vec<char> = collapse(&scanned);
    let bare: Vec<char> = trim(&single);
    string_of(bare.as_slice())
}

/// White space occurs as single blanks only.
pub open spec fn single_blanks(t: Seq<char>) -> bool {
    &&& forall|i: int| 0 <= i < t.len() && is_space(#[trigger] t[i]) ==> t[i] == ' '
    &&& forall|i: int, j: int|
        0 <= i < t.len() && j == i + 1 && j < t.len() ==> !(is_space(#[trigger] t[i]) && is_space(
            #[trigger] t[j],
        ))
}

proof fn collapsed_single_blanks(t: Seq<char>)
    ensures
        single_blanks(collapsed(t)),
        (collapsed(t).len() > 0 && is_space(collapsed(t).last())) <==> (t.len() > 0 && is_space(
            t.last(),
        )),
    decreases t.len(),
{
    if t.len() > 0 {
        collapsed_single_blanks(t.drop_last());
    }
}

proof fn trimmed_end_prefix(t: Seq<char>)
    ensures
        trimmed_end(t).len() <= t.len(),
        trimmed_end(t) == t.take(trimmed_end(t).len() as int),
        trimmed_end(t).len() > 0 ==> !is_space(trimmed_end(t).last()),
    decreases t.len(),
{
    if t.len() > 0 && is_space(t.last()) {
        trimmed_end_prefix(t.drop_last());
        assert(t.take(trimmed_end(t).len() as int) =~= t.drop_last().take(
            trimmed_end(t).len() as int,
        ));
    } else {
        assert(t.take(t.len() as int) =~= t);
    }
}

proof fn run_ends(t: Seq<char>, class: Class)
    ensures
        run(t, class) <= t.len(),
        run(t, class) < t.len() ==> !in_class(t[run(t, class) as int], class),
    decreases t.len(),
{
    if t.len() > 0 && in_class(t[0], class) {
        run_ends(t.skip(1), class);
    }
}

/// A normal form neither starts nor ends with white space, and holds no white
/// space but single blanks.
pub proof fn normal_form_is_tidy(error: Seq<char>)
    ensures
        single_blanks(normalised(error)),
        normalised(error).len() > 0 ==> !is_space(normalised(error)[0]) && !is_space(
            normalised(error).last(),
        ),
{
    let c = collapsed(rewritten(error));
    let t = c.skip(run(c, Class::Space) as int);
    collapsed_single_blanks(rewritten(error));
    run_ends(c, Class::Space);
    trimmed_end_prefix(t);
    let n = normalised(error);
    assert forall|i: int| 0 <= i < n.len() implies #[trigger] n[i] == c[i + run(
        c,
        Class::Space,
    )] by {}
}

}
