//! The shapes of numbers and times, character by character: each of them is read as
//! what it is, and so is noise.
use crate::noise::{
    all_in, awaits_value, is_mark, is_value, leaves, line_number_is_noise, no_time_reaches,
    reported, reported_value_is_noise, run_of, time_is_noise,
};
use crate::normalise::{
    clocked, dated, exponent, extent, fraction, hours, in_class, is_digit, is_hex, is_space,
    normalised, opens_word, run, sign, stamp, Class,
};
use vstd::prelude::*;

verus! {

/// What follows goes on with no number, no time and no word of hexadecimal digits.
pub open spec fn quiet(rest: Seq<char>) -> bool {
    rest.len() > 0 ==> {
        &&& !is_hex(rest[0])
        &&& rest[0] != 'x' && rest[0] != '.' && rest[0] != ':' && rest[0] != '-'
    }
}

/// Some decimal digits, and not so many that they could be a hash.
pub open spec fn some_digits(word: Seq<char>) -> bool {
    0 < word.len() < 32 && all_in(word, Class::Digit)
}

proof fn run_at_most(word: Seq<char>, rest: Seq<char>, class: Class)
    requires
        leaves(rest, class),
    ensures
        run(word + rest, class) <= word.len(),
    decreases word.len(),
{
    let t = word + rest;
    if word.len() == 0 {
        assert(t =~= rest);
    } else {
        assert(t.skip(1) =~= word.skip(1) + rest);
        run_at_most(word.skip(1), rest, class);
    }
}

/// Digits open no word of their own unless what follows makes them one.
proof fn digits_open_nothing(word: Seq<char>, tail: Seq<char>)
    requires
        some_digits(word),
        leaves(tail, Class::Digit),
        tail.len() > 0 ==> tail[0] != 'x' && tail[0] != ':' && tail[0] != '-',
        run(word + tail, Class::Hex) < 32,
    ensures
        !opens_word(word + tail),
        run(word + tail, Class::Digit) == word.len(),
        is_digit((word + tail)[0]),
{
    reveal(dated);
    reveal(clocked);
    let t = word + tail;
    run_of(word, tail, Class::Digit);
    assert(forall|i: int| 0 <= i < word.len() ==> #[trigger] t[i] == word[i]);
    assert(in_class(word[0], Class::Digit));
    assert(word.len() > 1 ==> in_class(word[1], Class::Digit));
    assert(word.len() > 2 ==> in_class(word[2], Class::Digit));
    assert(word.len() > 4 ==> in_class(word[4], Class::Digit));
    if tail.len() > 0 {
        assert(t[word.len() as int] == tail[0]);
    }
}

/// The decimal places of a number, with their point.
pub open spec fn places_text(places: Seq<char>) -> Seq<char> {
    if places.len() == 0 {
        places
    } else {
        seq!['.'] + places
    }
}

/// The exponent of a number, with its letter and its sign.
pub open spec fn power_text(capital: bool, mark: Seq<char>, power: Seq<char>) -> Seq<char> {
    if power.len() == 0 {
        power
    } else {
        seq![if capital {
            'E'
        } else {
            'e'
        }] + mark + power
    }
}

proof fn exponent_reads(capital: bool, mark: Seq<char>, power: Seq<char>, rest: Seq<char>)
    requires
        is_mark(mark),
        power.len() == 0 || some_digits(power),
        quiet(rest),
    ensures
        exponent(power_text(capital, mark, power) + rest) == power_text(
            capital,
            mark,
            power,
        ).len(),
{
    let t = power_text(capital, mark, power) + rest;
    if power.len() == 0 {
        assert(t =~= rest);
    } else {
        let k = 1 + mark.len() as int;
        assert(t[0] == 'e' || t[0] == 'E');
        assert(in_class(power[0], Class::Digit));
        assert(t.skip(1) =~= mark + power + rest);
        assert(t.skip(1)[0] == if mark.len() > 0 {
            mark[0]
        } else {
            power[0]
        });
        assert(sign(t.skip(1)) == mark.len());
        assert(t.skip(k) =~= power + rest);
        run_at_most(power, rest, Class::Hex);
        digits_open_nothing(power, rest);
    }
}

proof fn fraction_reads(places: Seq<char>, tail: Seq<char>)
    requires
        places.len() == 0 || some_digits(places),
        leaves(tail, Class::Digit),
        tail.len() > 0 ==> tail[0] != 'x' && tail[0] != ':' && tail[0] != '-' && tail[0] != '.',
        run(places + tail, Class::Hex) < 32,
    ensures
        fraction(places_text(places) + tail) == places_text(places).len(),
{
    let t = places_text(places) + tail;
    if places.len() == 0 {
        assert(t =~= tail);
    } else {
        assert(t[0] == '.' && t[1] == places[0]);
        assert(in_class(places[0], Class::Digit));
        assert(t.skip(1) =~= places + tail);
        digits_open_nothing(places, tail);
    }
}

/// A number in decimal digits, with decimal places and an exponent or without, is
/// read as a value.
pub proof fn decimal_numbers_are_values(
    whole: Seq<char>,
    places: Seq<char>,
    capital: bool,
    mark: Seq<char>,
    power: Seq<char>,
    rest: Seq<char>,
)
    requires
        some_digits(whole),
        places.len() == 0 || some_digits(places),
        power.len() == 0 || some_digits(power),
        is_mark(mark),
        whole.len() + places.len() + power.len() < 29,
        quiet(rest),
    ensures
        is_value(whole + places_text(places) + power_text(capital, mark, power), rest),
{
    reveal(extent);
    let end = power_text(capital, mark, power) + rest;
    let mid = places_text(places) + end;
    let word = whole + places_text(places) + power_text(capital, mark, power);
    let t = word + rest;
    assert(t =~= whole + mid);
    assert(end.len() > 0 ==> end[0] == if power.len() > 0 {
        if capital {
            'E'
        } else {
            'e'
        }
    } else {
        rest[0]
    });
    assert(mid.len() > 0 ==> mid[0] == if places.len() > 0 {
        '.'
    } else {
        end[0]
    });
    let tail = power_text(capital, mark, power);
    assert(places + end =~= (places + tail) + rest);
    run_at_most(places + tail, rest, Class::Hex);
    fraction_reads(places, end);
    exponent_reads(capital, mark, power, rest);
    run_at_most(word, rest, Class::Hex);
    digits_open_nothing(whole, mid);
    assert(t.skip(whole.len() as int) =~= mid);
    let n = (whole.len() + places_text(places).len()) as int;
    assert(t.skip(n) =~= end);
}

/// Digits before letters are read as a value, unless the letters make them an
/// exponent, an address or a hash.
pub proof fn digits_before_letters_are_values(whole: Seq<char>, rest: Seq<char>)
    requires
        some_digits(whole),
        rest.len() > 0,
        'a' <= rest[0] <= 'z' || 'A' <= rest[0] <= 'Z',
        rest[0] != 'e' && rest[0] != 'E' && rest[0] != 'x',
        run(whole + rest, Class::Hex) < 32,
    ensures
        is_value(whole, rest),
{
    reveal(extent);
    digits_open_nothing(whole, rest);
    assert((whole + rest).skip(whole.len() as int) =~= rest);
}

/// Any number of decimal digits is read as a value.
pub proof fn long_numbers_are_values(whole: Seq<char>, rest: Seq<char>)
    requires
        whole.len() > 4,
        all_in(whole, Class::Digit),
        quiet(rest),
    ensures
        is_value(whole, rest),
{
    reveal(extent);
    reveal(dated);
    reveal(clocked);
    let t = whole + rest;
    run_of(whole, rest, Class::Digit);
    assert(all_in(whole, Class::Hex)) by {
        assert forall|i: int| 0 <= i < whole.len() implies in_class(
            #[trigger] whole[i],
            Class::Hex,
        ) by {
            assert(in_class(whole[i], Class::Digit));
        }
    }
    run_of(whole, rest, Class::Hex);
    assert(forall|i: int| 0 <= i < whole.len() ==> #[trigger] t[i] == whole[i]);
    assert(in_class(whole[0], Class::Digit) && in_class(whole[1], Class::Digit) && in_class(
        whole[2],
        Class::Digit,
    ) && in_class(whole[4], Class::Digit));
    assert(t.skip(whole.len() as int) =~= rest);
}

/// The text `dddd-dd-dd`.
pub open spec fn is_date(w: Seq<char>) -> bool {
    &&& w.len() == 10
    &&& is_digit(w[0]) && is_digit(w[1]) && is_digit(w[2]) && is_digit(w[3])
    &&& w[4] == '-' && is_digit(w[5]) && is_digit(w[6])
    &&& w[7] == '-' && is_digit(w[8]) && is_digit(w[9])
}

/// One digit or two.
pub open spec fn is_hour(w: Seq<char>) -> bool {
    1 <= w.len() <= 2 && all_in(w, Class::Digit)
}

/// Two digits.
pub open spec fn is_pair(w: Seq<char>) -> bool {
    w.len() == 2 && is_digit(w[0]) && is_digit(w[1])
}

/// The text of a clock time with seconds and their fraction.
pub open spec fn clock_text(
    hour: Seq<char>,
    minute: Seq<char>,
    second: Seq<char>,
    places: Seq<char>,
) -> Seq<char> {
    hour + seq![':'] + minute + seq![':'] + second + places_text(places)
}

/// A clock time `d:dd:dd` or `dd:dd:dd`, with a fraction of a second or without.
pub open spec fn is_clock(w: Seq<char>) -> bool {
    exists|hour: Seq<char>, minute: Seq<char>, second: Seq<char>, places: Seq<char>|
        {
            &&& w == #[trigger] clock_text(hour, minute, second, places)
            &&& is_hour(hour) && is_pair(minute) && is_pair(second)
            &&& places.len() == 0 || some_digits(places)
        }
}

/// A clock time `d:dd` or `dd:dd`.
pub open spec fn is_short_clock(w: Seq<char>) -> bool {
    ||| w.len() == 4 && is_digit(w[0]) && w[1] == ':' && is_digit(w[2]) && is_digit(w[3])
    ||| w.len() == 5 && is_digit(w[0]) && is_digit(w[1]) && w[2] == ':' && is_digit(w[3])
        && is_digit(w[4])
}

/// A date is read as a time.
pub proof fn dates_are_times(w: Seq<char>, rest: Seq<char>)
    requires
        is_date(w),
        quiet(rest),
    ensures
        stamp(w + rest) == w.len(),
        dated(w + rest),
{
    reveal(stamp);
    reveal(dated);
    let t = w + rest;
    assert(forall|i: int| 0 <= i < w.len() ==> #[trigger] t[i] == w[i]);
    if rest.len() > 0 {
        assert(t[10] == rest[0]);
    }
    assert(t.skip(8) =~= w.skip(8) + rest);
    run_at_most(w.skip(8), rest, Class::Hex);
}

/// A clock time with seconds is read as a time.
pub proof fn clocks_are_times(w: Seq<char>, rest: Seq<char>)
    requires
        is_clock(w),
        quiet(rest),
    ensures
        stamp(w + rest) == w.len(),
        clocked(w + rest),
{
    let (hour, minute, second, places) = choose|
        hour: Seq<char>,
        minute: Seq<char>,
        second: Seq<char>,
        places: Seq<char>,
    |
        {
            &&& w == #[trigger] clock_text(hour, minute, second, places)
            &&& is_hour(hour) && is_pair(minute) && is_pair(second)
            &&& places.len() == 0 || some_digits(places)
        };
    reveal(stamp);
    reveal(dated);
    reveal(clocked);
    let t = w + rest;
    let h = hour.len() as int;
    let tail = places_text(places) + rest;
    assert(in_class(hour[0], Class::Digit));
    assert(h == 2 ==> in_class(hour[1], Class::Digit));
    assert(t[0] == hour[0]);
    assert(h == 2 ==> t[1] == hour[1]);
    assert(t[h] == ':');
    assert(t[h + 1] == minute[0] && t[h + 2] == minute[1]);
    assert(t[h + 3] == ':');
    assert(t[h + 4] == second[0] && t[h + 5] == second[1]);
    assert(hours(t) == h);
    assert(t.skip(h + 6) =~= tail);
    assert(tail.len() > 0 ==> tail[0] == if places.len() > 0 {
        '.'
    } else {
        rest[0]
    });
    assert(t.len() > h + 6 ==> t[h + 6] == tail[0]);
    assert(t.skip(h + 4) =~= second + tail);
    run_at_most(second, tail, Class::Hex);
    run_at_most(places, rest, Class::Hex);
    fraction_reads(places, rest);
}

/// A clock time without seconds is read as a time.
pub proof fn short_clocks_are_times(w: Seq<char>, rest: Seq<char>)
    requires
        is_short_clock(w),
        quiet(rest),
    ensures
        stamp(w + rest) == w.len(),
{
    reveal(stamp);
    reveal(dated);
    reveal(clocked);
    let t = w + rest;
    let h = w.len() - 3;
    assert(forall|i: int| 0 <= i < w.len() ==> #[trigger] t[i] == w[i]);
    let minute = w.skip(h + 1);
    assert(all_in(minute, Class::Digit)) by {
        assert(minute[0] == w[h + 1] && minute[1] == w[h + 2]);
    }
    assert(hours(t) == h);
    if rest.len() > 0 {
        assert(t[w.len() as int] == rest[0]);
    }
    assert(t.skip(h).skip(1) =~= minute + rest);
    assert(t.skip(h)[0] == ':' && t.skip(h)[1] == minute[0]);
    run_at_most(minute, rest, Class::Hex);
    digits_open_nothing(minute, rest);
}

/// A date or a clock time.
pub open spec fn is_time(w: Seq<char>) -> bool {
    is_date(w) || is_clock(w) || is_short_clock(w)
}

/// Behind white space, or at the start, a date or a clock time reads as any other
/// does, unless a label stands before the white space.
pub proof fn dates_and_clocks_are_noise(
    head: Seq<char>,
    one: Seq<char>,
    other: Seq<char>,
    rest: Seq<char>,
)
    requires
        head.len() == 0 || is_space(head.last()),
        !awaits_value(head),
        is_time(one),
        is_time(other),
        quiet(rest),
    ensures
        normalised(head + (one + rest)) == normalised(head + (other + rest)),
{
    time_reads(one, rest);
    time_reads(other, rest);
    time_is_noise(head, one, other, rest);
}

proof fn time_reads(w: Seq<char>, rest: Seq<char>)
    requires
        is_time(w),
        quiet(rest),
    ensures
        w.len() > 0,
        stamp(w + rest) == w.len(),
{
    if is_date(w) {
        dates_are_times(w, rest);
    } else if is_clock(w) {
        clocks_are_times(w, rest);
    } else {
        short_clocks_are_times(w, rest);
    }
}

/// A number of decimal digits behind a label reads as any other does, whatever
/// stands before the label.
pub proof fn reported_numbers_are_noise(
    head: Seq<char>,
    got: bool,
    blank: Seq<char>,
    one_mark: Seq<char>,
    one: Seq<char>,
    one_places: Seq<char>,
    other_mark: Seq<char>,
    other: Seq<char>,
    other_places: Seq<char>,
    rest: Seq<char>,
)
    requires
        all_in(blank, Class::Space),
        is_mark(one_mark),
        is_mark(other_mark),
        some_digits(one),
        some_digits(other),
        one_places.len() == 0 || some_digits(one_places),
        other_places.len() == 0 || some_digits(other_places),
        one.len() + one_places.len() < 29,
        other.len() + other_places.len() < 29,
        quiet(rest),
    ensures
        normalised(head + (reported(got, blank, one_mark, one + places_text(one_places)) + rest))
            == normalised(
            head + (reported(got, blank, other_mark, other + places_text(other_places)) + rest),
        ),
{
    let none = Seq::<char>::empty();
    decimal_numbers_are_values(one, one_places, false, none, none, rest);
    decimal_numbers_are_values(other, other_places, false, none, none, rest);
    let a = one + places_text(one_places);
    let b = other + places_text(other_places);
    assert(a + power_text(false, none, none) =~= a);
    assert(b + power_text(false, none, none) =~= b);
    reported_value_is_noise(head, got, blank, one_mark, a, blank, other_mark, b, rest);
}

/// Behind a character that is no digit, unless it ends the name of a label, a line
/// number reads as any other does.
pub proof fn line_numbers_are_noise(
    head: Seq<char>,
    one: Seq<char>,
    other: Seq<char>,
    rest: Seq<char>,
)
    requires
        head.len() > 0,
        !is_digit(head.last()),
        head.last() != 'e' && head.last() != 't',
        some_digits(one),
        some_digits(other),
        quiet(rest),
    ensures
        normalised(head + (seq![':'] + one + rest)) == normalised(
            head + (seq![':'] + other + rest),
        ),
{
    run_at_most(one, rest, Class::Hex);
    run_at_most(other, rest, Class::Hex);
    digits_open_nothing(one, rest);
    digits_open_nothing(other, rest);
    colon_cuts_times(head, seq![':'] + one + rest);
    colon_cuts_times(head, seq![':'] + other + rest);
    let called = head.push(':');
    assert(called.len() >= 6 ==> called.skip(called.len() - 6)[4] == head.last());
    assert(called.len() >= 4 ==> called.skip(called.len() - 4)[2] == head.last());
    line_number_is_noise(head, one, other, rest);
}

proof fn colon_cuts_times(head: Seq<char>, rest: Seq<char>)
    requires
        head.len() > 0,
        !is_digit(head.last()),
        rest.len() > 0,
        rest[0] == ':',
    ensures
        no_time_reaches(head, rest),
{
    reveal(dated);
    reveal(clocked);
    assert forall|k: int| 0 <= k < head.len() implies {
        &&& dated(#[trigger] head.skip(k) + rest) == dated(head.skip(k))
        &&& clocked(head.skip(k) + rest) == clocked(head.skip(k))
    } by {
        let p = head.skip(k);
        let t = p + rest;
        assert(p.last() == head.last());
        assert(forall|i: int| 0 <= i < p.len() ==> #[trigger] t[i] == p[i]);
        assert(t[p.len() as int] == ':');
        assert(t[p.len() - 1] == p.last());
        assert(hours(t) == hours(p));
        let h = hours(p) as int;
        if p.len() >= 8 {
            assert(t.skip(8) =~= p.skip(8) + rest);
            crate::noise::run_local(p.skip(8), rest, Class::Hex);
        }
        if p.len() >= h + 4 {
            assert(t.skip(h + 4) =~= p.skip(h + 4) + rest);
            crate::noise::run_local(p.skip(h + 4), rest, Class::Hex);
        }
    }
}

}
