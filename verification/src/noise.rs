//! What normalisation takes for noise: texts that differ only in an address, a line
//! number, a hash, a reported value or a time have one normal form.
use crate::normalise::{
    addressed, clocked, dated, exponent, extent, fraction, hashed, hours, in_class, is_digit,
    is_hex, is_letter, is_sign, is_space, label, line, named, normalised, number, opens_word,
    rewritten, run, run_bound, sign, stamp, token, token_bound, trimmed_end, Class,
};
use vstd::prelude::*;

verus! {

/// All characters of `t` belong to the class.
pub open spec fn all_in(t: Seq<char>, class: Class) -> bool {
    forall|i: int| 0 <= i < t.len() ==> in_class(#[trigger] t[i], class)
}

/// `rest` does not go on with the class.
pub open spec fn leaves(rest: Seq<char>, class: Class) -> bool {
    rest.len() == 0 || !in_class(rest[0], class)
}

/// A run of a word that what follows does not go on with is the word.
pub proof fn run_of(word: Seq<char>, rest: Seq<char>, class: Class)
    requires
        all_in(word, class),
        leaves(rest, class),
    ensures
        run(word + rest, class) == word.len(),
    decreases word.len(),
{
    let t = word + rest;
    if word.len() == 0 {
        assert(t =~= rest);
    } else {
        assert(t.skip(1) =~= word.skip(1) + rest);
        assert(t[0] == word[0]);
        run_of(word.skip(1), rest, class);
    }
}

/// The scanner reads `head` with `rest` behind it as it reads `head` on its own:
/// no token reaches from one into the other.
pub open spec fn stands_alone(head: Seq<char>, rest: Seq<char>) -> bool
    decreases head.len(),
{
    head.len() > 0 ==> {
        proof {
            token_bound(head);
        }
        &&& token(head + rest) == token(head)
        &&& stands_alone(head.skip(token(head).1 as int), rest)
    }
}

/// A text that stands alone is rewritten apart from what follows it.
pub proof fn rewritten_splits(head: Seq<char>, rest: Seq<char>)
    requires
        stands_alone(head, rest),
    ensures
        rewritten(head + rest) == rewritten(head) + rewritten(rest),
    decreases head.len(),
{
    if head.len() == 0 {
        assert(head + rest =~= rest);
        assert(rewritten(head) + rewritten(rest) =~= rewritten(rest));
    } else {
        let t = head + rest;
        token_bound(head);
        let n = token(head).1 as int;
        assert(t.skip(n) =~= head.skip(n) + rest);
        rewritten_splits(head.skip(n), rest);
        assert(rewritten(t) =~= rewritten(head) + rewritten(rest));
    }
}

/// The text ends with `value:` or `got:`.
pub open spec fn ends_with_label(t: Seq<char>) -> bool {
    ||| t.len() >= 6 && label(t.skip(t.len() - 6)) == 6
    ||| t.len() >= 4 && label(t.skip(t.len() - 4)) == 4
}

/// A run at the start of a text is the same before anything that does not go on with
/// it.
pub proof fn run_local(head: Seq<char>, rest: Seq<char>, class: Class)
    requires
        run(head, class) < head.len() || leaves(rest, class),
    ensures
        run(head + rest, class) == run(head, class),
    decreases head.len(),
{
    if head.len() == 0 {
        assert(head + rest =~= rest);
    } else if in_class(head[0], class) {
        assert((head + rest).skip(1) =~= head.skip(1) + rest);
        run_local(head.skip(1), rest, class);
    }
}

proof fn run_stops(t: Seq<char>, class: Class)
    requires
        t.len() > 0,
        !in_class(t.last(), class),
    ensures
        run(t, class) < t.len(),
    decreases t.len(),
{
    if in_class(t[0], class) {
        assert(t.skip(1).len() > 0);
        assert(t.skip(1).last() == t.last());
        run_stops(t.skip(1), class);
    }
}

/// Runs at any place in `head` end within it, if its last character does not
/// belong to the class.
proof fn run_within(head: Seq<char>, rest: Seq<char>, from: int, class: Class)
    requires
        0 <= from < head.len(),
        !in_class(head.last(), class),
    ensures
        run(head.skip(from), class) < head.len() - from,
        run((head + rest).skip(from), class) == run(head.skip(from), class),
{
    assert((head + rest).skip(from) =~= head.skip(from) + rest);
    run_stops(head.skip(from), class);
    run_local(head.skip(from), rest, class);
}

proof fn trimmed_end_at(t: Seq<char>, k: int)
    requires
        0 <= k < t.len(),
        !is_space(t[k]),
        forall|i: int| k < i < t.len() ==> is_space(#[trigger] t[i]),
    ensures
        trimmed_end(t) == t.take(k + 1),
    decreases t.len(),
{
    if k + 1 < t.len() {
        trimmed_end_at(t.drop_last(), k);
        assert(t.drop_last().take(k + 1) =~= t.take(k + 1));
    } else {
        assert(t.take(k + 1) =~= t);
    }
}

/// All characters of a run belong to the class.
pub proof fn run_has_members(t: Seq<char>, class: Class)
    ensures
        forall|i: int| 0 <= i < run(t, class) ==> in_class(#[trigger] t[i], class),
    decreases t.len(),
{
    run_bound(t, class);
    if t.len() > 0 && in_class(t[0], class) {
        run_has_members(t.skip(1), class);
        assert forall|i: int| 0 <= i < run(t, class) implies in_class(#[trigger] t[i], class) by {
            if i > 0 {
                assert(t[i] == t.skip(1)[i - 1]);
            }
        }
    }
}

proof fn trimmed_end_suffix(t: Seq<char>, n: int)
    requires
        0 <= n <= t.len(),
    ensures
        trimmed_end(t.skip(n)).len() > 0 ==> n <= trimmed_end(t).len() && trimmed_end(t.skip(n))
            == trimmed_end(t).skip(n),
    decreases t.len(),
{
    if n < t.len() {
        assert(t.skip(n).last() == t.last());
        if is_space(t.last()) {
            assert(t.skip(n).drop_last() =~= t.drop_last().skip(n));
            trimmed_end_suffix(t.drop_last(), n);
        }
    }
}

proof fn label_suffix(t: Seq<char>, n: int)
    requires
        0 <= n <= t.len(),
        ends_with_label(t.skip(n)),
    ensures
        ends_with_label(t),
{
    let part = t.skip(n);
    assert(part.len() < 6 || part.skip(part.len() - 6) =~= t.skip(t.len() - 6));
    assert(part.len() < 4 || part.skip(part.len() - 4) =~= t.skip(t.len() - 4));
}

/// The text ends with `value` or `got`.
pub open spec fn ends_with_name(t: Seq<char>) -> bool {
    ends_with_label(t.push(':'))
}

/// The text without a sign at its end.
pub open spec fn without_sign(t: Seq<char>) -> Seq<char> {
    if t.len() > 0 && is_sign(t.last()) {
        t.drop_last()
    } else {
        t
    }
}

/// The text ends with a label, or with one and white space and a sign, so that a
/// number behind it is a value.
pub open spec fn awaits_value(head: Seq<char>) -> bool {
    ends_with_label(trimmed_end(without_sign(head)))
}

/// The text may stand before a word of hexadecimal digits: it does not end with
/// such a digit, nor with the start of an address.
pub open spec fn before_word(head: Seq<char>) -> bool {
    let n = head.len() as int;
    n > 0 ==> {
        &&& !is_hex(head.last())
        &&& !(head.last() == 'x' && n >= 2 && head[n - 2] == '0')
    }
}

/// The text ends with a character that digits behind it belong to: a colon, a
/// letter, the point or the sign within a number.
pub open spec fn takes_digits(head: Seq<char>) -> bool {
    let n = head.len() as int;
    n > 0 && {
        let c = head.last();
        ||| c == ':'
        ||| is_letter(c)
        ||| c == '.' && n >= 2 && is_digit(head[n - 2])
        ||| is_sign(c) && n >= 2 && is_hex(head[n - 2])
    }
}

/// No date and no clock time reaches from `head` into `rest`.
pub open spec fn no_time_reaches(head: Seq<char>, rest: Seq<char>) -> bool {
    forall|k: int|
        0 <= k < head.len() ==> {
            &&& dated(#[trigger] head.skip(k) + rest) == dated(head.skip(k))
            &&& clocked(head.skip(k) + rest) == clocked(head.skip(k))
        }
}

/// No token reaches from `head` into `rest`, a word that starts with a hexadecimal
/// digit.
pub open spec fn may_precede(head: Seq<char>, rest: Seq<char>) -> bool {
    &&& before_word(head)
    &&& opens_word(rest) || !takes_digits(head)
    &&& no_time_reaches(head, rest)
    &&& extent(rest) > 0 ==> !awaits_value(head)
}

/// The start of a word that a text may precede.
spec fn starts_word(rest: Seq<char>) -> bool {
    &&& rest.len() >= 2
    &&& is_hex(rest[0])
    &&& is_digit(rest[0]) || is_hex(rest[1])
}

proof fn no_time_suffix(head: Seq<char>, rest: Seq<char>, n: int)
    requires
        0 <= n <= head.len(),
        no_time_reaches(head, rest),
    ensures
        no_time_reaches(head.skip(n), rest),
{
    let tail = head.skip(n);
    assert forall|k: int| 0 <= k < tail.len() implies {
        &&& dated(#[trigger] tail.skip(k) + rest) == dated(tail.skip(k))
        &&& clocked(tail.skip(k) + rest) == clocked(tail.skip(k))
    } by {
        assert(tail.skip(k) =~= head.skip(n + k));
    }
}

proof fn awaits_suffix(head: Seq<char>, n: int)
    requires
        0 <= n <= head.len(),
        awaits_value(head.skip(n)),
    ensures
        awaits_value(head),
{
    let whole = without_sign(head);
    let part = without_sign(head.skip(n));
    if n < head.len() {
        assert(head.skip(n).last() == head.last());
        assert(part =~= whole.skip(n));
        trimmed_end_suffix(whole, n);
        label_suffix(trimmed_end(whole), n);
    } else {
        assert(part.len() == 0);
        assert(trimmed_end(part) =~= part);
    }
}

proof fn may_precede_suffix(head: Seq<char>, rest: Seq<char>, n: int)
    requires
        0 <= n <= head.len(),
        may_precede(head, rest),
    ensures
        may_precede(head.skip(n), rest),
{
    no_time_suffix(head, rest, n);
    if n < head.len() {
        assert(head.skip(n).last() == head.last());
    }
    if awaits_value(head.skip(n)) {
        awaits_suffix(head, n);
    }
}

proof fn opens_apart(p: Seq<char>, rest: Seq<char>)
    requires
        p.len() > 0,
        may_precede(p, rest),
        starts_word(rest),
    ensures
        addressed(p + rest) == addressed(p),
        dated(p + rest) == dated(p),
        clocked(p + rest) == clocked(p),
        run(p + rest, Class::Hex) == run(p, Class::Hex) < p.len(),
        run(p + rest, Class::Digit) == run(p, Class::Digit) < p.len(),
        opens_word(p + rest) == opens_word(p),
{
    let t = p + rest;
    assert(t.skip(0) =~= t && p.skip(0) =~= p);
    run_within(p, rest, 0, Class::Hex);
    run_within(p, rest, 0, Class::Digit);
    assert(t[0] == p[0]);
    if p.len() >= 2 {
        assert(t[1] == p[1]);
    }
}

proof fn led_apart(p: Seq<char>, rest: Seq<char>)
    requires
        p.len() > 0,
        may_precede(p, rest),
        starts_word(rest),
    ensures
        line(p + rest) == line(p),
        named(p + rest) == named(p),
        p.len() >= 2 || p[0] != '.' || opens_word(rest) ==> fraction(p + rest) == fraction(p),
        fraction(p) < p.len(),
{
    let t = p + rest;
    assert(t[0] == p[0]);
    assert(t.skip(1) =~= p.skip(1) + rest);
    if p.len() >= 2 {
        assert(t[1] == p[1]);
        may_precede_suffix(p, rest, 1);
        opens_apart(p.skip(1), rest);
    } else {
        assert(t.skip(1) =~= rest);
        assert(p.last() == p[0]);
    }
}

proof fn stamp_apart(p: Seq<char>, rest: Seq<char>)
    requires
        p.len() > 0,
        may_precede(p, rest),
        starts_word(rest),
    ensures
        stamp(p + rest) == stamp(p),
{
    reveal(stamp);
    let t = p + rest;
    opens_apart(p, rest);
    assert(t[0] == p[0]);
    assert(p.len() >= 2 ==> t[1] == p[1]);
    assert(p[p.len() - 1] == p.last());
    assert(hours(t) == hours(p));
    let h = hours(p) as int;
    if clocked(p) {
        reveal(clocked);
        assert(p.len() >= h + 7);
        let q = p.skip(h + 6);
        assert(t.skip(h + 6) =~= q + rest);
        assert(q.last() == p.last());
        may_precede_suffix(p, rest, h + 6);
        if q.len() == 1 && q[0] == '.' {
            assert(p.last() == '.' && is_digit(p[p.len() - 2]));
        }
        led_apart(q, rest);
    }
    if h > 0 {
        assert(h < p.len());
        assert(t.skip(h) =~= p.skip(h) + rest);
        may_precede_suffix(p, rest, h);
        led_apart(p.skip(h), rest);
    }
}

proof fn exponent_apart(q: Seq<char>, rest: Seq<char>)
    requires
        q.len() > 0,
        may_precede(q, rest),
        starts_word(rest),
    ensures
        exponent(q + rest) == exponent(q),
{
    let t = q + rest;
    assert(t[0] == q[0]);
    assert(q[q.len() - 1] == q.last());
    if q[0] == 'e' || q[0] == 'E' {
        assert(q.len() >= 2);
        assert(t.skip(1) =~= q.skip(1) + rest);
        assert(t.skip(1)[0] == q.skip(1)[0]);
        let k = 1 + sign(q.skip(1)) as int;
        assert(t.skip(k) =~= q.skip(k) + rest);
        if k < q.len() {
            may_precede_suffix(q, rest, k);
            opens_apart(q.skip(k), rest);
        } else {
            assert(is_sign(q.last()) && is_hex(q[q.len() - 2]));
            assert(t.skip(k) =~= rest);
            assert(q.skip(k).len() == 0);
        }
    }
}

proof fn extent_apart(q: Seq<char>, rest: Seq<char>)
    requires
        q.len() > 0,
        may_precede(q, rest),
        starts_word(rest),
    ensures
        extent(q + rest) == extent(q),
{
    reveal(extent);
    let t = q + rest;
    opens_apart(q, rest);
    let whole = run(q, Class::Digit) as int;
    if whole > 0 {
        let a = q.skip(whole);
        assert(t.skip(whole) =~= a + rest);
        assert(a.last() == q.last());
        may_precede_suffix(q, rest, whole);
        run_has_members(q, Class::Digit);
        assert(in_class(q[whole - 1], Class::Digit));
        if a.len() == 1 && a[0] == '.' {
            assert(q.last() == '.' && is_digit(q[q.len() - 2]));
        }
        led_apart(a, rest);
        let places = whole + fraction(a) as int;
        assert(t.skip(places) =~= q.skip(places) + rest);
        may_precede_suffix(q, rest, places);
        exponent_apart(q.skip(places), rest);
    }
}

/// Nothing but white space and a sign.
spec fn only_blank(t: Seq<char>) -> bool {
    let blank = run(t, Class::Space);
    blank + sign(t.skip(blank as int)) == t.len()
}

proof fn number_apart(part: Seq<char>, rest: Seq<char>)
    requires
        may_precede(part, rest),
        starts_word(rest),
        only_blank(part) ==> extent(rest) == 0,
    ensures
        number(part + rest) == number(part),
{
    reveal(number);
    let t = part + rest;
    run_local(part, rest, Class::Space);
    run_bound(part, Class::Space);
    let blank = run(part, Class::Space) as int;
    let s = part.skip(blank);
    assert(t.skip(blank) =~= s + rest);
    assert(t.skip(blank)[0] == if s.len() > 0 {
        s[0]
    } else {
        rest[0]
    });
    assert(sign(s + rest) == sign(s));
    let first = blank + sign(s) as int;
    let q = part.skip(first);
    assert(t.skip(first) =~= q + rest);
    if q.len() > 0 {
        may_precede_suffix(part, rest, first);
        extent_apart(q, rest);
    } else {
        assert(t.skip(first) =~= rest);
        assert(extent(q) == 0) by {
            reveal(extent);
        }
    }
}

proof fn blank_after_label(head: Seq<char>)
    requires
        label(head) > 0,
        only_blank(head.skip(label(head) as int)),
    ensures
        awaits_value(head),
{
    let from = label(head) as int;
    let part = head.skip(from);
    let base = without_sign(head);
    let blank = run(part, Class::Space) as int;
    run_bound(part, Class::Space);
    run_has_members(part, Class::Space);
    assert(head[from - 1] == ':');
    if blank < part.len() {
        assert(part.skip(blank)[0] == part[blank]);
        assert(part.last() == head.last());
        assert(is_sign(head.last()));
    } else if part.len() > 0 {
        assert(in_class(part[blank - 1], Class::Space));
        assert(part.last() == head.last());
    } else {
        assert(head.last() == ':');
    }
    assert(base.len() == from + blank);
    assert forall|i: int| from - 1 < i < base.len() implies is_space(#[trigger] base[i]) by {
        assert(base[i] == part[i - from]);
        assert(in_class(part[i - from], Class::Space));
    }
    assert(base[from - 1] == ':');
    trimmed_end_at(base, from - 1);
    let w = base.take(from);
    assert(w.skip(0) =~= w);
    assert(label(w) == from);
}

proof fn label_apart(head: Seq<char>, rest: Seq<char>)
    requires
        head.len() > 0,
        starts_word(rest),
        !is_hex(head.last()),
    ensures
        label(head + rest) == label(head),
{
    let t = head + rest;
    assert(forall|i: int| 0 <= i < head.len() ==> #[trigger] t[i] == head[i]);
    assert(t[head.len() as int] == rest[0] && t[head.len() as int + 1] == rest[1]);
}

proof fn token_apart(head: Seq<char>, rest: Seq<char>)
    requires
        head.len() > 0,
        may_precede(head, rest),
        starts_word(rest),
    ensures
        token(head + rest) == token(head),
{
    let t = head + rest;
    opens_apart(head, rest);
    led_apart(head, rest);
    label_apart(head, rest);
    stamp_apart(head, rest);
    let from = label(head) as int;
    if from > 0 {
        let part = head.skip(from);
        may_precede_suffix(head, rest, from);
        if only_blank(part) {
            blank_after_label(head);
        }
        number_apart(part, rest);
        assert(t.skip(from) =~= part + rest);
        assert(t.take(from) =~= head.take(from));
    }
    if addressed(head) {
        assert(head[head.len() - 1] == head.last());
        assert(head.len() > 2);
        run_within(head, rest, 2, Class::Hex);
    }
    assert(t.take(run(head, Class::Hex) as int) =~= head.take(run(head, Class::Hex) as int));
    named_bound(head);
    assert(t.take(named(head) as int) =~= head.take(named(head) as int));
    assert(t.take(1) =~= head.take(1));
}

proof fn named_bound(t: Seq<char>)
    ensures
        named(t) <= t.len(),
{
    if t.len() >= 2 {
        run_bound(t.skip(1), Class::Digit);
    }
}

proof fn word_stands_apart(head: Seq<char>, rest: Seq<char>)
    requires
        may_precede(head, rest),
        starts_word(rest),
    ensures
        stands_alone(head, rest),
    decreases head.len(),
{
    if head.len() > 0 {
        token_apart(head, rest);
        token_bound(head);
        let n = token(head).1 as int;
        may_precede_suffix(head, rest, n);
        word_stands_apart(head.skip(n), rest);
    }
}

/// A character at which every token before it ends, other than a colon.
pub open spec fn breaks(c: char) -> bool {
    &&& !is_hex(c) && !is_space(c) && !is_sign(c)
    &&& c != ':' && c != '.' && c != 'x'
    &&& c != 'l' && c != 'u' && c != 'o' && c != 't'
}

/// No token but a clock time without seconds reaches from `head` into `rest`,
/// which starts with a colon or with a character at which every token ends.
spec fn cut(head: Seq<char>, rest: Seq<char>) -> bool {
    &&& rest.len() > 0
    &&& rest[0] == ':' || breaks(rest[0])
    &&& no_time_reaches(head, rest)
    &&& rest[0] == ':' ==> !ends_with_name(head)
}

proof fn cut_suffix(head: Seq<char>, rest: Seq<char>, n: int)
    requires
        0 <= n <= head.len(),
        cut(head, rest),
    ensures
        cut(head.skip(n), rest),
{
    no_time_suffix(head, rest, n);
    let tail = head.skip(n);
    assert(tail.push(':') =~= head.push(':').skip(n));
    if ends_with_name(tail) {
        label_suffix(head.push(':'), n);
    }
}

proof fn opens_cut(p: Seq<char>, rest: Seq<char>)
    requires
        cut(p, rest),
    ensures
        addressed(p + rest) == addressed(p),
        dated(p + rest) == dated(p),
        clocked(p + rest) == clocked(p),
        run(p + rest, Class::Hex) == run(p, Class::Hex),
        run(p + rest, Class::Digit) == run(p, Class::Digit),
        opens_word(p + rest) == opens_word(p),
{
    let t = p + rest;
    run_local(p, rest, Class::Hex);
    run_local(p, rest, Class::Digit);
    if p.len() == 0 {
        assert(t =~= rest);
        reveal(dated);
        reveal(clocked);
    } else {
        assert(p.skip(0) =~= p);
        assert(dated(p.skip(0) + rest) == dated(p.skip(0)));
        assert(t[0] == p[0]);
        if p.len() >= 2 {
            assert(t[1] == p[1]);
        } else {
            assert(t[1] == rest[0]);
        }
    }
}

proof fn led_cut(p: Seq<char>, rest: Seq<char>)
    requires
        cut(p, rest),
    ensures
        p.len() > 0 || rest[0] != ':' ==> line(p + rest) == line(p),
        p.len() > 0 ==> named(p + rest) == named(p),
        fraction(p + rest) == fraction(p),
        fraction(p) <= p.len(),
{
    let t = p + rest;
    if p.len() == 0 {
        assert(t =~= rest);
    } else {
        assert(t[0] == p[0]);
        assert(t.skip(1) =~= p.skip(1) + rest);
        cut_suffix(p, rest, 1);
        opens_cut(p.skip(1), rest);
        run_bound(p.skip(1), Class::Digit);
        if p.len() >= 2 {
            assert(t[1] == p[1]);
        } else {
            assert(t[1] == rest[0]);
        }
    }
}

proof fn stamp_cut(p: Seq<char>, rest: Seq<char>)
    requires
        p.len() > 0,
        cut(p, rest),
        rest[0] == ':' ==> hours(p) < p.len(),
    ensures
        stamp(p + rest) == stamp(p),
{
    reveal(stamp);
    let t = p + rest;
    opens_cut(p, rest);
    assert(t[0] == p[0]);
    assert(p.len() >= 2 ==> t[1] == p[1]);
    assert(p.len() == 1 ==> t[1] == rest[0]);
    assert(hours(t) == hours(p));
    let h = hours(p) as int;
    if clocked(p) {
        reveal(clocked);
        assert(t.skip(h + 6) =~= p.skip(h + 6) + rest);
        cut_suffix(p, rest, h + 6);
        led_cut(p.skip(h + 6), rest);
    }
    if h > 0 {
        assert(t.skip(h) =~= p.skip(h) + rest);
        cut_suffix(p, rest, h);
        led_cut(p.skip(h), rest);
    }
}

proof fn exponent_cut(q: Seq<char>, rest: Seq<char>)
    requires
        cut(q, rest),
    ensures
        exponent(q + rest) == exponent(q),
{
    let t = q + rest;
    if q.len() == 0 {
        assert(t =~= rest);
    } else {
        assert(t[0] == q[0]);
        if q[0] == 'e' || q[0] == 'E' {
            assert(t.skip(1) =~= q.skip(1) + rest);
            assert(t.skip(1)[0] == if q.len() > 1 {
                q.skip(1)[0]
            } else {
                rest[0]
            });
            let k = 1 + sign(q.skip(1)) as int;
            assert(t.skip(k) =~= q.skip(k) + rest);
            cut_suffix(q, rest, k);
            opens_cut(q.skip(k), rest);
        }
    }
}

proof fn extent_cut(q: Seq<char>, rest: Seq<char>)
    requires
        cut(q, rest),
    ensures
        extent(q + rest) == extent(q),
{
    reveal(extent);
    let t = q + rest;
    opens_cut(q, rest);
    run_bound(q, Class::Digit);
    let whole = run(q, Class::Digit) as int;
    if whole > 0 {
        let a = q.skip(whole);
        assert(t.skip(whole) =~= a + rest);
        cut_suffix(q, rest, whole);
        led_cut(a, rest);
        let places = whole + fraction(a) as int;
        assert(t.skip(places) =~= q.skip(places) + rest);
        cut_suffix(q, rest, places);
        exponent_cut(q.skip(places), rest);
    }
}

proof fn number_cut(part: Seq<char>, rest: Seq<char>)
    requires
        cut(part, rest),
    ensures
        number(part + rest) == number(part),
{
    reveal(number);
    let t = part + rest;
    run_local(part, rest, Class::Space);
    run_bound(part, Class::Space);
    let blank = run(part, Class::Space) as int;
    let s = part.skip(blank);
    assert(t.skip(blank) =~= s + rest);
    assert(t.skip(blank)[0] == if s.len() > 0 {
        s[0]
    } else {
        rest[0]
    });
    let first = blank + sign(s) as int;
    assert(t.skip(first) =~= part.skip(first) + rest);
    cut_suffix(part, rest, first);
    extent_cut(part.skip(first), rest);
}

proof fn label_cut(head: Seq<char>, rest: Seq<char>)
    requires
        head.len() > 0,
        cut(head, rest),
    ensures
        label(head + rest) == label(head),
{
    let t = head + rest;
    let called = head.push(':');
    assert(forall|i: int| 0 <= i < head.len() ==> #[trigger] t[i] == head[i]);
    assert(t[head.len() as int] == rest[0]);
    if rest[0] == ':' && head.len() == 5 {
        assert(called.skip(0) =~= called);
        assert(label(t) == 6 ==> label(called) == 6);
    }
    if rest[0] == ':' && head.len() == 3 {
        assert(called.skip(0) =~= called);
        assert(label(t) == 4 ==> label(called) == 4);
    }
}

proof fn token_cut(head: Seq<char>, rest: Seq<char>)
    requires
        head.len() > 0,
        cut(head, rest),
        rest[0] == ':' ==> hours(head) < head.len(),
    ensures
        token(head + rest) == token(head),
{
    let t = head + rest;
    opens_cut(head, rest);
    led_cut(head, rest);
    label_cut(head, rest);
    stamp_cut(head, rest);
    let from = label(head) as int;
    if from > 0 {
        cut_suffix(head, rest, from);
        number_cut(head.skip(from), rest);
        assert(t.skip(from) =~= head.skip(from) + rest);
        assert(t.take(from) =~= head.take(from));
    }
    if addressed(head) {
        assert(t.skip(2) =~= head.skip(2) + rest);
        run_local(head.skip(2), rest, Class::Hex);
    }
    run_bound(head, Class::Hex);
    assert(t.take(run(head, Class::Hex) as int) =~= head.take(run(head, Class::Hex) as int));
    named_bound(head);
    assert(t.take(named(head) as int) =~= head.take(named(head) as int));
    assert(t.take(1) =~= head.take(1));
}

proof fn time_before_break(p: Seq<char>, rest: Seq<char>)
    requires
        p.len() > 0,
        rest.len() > 0,
        breaks(rest[0]),
    ensures
        dated(p + rest) == dated(p),
        clocked(p + rest) == clocked(p),
{
    reveal(dated);
    reveal(clocked);
    let t = p + rest;
    assert(forall|i: int| 0 <= i < p.len() ==> #[trigger] t[i] == p[i]);
    assert(t[p.len() as int] == rest[0]);
    assert(hours(t) == hours(p));
    let h = hours(p) as int;
    if p.len() >= 8 {
        assert(t.skip(8) =~= p.skip(8) + rest);
        run_local(p.skip(8), rest, Class::Hex);
    }
    if p.len() >= h + 4 {
        assert(t.skip(h + 4) =~= p.skip(h + 4) + rest);
        run_local(p.skip(h + 4), rest, Class::Hex);
    }
}

/// Every text stands alone before a character at which all tokens end.
pub proof fn break_stands_apart(head: Seq<char>, rest: Seq<char>)
    requires
        rest.len() > 0,
        breaks(rest[0]),
    ensures
        stands_alone(head, rest),
    decreases head.len(),
{
    if head.len() > 0 {
        assert forall|k: int| 0 <= k < head.len() implies {
            &&& dated(#[trigger] head.skip(k) + rest) == dated(head.skip(k))
            &&& clocked(head.skip(k) + rest) == clocked(head.skip(k))
        } by {
            time_before_break(head.skip(k), rest);
        }
        token_cut(head, rest);
        token_bound(head);
        break_stands_apart(head.skip(token(head).1 as int), rest);
    }
}

/// An address reads the same whatever its digits.
pub proof fn address_is_noise(
    head: Seq<char>,
    one: Seq<char>,
    other: Seq<char>,
    rest: Seq<char>,
)
    requires
        before_word(head),
        all_in(one, Class::Hex),
        all_in(other, Class::Hex),
        leaves(rest, Class::Hex),
    ensures
        normalised(head + (seq!['0', 'x'] + one + rest)) == normalised(
            head + (seq!['0', 'x'] + other + rest),
        ),
{
    address_rewritten(one, rest);
    address_rewritten(other, rest);
    address_stands_apart(head, seq!['0', 'x'] + one + rest);
    address_stands_apart(head, seq!['0', 'x'] + other + rest);
    rewritten_splits(head, seq!['0', 'x'] + one + rest);
    rewritten_splits(head, seq!['0', 'x'] + other + rest);
}

/// An address becomes `0xADDR`, and what follows it is rewritten on its own.
pub proof fn address_rewritten(word: Seq<char>, rest: Seq<char>)
    requires
        all_in(word, Class::Hex),
        leaves(rest, Class::Hex),
    ensures
        rewritten(seq!['0', 'x'] + word + rest) == seq!['0', 'x', 'A', 'D', 'D', 'R'] + rewritten(
            rest,
        ),
{
    let t = seq!['0', 'x'] + word + rest;
    assert(t[0] == '0' && t[1] == 'x');
    assert(t.skip(2) =~= word + rest);
    run_of(word, rest, Class::Hex);
    assert(t.skip(2 + word.len() as int) =~= rest);
}

proof fn time_before_address(p: Seq<char>, rest: Seq<char>)
    requires
        p.len() > 0,
        !is_hex(p.last()),
        addressed(rest),
    ensures
        dated(p + rest) == dated(p),
        clocked(p + rest) == clocked(p),
{
    reveal(dated);
    reveal(clocked);
    let t = p + rest;
    assert(forall|i: int| 0 <= i < p.len() ==> #[trigger] t[i] == p[i]);
    assert(t[p.len() - 1] == p.last());
    assert(t[p.len() as int] == '0' && t[p.len() as int + 1] == 'x');
    assert(hours(t) == hours(p));
    let h = hours(p) as int;
    if p.len() > 8 {
        run_within(p, rest, 8, Class::Hex);
    }
    if p.len() > h + 4 {
        run_within(p, rest, h + 4, Class::Hex);
    }
}

proof fn address_stands_apart(head: Seq<char>, rest: Seq<char>)
    requires
        before_word(head),
        addressed(rest),
    ensures
        stands_alone(head, rest),
{
    assert forall|k: int| 0 <= k < head.len() implies {
        &&& dated(#[trigger] head.skip(k) + rest) == dated(head.skip(k))
        &&& clocked(head.skip(k) + rest) == clocked(head.skip(k))
    } by {
        assert(head.skip(k).last() == head.last());
        time_before_address(head.skip(k), rest);
    }
    assert(extent(rest) == 0) by {
        reveal(extent);
    }
    word_stands_apart(head, rest);
}

/// A line number after a colon reads the same whatever it is, and so does a column
/// after it: digits that are not the start of an address, of a hash or of a time.
/// What stands before the colon may be anything but the name of a label, and the
/// start of a clock time that goes on behind the colon.
pub proof fn line_number_is_noise(
    head: Seq<char>,
    one: Seq<char>,
    other: Seq<char>,
    rest: Seq<char>,
)
    requires
        !ends_with_name(head),
        no_time_reaches(head, seq![':'] + one + rest),
        no_time_reaches(head, seq![':'] + other + rest),
        one.len() > 0,
        other.len() > 0,
        all_in(one, Class::Digit),
        all_in(other, Class::Digit),
        leaves(rest, Class::Digit),
        !opens_word(one + rest),
        !opens_word(other + rest),
    ensures
        normalised(head + (seq![':'] + one + rest)) == normalised(
            head + (seq![':'] + other + rest),
        ),
{
    lines_alike(head, one, other, rest);
}

proof fn lines_alike(head: Seq<char>, one: Seq<char>, other: Seq<char>, rest: Seq<char>)
    requires
        !ends_with_name(head),
        no_time_reaches(head, seq![':'] + one + rest),
        no_time_reaches(head, seq![':'] + other + rest),
        one.len() > 0,
        other.len() > 0,
        all_in(one, Class::Digit),
        all_in(other, Class::Digit),
        leaves(rest, Class::Digit),
        !opens_word(one + rest),
        !opens_word(other + rest),
    ensures
        rewritten(head + (seq![':'] + one + rest)) == rewritten(
            head + (seq![':'] + other + rest),
        ),
    decreases head.len(),
{
    let a = seq![':'] + one + rest;
    let b = seq![':'] + other + rest;
    line_reads(one, rest);
    line_reads(other, rest);
    if head.len() == 0 {
        assert(head + a =~= a && head + b =~= b);
    } else if hours(head) == head.len() {
        minutes_read(head, one, rest);
        minutes_read(head, other, rest);
    } else {
        token_cut(head, a);
        token_cut(head, b);
        token_bound(head);
        let n = token(head).1 as int;
        assert((head + a).skip(n) =~= head.skip(n) + a);
        assert((head + b).skip(n) =~= head.skip(n) + b);
        cut_suffix(head, a, n);
        cut_suffix(head, b, n);
        lines_alike(head.skip(n), one, other, rest);
    }
}

/// A line number becomes `LINE` behind its colon, and what follows it is rewritten on
/// its own.
pub proof fn line_reads(word: Seq<char>, rest: Seq<char>)
    requires
        word.len() > 0,
        all_in(word, Class::Digit),
        leaves(rest, Class::Digit),
        !opens_word(word + rest),
    ensures
        line(seq![':'] + word + rest) == 1 + word.len(),
        rewritten(seq![':'] + word + rest) == seq![':', 'L', 'I', 'N', 'E'] + rewritten(rest),
{
    let t = seq![':'] + word + rest;
    assert(t[0] == ':' && t[1] == word[0]);
    assert(in_class(word[0], Class::Digit));
    assert(t.skip(1) =~= word + rest);
    run_of(word, rest, Class::Digit);
    assert(t.skip(1 + word.len() as int) =~= rest);
}

/// The digits of an hour with a line number behind them read as a time.
proof fn minutes_read(hour: Seq<char>, word: Seq<char>, rest: Seq<char>)
    requires
        hour.len() > 0,
        hours(hour) == hour.len(),
        line(seq![':'] + word + rest) == 1 + word.len(),
        no_time_reaches(hour, seq![':'] + word + rest),
    ensures
        rewritten(hour + (seq![':'] + word + rest)) == seq!['T', 'I', 'M', 'E'] + rewritten(rest),
{
    let a = seq![':'] + word + rest;
    let t = hour + a;
    let h = hour.len() as int;
    assert(hour.skip(0) =~= hour);
    assert(dated(hour.skip(0) + a) == dated(hour.skip(0)));
    assert(!dated(t) && !clocked(t)) by {
        reveal(dated);
        reveal(clocked);
    }
    assert(t[0] == hour[0]);
    assert(t[h] == ':');
    assert(h == 2 ==> t[1] == hour[1]);
    assert(t.skip(h) =~= a);
    assert(stamp(t) == h + 1 + word.len()) by {
        reveal(stamp);
    }
    assert(t.skip(h + 1 + word.len()) =~= rest);
}

/// A hash of at least 32 hexadecimal digits reads the same whatever its digits;
/// after a label, where digits alone are a number, any with a letter.
pub proof fn hash_is_noise(head: Seq<char>, one: Seq<char>, other: Seq<char>, rest: Seq<char>)
    requires
        before_word(head),
        one.len() >= 32,
        other.len() >= 32,
        all_in(one, Class::Hex),
        all_in(other, Class::Hex),
        leaves(rest, Class::Hex),
        awaits_value(head) ==> !all_in(one, Class::Digit) && !all_in(other, Class::Digit),
    ensures
        normalised(head + (one + rest)) == normalised(head + (other + rest)),
{
    hash_rewritten(one, rest);
    hash_rewritten(other, rest);
    hash_stands_apart(head, one, rest);
    hash_stands_apart(head, other, rest);
    rewritten_splits(head, one + rest);
    rewritten_splits(head, other + rest);
}

proof fn time_before_hash(p: Seq<char>, rest: Seq<char>)
    requires
        p.len() > 0,
        !is_hex(p.last()),
        hashed(rest),
    ensures
        dated(p + rest) == dated(p),
        clocked(p + rest) == clocked(p),
{
    reveal(dated);
    reveal(clocked);
    let t = p + rest;
    run_bound(rest, Class::Hex);
    run_has_members(rest, Class::Hex);
    assert(forall|i: int| 0 <= i < p.len() ==> #[trigger] t[i] == p[i]);
    assert(t[p.len() - 1] == p.last());
    assert(t[p.len() as int + 2] == rest[2]);
    assert(in_class(rest[2], Class::Hex));
    assert(hours(t) == hours(p)) by {
        assert(p.len() == 1 ==> t[0] == p.last());
    }
    let h = hours(p) as int;
    if p.len() > 8 {
        run_within(p, rest, 8, Class::Hex);
    } else if p.len() == 8 {
        assert(t.skip(8) =~= rest);
    }
    if p.len() > h + 4 {
        run_within(p, rest, h + 4, Class::Hex);
    } else if p.len() == h + 4 {
        assert(t.skip(h + 4) =~= rest);
    }
}

proof fn hash_stands_apart(head: Seq<char>, word: Seq<char>, rest: Seq<char>)
    requires
        before_word(head),
        word.len() >= 32,
        all_in(word, Class::Hex),
        leaves(rest, Class::Hex),
        awaits_value(head) ==> !all_in(word, Class::Digit),
    ensures
        stands_alone(head, word + rest),
{
    let t = word + rest;
    run_of(word, rest, Class::Hex);
    assert(t[0] == word[0] && t[1] == word[1]);
    assert(in_class(word[0], Class::Hex) && in_class(word[1], Class::Hex));
    assert forall|k: int| 0 <= k < head.len() implies {
        &&& dated(#[trigger] head.skip(k) + t) == dated(head.skip(k))
        &&& clocked(head.skip(k) + t) == clocked(head.skip(k))
    } by {
        assert(head.skip(k).last() == head.last());
        time_before_hash(head.skip(k), t);
    }
    if awaits_value(head) {
        reveal(extent);
        let i = choose|i: int| 0 <= i < word.len() && !in_class(#[trigger] word[i], Class::Digit);
        run_has_members(t, Class::Digit);
        assert(t[i] == word[i]);
        assert(run(t, Class::Digit) < run(t, Class::Hex));
    }
    word_stands_apart(head, t);
}

/// A hash becomes `HASH`, and what follows it is rewritten on its own.
pub proof fn hash_rewritten(word: Seq<char>, rest: Seq<char>)
    requires
        word.len() >= 32,
        all_in(word, Class::Hex),
        leaves(rest, Class::Hex),
    ensures
        rewritten(word + rest) == seq!['H', 'A', 'S', 'H'] + rewritten(rest),
{
    let t = word + rest;
    assert(forall|i: int| 0 <= i < word.len() ==> #[trigger] t[i] == word[i]);
    assert(in_class(word[0], Class::Hex) && in_class(word[1], Class::Hex) && in_class(
        word[2],
        Class::Hex,
    ) && in_class(word[4], Class::Hex));
    run_of(word, rest, Class::Hex);
    assert(stamp(t) == 0) by {
        reveal(stamp);
        reveal(dated);
        reveal(clocked);
        let h = hours(t) as int;
        assert(t.skip(h)[0] == t[h]);
    }
    assert(t.skip(word.len() as int) =~= rest);
}

/// The label `value:` or `got:`.
pub open spec fn label_text(got: bool) -> Seq<char> {
    if got {
        seq!['g', 'o', 't', ':']
    } else {
        seq!['v', 'a', 'l', 'u', 'e', ':']
    }
}

/// A label followed by white space, a sign or none, and a number.
pub open spec fn reported(got: bool, blank: Seq<char>, mark: Seq<char>, word: Seq<char>) -> Seq<
    char,
> {
    label_text(got) + blank + mark + word
}

/// One sign or none.
pub open spec fn is_mark(mark: Seq<char>) -> bool {
    mark.len() == 0 || (mark.len() == 1 && is_sign(mark[0]))
}

/// The word is a number, and what follows does not go on with it.
pub open spec fn is_value(word: Seq<char>, rest: Seq<char>) -> bool {
    word.len() > 0 && extent(word + rest) == word.len()
}

/// Digits are a value if neither decimal places nor an exponent follow them and
/// they do not start a word of its own.
pub proof fn whole_number_is_value(word: Seq<char>, rest: Seq<char>)
    requires
        word.len() > 0,
        all_in(word, Class::Digit),
        leaves(rest, Class::Digit),
        fraction(rest) == 0,
        exponent(rest) == 0,
        !opens_word(word + rest),
    ensures
        is_value(word, rest),
{
    reveal(extent);
    run_of(word, rest, Class::Digit);
    assert((word + rest).skip(word.len() as int) =~= rest);
}

/// A reported value reads the same whatever it is, whatever stands before it: a
/// number with a sign or without, with decimal places and an exponent or without,
/// as long as what follows does not go on with it.
pub proof fn reported_value_is_noise(
    head: Seq<char>,
    got: bool,
    one_blank: Seq<char>,
    one_mark: Seq<char>,
    one: Seq<char>,
    other_blank: Seq<char>,
    other_mark: Seq<char>,
    other: Seq<char>,
    rest: Seq<char>,
)
    requires
        all_in(one_blank, Class::Space),
        all_in(other_blank, Class::Space),
        is_mark(one_mark),
        is_mark(other_mark),
        is_value(one, rest),
        is_value(other, rest),
    ensures
        normalised(head + (reported(got, one_blank, one_mark, one) + rest)) == normalised(
            head + (reported(got, other_blank, other_mark, other) + rest),
        ),
{
    let a = reported(got, one_blank, one_mark, one) + rest;
    let b = reported(got, other_blank, other_mark, other) + rest;
    value_rewritten(got, one_blank, one_mark, one, rest);
    value_rewritten(got, other_blank, other_mark, other, rest);
    assert(a[0] == label_text(got)[0] && b[0] == label_text(got)[0]);
    break_stands_apart(head, a);
    break_stands_apart(head, b);
    rewritten_splits(head, a);
    rewritten_splits(head, b);
}

/// A reported value becomes `VALUE` behind its label and a blank, and what follows it
/// is rewritten on its own.
pub proof fn value_rewritten(
    got: bool,
    blank: Seq<char>,
    mark: Seq<char>,
    word: Seq<char>,
    rest: Seq<char>,
)
    requires
        all_in(blank, Class::Space),
        is_mark(mark),
        is_value(word, rest),
    ensures
        rewritten(reported(got, blank, mark, word) + rest) == label_text(got) + seq![
            ' ',
            'V',
            'A',
            'L',
            'U',
            'E',
        ] + rewritten(rest),
{
    let t = reported(got, blank, mark, word) + rest;
    let name = label_text(got);
    let n = name.len() as int;
    assert(t.take(n) =~= name);
    assert(forall|i: int| 0 <= i < n ==> #[trigger] t[i] == name[i]);
    assert(label(t) == n);
    assert(t.skip(n) =~= blank + mark + word + rest);
    value_number(blank, mark, word, rest);
    let end = (blank + mark + word).len() as int;
    assert(t[0] == 'v' || t[0] == 'g');
    assert(t.skip(n + end) =~= rest);
    assert(rewritten(t) =~= name + seq![' ', 'V', 'A', 'L', 'U', 'E'] + rewritten(rest));
}

proof fn value_number(blank: Seq<char>, mark: Seq<char>, word: Seq<char>, rest: Seq<char>)
    requires
        all_in(blank, Class::Space),
        is_mark(mark),
        is_value(word, rest),
    ensures
        number(blank + mark + word + rest) == (blank + mark + word).len(),
{
    reveal(number);
    let u = blank + mark + word + rest;
    let tail = mark + word + rest;
    assert(is_digit(word[0])) by {
        reveal(extent);
        assert((word + rest)[0] == word[0]);
    }
    assert(u =~= blank + tail);
    assert(tail[0] == if mark.len() > 0 {
        mark[0]
    } else {
        word[0]
    });
    run_of(blank, tail, Class::Space);
    assert(u.skip(blank.len() as int) =~= tail);
    let first = (blank.len() + mark.len()) as int;
    assert(u.skip(first) =~= word + rest);
}

/// The text may stand before a time stamp: it does not end with the start of a
/// word, of another date or of another clock time. Before a clock time without
/// seconds it does not end with what digits belong to, nor with a label.
pub open spec fn before_time(head: Seq<char>, time: Seq<char>) -> bool {
    let n = head.len() as int;
    &&& before_word(head)
    &&& !(n >= 2 && (head.last() == ':' || head.last() == '-') && is_digit(head[n - 2]))
    &&& dated(time) || clocked(time) || (!takes_digits(head) && !awaits_value(head))
}

/// A time stamp, a date or a clock time, reads the same whatever it is, as long as
/// what follows does not go on with it.
pub proof fn time_is_noise(head: Seq<char>, one: Seq<char>, other: Seq<char>, rest: Seq<char>)
    requires
        one.len() > 0,
        other.len() > 0,
        stamp(one + rest) == one.len(),
        stamp(other + rest) == other.len(),
        before_time(head, one + rest),
        before_time(head, other + rest),
    ensures
        normalised(head + (one + rest)) == normalised(head + (other + rest)),
{
    time_rewritten(one, rest);
    time_rewritten(other, rest);
    time_stands_apart(head, one + rest);
    time_stands_apart(head, other + rest);
    rewritten_splits(head, one + rest);
    rewritten_splits(head, other + rest);
}

proof fn time_before_time(p: Seq<char>, rest: Seq<char>)
    requires
        p.len() > 0,
        !is_hex(p.last()),
        !(p.len() >= 2 && (p.last() == ':' || p.last() == '-') && is_digit(p[p.len() - 2])),
    ensures
        dated(p + rest) == dated(p),
        clocked(p + rest) == clocked(p),
{
    reveal(dated);
    reveal(clocked);
    let t = p + rest;
    assert(forall|i: int| 0 <= i < p.len() ==> #[trigger] t[i] == p[i]);
    assert(t[p.len() - 1] == p.last());
    assert(p.len() >= 2 ==> t[p.len() - 2] == p[p.len() - 2]);
    assert(hours(t) == hours(p));
    let h = hours(p) as int;
    if p.len() > 8 {
        run_within(p, rest, 8, Class::Hex);
    }
    if p.len() > h + 4 {
        run_within(p, rest, h + 4, Class::Hex);
    }
}

proof fn stamp_starts(t: Seq<char>)
    requires
        stamp(t) > 0,
    ensures
        t.len() >= 2,
        is_digit(t[0]),
        !addressed(t),
{
    reveal(stamp);
    reveal(dated);
    reveal(clocked);
    let h = hours(t) as int;
    if h > 0 && line(t.skip(h)) > 0 {
        assert(t.skip(h)[0] == t[h]);
    }
}

proof fn time_stands_apart(head: Seq<char>, rest: Seq<char>)
    requires
        before_time(head, rest),
        stamp(rest) > 0,
    ensures
        stands_alone(head, rest),
{
    stamp_starts(rest);
    assert forall|k: int| 0 <= k < head.len() implies {
        &&& dated(#[trigger] head.skip(k) + rest) == dated(head.skip(k))
        &&& clocked(head.skip(k) + rest) == clocked(head.skip(k))
    } by {
        assert(head.skip(k).last() == head.last());
        time_before_time(head.skip(k), rest);
    }
    if dated(rest) || clocked(rest) {
        reveal(extent);
    }
    word_stands_apart(head, rest);
}

/// A time stamp becomes `TIME`, and what follows it is rewritten on its own.
pub proof fn time_rewritten(word: Seq<char>, rest: Seq<char>)
    requires
        word.len() > 0,
        stamp(word + rest) == word.len(),
    ensures
        rewritten(word + rest) == seq!['T', 'I', 'M', 'E'] + rewritten(rest),
{
    let t = word + rest;
    stamp_starts(t);
    assert(t.skip(word.len() as int) =~= rest);
}

/// Whatever a text before white space is, a time behind the white space reads the
/// same whatever it is, unless it could be a value: a clock time without seconds
/// after a label.
pub proof fn time_after_blank_is_noise(
    head: Seq<char>,
    one: Seq<char>,
    other: Seq<char>,
    rest: Seq<char>,
)
    requires
        head.len() > 0,
        is_space(head.last()),
        one.len() > 0,
        other.len() > 0,
        stamp(one + rest) == one.len(),
        stamp(other + rest) == other.len(),
        !awaits_value(head) || ((dated(one + rest) || clocked(one + rest)) && (dated(other + rest)
            || clocked(other + rest))),
    ensures
        normalised(head + (one + rest)) == normalised(head + (other + rest)),
{
    time_is_noise(head, one, other, rest);
}

}
