//! What normalisation keeps: a text without noise is its own normal form but for
//! white space, so that texts that differ in anything else stay apart.
use crate::noise::run_has_members;
use crate::normalise::{
    addressed, clocked, collapsed, dated, extent, hashed, hours, is_digit, is_hex, is_sign,
    is_space, label, line, normalised, number, rewritten, run, run_bound, sign, single_blanks,
    stamp, token, token_bound, trimmed, trimmed_end, Class,
};
use vstd::prelude::*;

verus! {

/// A date `dddd-dd-dd` stands at a place.
pub open spec fn date_at(t: Seq<char>, i: int) -> bool {
    &&& i + 10 <= t.len()
    &&& is_digit(t[i]) && is_digit(t[i + 1]) && is_digit(t[i + 2]) && is_digit(t[i + 3])
    &&& t[i + 4] == '-' && is_digit(t[i + 5]) && is_digit(t[i + 6])
    &&& t[i + 7] == '-' && is_digit(t[i + 8]) && is_digit(t[i + 9])
}

/// The word `value:` or `got:` ends before a place.
pub open spec fn label_before(t: Seq<char>, i: int) -> bool {
    ||| i >= 6 && t[i - 6] == 'v' && t[i - 5] == 'a' && t[i - 4] == 'l' && t[i - 3] == 'u' && t[i
        - 2] == 'e' && t[i - 1] == ':'
    ||| i >= 4 && t[i - 4] == 'g' && t[i - 3] == 'o' && t[i - 2] == 't' && t[i - 1] == ':'
}

/// A number stands at a place behind a label, white space and a sign.
pub open spec fn reported_at(t: Seq<char>, from: int, i: int) -> bool {
    &&& label_before(t, from)
    &&& forall|k: int| from <= k < i ==> is_space(#[trigger] t[k])
    &&& i < t.len()
    &&& is_digit(t[i]) || (is_sign(t[i]) && i + 1 < t.len() && is_digit(t[i + 1]))
}

/// Nothing in the text is noise: no colon with a digit behind it, no `0x`, no 32
/// hexadecimal digits in a row, no date, and no number after a label.
pub open spec fn plain(t: Seq<char>) -> bool {
    &&& forall|i: int|
        0 <= i < t.len() - 1 ==> !(#[trigger] t[i] == ':' && is_digit(t[i + 1])) && !(t[i] == '0'
            && t[i + 1] == 'x')
    &&& forall|i: int|
        #![trigger t.subrange(i, i + 32)]
        0 <= i <= t.len() - 32 ==> exists|j: int| i <= j < i + 32 && !is_hex(#[trigger] t[j])
    &&& forall|i: int| 0 <= i < t.len() ==> !#[trigger] date_at(t, i)
    &&& forall|from: int, i: int| 0 <= from <= i ==> !#[trigger] reported_at(t, from, i)
}

proof fn no_stamp(t: Seq<char>, k: int)
    requires
        plain(t),
        0 <= k < t.len(),
    ensures
        stamp(t.skip(k)) == 0,
        line(t.skip(k)) == 0,
        !addressed(t.skip(k)),
        !dated(t.skip(k)),
        !clocked(t.skip(k)),
{
    let u = t.skip(k);
    reveal(stamp);
    reveal(dated);
    reveal(clocked);
    assert(forall|i: int| 0 <= i < u.len() ==> #[trigger] u[i] == t[k + i]);
    assert(!date_at(t, k));
    assert(t[k] == u[0]);
    let h = hours(u) as int;
    if h > 0 && u.len() > h {
        assert(u[h] == t[k + h]);
        assert(u.skip(h)[0] == u[h]);
        if u.len() > h + 1 {
            assert(u.skip(h)[1] == u[h + 1]);
            assert(!(t[k + h] == ':' && is_digit(t[k + h + 1])));
        }
    }
}

proof fn no_hash(t: Seq<char>, k: int)
    requires
        plain(t),
        0 <= k < t.len(),
    ensures
        !hashed(t.skip(k)),
{
    let u = t.skip(k);
    if hashed(u) {
        run_bound(u, Class::Hex);
        run_has_members(u, Class::Hex);
        assert(0 <= k <= t.len() - 32);
        let w = t.subrange(k, k + 32);
        let j = choose|j: int| k <= j < k + 32 && !is_hex(#[trigger] t[j]);
        assert(u[j - k] == t[j]);
        assert(false);
    }
}

proof fn no_number(t: Seq<char>, k: int)
    requires
        plain(t),
        0 <= k < t.len(),
        label(t.skip(k)) > 0,
    ensures
        number(t.skip(k).skip(label(t.skip(k)) as int)) == 0,
{
    reveal(number);
    reveal(extent);
    let u = t.skip(k);
    let n = label(u) as int;
    let from = k + n;
    assert(forall|i: int| 0 <= i < u.len() ==> #[trigger] u[i] == t[k + i]);
    assert(label_before(t, from));
    let v = u.skip(n);
    run_bound(v, Class::Space);
    run_has_members(v, Class::Space);
    let blank = run(v, Class::Space) as int;
    let s = v.skip(blank);
    let first = blank + sign(s) as int;
    let w = v.skip(first);
    if s.len() > 0 && w.len() > 0 && is_digit(w[0]) {
        let i = from + blank;
        assert(s[0] == t[i]);
        assert(w[0] == t[from + first]);
        assert forall|j: int| from <= j < i implies is_space(#[trigger] t[j]) by {
            assert(v[j - from] == t[j]);
        }
        assert(reported_at(t, from, i));
    }
}

proof fn kept_from(t: Seq<char>, k: int)
    requires
        plain(t),
        0 <= k <= t.len(),
    ensures
        rewritten(t.skip(k)) == t.skip(k),
    decreases t.len() - k,
{
    let u = t.skip(k);
    if u.len() > 0 {
        no_stamp(t, k);
        no_hash(t, k);
        if label(u) > 0 {
            no_number(t, k);
        }
        token_bound(u);
        let n = token(u).1 as int;
        assert(token(u).0 == u.take(n));
        assert(u.skip(n) =~= t.skip(k + n));
        kept_from(t, k + n);
        assert(u.take(n) + u.skip(n) =~= u);
    }
}

/// The scanner leaves a text without noise as it is.
pub proof fn plain_text_is_kept(t: Seq<char>)
    requires
        plain(t),
    ensures
        rewritten(t) == t,
        normalised(t) == trimmed(collapsed(t)),
{
    kept_from(t, 0);
    assert(t.skip(0) =~= t);
}

/// Neither end of the text is white space, and white space within it is single
/// blanks.
pub open spec fn tidy(t: Seq<char>) -> bool {
    &&& single_blanks(t)
    &&& t.len() > 0 ==> !is_space(t[0]) && !is_space(t.last())
}

proof fn tidy_collapses_to_itself(t: Seq<char>)
    requires
        single_blanks(t),
    ensures
        collapsed(t) == t,
    decreases t.len(),
{
    if t.len() > 0 {
        let less = t.drop_last();
        assert(single_blanks(less)) by {
            assert forall|i: int, j: int|
                0 <= i < less.len() && j == i + 1 && j < less.len() implies !(is_space(
                #[trigger] less[i],
            ) && is_space(#[trigger] less[j])) by {
                assert(less[i] == t[i] && less[j] == t[j]);
            }
            assert forall|i: int| 0 <= i < less.len() && is_space(
                #[trigger] less[i],
            ) implies less[i] == ' ' by {
                assert(less[i] == t[i]);
            }
        }
        tidy_collapses_to_itself(less);
        assert(t.last() == t[t.len() - 1]);
        if t.len() >= 2 {
            assert(!(is_space(t[t.len() - 2]) && is_space(t[t.len() - 1])));
        }
        assert(collapsed(t) =~= t);
    } else {
        assert(collapsed(t) =~= t);
    }
}

/// A tidy text without noise is its own normal form; so two of them have one normal
/// form only if they are the same text.
pub proof fn tidy_text_is_its_own_normal_form(t: Seq<char>)
    requires
        plain(t),
        tidy(t),
    ensures
        normalised(t) == t,
{
    plain_text_is_kept(t);
    tidy_collapses_to_itself(t);
    assert(t.skip(0) =~= t);
}

/// The characters of a text that are not white space.
pub open spec fn inked(t: Seq<char>) -> Seq<char>
    decreases t.len(),
{
    if t.len() == 0 {
        Seq::empty()
    } else if is_space(t.last()) {
        inked(t.drop_last())
    } else {
        inked(t.drop_last()).push(t.last())
    }
}

proof fn inked_collapsed(t: Seq<char>)
    ensures
        inked(collapsed(t)) == inked(t),
    decreases t.len(),
{
    if t.len() > 0 {
        let before = collapsed(t.drop_last());
        inked_collapsed(t.drop_last());
        assert(before.push(t.last()).drop_last() =~= before);
        assert(before.push(' ').drop_last() =~= before);
    }
}

proof fn inked_trimmed_end(t: Seq<char>)
    ensures
        inked(trimmed_end(t)) == inked(t),
    decreases t.len(),
{
    if t.len() > 0 && is_space(t.last()) {
        inked_trimmed_end(t.drop_last());
    }
}

proof fn inked_splits(a: Seq<char>, b: Seq<char>)
    ensures
        inked(a + b) == inked(a) + inked(b),
    decreases b.len(),
{
    if b.len() == 0 {
        assert(a + b =~= a);
        assert(inked(a) + inked(b) =~= inked(a));
    } else {
        assert((a + b).drop_last() =~= a + b.drop_last());
        assert((a + b).last() == b.last());
        inked_splits(a, b.drop_last());
        assert(inked(a + b) =~= inked(a) + inked(b));
    }
}

proof fn blank_has_no_ink(t: Seq<char>)
    requires
        forall|i: int| 0 <= i < t.len() ==> is_space(#[trigger] t[i]),
    ensures
        inked(t) == Seq::<char>::empty(),
    decreases t.len(),
{
    if t.len() > 0 {
        assert(is_space(t[t.len() - 1]));
        assert forall|i: int| 0 <= i < t.len() - 1 implies is_space(#[trigger] t.drop_last()[i]) by {
            assert(t.drop_last()[i] == t[i]);
        }
        blank_has_no_ink(t.drop_last());
    }
}

/// The normal form of a text without noise has all its characters but white space,
/// in their order. Texts that differ in one of them stay apart.
pub proof fn ink_is_kept(t: Seq<char>)
    requires
        plain(t),
    ensures
        inked(normalised(t)) == inked(t),
{
    plain_text_is_kept(t);
    let c = collapsed(t);
    let n = run(c, Class::Space) as int;
    run_bound(c, Class::Space);
    run_has_members(c, Class::Space);
    inked_collapsed(t);
    inked_trimmed_end(c.skip(n));
    blank_has_no_ink(c.take(n));
    inked_splits(c.take(n), c.skip(n));
    assert(c.take(n) + c.skip(n) =~= c);
    assert(inked(c.take(n)) + inked(c.skip(n)) =~= inked(c.skip(n)));
}

/// All characters are white space, and there is one.
pub open spec fn is_blank(t: Seq<char>) -> bool {
    t.len() > 0 && forall|i: int| 0 <= i < t.len() ==> is_space(#[trigger] t[i])
}

proof fn collapsed_appends(a: Seq<char>, b: Seq<char>, c: Seq<char>)
    requires
        collapsed(a) == collapsed(b),
        a.len() > 0,
        b.len() > 0,
        is_space(a.last()),
        is_space(b.last()),
    ensures
        collapsed(a + c) == collapsed(b + c),
    decreases c.len(),
{
    if c.len() == 0 {
        assert(a + c =~= a && b + c =~= b);
    } else {
        let less = c.drop_last();
        collapsed_appends(a, b, less);
        assert((a + c).drop_last() =~= a + less);
        assert((b + c).drop_last() =~= b + less);
        assert((a + c).last() == c.last() && (b + c).last() == c.last());
        if less.len() > 0 {
            assert((a + c)[(a + c).len() - 2] == less.last());
            assert((b + c)[(b + c).len() - 2] == less.last());
        } else {
            assert((a + c)[(a + c).len() - 2] == a.last());
            assert((b + c)[(b + c).len() - 2] == b.last());
        }
    }
}

proof fn blanks_collapse_to_one(head: Seq<char>, blank: Seq<char>)
    requires
        is_blank(blank),
    ensures
        collapsed(head + blank) == collapsed(head + seq![' ']),
    decreases blank.len(),
{
    let one = seq![' '];
    let t = head + blank;
    assert(blank[blank.len() - 1] == blank.last());
    assert(t.last() == blank.last());
    assert((head + one).drop_last() =~= head);
    assert((head + one).last() == ' ');
    if blank.len() == 1 {
        assert(t.drop_last() =~= head);
        if head.len() > 0 {
            assert(t[t.len() - 2] == head.last());
            assert((head + one)[(head + one).len() - 2] == head.last());
        }
    } else {
        let less = blank.drop_last();
        assert forall|i: int| 0 <= i < less.len() implies is_space(#[trigger] less[i]) by {
            assert(less[i] == blank[i]);
        }
        blanks_collapse_to_one(head, less);
        assert(t.drop_last() =~= head + less);
        assert(t[t.len() - 2] == blank[blank.len() - 2]);
    }
}

/// How much white space stands at a place in a text without noise, and of which
/// kind, does not count.
pub proof fn white_space_does_not_count(
    head: Seq<char>,
    one: Seq<char>,
    other: Seq<char>,
    rest: Seq<char>,
)
    requires
        is_blank(one),
        is_blank(other),
        plain(head + one + rest),
        plain(head + other + rest),
    ensures
        normalised(head + one + rest) == normalised(head + other + rest),
{
    plain_text_is_kept(head + one + rest);
    plain_text_is_kept(head + other + rest);
    blanks_collapse_to_one(head, one);
    blanks_collapse_to_one(head, other);
    assert(is_space(one[one.len() - 1]) && is_space(other[other.len() - 1]));
    collapsed_appends(head + one, head + other, rest);
}

proof fn collapsed_joins(a: Seq<char>, b: Seq<char>)
    requires
        b.len() > 0,
        !is_space(b[0]),
    ensures
        collapsed(a + b) == collapsed(a) + collapsed(b),
    decreases b.len(),
{
    let t = a + b;
    let less = b.drop_last();
    assert(t.drop_last() =~= a + less);
    assert(t.last() == b.last());
    if less.len() == 0 {
        assert(b.last() == b[0]);
        assert(a + less =~= a);
        assert(collapsed(less) =~= Seq::<char>::empty());
        assert(collapsed(b) =~= seq![b[0]]);
        assert(collapsed(t) =~= collapsed(a) + collapsed(b));
    } else {
        assert(less[0] == b[0]);
        collapsed_joins(a, less);
        assert(t[t.len() - 2] == b[b.len() - 2]);
        assert(collapsed(t) =~= collapsed(a) + collapsed(b));
    }
}

proof fn collapsed_blank(t: Seq<char>)
    requires
        is_blank(t),
    ensures
        collapsed(t) == seq![' '],
{
    blanks_collapse_to_one(Seq::empty(), t);
    assert(Seq::<char>::empty() + t =~= t);
    assert(Seq::<char>::empty() + seq![' '] =~= seq![' ']);
    let one = seq![' '];
    assert(one.drop_last() =~= Seq::<char>::empty());
    assert(one.last() == ' ');
    assert(collapsed(one.drop_last()) =~= Seq::<char>::empty());
    assert(collapsed(one) =~= one);
}

proof fn collapsed_starts(t: Seq<char>)
    requires
        t.len() > 0,
        !is_space(t[0]),
    ensures
        collapsed(t).len() > 0,
        collapsed(t)[0] == t[0],
    decreases t.len(),
{
    if t.len() > 1 {
        assert(t.drop_last()[0] == t[0]);
        collapsed_starts(t.drop_last());
    } else {
        assert(t.last() == t[0]);
        assert(collapsed(t.drop_last()) =~= Seq::<char>::empty());
        assert(collapsed(t) =~= seq![t[0]]);
    }
}

/// White space at the ends of a text without noise does not count.
pub proof fn edges_do_not_count(before: Seq<char>, t: Seq<char>, after: Seq<char>)
    requires
        is_blank(before),
        is_blank(after),
        t.len() > 0,
        !is_space(t[0]),
        plain(t),
        plain(before + t + after),
    ensures
        normalised(before + t + after) == normalised(t),
{
    plain_text_is_kept(t);
    plain_text_is_kept(before + t + after);
    let rest = t + after;
    assert(before + t + after =~= before + rest);
    assert(rest[0] == t[0]);
    collapsed_joins(before, rest);
    collapsed_blank(before);
    blanks_collapse_to_one(t, after);
    collapsed_starts(t);
    collapsed_starts(rest);
    let c = collapsed(t);
    let d = collapsed(rest);
    let one = seq![' '];
    assert((t + one).drop_last() =~= t);
    assert((t + one).last() == ' ');
    assert((t + one)[(t + one).len() - 2] == t.last());
    assert(collapsed(before + rest) =~= one + d);
    assert((one + d).skip(1) =~= d);
    assert(run(d, Class::Space) == 0);
    assert((one + d)[0] == ' ');
    assert(run(one + d, Class::Space) == 1);
    assert(run(c, Class::Space) == 0);
    assert(c.skip(0) =~= c);
    collapsed_ends(t);
    if is_space(t.last()) {
        assert(d == c);
    } else {
        assert(d == c.push(' '));
        assert(d.drop_last() =~= c);
    }
}

proof fn collapsed_ends(t: Seq<char>)
    requires
        t.len() > 0,
    ensures
        collapsed(t).len() > 0,
        is_space(collapsed(t).last()) == is_space(t.last()),
    decreases t.len(),
{
    if t.len() > 1 {
        collapsed_ends(t.drop_last());
        assert(t.drop_last().last() == t[t.len() - 2]);
    }
}

}
