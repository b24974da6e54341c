//! Binaries that are written section by section are read back so, and their code is
//! counted.
use crate::wasm_instrumenter::{
    block_count, code_size, leb128, leb128_of_prefix, leb_len, leb_value, place_value,
    sections_from, sections_of,
};
use vstd::prelude::*;

verus! {

/// The LEB128 text of a number: seven bits a byte, the lowest first, with a
/// continuation bit in all but the last.
pub open spec fn leb_text(n: nat) -> Seq<u8>
    decreases n,
{
    if n < 128 {
        seq![n as u8]
    } else {
        seq![(128 + n % 128) as u8] + leb_text(n / 128)
    }
}

proof fn value_from_the_front(a: u8, s: Seq<u8>)
    ensures
        leb_value(seq![a] + s) == a as nat % 128 + 128 * leb_value(s),
    decreases s.len(),
{
    let t = seq![a] + s;
    if s.len() == 0 {
        assert(t =~= seq![a]);
        assert(t.drop_last() =~= Seq::<u8>::empty());
        reveal_with_fuel(leb_value, 2);
        let digit = a as nat % 128;
        assert(digit * place_value(0) == digit) by (nonlinear_arith)
            requires
                place_value(0) == 1,
        ;
        assert(t.last() == a);
        assert(leb_value(t) == digit * place_value(0));
    } else {
        value_from_the_front(a, s.drop_last());
        assert(t.drop_last() =~= seq![a] + s.drop_last());
        assert(t.last() == s.last());
        let digit = s.last() as nat % 128;
        let small = place_value((s.len() - 1) as nat);
        let large = place_value(s.len());
        assert(large == 128 * small);
        assert(digit * large == 128 * (digit * small)) by (nonlinear_arith)
            requires
                large == 128 * small,
        ;
    }
}

proof fn text_has_the_value(n: nat)
    ensures
        leb_value(leb_text(n)) == n,
        leb_text(n).len() > 0,
    decreases n,
{
    if n < 128 {
        value_from_the_front(n as u8, Seq::empty());
        assert(seq![n as u8] + Seq::<u8>::empty() =~= seq![n as u8]);
        assert(leb_value(Seq::<u8>::empty()) == 0);
    } else {
        text_has_the_value(n / 128);
        value_from_the_front((128 + n % 128) as u8, leb_text(n / 128));
    }
}

proof fn text_has_the_length(before: Seq<u8>, n: nat, rest: Seq<u8>)
    requires
        before.len() < 5,
        n < place_value((5 - before.len()) as nat),
    ensures
        leb_len(before + leb_text(n) + rest, before.len()) == Some(
            before.len() + leb_text(n).len(),
        ),
        before.len() + leb_text(n).len() <= 5,
    decreases n,
{
    let t = before + leb_text(n) + rest;
    let from = before.len();
    assert(t[from as int] == leb_text(n)[0]);
    if n >= 128 {
        let first = (128 + n % 128) as u8;
        let more = before.push(first);
        let left = (5 - from) as nat;
        assert(place_value(left) == 128 * place_value((left - 1) as nat));
        if left == 1 {
            assert(place_value(0) == 1);
        }
        assert(t =~= more + leb_text(n / 128) + rest);
        text_has_the_length(more, n / 128, rest);
    }
}

/// A number of 32 bits that is written as LEB128 is read back, whatever follows it.
pub proof fn written_numbers_are_read(n: u32, rest: Seq<u8>)
    ensures
        leb128(leb_text(n as nat) + rest) == Some((n, leb_text(n as nat).len())),
        leb_text(n as nat).len() <= 5,
{
    let text = leb_text(n as nat);
    assert(place_value(5) >= 0x1_0000_0000) by {
        reveal_with_fuel(place_value, 6);
    }
    text_has_the_length(Seq::empty(), n as nat, rest);
    assert(Seq::<u8>::empty() + text + rest =~= text + rest);
    assert((text + rest).take(text.len() as int) =~= text);
    text_has_the_value(n as nat);
}

/// The bytes of a section: its number, the length of its payload, and the payload.
pub open spec fn section_text(id: u8, payload: Seq<u8>) -> Seq<u8> {
    seq![id] + leb_text(payload.len()) + payload
}

proof fn behind_others(bytes: Seq<u8>, offset: nat, id: u8, payload: Seq<u8>)
    requires
        payload.len() <= u32::MAX,
        offset <= bytes.len(),
        sections_from(bytes, offset) is Some,
    ensures
        sections_from(bytes + section_text(id, payload), offset) == Some(
            sections_from(bytes, offset)->0.push((id, payload)),
        ),
    decreases bytes.len() - offset,
{
    let more = section_text(id, payload);
    let all = bytes + more;
    let none = Seq::<(u8, Seq<u8>)>::empty();
    if offset == bytes.len() {
        let text = leb_text(payload.len());
        let rest = all.skip(offset as int + 1);
        assert(rest =~= text + payload);
        written_numbers_are_read(payload.len() as u32, payload);
        assert(all[offset as int] == id);
        let start = offset + 1 + text.len();
        let end = start + payload.len();
        assert(all.len() == end);
        assert(all.subrange(start as int, end as int) =~= payload);
        assert(sections_from(all, end) == Some(none));
        assert(seq![(id, payload)] + none =~= none.push((id, payload)));
    } else {
        let rest = bytes.skip(offset as int + 1);
        assert(all.skip(offset as int + 1) =~= rest + more);
        leb128_of_prefix(rest, more);
        let (len, used) = leb128(rest)->0;
        let start = offset + 1 + used;
        let end = start + len as nat;
        behind_others(bytes, end, id, payload);
        assert(all[offset as int] == bytes[offset as int]);
        assert(all.subrange(start as int, end as int) =~= bytes.subrange(start as int, end as int));
        let first = seq![(bytes[offset as int], bytes.subrange(start as int, end as int))];
        let tail = sections_from(bytes, end)->0;
        assert(first + tail.push((id, payload)) =~= (first + tail).push((id, payload)));
    }
}

/// A section of any length written behind a well-formed binary is read back, behind
/// the others.
pub proof fn written_sections_are_read(bytes: Seq<u8>, id: u8, payload: Seq<u8>)
    requires
        payload.len() <= u32::MAX,
        bytes.len() >= 8,
        sections_from(bytes, 8) is Some,
    ensures
        sections_of(bytes + section_text(id, payload)) == sections_of(bytes).push((id, payload)),
        sections_from(bytes + section_text(id, payload), 8) is Some,
        bytes.len() == 8 ==> sections_of(bytes) == Seq::<(u8, Seq<u8>)>::empty(),
{
    behind_others(bytes, 8, id, payload);
}

/// A section adds its payload to the code if it is a code section, which has the
/// number ten, and nothing otherwise.
pub proof fn code_sections_are_counted(bytes: Seq<u8>, id: u8, payload: Seq<u8>)
    requires
        payload.len() <= u32::MAX,
        bytes.len() >= 8,
        sections_from(bytes, 8) is Some,
    ensures
        code_size(sections_of(bytes + section_text(id, payload))) == code_size(sections_of(bytes))
            + (if id == 10 {
            payload.len()
        } else {
            0
        }),
{
    written_sections_are_read(bytes, id, payload);
    let before = sections_of(bytes);
    assert(before.push((id, payload)).drop_last() =~= before);
}

/// There is a block for every twenty bytes of code, and one at the least.
pub proof fn blocks_have_twenty_bytes(code: nat)
    ensures
        block_count(code) >= 1,
        code >= 20 ==> 20 * block_count(code) <= code < 20 * block_count(code) + 20,
        code < 20 ==> block_count(code) == 1,
{
}

}
