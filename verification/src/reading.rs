//! Reading stored values: the text of a value, read as JSON, gives the value back.
use crate::json::{array_text, escaped, escaped_byte, joined, json_string, nibble};
use crate::text::{digits, signed_digits};
use crate::values::{
    ascii_bytes, bool_text, byte_texts, field_jsons_of, json_of, jsons_of, pair_jsons_of, tagged,
    ValueModel,
};
use vstd::prelude::*;
use vstd::utf8::{decode_utf8, encode_utf8, encode_utf8_decode_utf8};

verus! {

/// A decimal digit.
pub open spec fn is_figure(b: u8) -> bool {
    48 <= b <= 57
}

/// Reads decimal digits on from a number: the number, and what follows.
pub open spec fn figures_from(t: Seq<u8>, number: nat) -> (nat, Seq<u8>)
    decreases t.len(),
{
    if t.len() > 0 && is_figure(t[0]) {
        figures_from(t.skip(1), (number * 10 + (t[0] - 48)) as nat)
    } else {
        (number, t)
    }
}

/// Reads a number without a sign.
pub open spec fn read_number(t: Seq<u8>) -> Option<(nat, Seq<u8>)> {
    if t.len() > 0 && is_figure(t[0]) {
        Some(figures_from(t, 0))
    } else {
        None
    }
}

/// Reads a number with a minus sign or without.
pub open spec fn read_integer(t: Seq<u8>) -> Option<(int, Seq<u8>)> {
    if t.len() > 0 && t[0] == 45 {
        match read_number(t.skip(1)) {
            Some((n, rest)) => Some((-(n as int), rest)),
            None => None,
        }
    } else {
        match read_number(t) {
            Some((n, rest)) => Some((n as int, rest)),
            None => None,
        }
    }
}

/// The number that a hexadecimal digit stands for.
pub open spec fn hex_figure(b: u8) -> int {
    if is_figure(b) {
        b - 48
    } else {
        b - 87
    }
}

/// Reads the bytes of a string up to its closing quote.
pub open spec fn string_from(t: Seq<u8>, before: Seq<u8>) -> Option<(Seq<u8>, Seq<u8>)>
    decreases t.len(),
{
    if t.len() == 0 {
        None
    } else if t[0] == 34 {
        Some((before, t.skip(1)))
    } else if t[0] != 92 {
        string_from(t.skip(1), before.push(t[0]))
    } else if t.len() < 2 {
        None
    } else if t[1] == 117 {
        if t.len() < 6 || t[2] != 48 || t[3] != 48 {
            None
        } else {
            string_from(
                t.skip(6),
                before.push((hex_figure(t[4]) * 16 + hex_figure(t[5])) as u8),
            )
        }
    } else {
        string_from(
            t.skip(2),
            before.push(
                if t[1] == 98 {
                    8
                } else if t[1] == 116 {
                    9
                } else if t[1] == 110 {
                    10
                } else if t[1] == 102 {
                    12
                } else if t[1] == 114 {
                    13
                } else {
                    t[1]
                },
            ),
        )
    }
}

/// Reads a string.
pub open spec fn read_string(t: Seq<u8>) -> Option<(Seq<char>, Seq<u8>)> {
    if t.len() > 0 && t[0] == 34 {
        match string_from(t.skip(1), Seq::empty()) {
            Some((bytes, rest)) => Some((decode_utf8(bytes), rest)),
            None => None,
        }
    } else {
        None
    }
}

/// Reads a flag.
pub open spec fn read_flag(t: Seq<u8>) -> Option<(bool, Seq<u8>)> {
    if t.len() >= 4 && t.take(4) == seq![116u8, 114, 117, 101] {
        Some((true, t.skip(4)))
    } else if t.len() >= 5 && t.take(5) == seq![102u8, 97, 108, 115, 101] {
        Some((false, t.skip(5)))
    } else {
        None
    }
}

/// What follows a byte that must stand at the start.
pub open spec fn after(t: Seq<u8>, b: u8) -> Option<Seq<u8>> {
    if t.len() > 0 && t[0] == b {
        Some(t.skip(1))
    } else {
        None
    }
}

/// Reads a name up to its closing quote.
pub open spec fn name_from(t: Seq<u8>, before: Seq<u8>) -> (Seq<u8>, Seq<u8>)
    decreases t.len(),
{
    if t.len() == 0 {
        (before, t)
    } else if t[0] == 34 {
        (before, t.skip(1))
    } else {
        name_from(t.skip(1), before.push(t[0]))
    }
}

/// Reads the items of an array of bytes from one item on, up to its closing
/// bracket.
pub open spec fn bytes_from(t: Seq<u8>, before: Seq<u8>, fuel: nat) -> Option<(Seq<u8>, Seq<u8>)>
    decreases fuel,
{
    if fuel == 0 {
        None
    } else {
        match read_number(t) {
            None => None,
            Some((n, rest)) => if rest.len() > 0 && rest[0] == 44 {
                bytes_from(rest.skip(1), before.push(n as u8), (fuel - 1) as nat)
            } else if rest.len() > 0 && rest[0] == 93 {
                Some((before.push(n as u8), rest.skip(1)))
            } else {
                None
            },
        }
    }
}

/// Reads an array of bytes.
pub open spec fn read_bytes(t: Seq<u8>, fuel: nat) -> Option<(Seq<u8>, Seq<u8>)> {
    match after(t, 91) {
        None => None,
        Some(u) => if u.len() > 0 && u[0] == 93 {
            Some((Seq::empty(), u.skip(1)))
        } else {
            bytes_from(u, Seq::empty(), fuel)
        },
    }
}

/// Reads the items of a list from one item on, up to its closing bracket.
pub open spec fn values_from(t: Seq<u8>, before: Seq<ValueModel>, fuel: nat) -> Option<
    (Seq<ValueModel>, Seq<u8>),
>
    decreases fuel,
{
    if fuel == 0 {
        None
    } else {
        match read_value(t, (fuel - 1) as nat) {
            None => None,
            Some((v, rest)) => if rest.len() > 0 && rest[0] == 44 {
                values_from(rest.skip(1), before.push(v), (fuel - 1) as nat)
            } else if rest.len() > 0 && rest[0] == 93 {
                Some((before.push(v), rest.skip(1)))
            } else {
                None
            },
        }
    }
}

/// Reads an array of a key and a value.
pub open spec fn read_pair(t: Seq<u8>, fuel: nat) -> Option<((ValueModel, ValueModel), Seq<u8>)>
    decreases fuel,
{
    if fuel == 0 {
        None
    } else {
        match after(t, 91) {
            None => None,
            Some(u) => match read_value(u, (fuel - 1) as nat) {
                None => None,
                Some((k, x)) => match after(x, 44) {
                    None => None,
                    Some(y) => match read_value(y, (fuel - 1) as nat) {
                        None => None,
                        Some((v, z)) => match after(z, 93) {
                            None => None,
                            Some(rest) => Some(((k, v), rest)),
                        },
                    },
                },
            },
        }
    }
}

/// Reads pairs from one on, up to the closing bracket.
pub open spec fn pairs_from(t: Seq<u8>, before: Seq<(ValueModel, ValueModel)>, fuel: nat) -> Option<
    (Seq<(ValueModel, ValueModel)>, Seq<u8>),
>
    decreases fuel,
{
    if fuel == 0 {
        None
    } else {
        match read_pair(t, (fuel - 1) as nat) {
            None => None,
            Some((v, rest)) => if rest.len() > 0 && rest[0] == 44 {
                pairs_from(rest.skip(1), before.push(v), (fuel - 1) as nat)
            } else if rest.len() > 0 && rest[0] == 93 {
                Some((before.push(v), rest.skip(1)))
            } else {
                None
            },
        }
    }
}

/// Reads an array of a name and a value.
pub open spec fn read_field(t: Seq<u8>, fuel: nat) -> Option<((Seq<char>, ValueModel), Seq<u8>)>
    decreases fuel,
{
    if fuel == 0 {
        None
    } else {
        match after(t, 91) {
            None => None,
            Some(u) => match read_string(u) {
                None => None,
                Some((k, x)) => match after(x, 44) {
                    None => None,
                    Some(y) => match read_value(y, (fuel - 1) as nat) {
                        None => None,
                        Some((v, z)) => match after(z, 93) {
                            None => None,
                            Some(rest) => Some(((k, v), rest)),
                        },
                    },
                },
            },
        }
    }
}

/// Reads named values from one on, up to the closing bracket.
pub open spec fn fields_from(t: Seq<u8>, before: Seq<(Seq<char>, ValueModel)>, fuel: nat) -> Option<
    (Seq<(Seq<char>, ValueModel)>, Seq<u8>),
>
    decreases fuel,
{
    if fuel == 0 {
        None
    } else {
        match read_field(t, (fuel - 1) as nat) {
            None => None,
            Some((v, rest)) => if rest.len() > 0 && rest[0] == 44 {
                fields_from(rest.skip(1), before.push(v), (fuel - 1) as nat)
            } else if rest.len() > 0 && rest[0] == 93 {
                Some((before.push(v), rest.skip(1)))
            } else {
                None
            },
        }
    }
}

/// The kind of a value, by the name of the member that holds it.
pub enum Kind {
    /// An account address.
    Address,
    /// A symbol.
    Symbol,
    /// A text.
    Text,
    /// A signed integer of 128 bits.
    I128,
    /// An unsigned integer of 64 bits.
    U64,
    /// An unsigned integer of 32 bits.
    U32,
    /// A flag.
    Flag,
    /// Bytes.
    Bytes,
    /// Bytes that are no value.
    InvalidBytes,
    /// A list.
    List,
    /// Pairs of a key and a value.
    Pairs,
    /// Named values.
    Fields,
    /// No kind of value.
    Other,
}

/// The kind that a name stands for.
#[verifier::opaque]
pub open spec fn kind_of(name: Seq<u8>) -> Kind {
    if name == seq![65u8, 100, 100, 114, 101, 115, 115] {
        Kind::Address
    } else if name == seq![83u8, 121, 109, 98, 111, 108] {
        Kind::Symbol
    } else if name == seq![83u8, 116, 114, 105, 110, 103] {
        Kind::Text
    } else if name == seq![73u8, 49, 50, 56] {
        Kind::I128
    } else if name == seq![85u8, 54, 52] {
        Kind::U64
    } else if name == seq![85u8, 51, 50] {
        Kind::U32
    } else if name == seq![66u8, 111, 111, 108] {
        Kind::Flag
    } else if name == seq![66u8, 121, 116, 101, 115] {
        Kind::Bytes
    } else if name == seq![73u8, 110, 118, 97, 108, 105, 100, 66, 121, 116, 101, 115] {
        Kind::InvalidBytes
    } else if name == seq![86u8, 101, 99] {
        Kind::List
    } else if name == seq![77u8, 97, 112] {
        Kind::Pairs
    } else if name == seq![83u8, 116, 114, 117, 99, 116] {
        Kind::Fields
    } else {
        Kind::Other
    }
}

/// Reads what the member of an object of a kind holds.
pub open spec fn read_body(kind: Kind, t: Seq<u8>, fuel: nat) -> Option<(ValueModel, Seq<u8>)>
    decreases fuel, 0int,
{
    match kind {
        Kind::Address => match read_string(t) {
            Some((x, rest)) => Some((ValueModel::Address(x), rest)),
            None => None,
        },
        Kind::Symbol => match read_string(t) {
            Some((x, rest)) => Some((ValueModel::Symbol(x), rest)),
            None => None,
        },
        Kind::Text => match read_string(t) {
            Some((x, rest)) => Some((ValueModel::String(x), rest)),
            None => None,
        },
        Kind::I128 => match read_integer(t) {
            Some((x, rest)) => Some((ValueModel::I128(x as i128), rest)),
            None => None,
        },
        Kind::U64 => match read_number(t) {
            Some((x, rest)) => Some((ValueModel::U64(x as u64), rest)),
            None => None,
        },
        Kind::U32 => match read_number(t) {
            Some((x, rest)) => Some((ValueModel::U32(x as u32), rest)),
            None => None,
        },
        Kind::Flag => match read_flag(t) {
            Some((x, rest)) => Some((ValueModel::Bool(x), rest)),
            None => None,
        },
        Kind::Bytes => match read_bytes(t, fuel) {
            Some((x, rest)) => Some((ValueModel::Bytes(x), rest)),
            None => None,
        },
        Kind::InvalidBytes => match read_bytes(t, fuel) {
            Some((x, rest)) => Some((ValueModel::InvalidBytes(x), rest)),
            None => None,
        },
        Kind::List => match after(t, 91) {
            None => None,
            Some(u) => if fuel == 0 {
                None
            } else if u.len() > 0 && u[0] == 93 {
                Some((ValueModel::Vec(Seq::empty()), u.skip(1)))
            } else {
                match values_from(u, Seq::empty(), (fuel - 1) as nat) {
                    Some((items, rest)) => Some((ValueModel::Vec(items), rest)),
                    None => None,
                }
            },
        },
        Kind::Pairs => match after(t, 91) {
            None => None,
            Some(u) => if fuel == 0 {
                None
            } else if u.len() > 0 && u[0] == 93 {
                Some((ValueModel::Mapping(Seq::empty()), u.skip(1)))
            } else {
                match pairs_from(u, Seq::empty(), (fuel - 1) as nat) {
                    Some((items, rest)) => Some((ValueModel::Mapping(items), rest)),
                    None => None,
                }
            },
        },
        Kind::Fields => match after(t, 91) {
            None => None,
            Some(u) => if fuel == 0 {
                None
            } else if u.len() > 0 && u[0] == 93 {
                Some((ValueModel::Struct(Seq::empty()), u.skip(1)))
            } else {
                match fields_from(u, Seq::empty(), (fuel - 1) as nat) {
                    Some((items, rest)) => Some((ValueModel::Struct(items), rest)),
                    None => None,
                }
            },
        },
        Kind::Other => None,
    }
}

/// Reads a value: an object with one member, which is named after the kind of the
/// value.
pub open spec fn read_value(t: Seq<u8>, fuel: nat) -> Option<(ValueModel, Seq<u8>)>
    decreases fuel, 1int,
{
    match after(t, 123) {
        None => None,
        Some(u) => match after(u, 34) {
            None => None,
            Some(v) => {
                let (name, w) = name_from(v, Seq::empty());
                match after(w, 58) {
                    None => None,
                    Some(x) => match read_body(kind_of(name), x, fuel) {
                        None => None,
                        Some((value, y)) => match after(y, 125) {
                            None => None,
                            Some(rest) => Some((value, rest)),
                        },
                    },
                }
            },
        },
    }
}

proof fn figures_read(n: nat, x: Seq<u8>)
    ensures
        digits(n).len() > 0,
        is_figure(digits(n)[0]),
        figures_from(digits(n) + x, 0) == figures_from(x, n),
    decreases n,
{
    if n < 10 {
        let t = digits(n) + x;
        assert(t[0] == (48 + n) as u8);
        assert(t.skip(1) =~= x);
    } else {
        let c = (48 + n % 10) as u8;
        let y = seq![c] + x;
        figures_read(n / 10, y);
        assert(digits(n) + x =~= digits(n / 10) + y);
        assert(y[0] == c);
        assert(y.skip(1) =~= x);
        assert(digits(n)[0] == digits(n / 10)[0]);
    }
}

/// The text does not go on with a digit.
pub open spec fn no_figure(t: Seq<u8>) -> bool {
    t.len() == 0 || !is_figure(t[0])
}

/// The numeral of a number reads as the number.
pub proof fn numerals_read_back(n: nat, rest: Seq<u8>)
    requires
        no_figure(rest),
    ensures
        read_number(digits(n) + rest) == Some((n, rest)),
{
    figures_read(n, rest);
    assert((digits(n) + rest)[0] == digits(n)[0]);
}

/// The numeral of an integer reads as the integer.
pub proof fn signed_numerals_read_back(n: int, rest: Seq<u8>)
    requires
        no_figure(rest),
    ensures
        read_integer(signed_digits(n) + rest) == Some((n, rest)),
{
    let t = signed_digits(n) + rest;
    if n < 0 {
        numerals_read_back((-n) as nat, rest);
        assert(t[0] == 45);
        assert(t.skip(1) =~= digits((-n) as nat) + rest);
    } else {
        numerals_read_back(n as nat, rest);
        figures_read(n as nat, rest);
        assert(t[0] == digits(n as nat)[0]);
    }
}

proof fn escaped_byte_reads(b: u8, x: Seq<u8>, before: Seq<u8>)
    ensures
        string_from(escaped_byte(b) + x, before) == string_from(x, before.push(b)),
{
    let t = escaped_byte(b) + x;
    if b == 34 || b == 92 || b == 8 || b == 9 || b == 10 || b == 12 || b == 13 {
        assert(t[0] == 92);
        assert(t[1] == escaped_byte(b)[1]);
        assert(t.skip(2) =~= x);
    } else if b < 32 {
        assert(t[0] == 92 && t[1] == 117 && t[2] == 48 && t[3] == 48);
        assert(t[4] == nibble(b as int / 16) && t[5] == nibble(b as int % 16));
        assert(t.skip(6) =~= x);
        assert(hex_figure(t[4]) == b as int / 16);
        assert(hex_figure(t[5]) == b as int % 16);
    } else {
        assert(t[0] == b);
        assert(t.skip(1) =~= x);
    }
}

proof fn escapes_read(bytes: Seq<u8>, x: Seq<u8>, before: Seq<u8>)
    ensures
        string_from(escaped(bytes) + x, before) == string_from(x, before + bytes),
    decreases bytes.len(),
{
    if bytes.len() == 0 {
        assert(escaped(bytes) + x =~= x);
        assert(before + bytes =~= before);
    } else {
        let less = bytes.drop_last();
        let y = escaped_byte(bytes.last()) + x;
        assert(escaped(bytes) + x =~= escaped(less) + y);
        escapes_read(less, y, before);
        escaped_byte_reads(bytes.last(), x, before + less);
        assert((before + less).push(bytes.last()) =~= before + bytes);
    }
}

/// The JSON text of a string reads as the string.
pub proof fn strings_read_back(text: Seq<char>, rest: Seq<u8>)
    ensures
        read_string(json_string(text) + rest) == Some((text, rest)),
{
    let bytes = encode_utf8(text);
    let t = json_string(text) + rest;
    let x = seq![34u8] + rest;
    assert(t[0] == 34);
    assert(t.skip(1) =~= escaped(bytes) + x);
    escapes_read(bytes, x, Seq::empty());
    assert(Seq::<u8>::empty() + bytes =~= bytes);
    assert(x[0] == 34);
    assert(x.skip(1) =~= rest);
    encode_utf8_decode_utf8(text);
}

proof fn flags_read_back(b: bool, rest: Seq<u8>)
    ensures
        read_flag(bool_text(b) + rest) == Some((b, rest)),
{
    let t = bool_text(b) + rest;
    if b {
        assert(t.take(4) =~= seq![116u8, 114, 117, 101]);
        assert(t.skip(4) =~= rest);
    } else {
        assert(t.take(4)[0] == 102);
        assert(seq![116u8, 114, 117, 101][0] == 116);
        assert(t.take(5) =~= seq![102u8, 97, 108, 115, 101]);
        assert(t.skip(5) =~= rest);
    }
}

proof fn names_read(name: Seq<u8>, x: Seq<u8>, before: Seq<u8>)
    requires
        forall|i: int| 0 <= i < name.len() ==> #[trigger] name[i] != 34,
    ensures
        name_from(name + seq![34u8] + x, before) == (before + name, x),
    decreases name.len(),
{
    let t = name + seq![34u8] + x;
    if name.len() == 0 {
        assert(t[0] == 34);
        assert(t.skip(1) =~= x);
        assert(before + name =~= before);
    } else {
        assert(t[0] == name[0]);
        assert(t.skip(1) =~= name.skip(1) + seq![34u8] + x);
        names_read(name.skip(1), x, before.push(name[0]));
        assert(before.push(name[0]) + name.skip(1) =~= before + name);
    }
}

proof fn joined_from_the_front(items: Seq<Seq<u8>>)
    requires
        items.len() > 1,
    ensures
        joined(items) == items[0] + seq![44u8] + joined(items.skip(1)),
    decreases items.len(),
{
    if items.len() == 2 {
        assert(items.drop_last()[0] == items[0]);
        assert(joined(items.drop_last()) == items[0]);
        assert(items.skip(1)[0] == items[1]);
        assert(joined(items.skip(1)) == items[1]);
        assert(joined(items) =~= items[0] + seq![44u8] + joined(items.skip(1)));
    } else {
        joined_from_the_front(items.drop_last());
        assert(items.drop_last().skip(1) =~= items.skip(1).drop_last());
        assert(items.skip(1).last() == items.last());
        assert(items.drop_last()[0] == items[0]);
        assert(joined(items) =~= items[0] + seq![44u8] + joined(items.skip(1)));
    }
}

/// The text of items from one on, with the closing bracket and what follows.
spec fn items_text(items: Seq<Seq<u8>>, i: int, rest: Seq<u8>) -> Seq<u8> {
    joined(items.skip(i)) + seq![93u8] + rest
}

proof fn next_item(items: Seq<Seq<u8>>, i: int, rest: Seq<u8>) -> (x: Seq<u8>)
    requires
        0 <= i < items.len(),
    ensures
        items_text(items, i, rest) == items[i] + x,
        x.len() > 0,
        i < items.len() - 1 ==> x[0] == 44 && x.skip(1) == items_text(items, i + 1, rest),
        i == items.len() - 1 ==> x[0] == 93 && x.skip(1) == rest,
{
    let tail = items.skip(i);
    assert(tail[0] == items[i]);
    if i < items.len() - 1 {
        let x = seq![44u8] + items_text(items, i + 1, rest);
        joined_from_the_front(tail);
        assert(tail.skip(1) =~= items.skip(i + 1));
        assert(items_text(items, i, rest) =~= items[i] + x);
        assert(x.skip(1) =~= items_text(items, i + 1, rest));
        x
    } else {
        let x = seq![93u8] + rest;
        assert(items_text(items, i, rest) =~= items[i] + x);
        assert(x.skip(1) =~= rest);
        x
    }
}

proof fn bytes_read(bytes: Seq<u8>, i: int, rest: Seq<u8>, fuel: nat)
    requires
        0 <= i < bytes.len(),
        fuel >= bytes.len() - i,
    ensures
        bytes_from(items_text(byte_texts(bytes), i, rest), bytes.take(i), fuel) == Some(
            (bytes, rest),
        ),
    decreases bytes.len() - i,
{
    let items = byte_texts(bytes);
    let x = next_item(items, i, rest);
    assert(items[i] == digits(bytes[i] as nat));
    numerals_read_back(bytes[i] as nat, x);
    assert(bytes.take(i).push(bytes[i]) =~= bytes.take(i + 1));
    if i < bytes.len() - 1 {
        bytes_read(bytes, i + 1, rest, (fuel - 1) as nat);
    } else {
        assert(bytes.take(i + 1) =~= bytes);
    }
}

proof fn array_starts(items: Seq<Seq<u8>>, rest: Seq<u8>)
    ensures
        after(array_text(items) + rest, 91) == Some(items_text(items, 0, rest)),
        items.len() == 0 ==> items_text(items, 0, rest) == seq![93u8] + rest,
{
    let t = array_text(items) + rest;
    assert(t[0] == 91);
    assert(items.skip(0) =~= items);
    assert(t.skip(1) =~= items_text(items, 0, rest));
    if items.len() == 0 {
        assert(items_text(items, 0, rest) =~= seq![93u8] + rest);
    }
}

proof fn numeral_starts(n: nat, x: Seq<u8>)
    ensures
        (digits(n) + x).len() > 0,
        (digits(n) + x)[0] != 93,
{
    figures_read(n, x);
    assert((digits(n) + x)[0] == digits(n)[0]);
}

/// The JSON text of bytes reads as the bytes.
pub proof fn byte_arrays_read_back(bytes: Seq<u8>, rest: Seq<u8>, fuel: nat)
    requires
        fuel >= bytes.len(),
    ensures
        read_bytes(array_text(byte_texts(bytes)) + rest, fuel) == Some((bytes, rest)),
{
    let items = byte_texts(bytes);
    array_starts(items, rest);
    if bytes.len() == 0 {
        let u = seq![93u8] + rest;
        assert(u[0] == 93);
        assert(u.skip(1) =~= rest);
        assert(bytes =~= Seq::<u8>::empty());
    } else {
        let x = next_item(items, 0, rest);
        assert(items[0] == digits(bytes[0] as nat));
        numeral_starts(bytes[0] as nat, x);
        bytes_read(bytes, 0, rest, fuel);
        assert(bytes.take(0) =~= Seq::<u8>::empty());
    }
}

/// The text of a value reads as the value, whatever follows it.
pub open spec fn reads_back(v: ValueModel) -> bool {
    forall|rest: Seq<u8>, fuel: nat|
        fuel >= json_of(v).len() ==> #[trigger] read_value(json_of(v) + rest, fuel) == Some(
            (v, rest),
        )
}

proof fn tag_reads(name: Seq<char>, bytes: Seq<u8>, body: Seq<u8>, rest: Seq<u8>, fuel: nat)
    requires
        ascii_bytes(name) == bytes,
        forall|i: int| 0 <= i < bytes.len() ==> #[trigger] bytes[i] != 34,
    ensures
        ({
            let inner = read_body(kind_of(bytes), body + seq![125u8] + rest, fuel);
            read_value(tagged(name, body) + rest, fuel) == match inner {
                None => None::<(ValueModel, Seq<u8>)>,
                Some((value, y)) => match after(y, 125) {
                    None => None::<(ValueModel, Seq<u8>)>,
                    Some(z) => Some((value, z)),
                },
            }
        }),
{
    let t = tagged(name, body) + rest;
    let x = body + seq![125u8] + rest;
    let w = seq![58u8] + x;
    assert(t[0] == 123);
    assert(t.skip(1)[0] == 34);
    assert(t.skip(1).skip(1) =~= bytes + seq![34u8] + w);
    names_read(bytes, w, Seq::empty());
    assert(Seq::<u8>::empty() + bytes =~= bytes);
    assert(w[0] == 58);
    assert(w.skip(1) =~= x);
}

proof fn closes(rest: Seq<u8>)
    ensures
        after(seq![125u8] + rest, 125) == Some(rest),
        no_figure(seq![125u8] + rest),
{
    let y = seq![125u8] + rest;
    assert(y[0] == 125);
    assert(y.skip(1) =~= rest);
}

proof fn json_texts_indexed(items: Seq<ValueModel>)
    ensures
        jsons_of(items).len() == items.len(),
        forall|i: int| 0 <= i < items.len() ==> #[trigger] jsons_of(items)[i] == json_of(items[i]),
    decreases items.len(),
{
    if items.len() > 0 {
        json_texts_indexed(items.drop_last());
        assert forall|i: int| 0 <= i < items.len() implies #[trigger] jsons_of(items)[i] == json_of(
            items[i],
        ) by {
            if i < items.len() - 1 {
                assert(jsons_of(items)[i] == jsons_of(items.drop_last())[i]);
            }
        }
    }
}

proof fn pair_texts_indexed(pairs: Seq<(ValueModel, ValueModel)>)
    ensures
        pair_jsons_of(pairs).len() == pairs.len(),
        forall|i: int|
            0 <= i < pairs.len() ==> #[trigger] pair_jsons_of(pairs)[i] == array_text(
                seq![json_of(pairs[i].0), json_of(pairs[i].1)],
            ),
    decreases pairs.len(),
{
    if pairs.len() > 0 {
        pair_texts_indexed(pairs.drop_last());
        assert forall|i: int| 0 <= i < pairs.len() implies #[trigger] pair_jsons_of(pairs)[i]
            == array_text(seq![json_of(pairs[i].0), json_of(pairs[i].1)]) by {
            if i < pairs.len() - 1 {
                assert(pair_jsons_of(pairs)[i] == pair_jsons_of(pairs.drop_last())[i]);
            }
        }
    }
}

proof fn field_texts_indexed(fields: Seq<(Seq<char>, ValueModel)>)
    ensures
        field_jsons_of(fields).len() == fields.len(),
        forall|i: int|
            0 <= i < fields.len() ==> #[trigger] field_jsons_of(fields)[i] == array_text(
                seq![json_string(fields[i].0), json_of(fields[i].1)],
            ),
    decreases fields.len(),
{
    if fields.len() > 0 {
        field_texts_indexed(fields.drop_last());
        assert forall|i: int| 0 <= i < fields.len() implies #[trigger] field_jsons_of(fields)[i]
            == array_text(seq![json_string(fields[i].0), json_of(fields[i].1)]) by {
            if i < fields.len() - 1 {
                assert(field_jsons_of(fields)[i] == field_jsons_of(fields.drop_last())[i]);
            }
        }
    }
}

proof fn two_items(a: Seq<u8>, b: Seq<u8>, rest: Seq<u8>)
    ensures
        array_text(seq![a, b]) + rest == seq![91u8] + (a + (seq![44u8] + (b + (seq![93u8] + rest)))),
        array_text(seq![a, b]).len() == a.len() + b.len() + 3,
{
    let two = seq![a, b];
    joined_from_the_front(two);
    assert(two.skip(1)[0] == b);
    assert(joined(two) =~= a + seq![44u8] + b);
    assert(array_text(two) + rest =~= seq![91u8] + (a + (seq![44u8] + (b + (seq![93u8] + rest)))));
}

proof fn starts_with(b: u8, x: Seq<u8>)
    ensures
        after(seq![b] + x, b) == Some(x),
{
    let t = seq![b] + x;
    assert(t[0] == b);
    assert(t.skip(1) =~= x);
}

proof fn text_starts(v: ValueModel, x: Seq<u8>)
    ensures
        json_of(v).len() > 0,
        (json_of(v) + x)[0] == 123,
{
    assert(json_of(v)[0] == 123);
}

proof fn values_read(items: Seq<ValueModel>, i: int, rest: Seq<u8>, fuel: nat)
    requires
        0 <= i < items.len(),
        forall|k: int| 0 <= k < items.len() ==> reads_back(#[trigger] items[k]),
        fuel >= items_text(jsons_of(items), i, rest).len() - rest.len(),
    ensures
        values_from(items_text(jsons_of(items), i, rest), items.take(i), fuel) == Some(
            (items, rest),
        ),
    decreases items.len() - i,
{
    let texts = jsons_of(items);
    json_texts_indexed(items);
    let x = next_item(texts, i, rest);
    assert(reads_back(items[i]));
    text_starts(items[i], x);
    assert(x.skip(1).len() == x.len() - 1);
    assert(read_value(json_of(items[i]) + x, (fuel - 1) as nat) == Some((items[i], x)));
    assert(items.take(i).push(items[i]) =~= items.take(i + 1));
    if i < items.len() - 1 {
        values_read(items, i + 1, rest, (fuel - 1) as nat);
    } else {
        assert(items.take(i + 1) =~= items);
    }
}

proof fn pair_reads(pair: (ValueModel, ValueModel), rest: Seq<u8>, fuel: nat)
    requires
        reads_back(pair.0),
        reads_back(pair.1),
        fuel >= array_text(seq![json_of(pair.0), json_of(pair.1)]).len(),
    ensures
        read_pair(array_text(seq![json_of(pair.0), json_of(pair.1)]) + rest, fuel) == Some(
            (pair, rest),
        ),
{
    let a = json_of(pair.0);
    let b = json_of(pair.1);
    two_items(a, b, rest);
    let z = seq![93u8] + rest;
    let y = b + z;
    let x = seq![44u8] + y;
    starts_with(91, a + x);
    starts_with(44, y);
    starts_with(93, rest);
    assert(read_value(a + x, (fuel - 1) as nat) == Some((pair.0, x)));
    assert(read_value(b + z, (fuel - 1) as nat) == Some((pair.1, z)));
}

proof fn pairs_read(pairs: Seq<(ValueModel, ValueModel)>, i: int, rest: Seq<u8>, fuel: nat)
    requires
        0 <= i < pairs.len(),
        forall|k: int|
            0 <= k < pairs.len() ==> reads_back((#[trigger] pairs[k]).0) && reads_back(pairs[k].1),
        fuel >= items_text(pair_jsons_of(pairs), i, rest).len() - rest.len(),
    ensures
        pairs_from(items_text(pair_jsons_of(pairs), i, rest), pairs.take(i), fuel) == Some(
            (pairs, rest),
        ),
    decreases pairs.len() - i,
{
    let texts = pair_jsons_of(pairs);
    pair_texts_indexed(pairs);
    let x = next_item(texts, i, rest);
    assert(x.skip(1).len() == x.len() - 1);
    two_items(json_of(pairs[i].0), json_of(pairs[i].1), x);
    pair_reads(pairs[i], x, (fuel - 1) as nat);
    assert(pairs.take(i).push(pairs[i]) =~= pairs.take(i + 1));
    if i < pairs.len() - 1 {
        pairs_read(pairs, i + 1, rest, (fuel - 1) as nat);
    } else {
        assert(pairs.take(i + 1) =~= pairs);
    }
}

proof fn field_reads(field: (Seq<char>, ValueModel), rest: Seq<u8>, fuel: nat)
    requires
        reads_back(field.1),
        fuel >= array_text(seq![json_string(field.0), json_of(field.1)]).len(),
    ensures
        read_field(array_text(seq![json_string(field.0), json_of(field.1)]) + rest, fuel) == Some(
            (field, rest),
        ),
{
    let a = json_string(field.0);
    let b = json_of(field.1);
    two_items(a, b, rest);
    let z = seq![93u8] + rest;
    let y = b + z;
    let x = seq![44u8] + y;
    starts_with(91, a + x);
    starts_with(44, y);
    starts_with(93, rest);
    strings_read_back(field.0, x);
    assert(read_value(b + z, (fuel - 1) as nat) == Some((field.1, z)));
}

proof fn fields_read(fields: Seq<(Seq<char>, ValueModel)>, i: int, rest: Seq<u8>, fuel: nat)
    requires
        0 <= i < fields.len(),
        forall|k: int| 0 <= k < fields.len() ==> reads_back((#[trigger] fields[k]).1),
        fuel >= items_text(field_jsons_of(fields), i, rest).len() - rest.len(),
    ensures
        fields_from(items_text(field_jsons_of(fields), i, rest), fields.take(i), fuel) == Some(
            (fields, rest),
        ),
    decreases fields.len() - i,
{
    let texts = field_jsons_of(fields);
    field_texts_indexed(fields);
    let x = next_item(texts, i, rest);
    assert(x.skip(1).len() == x.len() - 1);
    two_items(json_string(fields[i].0), json_of(fields[i].1), x);
    field_reads(fields[i], x, (fuel - 1) as nat);
    assert(fields.take(i).push(fields[i]) =~= fields.take(i + 1));
    if i < fields.len() - 1 {
        fields_read(fields, i + 1, rest, (fuel - 1) as nat);
    } else {
        assert(fields.take(i + 1) =~= fields);
    }
}

/// What tells the names apart: their lengths, and letters where these are the same.
proof fn tell_apart(name: Seq<u8>)
    ensures
        name == seq![65u8, 100, 100, 114, 101, 115, 115] ==> name.len() == 7,
        name == seq![83u8, 121, 109, 98, 111, 108] ==> name.len() == 6 && name[1] == 121,
        name == seq![83u8, 116, 114, 105, 110, 103] ==> name.len() == 6 && name[1] == 116 && name[3] == 105,
        name == seq![73u8, 49, 50, 56] ==> name.len() == 4 && name[0] == 73,
        name == seq![85u8, 54, 52] ==> name.len() == 3 && name[0] == 85 && name[1] == 54,
        name == seq![85u8, 51, 50] ==> name.len() == 3 && name[0] == 85 && name[1] == 51,
        name == seq![66u8, 111, 111, 108] ==> name.len() == 4 && name[0] == 66,
        name == seq![66u8, 121, 116, 101, 115] ==> name.len() == 5,
        name == seq![73u8, 110, 118, 97, 108, 105, 100, 66, 121, 116, 101, 115] ==> name.len() == 12,
        name == seq![86u8, 101, 99] ==> name.len() == 3 && name[0] == 86,
        name == seq![77u8, 97, 112] ==> name.len() == 3 && name[0] == 77,
        name == seq![83u8, 116, 114, 117, 99, 116] ==> name.len() == 6 && name[1] == 116 && name[3] == 117,
{
}

proof fn address_is_named()
    ensures
        kind_of(ascii_bytes("Address"@)) is Address,
        forall|i: int| 0 <= i < ascii_bytes("Address"@).len() ==> #[trigger] ascii_bytes("Address"@)[i] != 34,
{
    reveal(kind_of);
    reveal_strlit("Address");
    let name = ascii_bytes("Address"@);
    assert(name =~= seq![65u8, 100, 100, 114, 101, 115, 115]);
    tell_apart(name);
}

proof fn symbol_is_named()
    ensures
        kind_of(ascii_bytes("Symbol"@)) is Symbol,
        forall|i: int| 0 <= i < ascii_bytes("Symbol"@).len() ==> #[trigger] ascii_bytes("Symbol"@)[i] != 34,
{
    reveal(kind_of);
    reveal_strlit("Symbol");
    let name = ascii_bytes("Symbol"@);
    assert(name =~= seq![83u8, 121, 109, 98, 111, 108]);
    tell_apart(name);
}

proof fn text_is_named()
    ensures
        kind_of(ascii_bytes("String"@)) is Text,
        forall|i: int| 0 <= i < ascii_bytes("String"@).len() ==> #[trigger] ascii_bytes("String"@)[i] != 34,
{
    reveal(kind_of);
    reveal_strlit("String");
    let name = ascii_bytes("String"@);
    assert(name =~= seq![83u8, 116, 114, 105, 110, 103]);
    tell_apart(name);
}

proof fn i128_is_named()
    ensures
        kind_of(ascii_bytes("I128"@)) is I128,
        forall|i: int| 0 <= i < ascii_bytes("I128"@).len() ==> #[trigger] ascii_bytes("I128"@)[i] != 34,
{
    reveal(kind_of);
    reveal_strlit("I128");
    let name = ascii_bytes("I128"@);
    assert(name =~= seq![73u8, 49, 50, 56]);
    tell_apart(name);
}

proof fn u64_is_named()
    ensures
        kind_of(ascii_bytes("U64"@)) is U64,
        forall|i: int| 0 <= i < ascii_bytes("U64"@).len() ==> #[trigger] ascii_bytes("U64"@)[i] != 34,
{
    reveal(kind_of);
    reveal_strlit("U64");
    let name = ascii_bytes("U64"@);
    assert(name =~= seq![85u8, 54, 52]);
    tell_apart(name);
}

proof fn u32_is_named()
    ensures
        kind_of(ascii_bytes("U32"@)) is U32,
        forall|i: int| 0 <= i < ascii_bytes("U32"@).len() ==> #[trigger] ascii_bytes("U32"@)[i] != 34,
{
    reveal(kind_of);
    reveal_strlit("U32");
    let name = ascii_bytes("U32"@);
    assert(name =~= seq![85u8, 51, 50]);
    tell_apart(name);
}

proof fn flag_is_named()
    ensures
        kind_of(ascii_bytes("Bool"@)) is Flag,
        forall|i: int| 0 <= i < ascii_bytes("Bool"@).len() ==> #[trigger] ascii_bytes("Bool"@)[i] != 34,
{
    reveal(kind_of);
    reveal_strlit("Bool");
    let name = ascii_bytes("Bool"@);
    assert(name =~= seq![66u8, 111, 111, 108]);
    tell_apart(name);
}

proof fn bytes_is_named()
    ensures
        kind_of(ascii_bytes("Bytes"@)) is Bytes,
        forall|i: int| 0 <= i < ascii_bytes("Bytes"@).len() ==> #[trigger] ascii_bytes("Bytes"@)[i] != 34,
{
    reveal(kind_of);
    reveal_strlit("Bytes");
    let name = ascii_bytes("Bytes"@);
    assert(name =~= seq![66u8, 121, 116, 101, 115]);
    tell_apart(name);
}

proof fn invalidbytes_is_named()
    ensures
        kind_of(ascii_bytes("InvalidBytes"@)) is InvalidBytes,
        forall|i: int| 0 <= i < ascii_bytes("InvalidBytes"@).len() ==> #[trigger] ascii_bytes("InvalidBytes"@)[i] != 34,
{
    reveal(kind_of);
    reveal_strlit("InvalidBytes");
    let name = ascii_bytes("InvalidBytes"@);
    assert(name =~= seq![73u8, 110, 118, 97, 108, 105, 100, 66, 121, 116, 101, 115]);
    tell_apart(name);
}

proof fn list_is_named()
    ensures
        kind_of(ascii_bytes("Vec"@)) is List,
        forall|i: int| 0 <= i < ascii_bytes("Vec"@).len() ==> #[trigger] ascii_bytes("Vec"@)[i] != 34,
{
    reveal(kind_of);
    reveal_strlit("Vec");
    let name = ascii_bytes("Vec"@);
    assert(name =~= seq![86u8, 101, 99]);
    tell_apart(name);
}

proof fn pairs_is_named()
    ensures
        kind_of(ascii_bytes("Map"@)) is Pairs,
        forall|i: int| 0 <= i < ascii_bytes("Map"@).len() ==> #[trigger] ascii_bytes("Map"@)[i] != 34,
{
    reveal(kind_of);
    reveal_strlit("Map");
    let name = ascii_bytes("Map"@);
    assert(name =~= seq![77u8, 97, 112]);
    tell_apart(name);
}

proof fn fields_is_named()
    ensures
        kind_of(ascii_bytes("Struct"@)) is Fields,
        forall|i: int| 0 <= i < ascii_bytes("Struct"@).len() ==> #[trigger] ascii_bytes("Struct"@)[i] != 34,
{
    reveal(kind_of);
    reveal_strlit("Struct");
    let name = ascii_bytes("Struct"@);
    assert(name =~= seq![83u8, 116, 114, 117, 99, 116]);
    tell_apart(name);
}

proof fn text_reads(v: ValueModel, rest: Seq<u8>, fuel: nat)
    requires
        v is Address || v is Symbol || v is String,
    ensures
        read_value(json_of(v) + rest, fuel) == Some((v, rest)),
{
    closes(rest);
    let close = seq![125u8] + rest;
    match v {
        ValueModel::Address(t) => {
            let body = json_string(t);
            address_is_named();
            tag_reads("Address"@, ascii_bytes("Address"@), body, rest, fuel);
            assert(body + seq![125u8] + rest =~= body + close);
            strings_read_back(t, close);
        },
        ValueModel::Symbol(t) => {
            let body = json_string(t);
            symbol_is_named();
            tag_reads("Symbol"@, ascii_bytes("Symbol"@), body, rest, fuel);
            assert(body + seq![125u8] + rest =~= body + close);
            strings_read_back(t, close);
        },
        ValueModel::String(t) => {
            let body = json_string(t);
            text_is_named();
            tag_reads("String"@, ascii_bytes("String"@), body, rest, fuel);
            assert(body + seq![125u8] + rest =~= body + close);
            strings_read_back(t, close);
        },
        _ => {},
    }
}

proof fn scalar_reads(v: ValueModel, rest: Seq<u8>, fuel: nat)
    requires
        v is I128 || v is U64 || v is U32 || v is Bool,
    ensures
        read_value(json_of(v) + rest, fuel) == Some((v, rest)),
{
    closes(rest);
    let close = seq![125u8] + rest;
    match v {
        ValueModel::I128(n) => {
            let body = signed_digits(n as int);
            i128_is_named();
            tag_reads("I128"@, ascii_bytes("I128"@), body, rest, fuel);
            assert(body + seq![125u8] + rest =~= body + close);
            signed_numerals_read_back(n as int, close);
        },
        ValueModel::U64(n) => {
            let body = digits(n as nat);
            u64_is_named();
            tag_reads("U64"@, ascii_bytes("U64"@), body, rest, fuel);
            assert(body + seq![125u8] + rest =~= body + close);
            numerals_read_back(n as nat, close);
        },
        ValueModel::U32(n) => {
            let body = digits(n as nat);
            u32_is_named();
            tag_reads("U32"@, ascii_bytes("U32"@), body, rest, fuel);
            assert(body + seq![125u8] + rest =~= body + close);
            numerals_read_back(n as nat, close);
        },
        ValueModel::Bool(b) => {
            let body = bool_text(b);
            flag_is_named();
            tag_reads("Bool"@, ascii_bytes("Bool"@), body, rest, fuel);
            assert(body + seq![125u8] + rest =~= body + close);
            flags_read_back(b, close);
        },
        _ => {},
    }
}

proof fn items_are_counted(items: Seq<Seq<u8>>, i: int)
    requires
        0 <= i <= items.len(),
        forall|k: int| 0 <= k < items.len() ==> (#[trigger] items[k]).len() > 0,
    ensures
        joined(items.skip(i)).len() >= items.len() - i,
    decreases items.len() - i,
{
    let rest = Seq::<u8>::empty();
    if i < items.len() {
        let x = next_item(items, i, rest);
        items_are_counted(items, i + 1);
        assert(x.skip(1).len() == x.len() - 1);
    }
}

proof fn bytes_value_reads(v: ValueModel, rest: Seq<u8>, fuel: nat)
    requires
        v is Bytes || v is InvalidBytes,
        fuel >= json_of(v).len(),
    ensures
        read_value(json_of(v) + rest, fuel) == Some((v, rest)),
{
    closes(rest);
    let close = seq![125u8] + rest;
    let bytes = match v {
        ValueModel::Bytes(b) => b,
        ValueModel::InvalidBytes(b) => b,
        _ => Seq::empty(),
    };
    let items = byte_texts(bytes);
    let body = array_text(items);
    assert forall|k: int| 0 <= k < items.len() implies (#[trigger] items[k]).len() > 0 by {
        figures_read(bytes[k] as nat, Seq::empty());
        assert(items[k] == digits(bytes[k] as nat));
    }
    items_are_counted(items, 0);
    assert(items.skip(0) =~= items);
    assert(body + seq![125u8] + rest =~= body + close);
    byte_arrays_read_back(bytes, close, fuel);
    match v {
        ValueModel::Bytes(b) => {
            bytes_is_named();
            tag_reads("Bytes"@, ascii_bytes("Bytes"@), body, rest, fuel);
        },
        ValueModel::InvalidBytes(b) => {
            invalidbytes_is_named();
            tag_reads("InvalidBytes"@, ascii_bytes("InvalidBytes"@), body, rest, fuel);
        },
        _ => {},
    }
}

proof fn empty_closes(close: Seq<u8>)
    ensures
        (seq![93u8] + close)[0] == 93,
        (seq![93u8] + close).skip(1) == close,
{
    assert((seq![93u8] + close).skip(1) =~= close);
}

proof fn list_reads(items: Seq<ValueModel>, rest: Seq<u8>, fuel: nat)
    requires
        forall|k: int| 0 <= k < items.len() ==> reads_back(#[trigger] items[k]),
        fuel >= json_of(ValueModel::Vec(items)).len(),
    ensures
        read_value(json_of(ValueModel::Vec(items)) + rest, fuel) == Some(
            (ValueModel::Vec(items), rest),
        ),
{
    closes(rest);
    let close = seq![125u8] + rest;
    let texts = jsons_of(items);
    let body = array_text(texts);
    json_texts_indexed(items);
    list_is_named();
    tag_reads("Vec"@, ascii_bytes("Vec"@), body, rest, fuel);
    assert(body + seq![125u8] + rest =~= body + close);
    array_starts(texts, close);
    if items.len() == 0 {
        empty_closes(close);
        assert(items =~= Seq::<ValueModel>::empty());
    } else {
        let x = next_item(texts, 0, close);
        text_starts(items[0], x);
        assert(texts.skip(0) =~= texts);
        values_read(items, 0, close, (fuel - 1) as nat);
        assert(items.take(0) =~= Seq::<ValueModel>::empty());
    }
}

proof fn map_reads(pairs: Seq<(ValueModel, ValueModel)>, rest: Seq<u8>, fuel: nat)
    requires
        forall|k: int|
            0 <= k < pairs.len() ==> reads_back((#[trigger] pairs[k]).0) && reads_back(pairs[k].1),
        fuel >= json_of(ValueModel::Mapping(pairs)).len(),
    ensures
        read_value(json_of(ValueModel::Mapping(pairs)) + rest, fuel) == Some(
            (ValueModel::Mapping(pairs), rest),
        ),
{
    closes(rest);
    let close = seq![125u8] + rest;
    let texts = pair_jsons_of(pairs);
    let body = array_text(texts);
    pair_texts_indexed(pairs);
    pairs_is_named();
    tag_reads("Map"@, ascii_bytes("Map"@), body, rest, fuel);
    assert(body + seq![125u8] + rest =~= body + close);
    array_starts(texts, close);
    if pairs.len() == 0 {
        empty_closes(close);
        assert(pairs =~= Seq::<(ValueModel, ValueModel)>::empty());
    } else {
        let x = next_item(texts, 0, close);
        two_items(json_of(pairs[0].0), json_of(pairs[0].1), x);
        assert(texts.skip(0) =~= texts);
        pairs_read(pairs, 0, close, (fuel - 1) as nat);
        assert(pairs.take(0) =~= Seq::<(ValueModel, ValueModel)>::empty());
    }
}

proof fn struct_reads(fields: Seq<(Seq<char>, ValueModel)>, rest: Seq<u8>, fuel: nat)
    requires
        forall|k: int| 0 <= k < fields.len() ==> reads_back((#[trigger] fields[k]).1),
        fuel >= json_of(ValueModel::Struct(fields)).len(),
    ensures
        read_value(json_of(ValueModel::Struct(fields)) + rest, fuel) == Some(
            (ValueModel::Struct(fields), rest),
        ),
{
    closes(rest);
    let close = seq![125u8] + rest;
    let texts = field_jsons_of(fields);
    let body = array_text(texts);
    field_texts_indexed(fields);
    fields_is_named();
    tag_reads("Struct"@, ascii_bytes("Struct"@), body, rest, fuel);
    assert(body + seq![125u8] + rest =~= body + close);
    array_starts(texts, close);
    if fields.len() == 0 {
        empty_closes(close);
        assert(fields =~= Seq::<(Seq<char>, ValueModel)>::empty());
    } else {
        let x = next_item(texts, 0, close);
        two_items(json_string(fields[0].0), json_of(fields[0].1), x);
        assert(texts.skip(0) =~= texts);
        fields_read(fields, 0, close, (fuel - 1) as nat);
        assert(fields.take(0) =~= Seq::<(Seq<char>, ValueModel)>::empty());
    }
}

/// The stored text of every value, read as JSON, gives the value back, whatever
/// follows the text.
pub proof fn stored_values_read_back(v: ValueModel)
    ensures
        reads_back(v),
        read_value(json_of(v), json_of(v).len()) == Some((v, Seq::<u8>::empty())),
    decreases v,
{
    match v {
        ValueModel::Vec(items) => {
            assert forall|k: int| 0 <= k < items.len() implies reads_back(#[trigger] items[k]) by {
                stored_values_read_back(items[k]);
            }
        },
        ValueModel::Mapping(pairs) => {
            assert forall|k: int| 0 <= k < pairs.len() implies reads_back((#[trigger] pairs[k]).0)
                && reads_back(pairs[k].1) by {
                stored_values_read_back(pairs[k].0);
                stored_values_read_back(pairs[k].1);
            }
        },
        ValueModel::Struct(fields) => {
            assert forall|k: int| 0 <= k < fields.len() implies reads_back(
                (#[trigger] fields[k]).1,
            ) by {
                stored_values_read_back(fields[k].1);
            }
        },
        _ => {},
    }
    assert forall|rest: Seq<u8>, fuel: nat| fuel >= json_of(v).len() implies #[trigger] read_value(
        json_of(v) + rest,
        fuel,
    ) == Some((v, rest)) by {
        match v {
            ValueModel::Vec(items) => list_reads(items, rest, fuel),
            ValueModel::Mapping(pairs) => map_reads(pairs, rest, fuel),
            ValueModel::Struct(fields) => struct_reads(fields, rest, fuel),
            ValueModel::Bytes(_) => bytes_value_reads(v, rest, fuel),
            ValueModel::InvalidBytes(_) => bytes_value_reads(v, rest, fuel),
            ValueModel::Address(_) => text_reads(v, rest, fuel),
            ValueModel::Symbol(_) => text_reads(v, rest, fuel),
            ValueModel::String(_) => text_reads(v, rest, fuel),
            _ => scalar_reads(v, rest, fuel),
        }
    }
    let none = Seq::<u8>::empty();
    assert(json_of(v) + none =~= json_of(v));
    assert(read_value(json_of(v) + none, json_of(v).len()) == Some((v, none)));
}

/// Two values with one text are one value.
pub proof fn stored_texts_tell_values_apart(a: ValueModel, b: ValueModel)
    requires
        json_of(a) == json_of(b),
    ensures
        a == b,
{
    stored_values_read_back(a);
    stored_values_read_back(b);
}

}
