//! JSON texts as bytes.
use vstd::prelude::*;

verus! {

/// The texts of the items of a JSON array, or `None` for anything else:
/// `serde_json::from_slice` reads the array and `serde_json::to_vec` writes each
/// item.
pub uninterp spec fn json_array_items(text: Seq<u8>) -> Option<Seq<Seq<u8>>>;

/// The lower-case hexadecimal digit of a number below sixteen, as a byte.
pub open spec fn nibble(n: int) -> u8 {
    if n < 10 {
        (48 + n) as u8
    } else {
        (87 + n) as u8
    }
}

/// What stands for a byte within a JSON string: a backslash and a letter, or
/// `\u00` and two digits, for control characters; a backslash before a quote and
/// before a backslash; the byte itself otherwise.
pub open spec fn escaped_byte(byte: u8) -> Seq<u8> {
    if byte == 34 || byte == 92 {
        seq![92u8, byte]
    } else if byte == 8 {
        seq![92u8, 98u8]
    } else if byte == 9 {
        seq![92u8, 116u8]
    } else if byte == 10 {
        seq![92u8, 110u8]
    } else if byte == 12 {
        seq![92u8, 102u8]
    } else if byte == 13 {
        seq![92u8, 114u8]
    } else if byte < 32 {
        seq![92u8, 117u8, 48u8, 48u8, nibble(byte as int / 16), nibble(byte as int % 16)]
    } else {
        seq![byte]
    }
}

/// What stands for some bytes within a JSON string.
pub open spec fn escaped(bytes: Seq<u8>) -> Seq<u8>
    decreases bytes.len(),
{
    if bytes.len() == 0 {
        Seq::empty()
    } else {
        escaped(bytes.drop_last()) + escaped_byte(bytes.last())
    }
}

/// The JSON text of a string: its escaped UTF-8 bytes in quotes.
pub open spec fn json_string(text: Seq<char>) -> Seq<u8> {
    seq![34u8] + escaped(vstd::utf8::encode_utf8(text)) + seq![34u8]
}

/// The contents of some byte strings.
pub open spec fn texts(items: Seq<Vec<u8>>) -> Seq<Seq<u8>> {
    items.map_values(|item: Vec<u8>| item@)
}

/// `serde_json::from_slice` on the text and `serde_json::to_vec` on each item of
/// the array that it holds. Both depend on their argument alone. Left unsaid:
/// which texts are JSON, and how the items are written.
#[verifier::external_body]
pub(crate) fn array_items(text: &[u8]) -> (items: Option<Vec<Vec<u8>>>)
    ensures
        items is Some <==> json_array_items(text@) is Some,
        items matches Some(list) ==> json_array_items(text@) == Some(texts(list@)),
{
    match serde_json::from_slice::<serde_json::Value>(text) {
        Ok(serde_json::Value::Array(list)) => {
            Some(list.iter().map(|item| serde_json::to_vec(item).unwrap_or_default()).collect())
        },
        _ => None,
    }
}

/// `serde_json::to_vec` on a string: the UTF-8 bytes of the string in quotes, with
/// quotes, backslashes and the control characters below 32 escaped.
#[verifier::external_body]
pub(crate) fn string_text(text: &str) -> (json: Vec<u8>)
    ensures
        json@ == json_string(text@),
{
    serde_json::to_vec(text).unwrap_or_default()
}

/// Texts one after the other, with a comma between them.
pub open spec fn joined(items: Seq<Seq<u8>>) -> Seq<u8>
    decreases items.len(),
{
    if items.len() == 0 {
        Seq::empty()
    } else if items.len() == 1 {
        items[0]
    } else {
        joined(items.drop_last()) + seq![44u8] + items.last()
    }
}

/// The text of a JSON array with the given items.
pub open spec fn array_text(items: Seq<Seq<u8>>) -> Seq<u8> {
    seq![91u8] + joined(items) + seq![93u8]
}

/// Writes a JSON array.
pub fn write_array(items: &Vec<Vec<u8>>) -> (text: Vec<u8>)
    ensures
        text@ == array_text(texts(items@)),
{
    let mut out: Vec<u8> = Vec::new();
    out.push(91);
    let mut i: usize = 0;
    let ghost all = texts(items@);
    while i < items.len()
        invariant
            all == texts(items@),
            i <= items@.len(),
            out@ == seq![91u8] + joined(all.take(i as int)),
        decreases items@.len() - i,
    {
        proof {
            let now = all.take(i + 1);
            assert(now.drop_last() =~= all.take(i as int));
            assert(now.last() == items@[i as int]@);
            assert(i > 0 ==> joined(now) == joined(all.take(i as int)) + seq![44u8] + items@[i as int]@);
            assert(i == 0 ==> joined(all.take(0)) =~= Seq::empty());
        }
        if i > 0 {
            out.push(44);
        }
        out.extend_from_slice(items[i].as_slice());
        i = i + 1;
        assert(out@ =~= seq![91u8] + joined(all.take(i as int)));
    }
    out.push(93);
    proof {
        assert(all.take(i as int) =~= all);
        assert(out@ =~= array_text(all));
    }
    out
}

}
