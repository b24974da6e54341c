//! Soroban values and their types, and the text in which values are stored.
use crate::json::{array_text, json_string, string_text, texts, write_array};
use crate::text::{chars_of, decimal, digits, signed_decimal, signed_digits};
use vstd::prelude::*;
use vstd::slice::*;

verus! {

/// The type of a Soroban value.
#[derive(Debug, PartialEq, Eq, Hash)]
pub enum SorobanValueType {
    /// An account address.
    Address,
    /// A symbol of up to 32 characters.
    Symbol,
    /// A signed integer of 128 bits.
    I128,
    /// An unsigned integer of 64 bits.
    U64,
    /// An unsigned integer of 32 bits.
    U32,
    /// A flag.
    Bool,
    /// Bytes.
    Bytes,
    /// So many bytes.
    BytesN(usize),
    /// A text.
    String,
    /// A list of values of one type.
    Vec(Box<SorobanValueType>),
    /// Pairs of a key and a value.
    Mapping(Box<SorobanValueType>, Box<SorobanValueType>),
    /// Named fields.
    Struct(Vec<(String, SorobanValueType)>),
    /// No type: bytes that are no value.
    Invalid,
}

/// A Soroban value.
#[derive(Debug)]
pub enum SorobanValue {
    /// An account address.
    Address(String),
    /// A symbol.
    Symbol(String),
    /// A signed integer of 128 bits.
    I128(i128),
    /// An unsigned integer of 64 bits.
    U64(u64),
    /// An unsigned integer of 32 bits.
    U32(u32),
    /// A flag.
    Bool(bool),
    /// Bytes.
    Bytes(Vec<u8>),
    /// A text.
    String(String),
    /// A list of values.
    Vec(Vec<SorobanValue>),
    /// Pairs of a key and a value.
    Mapping(Vec<(SorobanValue, SorobanValue)>),
    /// Named values.
    Struct(Vec<(String, SorobanValue)>),
    /// Bytes that are no value.
    InvalidBytes(Vec<u8>),
}

/// What a Soroban value is.
pub enum ValueModel {
    /// An account address.
    Address(Seq<char>),
    /// A symbol.
    Symbol(Seq<char>),
    /// A signed integer of 128 bits.
    I128(i128),
    /// An unsigned integer of 64 bits.
    U64(u64),
    /// An unsigned integer of 32 bits.
    U32(u32),
    /// A flag.
    Bool(bool),
    /// Bytes.
    Bytes(Seq<u8>),
    /// A text.
    String(Seq<char>),
    /// A list of values.
    Vec(Seq<ValueModel>),
    /// Pairs of a key and a value.
    Mapping(Seq<(ValueModel, ValueModel)>),
    /// Named values.
    Struct(Seq<(Seq<char>, ValueModel)>),
    /// Bytes that are no value.
    InvalidBytes(Seq<u8>),
}

/// What a value is.
pub open spec fn model_of(v: SorobanValue) -> ValueModel
    decreases v,
{
    match v {
        SorobanValue::Address(t) => ValueModel::Address(t@),
        SorobanValue::Symbol(t) => ValueModel::Symbol(t@),
        SorobanValue::I128(n) => ValueModel::I128(n),
        SorobanValue::U64(n) => ValueModel::U64(n),
        SorobanValue::U32(n) => ValueModel::U32(n),
        SorobanValue::Bool(b) => ValueModel::Bool(b),
        SorobanValue::Bytes(b) => ValueModel::Bytes(b@),
        SorobanValue::String(t) => ValueModel::String(t@),
        SorobanValue::Vec(items) => ValueModel::Vec(models_of(items@)),
        SorobanValue::Mapping(pairs) => ValueModel::Mapping(pair_models_of(pairs@)),
        SorobanValue::Struct(fields) => ValueModel::Struct(field_models_of(fields@)),
        SorobanValue::InvalidBytes(b) => ValueModel::InvalidBytes(b@),
    }
}

/// What some values are.
pub open spec fn models_of(items: Seq<SorobanValue>) -> Seq<ValueModel>
    decreases items,
{
    if items.len() == 0 {
        Seq::empty()
    } else {
        models_of(items.drop_last()).push(model_of(items[items.len() - 1]))
    }
}

/// What some pairs are.
pub open spec fn pair_models_of(pairs: Seq<(SorobanValue, SorobanValue)>) -> Seq<
    (ValueModel, ValueModel),
>
    decreases pairs,
{
    if pairs.len() == 0 {
        Seq::empty()
    } else {
        let last = pairs[pairs.len() - 1];
        pair_models_of(pairs.drop_last()).push((model_of(last.0), model_of(last.1)))
    }
}

/// What some named values are.
pub open spec fn field_models_of(fields: Seq<(String, SorobanValue)>) -> Seq<
    (Seq<char>, ValueModel),
>
    decreases fields,
{
    if fields.len() == 0 {
        Seq::empty()
    } else {
        let last = fields[fields.len() - 1];
        field_models_of(fields.drop_last()).push((last.0@, model_of(last.1)))
    }
}

impl View for SorobanValue {
    type V = ValueModel;

    open spec fn view(&self) -> ValueModel {
        model_of(*self)
    }
}

/// The bytes of a text of ASCII characters.
pub open spec fn ascii_bytes(name: Seq<char>) -> Seq<u8> {
    name.map_values(|c: char| c as u8)
}

/// A JSON object with one member.
pub open spec fn tagged(name: Seq<char>, body: Seq<u8>) -> Seq<u8> {
    seq![123u8, 34] + ascii_bytes(name) + seq![34u8, 58] + body + seq![125u8]
}

/// The numerals of some bytes.
pub open spec fn byte_texts(bytes: Seq<u8>) -> Seq<Seq<u8>> {
    bytes.map_values(|b: u8| digits(b as nat))
}

/// The JSON text of a flag.
pub open spec fn bool_text(flag: bool) -> Seq<u8> {
    if flag {
        seq![116u8, 114, 117, 101]
    } else {
        seq![102u8, 97, 108, 115, 101]
    }
}

/// The JSON text of a value: an object whose one member is named after the kind
/// of value.
pub open spec fn json_of(v: ValueModel) -> Seq<u8>
    decreases v,
{
    match v {
        ValueModel::Address(t) => tagged("Address"@, json_string(t)),
        ValueModel::Symbol(t) => tagged("Symbol"@, json_string(t)),
        ValueModel::I128(n) => tagged("I128"@, signed_digits(n as int)),
        ValueModel::U64(n) => tagged("U64"@, digits(n as nat)),
        ValueModel::U32(n) => tagged("U32"@, digits(n as nat)),
        ValueModel::Bool(b) => tagged("Bool"@, bool_text(b)),
        ValueModel::Bytes(b) => tagged("Bytes"@, array_text(byte_texts(b))),
        ValueModel::String(t) => tagged("String"@, json_string(t)),
        ValueModel::Vec(items) => tagged("Vec"@, array_text(jsons_of(items))),
        ValueModel::Mapping(pairs) => tagged("Map"@, array_text(pair_jsons_of(pairs))),
        ValueModel::Struct(fields) => tagged("Struct"@, array_text(field_jsons_of(fields))),
        ValueModel::InvalidBytes(b) => tagged("InvalidBytes"@, array_text(byte_texts(b))),
    }
}

/// The JSON texts of some values.
pub open spec fn jsons_of(items: Seq<ValueModel>) -> Seq<Seq<u8>>
    decreases items,
{
    if items.len() == 0 {
        Seq::empty()
    } else {
        jsons_of(items.drop_last()).push(json_of(items[items.len() - 1]))
    }
}

/// The JSON texts of some pairs: arrays of two items.
pub open spec fn pair_jsons_of(pairs: Seq<(ValueModel, ValueModel)>) -> Seq<Seq<u8>>
    decreases pairs,
{
    if pairs.len() == 0 {
        Seq::empty()
    } else {
        let last = pairs[pairs.len() - 1];
        pair_jsons_of(pairs.drop_last()).push(
            array_text(seq![json_of(last.0), json_of(last.1)]),
        )
    }
}

/// The JSON texts of some named values: arrays of two items.
pub open spec fn field_jsons_of(fields: Seq<(Seq<char>, ValueModel)>) -> Seq<Seq<u8>>
    decreases fields,
{
    if fields.len() == 0 {
        Seq::empty()
    } else {
        let last = fields[fields.len() - 1];
        field_jsons_of(fields.drop_last()).push(
            array_text(seq![json_string(last.0), json_of(last.1)]),
        )
    }
}

/// Writes a JSON object with one member.
fn write_tagged(name: &str, body: &Vec<u8>) -> (text: Vec<u8>)
    ensures
        text@ == tagged(name@, body@),
{
    let chars: Vec<char> = chars_of(name);
    let mut text: Vec<u8> = Vec::new();
    text.push(123);
    text.push(34);
    let mut i: usize = 0;
    while i < chars.len()
        invariant
            i <= chars@.len(),
            chars@ == name@,
            text@ == seq![123u8, 34] + ascii_bytes(name@).take(i as int),
        decreases chars@.len() - i,
    {
        let c: char = chars[i];
        text.push(c as u8);
        assert(text@ =~= seq![123u8, 34] + ascii_bytes(name@).take(i + 1));
        i = i + 1;
    }
    text.push(34);
    text.push(58);
    text.extend_from_slice(body.as_slice());
    text.push(125);
    assert(text@ =~= tagged(name@, body@));
    text
}

/// Writes a JSON array of two items.
fn write_pair(first: Vec<u8>, second: Vec<u8>) -> (text: Vec<u8>)
    ensures
        text@ == array_text(seq![first@, second@]),
{
    let mut items: Vec<Vec<u8>> = Vec::new();
    items.push(first);
    items.push(second);
    assert(texts(items@) =~= seq![first@, second@]);
    write_array(&items)
}

/// Writes a JSON array of bytes.
fn write_bytes(bytes: &Vec<u8>) -> (text: Vec<u8>)
    ensures
        text@ == array_text(byte_texts(bytes@)),
{
    let mut items: Vec<Vec<u8>> = Vec::new();
    let mut i: usize = 0;
    while i < bytes.len()
        invariant
            i <= bytes@.len(),
            texts(items@) == byte_texts(bytes@).take(i as int),
        decreases bytes@.len() - i,
    {
        let numeral: Vec<u8> = decimal(bytes[i] as u128);
        let ghost before = items@;
        items.push(numeral);
        assert(texts(items@) =~= texts(before).push(numeral@));
        assert(texts(items@) =~= byte_texts(bytes@).take(i + 1));
        i = i + 1;
    }
    assert(byte_texts(bytes@).take(i as int) =~= byte_texts(bytes@));
    write_array(&items)
}

/// Writes a JSON text of a flag.
fn write_bool(flag: bool) -> (text: Vec<u8>)
    ensures
        text@ == bool_text(flag),
{
    let text: Vec<u8> = if flag {
        vec![116u8, 114, 117, 101]
    } else {
        vec![102u8, 97, 108, 115, 101]
    };
    assert(text@ =~= bool_text(flag));
    text
}

impl SorobanValue {
    /// The JSON text of the value, in which the corpus keeps it.
    pub fn to_bytes(&self) -> (text: Vec<u8>)
        ensures
            text@ == json_of(self@),
        decreases self,
    {
        match self {
            SorobanValue::Address(t) => write_tagged("Address", &string_text(t.as_str())),
            SorobanValue::Symbol(t) => write_tagged("Symbol", &string_text(t.as_str())),
            SorobanValue::I128(n) => write_tagged("I128", &signed_decimal(*n)),
            SorobanValue::U64(n) => write_tagged("U64", &decimal(*n as u128)),
            SorobanValue::U32(n) => write_tagged("U32", &decimal(*n as u128)),
            SorobanValue::Bool(b) => write_tagged("Bool", &write_bool(*b)),
            SorobanValue::Bytes(b) => write_tagged("Bytes", &write_bytes(b)),
            SorobanValue::String(t) => write_tagged("String", &string_text(t.as_str())),
            SorobanValue::Vec(items) => {
                assert(decreases_to!(self => self->Vec_0));
                assert(decreases_to!(items => items@));
                let mut parts: Vec<Vec<u8>> = Vec::new();
                let mut i: usize = 0;
                assert(texts(parts@) =~= jsons_of(models_of(items@.take(0))));
                while i < items.len()
                    invariant
                        i <= items@.len(),
                        *self == SorobanValue::Vec(*items),
                        decreases_to!(self => items@),
                        texts(parts@) == jsons_of(models_of(items@.take(i as int))),
                    decreases items@.len() - i,
                {
                    assert(decreases_to!(items@ => items@[i as int]));
                    let part: Vec<u8> = items[i].to_bytes();
                    let ghost before = texts(parts@);
                    parts.push(part);
                    proof {
                        let now = items@.take(i + 1);
                        assert(now.drop_last() =~= items@.take(i as int));
                        let all = models_of(now);
                        assert(all.drop_last() =~= models_of(items@.take(i as int)));
                        assert(texts(parts@) =~= before.push(part@));
                        assert(texts(parts@) =~= jsons_of(all));
                    }
                    i = i + 1;
                }
                assert(items@.take(i as int) =~= items@);
                write_tagged("Vec", &write_array(&parts))
            },
            SorobanValue::Mapping(pairs) => {
                assert(decreases_to!(self => self->Mapping_0));
                assert(decreases_to!(pairs => pairs@));
                let mut parts: Vec<Vec<u8>> = Vec::new();
                let mut i: usize = 0;
                assert(texts(parts@) =~= pair_jsons_of(pair_models_of(pairs@.take(0))));
                while i < pairs.len()
                    invariant
                        i <= pairs@.len(),
                        *self == SorobanValue::Mapping(*pairs),
                        decreases_to!(self => pairs@),
                        texts(parts@) == pair_jsons_of(pair_models_of(pairs@.take(i as int))),
                    decreases pairs@.len() - i,
                {
                    assert(decreases_to!(pairs@ => pairs@[i as int]));
                    let key: Vec<u8> = pairs[i].0.to_bytes();
                    let value: Vec<u8> = pairs[i].1.to_bytes();
                    let part: Vec<u8> = write_pair(key, value);
                    let ghost before = texts(parts@);
                    parts.push(part);
                    proof {
                        let now = pairs@.take(i + 1);
                        assert(now.drop_last() =~= pairs@.take(i as int));
                        let all = pair_models_of(now);
                        assert(all.drop_last() =~= pair_models_of(pairs@.take(i as int)));
                        assert(texts(parts@) =~= before.push(part@));
                        assert(texts(parts@) =~= pair_jsons_of(all));
                    }
                    i = i + 1;
                }
                assert(pairs@.take(i as int) =~= pairs@);
                write_tagged("Map", &write_array(&parts))
            },
            SorobanValue::Struct(fields) => {
                assert(decreases_to!(self => self->Struct_0));
                assert(decreases_to!(fields => fields@));
                let mut parts: Vec<Vec<u8>> = Vec::new();
                let mut i: usize = 0;
                assert(texts(parts@) =~= field_jsons_of(field_models_of(fields@.take(0))));
                while i < fields.len()
                    invariant
                        i <= fields@.len(),
                        *self == SorobanValue::Struct(*fields),
                        decreases_to!(self => fields@),
                        texts(parts@) == field_jsons_of(field_models_of(fields@.take(i as int))),
                    decreases fields@.len() - i,
                {
                    assert(decreases_to!(fields@ => fields@[i as int]));
                    let name: Vec<u8> = string_text(fields[i].0.as_str());
                    let value: Vec<u8> = fields[i].1.to_bytes();
                    let part: Vec<u8> = write_pair(name, value);
                    let ghost before = texts(parts@);
                    parts.push(part);
                    proof {
                        let now = fields@.take(i + 1);
                        assert(now.drop_last() =~= fields@.take(i as int));
                        let all = field_models_of(now);
                        assert(all.drop_last() =~= field_models_of(fields@.take(i as int)));
                        assert(texts(parts@) =~= before.push(part@));
                        assert(texts(parts@) =~= field_jsons_of(all));
                    }
                    i = i + 1;
                }
                assert(fields@.take(i as int) =~= fields@);
                write_tagged("Struct", &write_array(&parts))
            },
            SorobanValue::InvalidBytes(b) => write_tagged("InvalidBytes", &write_bytes(b)),
        }
    }
}

/// The two types are the same: the same variant, with the same names and the same
/// types within.
pub open spec fn same_type(a: SorobanValueType, b: SorobanValueType) -> bool
    decreases a,
{
    match a {
        SorobanValueType::Vec(x) => b matches SorobanValueType::Vec(y) && same_type(*x, *y),
        SorobanValueType::Mapping(k, v) => b matches SorobanValueType::Mapping(l, w) && same_type(
            *k,
            *l,
        ) && same_type(*v, *w),
        SorobanValueType::Struct(fields) => b matches SorobanValueType::Struct(others)
            && fields@.len() == others@.len() && forall|i: int|
            0 <= i < fields@.len() ==> (#[trigger] fields@[i]).0@ == others@[i].0@ && same_type(
                fields@[i].1,
                others@[i].1,
            ),
        _ => a == b,
    }
}

/// A copy of a type.
fn copy_type(ty: &SorobanValueType) -> (copy: SorobanValueType)
    ensures
        same_type(*ty, copy),
    decreases ty,
{
    match ty {
        SorobanValueType::Address => SorobanValueType::Address,
        SorobanValueType::Symbol => SorobanValueType::Symbol,
        SorobanValueType::I128 => SorobanValueType::I128,
        SorobanValueType::U64 => SorobanValueType::U64,
        SorobanValueType::U32 => SorobanValueType::U32,
        SorobanValueType::Bool => SorobanValueType::Bool,
        SorobanValueType::Bytes => SorobanValueType::Bytes,
        SorobanValueType::BytesN(n) => SorobanValueType::BytesN(*n),
        SorobanValueType::String => SorobanValueType::String,
        SorobanValueType::Vec(item) => SorobanValueType::Vec(Box::new(copy_type(item))),
        SorobanValueType::Mapping(key, value) => SorobanValueType::Mapping(
            Box::new(copy_type(key)),
            Box::new(copy_type(value)),
        ),
        SorobanValueType::Struct(fields) => {
            assert(decreases_to!(ty => ty->Struct_0));
            assert(decreases_to!(fields => fields@));
            let mut copies: Vec<(String, SorobanValueType)> = Vec::new();
            let mut i: usize = 0;
            while i < fields.len()
                invariant
                    i <= fields@.len(),
                    decreases_to!(ty => fields@),
                    copies@.len() == i,
                    forall|k: int|
                        0 <= k < i ==> (#[trigger] fields@[k]).0@ == copies@[k].0@ && same_type(
                            fields@[k].1,
                            copies@[k].1,
                        ),
                decreases fields@.len() - i,
            {
                assert(decreases_to!(fields@ => fields@[i as int]));
                let name: String = fields[i].0.clone();
                let copy: SorobanValueType = copy_type(&fields[i].1);
                copies.push((name, copy));
                i = i + 1;
            }
            SorobanValueType::Struct(copies)
        },
        SorobanValueType::Invalid => SorobanValueType::Invalid,
    }
}

impl Clone for SorobanValueType {
    fn clone(&self) -> (copy: Self)
        ensures
            same_type(*self, copy),
    {
        copy_type(self)
    }
}

/// A copy of a value.
fn copy_value(value: &SorobanValue) -> (copy: SorobanValue)
    ensures
        copy@ == value@,
    decreases value,
{
    match value {
        SorobanValue::Address(t) => SorobanValue::Address(t.clone()),
        SorobanValue::Symbol(t) => SorobanValue::Symbol(t.clone()),
        SorobanValue::I128(n) => SorobanValue::I128(*n),
        SorobanValue::U64(n) => SorobanValue::U64(*n),
        SorobanValue::U32(n) => SorobanValue::U32(*n),
        SorobanValue::Bool(b) => SorobanValue::Bool(*b),
        SorobanValue::Bytes(b) => SorobanValue::Bytes(slice_to_vec(b.as_slice())),
        SorobanValue::String(t) => SorobanValue::String(t.clone()),
        SorobanValue::Vec(items) => {
            assert(decreases_to!(value => value->Vec_0));
            assert(decreases_to!(items => items@));
            let mut copies: Vec<SorobanValue> = Vec::new();
            let mut i: usize = 0;
            assert(models_of(copies@) =~= models_of(items@.take(0)));
            while i < items.len()
                invariant
                    i <= items@.len(),
                    decreases_to!(value => items@),
                    models_of(copies@) == models_of(items@.take(i as int)),
                decreases items@.len() - i,
            {
                assert(decreases_to!(items@ => items@[i as int]));
                let ghost before = copies@;
                let copy: SorobanValue = copy_value(&items[i]);
                copies.push(copy);
                assert(copies@.drop_last() =~= before);
                assert(items@.take(i + 1).drop_last() =~= items@.take(i as int));
                i = i + 1;
            }
            assert(items@.take(i as int) =~= items@);
            SorobanValue::Vec(copies)
        },
        SorobanValue::Mapping(pairs) => {
            assert(decreases_to!(value => value->Mapping_0));
            assert(decreases_to!(pairs => pairs@));
            let mut copies: Vec<(SorobanValue, SorobanValue)> = Vec::new();
            let mut i: usize = 0;
            assert(pair_models_of(copies@) =~= pair_models_of(pairs@.take(0)));
            while i < pairs.len()
                invariant
                    i <= pairs@.len(),
                    decreases_to!(value => pairs@),
                    pair_models_of(copies@) == pair_models_of(pairs@.take(i as int)),
                decreases pairs@.len() - i,
            {
                assert(decreases_to!(pairs@ => pairs@[i as int]));
                let ghost before = copies@;
                let key: SorobanValue = copy_value(&pairs[i].0);
                let copy: SorobanValue = copy_value(&pairs[i].1);
                copies.push((key, copy));
                assert(copies@.drop_last() =~= before);
                assert(pairs@.take(i + 1).drop_last() =~= pairs@.take(i as int));
                i = i + 1;
            }
            assert(pairs@.take(i as int) =~= pairs@);
            SorobanValue::Mapping(copies)
        },
        SorobanValue::Struct(fields) => {
            assert(decreases_to!(value => value->Struct_0));
            assert(decreases_to!(fields => fields@));
            let mut copies: Vec<(String, SorobanValue)> = Vec::new();
            let mut i: usize = 0;
            assert(field_models_of(copies@) =~= field_models_of(fields@.take(0)));
            while i < fields.len()
                invariant
                    i <= fields@.len(),
                    decreases_to!(value => fields@),
                    field_models_of(copies@) == field_models_of(fields@.take(i as int)),
                decreases fields@.len() - i,
            {
                assert(decreases_to!(fields@ => fields@[i as int]));
                let ghost before = copies@;
                let name: String = fields[i].0.clone();
                let copy: SorobanValue = copy_value(&fields[i].1);
                copies.push((name, copy));
                assert(copies@.drop_last() =~= before);
                assert(fields@.take(i + 1).drop_last() =~= fields@.take(i as int));
                i = i + 1;
            }
            assert(fields@.take(i as int) =~= fields@);
            SorobanValue::Struct(copies)
        },
        SorobanValue::InvalidBytes(b) => SorobanValue::InvalidBytes(slice_to_vec(b.as_slice())),
    }
}

impl Clone for SorobanValue {
    fn clone(&self) -> (copy: Self)
        ensures
            copy@ == self@,
    {
        copy_value(self)
    }
}

}
