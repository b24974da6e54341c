//! Base 64, with padding.
use crate::text::append_chars;
use vstd::prelude::*;

verus! {

/// The base-64 digit of a value.
pub open spec fn base64_digit(value: int) -> char {
    if value < 26 {
        (65 + value) as u8 as char
    } else if value < 52 {
        (71 + value) as u8 as char
    } else if value < 62 {
        (value - 4) as u8 as char
    } else if value == 62 {
        '+'
    } else {
        '/'
    }
}

/// The value of a base-64 digit; padding counts as zero.
pub open spec fn base64_value(digit: char) -> int {
    if 'A' <= digit <= 'Z' {
        digit as int - 65
    } else if 'a' <= digit <= 'z' {
        digit as int - 71
    } else if '0' <= digit <= '9' {
        digit as int + 4
    } else if digit == '+' {
        62
    } else if digit == '/' {
        63
    } else {
        0
    }
}

/// A byte of some data, zero behind its end.
pub open spec fn byte_at(data: Seq<u8>, at: int) -> int {
    if at < data.len() {
        data[at] as int
    } else {
        0
    }
}

/// The number that three bytes stand for, the highest first.
pub open spec fn triple(data: Seq<u8>, at: int) -> int {
    (byte_at(data, at) * 256 + byte_at(data, at + 1)) * 256 + byte_at(data, at + 2)
}

/// The digit of such a number at a place from 0 to 3.
pub open spec fn triple_digit(number: int, place: int) -> char {
    base64_digit(
        (if place == 0 {
            number / 0x4_0000
        } else if place == 1 {
            number / 0x1000
        } else if place == 2 {
            number / 0x40
        } else {
            number
        }) % 64,
    )
}

/// The text of some data: four digits for each three bytes. A digit that stands
/// for no byte is padding.
pub open spec fn base64(data: Seq<u8>) -> Seq<char> {
    Seq::new(
        (data.len() + 2) / 3 * 4,
        |i: int|
            if i % 4 >= 2 && i / 4 * 3 + i % 4 > data.len() {
                '='
            } else {
                triple_digit(triple(data, i / 4 * 3), i % 4)
            },
    )
}

/// The base-64 digit of a value.
fn digit_of(value: u8) -> (digit: char)
    requires
        value < 64,
    ensures
        digit == base64_digit(value as int),
{
    if value < 26 {
        (65 + value) as char
    } else if value < 52 {
        (71 + value) as char
    } else if value < 62 {
        (value - 4) as char
    } else if value == 62 {
        '+'
    } else {
        '/'
    }
}

/// Writes some data in base 64.
pub fn base64_encode(data: &[u8]) -> (text: String)
    ensures
        text@ == base64(data@),
{
    let mut digits: Vec<char> = Vec::new();
    let blocks: usize = if data.len() % 3 == 0 {
        data.len() / 3
    } else {
        data.len() / 3 + 1
    };
    let mut block: usize = 0;
    while block < blocks
        invariant
            block <= blocks,
            blocks == (data@.len() + 2) / 3,
            digits@.len() == block * 4,
            forall|i: int| 0 <= i < digits@.len() ==> digits@[i] == base64(data@)[i],
        decreases blocks - block,
    {
        let size: usize = data.len();
        assert(block * 3 < size);
        let at: usize = block * 3;
        let left: usize = size - at;
        let b0: u32 = data[at] as u32;
        let b1: u32 = if left > 1 {
            data[at + 1] as u32
        } else {
            0
        };
        let b2: u32 = if left > 2 {
            data[at + 2] as u32
        } else {
            0
        };
        let number: u32 = (b0 * 256 + b1) * 256 + b2;
        assert(number == triple(data@, at as int));
        let ghost before = digits@;
        digits.push(digit_of((number / 0x4_0000 % 64) as u8));
        digits.push(digit_of((number / 0x1000 % 64) as u8));
        digits.push(if left > 1 {
            digit_of((number / 0x40 % 64) as u8)
        } else {
            '='
        });
        digits.push(if left > 2 {
            digit_of((number % 64) as u8)
        } else {
            '='
        });
        proof {
            let first = block * 4;
            assert forall|i: int| 0 <= i < digits@.len() implies digits@[i] == base64(data@)[i] by {
                if i >= first {
                    assert(i / 4 * 3 == at);
                    assert(i % 4 == i - first);
                } else {
                    assert(digits@[i] == before[i]);
                }
            }
        }
        block = block + 1;
    }
    assert(digits@ =~= base64(data@));
    let mut text: String = String::new();
    append_chars(&mut text, digits.as_slice());
    assert(text@ =~= digits@);
    text
}

/// The number that a group of four digits stands for.
pub open spec fn group_number(text: Seq<char>, group: int) -> int {
    ((base64_value(text[group * 4]) * 64 + base64_value(text[group * 4 + 1])) * 64 + base64_value(
        text[group * 4 + 2],
    )) * 64 + base64_value(text[group * 4 + 3])
}

/// A byte of the data that a text stands for.
pub open spec fn base64_byte(text: Seq<char>, at: int) -> int {
    let number = group_number(text, at / 3);
    (if at % 3 == 0 {
        number / 0x1_0000
    } else if at % 3 == 1 {
        number / 0x100
    } else {
        number
    }) % 256
}

proof fn group_reads_back(data: Seq<u8>, group: int)
    requires
        0 <= group < (data.len() + 2) / 3,
    ensures
        group_number(base64(data), group) == triple(data, group * 3),
{
    let text = base64(data);
    let number = triple(data, group * 3);
    let first = group * 4;
    assert(0 <= number < 0x100_0000);
    assert forall|v: int| 0 <= v < 64 implies base64_value(#[trigger] base64_digit(v)) == v by {}
    assert(first / 4 == group && first % 4 == 0);
    assert((first + 1) / 4 == group && (first + 1) % 4 == 1);
    assert((first + 2) / 4 == group && (first + 2) % 4 == 2);
    assert((first + 3) / 4 == group && (first + 3) % 4 == 3);
    assert(base64_value(text[first]) == number / 0x4_0000 % 64);
    assert(base64_value(text[first + 1]) == number / 0x1000 % 64);
    assert(base64_value(text[first + 2]) == number / 0x40 % 64) by {
        if group * 3 + 2 > data.len() {
            assert(number % 0x1_0000 == 0);
            assert(number / 0x40 % 64 == 0);
        }
    }
    assert(base64_value(text[first + 3]) == number % 64) by {
        if group * 3 + 3 > data.len() {
            assert(number % 0x100 == 0);
        }
    }
    let q2 = number / 64;
    let q1 = q2 / 64;
    let q0 = q1 / 64;
    assert(q1 == number / 0x1000);
    assert(q0 == number / 0x4_0000);
    assert(q0 * 64 + q1 % 64 == q1);
    assert(q1 * 64 + q2 % 64 == q2);
    assert(q2 * 64 + number % 64 == number);
}

/// Base 64 can be read back, byte by byte.
pub proof fn base64_reads_back(data: Seq<u8>, at: int)
    requires
        0 <= at < data.len(),
    ensures
        base64_byte(base64(data), at) == data[at],
{
    let group = at / 3;
    let first = group * 3;
    assert(first <= at < first + 3);
    group_reads_back(data, group);
    triple_bytes(byte_at(data, first), byte_at(data, first + 1), byte_at(data, first + 2));
}

proof fn triple_bytes(b0: int, b1: int, b2: int)
    requires
        0 <= b0 < 256,
        0 <= b1 < 256,
        0 <= b2 < 256,
    ensures
        ({
            let number = (b0 * 256 + b1) * 256 + b2;
            &&& number / 0x1_0000 % 256 == b0
            &&& number / 0x100 % 256 == b1
            &&& number % 256 == b2
        }),
{
    let n1 = b0 * 256 + b1;
    let number = n1 * 256 + b2;
    assert(number / 0x100 == n1);
    assert(number / 0x1_0000 == b0);
}

/// The padding at the end of a text tells how many bytes its last group holds.
pub proof fn padding_tells_the_end(data: Seq<u8>)
    requires
        data.len() > 0,
    ensures
        (base64(data)[base64(data).len() - 1] == '=') <==> data.len() % 3 != 0,
        (base64(data)[base64(data).len() - 2] == '=') <==> data.len() % 3 == 1,
{
    let groups = (data.len() + 2) / 3;
    let len = groups * 4;
    assert(base64(data).len() == len);
    assert((len - 1) % 4 == 3 && (len - 2) % 4 == 2);
    assert((len - 1) / 4 == groups - 1 && (len - 2) / 4 == groups - 1);
    assert forall|v: int| 0 <= v < 64 implies #[trigger] base64_digit(v) != '=' by {}
    let number = triple(data, (groups - 1) * 3);
    assert(triple_digit(number, 2) != '=');
    assert(triple_digit(number, 3) != '=');
}

}
