//! Stellar account addresses: a version byte, a 32-byte key and its checksum, in
//! base 32.
use crate::text::append_chars;
use vstd::prelude::*;
use vstd::slice::*;

verus! {

/// The version byte of an account address.
pub const ACCOUNT_VERSION: u8 = 0x30;

/// Number of bytes in a key.
pub const KEY_BYTES: usize = 32;

/// A checksum with one more zero bit behind it: doubled, and reduced by the
/// polynomial when a bit falls out.
pub open spec fn crc_bit(crc: u16) -> u16 {
    let doubled = (crc * 2 % 0x1_0000) as u16;
    if crc >= 0x8000 {
        doubled ^ 0x1021
    } else {
        doubled
    }
}

/// So many times one more zero bit.
pub open spec fn crc_bits(crc: u16, count: nat) -> u16
    decreases count,
{
    if count == 0 {
        crc
    } else {
        crc_bit(crc_bits(crc, (count - 1) as nat))
    }
}

/// The CRC-16 checksum of some bytes, with the polynomial `0x1021` and the
/// initial value zero.
pub open spec fn crc16(bytes: Seq<u8>) -> u16
    decreases bytes.len(),
{
    if bytes.len() == 0 {
        0
    } else {
        crc_bits(crc16(bytes.drop_last()) ^ ((bytes.last() * 256) as u16), 8)
    }
}

/// The CRC-16 checksum of some bytes.
pub fn compute_crc16(bytes: &[u8]) -> (crc: u16)
    ensures
        crc == crc16(bytes@),
{
    let mut crc: u16 = 0;
    let mut i: usize = 0;
    while i < bytes.len()
        invariant
            i <= bytes@.len(),
            crc == crc16(bytes@.take(i as int)),
        decreases bytes@.len() - i,
    {
        assert(bytes@.take(i + 1).drop_last() =~= bytes@.take(i as int));
        let start: u16 = crc ^ (bytes[i] as u16 * 256);
        crc = start;
        let mut bit: usize = 0;
        while bit < 8
            invariant
                bit <= 8,
                crc == crc_bits(start, bit as nat),
            decreases 8 - bit,
        {
            let doubled: u16 = (crc as u32 * 2 % 0x1_0000) as u16;
            crc = if crc >= 0x8000 {
                doubled ^ 0x1021
            } else {
                doubled
            };
            bit = bit + 1;
        }
        i = i + 1;
    }
    assert(bytes@.take(i as int) =~= bytes@);
    crc
}

/// The base-32 digit of a value: a letter, or a digit from two on.
pub open spec fn base32_digit(value: int) -> char {
    if value < 26 {
        (65 + value) as u8 as char
    } else {
        (24 + value) as u8 as char
    }
}

/// The value of a base-32 digit.
pub open spec fn base32_value(digit: char) -> int {
    if digit as int >= 65 {
        digit as int - 65
    } else {
        digit as int - 24
    }
}

/// The number that five bytes stand for, the highest first.
pub open spec fn block_number(bytes: Seq<u8>, at: int) -> int {
    ((((bytes[at] * 256 + bytes[at + 1]) * 256 + bytes[at + 2]) * 256 + bytes[at + 3]) * 256)
        + bytes[at + 4]
}

/// The base-32 digit at a place from 0 to 7 of such a number.
pub open spec fn block_digit(number: int, place: int) -> char {
    base32_digit(
        (if place == 0 {
            number / 0x8_0000_0000
        } else if place == 1 {
            number / 0x4000_0000
        } else if place == 2 {
            number / 0x200_0000
        } else if place == 3 {
            number / 0x10_0000
        } else if place == 4 {
            number / 0x8000
        } else if place == 5 {
            number / 0x400
        } else if place == 6 {
            number / 0x20
        } else {
            number
        }) % 32,
    )
}

/// Bytes in base 32: eight digits for each five bytes.
pub open spec fn base32(bytes: Seq<u8>) -> Seq<char> {
    Seq::new(
        bytes.len() / 5 * 8,
        |i: int| block_digit(block_number(bytes, i / 8 * 5), i % 8),
    )
}

/// The bytes of an address: the version, the key, and the checksum of both with
/// its low byte first.
pub open spec fn address_bytes(key: Seq<u8>) -> Seq<u8> {
    let body = seq![ACCOUNT_VERSION] + key;
    body + seq![(crc16(body) % 256) as u8, (crc16(body) / 256) as u8]
}

/// The address of a key.
pub open spec fn address_of(key: Seq<u8>) -> Seq<char> {
    base32(address_bytes(key))
}

/// The base-32 digit of a value.
fn digit_of(value: u8) -> (digit: char)
    requires
        value < 32,
    ensures
        digit == base32_digit(value as int),
{
    if value < 26 {
        (65 + value) as char
    } else {
        (24 + value) as char
    }
}

/// The base-32 digits of five bytes.
fn encode_block(b0: u8, b1: u8, b2: u8, b3: u8, b4: u8) -> (digits: Vec<char>)
    ensures
        digits@ == Seq::new(
            8,
            |i: int|
                block_digit(((((b0 * 256 + b1) * 256 + b2) * 256 + b3) * 256) + b4, i),
        ),
{
    let number: u64 = (((b0 as u64 * 256 + b1 as u64) * 256 + b2 as u64) * 256 + b3 as u64) * 256
        + b4 as u64;
    let mut digits: Vec<char> = Vec::new();
    digits.push(digit_of((number / 0x8_0000_0000 % 32) as u8));
    digits.push(digit_of((number / 0x4000_0000 % 32) as u8));
    digits.push(digit_of((number / 0x200_0000 % 32) as u8));
    digits.push(digit_of((number / 0x10_0000 % 32) as u8));
    digits.push(digit_of((number / 0x8000 % 32) as u8));
    digits.push(digit_of((number / 0x400 % 32) as u8));
    digits.push(digit_of((number / 0x20 % 32) as u8));
    digits.push(digit_of((number % 32) as u8));
    assert(digits@ =~= Seq::new(8, |i: int| block_digit(number as int, i)));
    digits
}

/// Writes bytes in base 32.
fn encode_base32(bytes: &Vec<u8>) -> (digits: Vec<char>)
    requires
        bytes@.len() == 35,
    ensures
        digits@ == base32(bytes@),
{
    let mut digits: Vec<char> = Vec::new();
    let mut block: usize = 0;
    while block < 7
        invariant
            block <= 7,
            bytes@.len() == 35,
            digits@ == base32(bytes@).take(block * 8),
        decreases 7 - block,
    {
        let at: usize = block * 5;
        let mut more: Vec<char> = encode_block(
            bytes[at],
            bytes[at + 1],
            bytes[at + 2],
            bytes[at + 3],
            bytes[at + 4],
        );
        let ghost before = digits@;
        let ghost new = more@;
        digits.append(&mut more);
        proof {
            let all = base32(bytes@);
            assert forall|k: int| 0 <= k < 8 implies #[trigger] new[k] == all[block * 8 + k] by {
                assert((block * 8 + k) / 8 == block);
                assert((block * 8 + k) % 8 == k);
            }
            assert(digits@ =~= all.take((block + 1) * 8)) by {
                assert forall|i: int| 0 <= i < (block + 1) * 8 implies digits@[i] == all[i] by {
                    if i >= block * 8 {
                        assert(new[i - block * 8] == all[block * 8 + (i - block * 8)]);
                    } else {
                        assert(digits@[i] == before[i]);
                    }
                }
            }
        }
        block = block + 1;
    }
    assert(base32(bytes@).take(56) =~= base32(bytes@));
    digits
}

/// The address of a 32-byte key.
pub fn encode_address(key: &[u8]) -> (address: String)
    requires
        key@.len() == KEY_BYTES,
    ensures
        address@ == address_of(key@),
        address@.len() == 56,
        address@[0] == 'G',
{
    let mut bytes: Vec<u8> = Vec::new();
    bytes.push(ACCOUNT_VERSION);
    bytes.extend_from_slice(key);
    assert(bytes@ =~= seq![ACCOUNT_VERSION] + key@);
    let crc: u16 = compute_crc16(bytes.as_slice());
    bytes.push((crc % 256) as u8);
    bytes.push((crc / 256) as u8);
    assert(bytes@ =~= address_bytes(key@));
    let digits: Vec<char> = encode_base32(&bytes);
    proof {
        block_bytes(bytes@[0], bytes@[1], bytes@[2], bytes@[3], bytes@[4]);
        let number = block_number(bytes@, 0);
        assert(number / 0x8_0000_0000 == 6);
        assert(digits@[0] == block_digit(number, 0));
    }
    let mut address: String = String::new();
    append_chars(&mut address, digits.as_slice());
    assert(address@ =~= digits@);
    address
}

/// The number that eight base-32 digits stand for.
pub open spec fn digits_number(digits: Seq<char>, at: int) -> int {
    ((((((base32_value(digits[at]) * 32 + base32_value(digits[at + 1])) * 32 + base32_value(
        digits[at + 2],
    )) * 32 + base32_value(digits[at + 3])) * 32 + base32_value(digits[at + 4])) * 32
        + base32_value(digits[at + 5])) * 32 + base32_value(digits[at + 6])) * 32 + base32_value(
        digits[at + 7],
    )
}

/// The bytes that base-32 digits stand for: five for each eight digits.
pub open spec fn base32_bytes(digits: Seq<char>) -> Seq<u8> {
    Seq::new(
        digits.len() / 8 * 5,
        |i: int|
            {
                let number = digits_number(digits, i / 5 * 8);
                ((if i % 5 == 0 {
                    number / 0x1_0000_0000
                } else if i % 5 == 1 {
                    number / 0x100_0000
                } else if i % 5 == 2 {
                    number / 0x1_0000
                } else if i % 5 == 3 {
                    number / 0x100
                } else {
                    number
                }) % 256) as u8
            },
    )
}

/// Whether a text is an account address: 56 base-32 digits of 35 bytes, with
/// the version of accounts and a right checksum.
pub open spec fn is_account_address(address: Seq<char>) -> bool {
    let bytes = base32_bytes(address);
    &&& address.len() == 56
    &&& forall|i: int|
        0 <= i < 56 ==> ('A' <= #[trigger] address[i] <= 'Z' || '2' <= address[i] <= '7')
    &&& bytes.len() == 35
    &&& bytes[0] == ACCOUNT_VERSION
    &&& bytes[33] + 256 * bytes[34] == crc16(bytes.take(33))
}

proof fn digits_give_the_number(number: int)
    requires
        0 <= number < 0x100_0000_0000,
    ensures
        ({
            let d = Seq::new(8, |i: int| block_digit(number, i));
            digits_number(d, 0) == number
        }),
{
    let d = Seq::new(8, |i: int| block_digit(number, i));
    assert forall|v: int| 0 <= v < 32 implies base32_value(#[trigger] base32_digit(v)) == v by {}
    assert(base32_value(d[0]) == number / 0x8_0000_0000 % 32);
    assert(base32_value(d[1]) == number / 0x4000_0000 % 32);
    assert(base32_value(d[2]) == number / 0x200_0000 % 32);
    assert(base32_value(d[3]) == number / 0x10_0000 % 32);
    assert(base32_value(d[4]) == number / 0x8000 % 32);
    assert(base32_value(d[5]) == number / 0x400 % 32);
    assert(base32_value(d[6]) == number / 0x20 % 32);
    assert(base32_value(d[7]) == number % 32);
    base32_horner(number);
}

proof fn base32_horner(number: int)
    requires
        0 <= number < 0x100_0000_0000,
    ensures
        ((((((((number / 0x8_0000_0000 % 32) * 32 + number / 0x4000_0000 % 32) * 32 + number
            / 0x200_0000 % 32) * 32 + number / 0x10_0000 % 32) * 32 + number / 0x8000 % 32) * 32
            + number / 0x400 % 32) * 32 + number / 0x20 % 32) * 32 + number % 32) == number,
{
    let q6 = number / 32;
    let q5 = q6 / 32;
    let q4 = q5 / 32;
    let q3 = q4 / 32;
    let q2 = q3 / 32;
    let q1 = q2 / 32;
    let q0 = q1 / 32;
    assert(q5 == number / 0x400);
    assert(q4 == number / 0x8000);
    assert(q3 == number / 0x10_0000);
    assert(q2 == number / 0x200_0000);
    assert(q1 == number / 0x4000_0000);
    assert(q0 == number / 0x8_0000_0000);
    assert(0 <= q0 < 32);
    assert(q0 * 32 + q1 % 32 == q1);
    assert(q1 * 32 + q2 % 32 == q2);
    assert(q2 * 32 + q3 % 32 == q3);
    assert(q3 * 32 + q4 % 32 == q4);
    assert(q4 * 32 + q5 % 32 == q5);
    assert(q5 * 32 + q6 % 32 == q6);
}

proof fn block_bytes(b0: u8, b1: u8, b2: u8, b3: u8, b4: u8)
    ensures
        ({
            let number = ((((b0 * 256 + b1) * 256 + b2) * 256 + b3) * 256) + b4;
            &&& 0 <= number < 0x100_0000_0000
            &&& number / 0x1_0000_0000 % 256 == b0
            &&& number / 0x100_0000 % 256 == b1
            &&& number / 0x1_0000 % 256 == b2
            &&& number / 0x100 % 256 == b3
            &&& number % 256 == b4
        }),
{
    let n1 = b0 * 256 + b1;
    let n2 = n1 * 256 + b2;
    let n3 = n2 * 256 + b3;
    let number = n3 * 256 + b4;
    assert(number / 0x100 == n3);
    assert(number / 0x1_0000 == n2);
    assert(number / 0x100_0000 == n1);
    assert(number / 0x1_0000_0000 == b0);
}

proof fn digits_number_depends(a: Seq<char>, at: int, b: Seq<char>)
    requires
        forall|k: int| 0 <= k < 8 ==> #[trigger] b[k] == a[at + k],
    ensures
        digits_number(a, at) == digits_number(b, 0),
{
    assert(b[0] == a[at + 0]);
    assert(b[1] == a[at + 1]);
    assert(b[2] == a[at + 2]);
    assert(b[3] == a[at + 3]);
    assert(b[4] == a[at + 4]);
    assert(b[5] == a[at + 5]);
    assert(b[6] == a[at + 6]);
    assert(b[7] == a[at + 7]);
}

proof fn block_reads_back(bytes: Seq<u8>, block: int)
    requires
        bytes.len() % 5 == 0,
        0 <= block < bytes.len() / 5,
    ensures
        digits_number(base32(bytes), block * 8) == block_number(bytes, block * 5),
{
    let digits = base32(bytes);
    let at = block * 5;
    let number = block_number(bytes, at);
    let d = Seq::new(8, |k: int| block_digit(number, k));
    assert(0 <= number < 0x100_0000_0000) by {
        block_bytes(bytes[at], bytes[at + 1], bytes[at + 2], bytes[at + 3], bytes[at + 4]);
    }
    assert(digits_number(d, 0) == number) by {
        digits_give_the_number(number);
    }
    assert forall|k: int| 0 <= k < 8 implies #[trigger] d[k] == digits[block * 8 + k] by {
        assert((block * 8 + k) / 8 == block);
        assert((block * 8 + k) % 8 == k);
    }
    digits_number_depends(digits, block * 8, d);
}

/// Base 32 can be read back.
pub proof fn base32_reads_back(bytes: Seq<u8>)
    requires
        bytes.len() % 5 == 0,
    ensures
        base32_bytes(base32(bytes)) == bytes,
{
    let digits = base32(bytes);
    let back = base32_bytes(digits);
    assert(back.len() == bytes.len());
    assert forall|i: int| 0 <= i < bytes.len() implies back[i] == bytes[i] by {
        let block = i / 5;
        let at = block * 5;
        assert(i == at + i % 5);
        assert(at + 4 < bytes.len());
        block_reads_back(bytes, block);
        block_bytes(bytes[at], bytes[at + 1], bytes[at + 2], bytes[at + 3], bytes[at + 4]);
    }
    assert(back =~= bytes);
}

/// The address of a key is a valid account address, and holds the key.
pub proof fn addresses_are_valid(key: Seq<u8>)
    requires
        key.len() == KEY_BYTES,
    ensures
        is_account_address(address_of(key)),
        base32_bytes(address_of(key)).subrange(1, 33) == key,
{
    let bytes = address_bytes(key);
    let body = seq![ACCOUNT_VERSION] + key;
    base32_reads_back(bytes);
    assert(bytes.take(33) =~= body);
    assert(bytes.subrange(1, 33) =~= key);
    let address = address_of(key);
    assert forall|i: int| 0 <= i < 56 implies ('A' <= #[trigger] address[i] <= 'Z' || '2'
        <= address[i] <= '7') by {
        assert forall|v: int| 0 <= v < 32 implies ('A' <= #[trigger] base32_digit(v) <= 'Z' || '2'
            <= base32_digit(v) <= '7') by {}
    }
}

}
