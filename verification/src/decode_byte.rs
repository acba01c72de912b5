//! Fixed-width unsigned integers read from byte slices under a chosen byte
//! order.

use vstd::prelude::*;

verus! {

/// The order in which the bytes of a multi-byte field are stored.
#[derive(Clone, Copy, Debug, PartialEq, Eq, Structural)]
pub enum Endianness {
    LittleEndian,
    BigEndian,
}

/// The number denoted by two bytes, least significant first.
pub open spec fn le_value_2(b: Seq<u8>) -> int {
    b[0] + 0x100 * b[1]
}

/// The number denoted by four bytes, least significant first.
pub open spec fn le_value_4(b: Seq<u8>) -> int {
    b[0] + 0x100 * b[1] + 0x1_0000 * b[2] + 0x100_0000 * b[3]
}

/// The number denoted by eight bytes, least significant first.
pub open spec fn le_value_8(b: Seq<u8>) -> int {
    b[0] + 0x100 * b[1] + 0x1_0000 * b[2] + 0x100_0000 * b[3] + 0x1_0000_0000 * b[4]
        + 0x100_0000_0000 * b[5] + 0x1_0000_0000_0000 * b[6] + 0x100_0000_0000_0000 * b[7]
}

/// The byte of `value` with significance `256^k`.
pub open spec fn byte_of(value: int, k: nat) -> u8
    decreases k,
{
    if k == 0 {
        (value % 0x100) as u8
    } else {
        byte_of(value / 0x100, (k - 1) as nat)
    }
}

/// The `width` bytes that store `value`, least significant first.
pub open spec fn le_bytes(value: int, width: nat) -> Seq<u8> {
    Seq::new(width, |k: int| byte_of(value, k as nat))
}

/// The `width` bytes that store `value`, most significant first.
pub open spec fn be_bytes(value: int, width: nat) -> Seq<u8> {
    le_bytes(value, width).reverse()
}

/// The bytes that store `value` under `endianness`.
pub open spec fn encode(endianness: Endianness, value: int, width: nat) -> Seq<u8> {
    match endianness {
        Endianness::LittleEndian => le_bytes(value, width),
        Endianness::BigEndian => be_bytes(value, width),
    }
}

/// The number that `bytes` denote under `endianness`; defined for the widths
/// two, four and eight.
pub open spec fn decode(endianness: Endianness, bytes: Seq<u8>) -> int {
    let b = match endianness {
        Endianness::LittleEndian => bytes,
        Endianness::BigEndian => bytes.reverse(),
    };
    if bytes.len() == 2 {
        le_value_2(b)
    } else if bytes.len() == 4 {
        le_value_4(b)
    } else {
        le_value_8(b)
    }
}

/// An unsigned integer type that can be read from exactly `width()` bytes.
pub trait FromBytes: Sized {
    /// The number of bytes that one value occupies.
    spec fn width() -> nat;

    /// The number that a value stands for.
    spec fn number(self) -> int;

    /// Reads a value stored least significant byte first.
    fn from_le_bytes(bytes: &[u8]) -> (value: Self)
        requires
            bytes@.len() == Self::width(),
        ensures
            value.number() == decode(Endianness::LittleEndian, bytes@),
    ;

    /// Reads a value stored most significant byte first.
    fn from_be_bytes(bytes: &[u8]) -> (value: Self)
        requires
            bytes@.len() == Self::width(),
        ensures
            value.number() == decode(Endianness::BigEndian, bytes@),
    ;
}

impl FromBytes for u16 {
    open spec fn width() -> nat {
        2
    }

    open spec fn number(self) -> int {
        self as int
    }

    fn from_le_bytes(bytes: &[u8]) -> (value: Self) {
        bytes[0] as u16 + 0x100 * (bytes[1] as u16)
    }

    fn from_be_bytes(bytes: &[u8]) -> (value: Self) {
        bytes[1] as u16 + 0x100 * (bytes[0] as u16)
    }
}

impl FromBytes for u32 {
    open spec fn width() -> nat {
        4
    }

    open spec fn number(self) -> int {
        self as int
    }

    fn from_le_bytes(bytes: &[u8]) -> (value: Self) {
        bytes[0] as u32 + 0x100 * (bytes[1] as u32) + 0x1_0000 * (bytes[2] as u32) + 0x100_0000 * (
        bytes[3] as u32)
    }

    fn from_be_bytes(bytes: &[u8]) -> (value: Self) {
        bytes[3] as u32 + 0x100 * (bytes[2] as u32) + 0x1_0000 * (bytes[1] as u32) + 0x100_0000 * (
        bytes[0] as u32)
    }
}

impl FromBytes for u64 {
    open spec fn width() -> nat {
        8
    }

    open spec fn number(self) -> int {
        self as int
    }

    fn from_le_bytes(bytes: &[u8]) -> (value: Self) {
        let low: u64 = bytes[0] as u64 + 0x100 * (bytes[1] as u64) + 0x1_0000 * (bytes[2] as u64)
            + 0x100_0000 * (bytes[3] as u64);
        let high: u64 = bytes[4] as u64 + 0x100 * (bytes[5] as u64) + 0x1_0000 * (bytes[6] as u64)
            + 0x100_0000 * (bytes[7] as u64);
        low + 0x1_0000_0000 * high
    }

    fn from_be_bytes(bytes: &[u8]) -> (value: Self) {
        let low: u64 = bytes[7] as u64 + 0x100 * (bytes[6] as u64) + 0x1_0000 * (bytes[5] as u64)
            + 0x100_0000 * (bytes[4] as u64);
        let high: u64 = bytes[3] as u64 + 0x100 * (bytes[2] as u64) + 0x1_0000 * (bytes[1] as u64)
            + 0x100_0000 * (bytes[0] as u64);
        low + 0x1_0000_0000 * high
    }
}

/// Reads one value of type `T` from `bytes`, which must hold exactly as many
/// bytes as `T` occupies.
pub fn get_value<T: FromBytes>(endianness: Endianness, bytes: &[u8]) -> (value: T)
    requires
        bytes@.len() == T::width(),
    ensures
        value.number() == decode(endianness, bytes@),
{
    match endianness {
        Endianness::LittleEndian => T::from_le_bytes(bytes),
        Endianness::BigEndian => T::from_be_bytes(bytes),
    }
}

/// Every value that fits in `width` bytes (two, four or eight) is read back
/// unchanged from the bytes that store it, under either byte order.
pub proof fn lemma_decode_encode(endianness: Endianness, value: int, width: nat)
    requires
        width == 2 || width == 4 || width == 8,
        0 <= value,
        width == 2 ==> value < 0x1_0000,
        width == 4 ==> value < 0x1_0000_0000,
        width == 8 ==> value < 0x1_0000_0000_0000_0000,
    ensures
        encode(endianness, value, width).len() == width,
        decode(endianness, encode(endianness, value, width)) == value,
{
    reveal_with_fuel(byte_of, 9);
    let le = le_bytes(value, width);
    assert(le.reverse().reverse() =~= le);
}

/// Splitting off the least significant byte: the byte itself remains below,
/// the rest above.
proof fn lemma_split(value: int, low: u8, rest: int)
    requires
        value == low + 0x100 * rest,
    ensures
        value % 0x100 == low,
        value / 0x100 == rest,
{
}

/// The bytes of the number that a little-endian slice denotes are the
/// slice's own.
proof fn lemma_le_bytes_of_value(b: Seq<u8>)
    requires
        b.len() == 2 || b.len() == 4 || b.len() == 8,
    ensures
        le_bytes(decode(Endianness::LittleEndian, b), b.len()) == b,
{
    let v0 = decode(Endianness::LittleEndian, b);
    if b.len() == 2 {
        lemma_split(v0, b[0], b[1] as int);
        lemma_split(b[1] as int, b[1], 0);
        reveal_with_fuel(byte_of, 3);
    } else if b.len() == 4 {
        let v3 = b[3] as int;
        let v2 = b[2] + 0x100 * v3;
        let v1 = b[1] + 0x100 * v2;
        lemma_split(v0, b[0], v1);
        lemma_split(v1, b[1], v2);
        lemma_split(v2, b[2], v3);
        lemma_split(v3, b[3], 0);
        reveal_with_fuel(byte_of, 5);
    } else {
        let v7 = b[7] as int;
        let v6 = b[6] + 0x100 * v7;
        let v5 = b[5] + 0x100 * v6;
        let v4 = b[4] + 0x100 * v5;
        let v3 = b[3] + 0x100 * v4;
        let v2 = b[2] + 0x100 * v3;
        let v1 = b[1] + 0x100 * v2;
        lemma_split(v0, b[0], v1);
        lemma_split(v1, b[1], v2);
        lemma_split(v2, b[2], v3);
        lemma_split(v3, b[3], v4);
        lemma_split(v4, b[4], v5);
        lemma_split(v5, b[5], v6);
        lemma_split(v6, b[6], v7);
        lemma_split(v7, b[7], 0);
        reveal_with_fuel(byte_of, 9);
    }
    assert(le_bytes(v0, b.len()) =~= b);
}

/// Every slice of two, four or eight bytes is the stored form of the number it
/// denotes, under either byte order.
pub proof fn lemma_encode_decode(endianness: Endianness, bytes: Seq<u8>)
    requires
        bytes.len() == 2 || bytes.len() == 4 || bytes.len() == 8,
    ensures
        encode(endianness, decode(endianness, bytes), bytes.len()) == bytes,
{
    match endianness {
        Endianness::LittleEndian => {
            lemma_le_bytes_of_value(bytes);
        },
        Endianness::BigEndian => {
            lemma_le_bytes_of_value(bytes.reverse());
            assert(bytes.reverse().reverse() =~= bytes);
        },
    }
}

} // verus!
