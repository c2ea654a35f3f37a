//! Little-endian integer decoding and byte-size units.
use vstd::prelude::*;

verus! {

/// Byte measure unit
#[derive(Debug, Clone, Copy, PartialEq, Eq, Structural)]
pub enum ByteUnit {
    B,
    KB,
    MB,
    GB,
    KiB,
    MiB,
    GiB,
}

impl ByteUnit {
    /// The symbol of the unit.
    pub open spec fn symbol(self) -> Seq<char> {
        match self {
            ByteUnit::B => "B"@,
            ByteUnit::KB => "KB"@,
            ByteUnit::MB => "MB"@,
            ByteUnit::GB => "GB"@,
            ByteUnit::KiB => "KiB"@,
            ByteUnit::MiB => "MiB"@,
            ByteUnit::GiB => "GiB"@,
        }
    }

    pub fn toString(&self) -> (symbol: String)
        ensures
            symbol@ == self.symbol(),
    {
        match self {
            ByteUnit::B => "B".to_owned(),
            ByteUnit::KB => "KB".to_owned(),
            ByteUnit::MB => "MB".to_owned(),
            ByteUnit::GB => "GB".to_owned(),
            ByteUnit::KiB => "KiB".to_owned(),
            ByteUnit::MiB => "MiB".to_owned(),
            ByteUnit::GiB => "GiB".to_owned(),
        }
    }
}

/// An amount of memory, counted in bytes.
#[derive(Debug)]
pub struct ByteSize {
    bytes: usize,
}

impl ByteSize {
    /// The number of bytes.
    pub closed spec fn bytes(&self) -> nat {
        self.bytes as nat
    }

    pub fn fromBytes(bytes: usize) -> (size: Self)
        ensures
            size.bytes() == bytes,
    {
        Self { bytes: bytes }
    }

    /// The size in bits.
    pub fn b(&self) -> (bits: usize)
        requires
            self.bytes() * 8 <= usize::MAX,
        ensures
            bits == self.bytes() * 8,
    {
        self.bytes * 8
    }

    /// The size in bytes.
    pub fn B(&self) -> (bytes: usize)
        ensures
            bytes == self.bytes(),
    {
        self.bytes
    }
}

/// The value of `bytes` read as a little-endian number: the first byte is
/// the least significant one.
pub open spec fn le_value(bytes: Seq<u8>) -> nat
    decreases bytes.len(),
{
    if bytes.len() == 0 {
        0
    } else {
        bytes[0] as nat + 256 * le_value(bytes.drop_first())
    }
}

/// The little-endian value of the `width` bytes of `bytes` that start at
/// `offset`.
pub open spec fn le_value_at(bytes: Seq<u8>, offset: int, width: int) -> nat {
    le_value(bytes.subrange(offset, offset + width))
}

/// A non-empty sequence is worth its first byte plus 256 times the rest.
pub proof fn lemma_le_value_step(bytes: Seq<u8>, from: int, to: int)
    requires
        0 <= from < to <= bytes.len(),
    ensures
        le_value(bytes.subrange(from, to)) == bytes[from] + 256 * le_value(
            bytes.subrange(from + 1, to),
        ),
{
    assert(bytes.subrange(from, to).drop_first() =~= bytes.subrange(from + 1, to));
}

/// Decodes the first two bytes as a little-endian `u16`.
pub fn bytesToU16(bytes: Vec<u8>) -> (value: u16)
    requires
        bytes@.len() >= 2,
    ensures
        value == bytes@[1] * 256 + bytes@[0],
        value == le_value_at(bytes@, 0, 2),
{
    proof {
        lemma_le_value_step(bytes@, 0, 2);
        lemma_le_value_step(bytes@, 1, 2);
    }
    let high: u16 = bytes[1] as u16;
    let low: u16 = bytes[0] as u16;
    high * 256 + low
}

/// Decodes the first four bytes as a little-endian `u32`.
pub fn bytesToU32(bytes: Vec<u8>) -> (value: u32)
    requires
        bytes@.len() >= 4,
    ensures
        value == bytes@[3] * 0x100_0000 + bytes@[2] * 0x1_0000 + bytes@[1] * 0x100 + bytes@[0],
        value == le_value_at(bytes@, 0, 4),
{
    proof {
        lemma_le_value_step(bytes@, 0, 4);
        lemma_le_value_step(bytes@, 1, 4);
        lemma_le_value_step(bytes@, 2, 4);
        lemma_le_value_step(bytes@, 3, 4);
    }
    let first: u32 = bytes[3] as u32;
    let second: u32 = bytes[2] as u32;
    let third: u32 = bytes[1] as u32;
    let fourth: u32 = bytes[0] as u32;
    first * 0x100_0000 + second * 0x1_0000 + third * 0x100 + fourth
}

/// Decodes eight bytes as a little-endian `u64`.
pub fn bytesToU64(bytes: Vec<u8>) -> (value: u64)
    requires
        bytes@.len() == 8,
    ensures
        value == le_value(bytes@),
{
    let mut res: u64 = 0;
    let mut remaining: usize = 8;
    while remaining > 0
        invariant
            bytes@.len() == 8,
            remaining <= 8,
            res == le_value(bytes@.subrange(remaining as int, 8)),
            res < place_value((8 - remaining) as nat),
        decreases remaining,
    {
        proof {
            lemma_le_value_step(bytes@, remaining - 1, 8);
            lemma_place_values();
            assert(place_value((8 - remaining + 1) as nat) == 256 * place_value(
                (8 - remaining) as nat,
            ));
            assert(place_value((8 - remaining + 1) as nat) <= place_value(8)) by {
                assert(remaining == 1 || remaining == 2 || remaining == 3 || remaining == 4
                    || remaining == 5 || remaining == 6 || remaining == 7 || remaining == 8);
            }
        }
        remaining -= 1;
        res = res * 256 + bytes[remaining] as u64;
    }
    proof {
        assert(bytes@.subrange(0, 8) =~= bytes@);
    }
    res
}

/// The weight of the byte at `position` of a little-endian number.
pub open spec fn place_value(position: nat) -> nat
    decreases position,
{
    if position == 0 {
        1
    } else {
        256 * place_value((position - 1) as nat)
    }
}

/// The weights of the first nine positions.
pub proof fn lemma_place_values()
    ensures
        place_value(0) == 1,
        place_value(1) == 0x100,
        place_value(2) == 0x1_0000,
        place_value(3) == 0x100_0000,
        place_value(4) == 0x1_0000_0000,
        place_value(5) == 0x100_0000_0000,
        place_value(6) == 0x1_0000_0000_0000,
        place_value(7) == 0x100_0000_0000_0000,
        place_value(8) == 0x1_0000_0000_0000_0000,
{
    reveal_with_fuel(place_value, 10);
}

} // verus!
