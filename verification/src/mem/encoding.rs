//! How values are laid out in guest memory.
//!
//! No endianness conversion is offered: all supported emulated and host
//! platforms are little-endian.
use vstd::prelude::*;

use crate::mem::ptr::Ptr;

verus! {

/// Number of values that `count` bytes can hold, 256 to the power of `count`.
pub open spec fn byte_range(count: nat) -> nat
    decreases count,
{
    if count == 0 {
        1
    } else {
        256 * byte_range((count - 1) as nat)
    }
}

/// The value of a little-endian byte sequence.
pub open spec fn le_value(bytes: Seq<u8>) -> nat
    decreases bytes.len(),
{
    if bytes.len() == 0 {
        0
    } else {
        bytes[0] as nat + 256 * le_value(bytes.drop_first())
    }
}

/// The lowest `count` bytes of `value`, least significant first.
pub open spec fn le_bytes(value: nat, count: nat) -> Seq<u8>
    decreases count,
{
    if count == 0 {
        Seq::empty()
    } else {
        seq![(value % 256) as u8] + le_bytes(value / 256, (count - 1) as nat)
    }
}

/// Little-endian bytes as many as asked for, and their value is the number
/// they were taken from as far as it fits.
pub proof fn le_bytes_value(value: nat, count: nat)
    ensures
        le_bytes(value, count).len() == count,
        byte_range(count) > 0,
        le_value(le_bytes(value, count)) == value % byte_range(count),
        value < byte_range(count) ==> le_value(le_bytes(value, count)) == value,
    decreases count,
{
    if count > 0 {
        let rest = (count - 1) as nat;
        le_bytes_value(value / 256, rest);
        let bytes = le_bytes(value, count);
        assert(bytes.drop_first() =~= le_bytes(value / 256, rest));
        let m = byte_range(rest);
        assert(value % (256 * m) == value % 256 + 256 * ((value / 256) % m)) by {
            vstd::arithmetic::div_mod::lemma_mod_breakdown(value as int, 256, m as int);
        }
    }
    if value < byte_range(count) {
        vstd::arithmetic::div_mod::lemma_small_mod(value, byte_range(count));
    }
}

/// The value of a byte sequence fits its length and determines the sequence.
pub proof fn le_value_bytes(bytes: Seq<u8>)
    ensures
        le_value(bytes) < byte_range(bytes.len()),
        le_bytes(le_value(bytes), bytes.len()) == bytes,
    decreases bytes.len(),
{
    if bytes.len() > 0 {
        let rest = bytes.drop_first();
        le_value_bytes(rest);
        let v = le_value(bytes);
        assert(v % 256 == bytes[0] && v / 256 == le_value(rest));
        assert(le_bytes(v, bytes.len()) =~= bytes);
    }
}

/// The sizes in use.
pub proof fn byte_range_of_words()
    ensures
        byte_range(1) == 0x100,
        byte_range(2) == 0x1_0000,
        byte_range(4) == 0x1_0000_0000,
        byte_range(8) == 0x1_0000_0000_0000_0000,
{
    reveal_with_fuel(byte_range, 9);
}

/// Reads up to eight little-endian bytes.
pub fn read_le(bytes: &[u8]) -> (value: u64)
    requires
        bytes@.len() <= 8,
    ensures
        value == le_value(bytes@),
{
    let mut value: u64 = 0;
    let mut i: usize = bytes.len();
    assert(bytes@.subrange(i as int, bytes@.len() as int) =~= Seq::<u8>::empty());
    while i > 0
        invariant
            bytes@.len() <= 8,
            0 <= i <= bytes@.len(),
            value == le_value(bytes@.subrange(i as int, bytes@.len() as int)),
        decreases i,
    {
        let ghost tail = bytes@.subrange(i as int, bytes@.len() as int);
        let ghost longer = bytes@.subrange(i - 1, bytes@.len() as int);
        proof {
            assert(longer.drop_first() =~= tail);
            le_value_bytes(longer);
            byte_range_monotone(longer.len(), 8);
            byte_range_of_words();
        }
        i = i - 1;
        value = bytes[i] as u64 + 256 * value;
    }
    assert(bytes@.subrange(0, bytes@.len() as int) =~= bytes@);
    value
}

/// More bytes hold more values.
pub proof fn byte_range_monotone(few: nat, many: nat)
    requires
        few <= many,
    ensures
        0 < byte_range(few) <= byte_range(many),
    decreases many,
{
    if few < many {
        byte_range_monotone(few, (many - 1) as nat);
    } else if few > 0 {
        byte_range_monotone((few - 1) as nat, (many - 1) as nat);
    }
}

/// The lowest `count` bytes of `value`, least significant first.
pub fn write_le(value: u64, count: usize) -> (bytes: Vec<u8>)
    ensures
        bytes@ == le_bytes(value as nat, count as nat),
{
    let mut bytes: Vec<u8> = Vec::new();
    let mut rest: u64 = value;
    let mut i: usize = 0;
    while i < count
        invariant
            i <= count,
            bytes@ + le_bytes(rest as nat, (count - i) as nat) == le_bytes(
                value as nat,
                count as nat,
            ),
        decreases count - i,
    {
        let ghost before = bytes@;
        bytes.push((rest % 256) as u8);
        assert(bytes@ + le_bytes((rest / 256) as nat, (count - i - 1) as nat) =~= before + le_bytes(
            rest as nat,
            (count - i) as nat,
        ));
        rest = rest / 256;
        i = i + 1;
    }
    assert(bytes@ + Seq::<u8>::empty() =~= bytes@);
    bytes
}

/// Types that can be written to guest memory.
///
/// Especially for structures, be careful that the layout matches the expected
/// ABI, padding included.
///
/// See also [SafeRead].
pub trait SafeWrite: Sized {
    /// Size of the type in guest memory.
    spec fn byte_count() -> nat;

    /// The bytes that stand for this value in guest memory.
    spec fn encode(self) -> Seq<u8>;

    /// A type has at least one byte, and each of its values has as many.
    proof fn lemma_encode(self)
        ensures
            0 < Self::byte_count() <= 0x1000,
            self.encode().len() == Self::byte_count(),
    ;

    fn guest_byte_count() -> (count: u32)
        ensures
            count == Self::byte_count(),
            0 < count <= 0x1000,
    ;

    fn to_guest_bytes(&self) -> (bytes: Vec<u8>)
        ensures
            bytes@ == self.encode(),
    ;
}

/// Types that can be read from guest memory.
///
/// Every byte sequence of the right length stands for some value, so only
/// types for which all possible bit patterns are legal (e.g. integers) can
/// have this trait.
///
/// See also [SafeWrite].
pub trait SafeRead: SafeWrite {
    /// The value that the bytes stand for.
    spec fn decode(bytes: Seq<u8>) -> Self;

    /// What was written is read back.
    proof fn lemma_decode(self)
        ensures
            Self::decode(self.encode()) == self,
    ;

    fn from_guest_bytes(bytes: &[u8]) -> (value: Self)
        requires
            bytes@.len() == Self::byte_count(),
        ensures
            value == Self::decode(bytes@),
    ;
}

// bool is one byte in size and has 0 as false, 1 as true in both Rust and ObjC
impl SafeWrite for bool {
    open spec fn byte_count() -> nat {
        1
    }

    open spec fn encode(self) -> Seq<u8> {
        seq![if self { 1u8 } else { 0u8 }]
    }

    proof fn lemma_encode(self) {
    }

    fn guest_byte_count() -> (count: u32) {
        1
    }

    fn to_guest_bytes(&self) -> (bytes: Vec<u8>) {
        let mut bytes: Vec<u8> = Vec::new();
        bytes.push(if *self { 1u8 } else { 0u8 });
        assert(bytes@ =~= self.encode());
        bytes
    }
}

impl SafeRead for bool {
    open spec fn decode(bytes: Seq<u8>) -> Self {
        bytes[0] != 0
    }

    proof fn lemma_decode(self) {
    }

    fn from_guest_bytes(bytes: &[u8]) -> (value: Self) {
        bytes[0] != 0
    }
}

impl SafeWrite for i8 {
    open spec fn byte_count() -> nat {
        1
    }

    /// Two's complement.
    open spec fn encode(self) -> Seq<u8> {
        le_bytes(
            if self < 0 {
                (self + 0x100) as nat
            } else {
                self as nat
            },
            1,
        )
    }

    proof fn lemma_encode(self) {
        le_bytes_value(
            if self < 0 {
                (self + 0x100) as nat
            } else {
                self as nat
            },
            1,
        );
    }

    fn guest_byte_count() -> (count: u32) {
        1
    }

    fn to_guest_bytes(&self) -> (bytes: Vec<u8>) {
        let value: i64 = *self as i64;
        let bits: u64 = if value < 0 {
            (value + 0x100) as u64
        } else {
            value as u64
        };
        write_le(bits, 1)
    }
}

impl SafeRead for i8 {
    open spec fn decode(bytes: Seq<u8>) -> Self {
        let bits = le_value(bytes);
        if bits >= 0x80 {
            (bits - 0x100) as i8
        } else {
            bits as i8
        }
    }

    proof fn lemma_decode(self) {
        byte_range_of_words();
        le_bytes_value(
            if self < 0 {
                (self + 0x100) as nat
            } else {
                self as nat
            },
            1,
        );
    }

    fn from_guest_bytes(bytes: &[u8]) -> (value: Self) {
        proof {
            byte_range_of_words();
            le_value_bytes(bytes@);
        }
        let bits: u64 = read_le(bytes);
        if bits >= 0x80 {
            (bits as i64 - 0x100) as i8
        } else {
            bits as i8
        }
    }
}

impl SafeWrite for u8 {
    open spec fn byte_count() -> nat {
        1
    }

    open spec fn encode(self) -> Seq<u8> {
        le_bytes(self as nat, 1)
    }

    proof fn lemma_encode(self) {
        le_bytes_value(self as nat, 1);
    }

    fn guest_byte_count() -> (count: u32) {
        1
    }

    fn to_guest_bytes(&self) -> (bytes: Vec<u8>) {
        write_le(*self as u64, 1)
    }
}

impl SafeRead for u8 {
    open spec fn decode(bytes: Seq<u8>) -> Self {
        le_value(bytes) as u8
    }

    proof fn lemma_decode(self) {
        byte_range_of_words();
        le_bytes_value(self as nat, 1);
    }

    fn from_guest_bytes(bytes: &[u8]) -> (value: Self) {
        proof {
            byte_range_of_words();
            le_value_bytes(bytes@);
        }
        read_le(bytes) as u8
    }
}

impl SafeWrite for i16 {
    open spec fn byte_count() -> nat {
        2
    }

    /// Two's complement.
    open spec fn encode(self) -> Seq<u8> {
        le_bytes(
            if self < 0 {
                (self + 0x1_0000) as nat
            } else {
                self as nat
            },
            2,
        )
    }

    proof fn lemma_encode(self) {
        le_bytes_value(
            if self < 0 {
                (self + 0x1_0000) as nat
            } else {
                self as nat
            },
            2,
        );
    }

    fn guest_byte_count() -> (count: u32) {
        2
    }

    fn to_guest_bytes(&self) -> (bytes: Vec<u8>) {
        let value: i64 = *self as i64;
        let bits: u64 = if value < 0 {
            (value + 0x1_0000) as u64
        } else {
            value as u64
        };
        write_le(bits, 2)
    }
}

impl SafeRead for i16 {
    open spec fn decode(bytes: Seq<u8>) -> Self {
        let bits = le_value(bytes);
        if bits >= 0x8000 {
            (bits - 0x1_0000) as i16
        } else {
            bits as i16
        }
    }

    proof fn lemma_decode(self) {
        byte_range_of_words();
        le_bytes_value(
            if self < 0 {
                (self + 0x1_0000) as nat
            } else {
                self as nat
            },
            2,
        );
    }

    fn from_guest_bytes(bytes: &[u8]) -> (value: Self) {
        proof {
            byte_range_of_words();
            le_value_bytes(bytes@);
        }
        let bits: u64 = read_le(bytes);
        if bits >= 0x8000 {
            (bits as i64 - 0x1_0000) as i16
        } else {
            bits as i16
        }
    }
}

impl SafeWrite for u16 {
    open spec fn byte_count() -> nat {
        2
    }

    open spec fn encode(self) -> Seq<u8> {
        le_bytes(self as nat, 2)
    }

    proof fn lemma_encode(self) {
        le_bytes_value(self as nat, 2);
    }

    fn guest_byte_count() -> (count: u32) {
        2
    }

    fn to_guest_bytes(&self) -> (bytes: Vec<u8>) {
        write_le(*self as u64, 2)
    }
}

impl SafeRead for u16 {
    open spec fn decode(bytes: Seq<u8>) -> Self {
        le_value(bytes) as u16
    }

    proof fn lemma_decode(self) {
        byte_range_of_words();
        le_bytes_value(self as nat, 2);
    }

    fn from_guest_bytes(bytes: &[u8]) -> (value: Self) {
        proof {
            byte_range_of_words();
            le_value_bytes(bytes@);
        }
        read_le(bytes) as u16
    }
}

impl SafeWrite for i32 {
    open spec fn byte_count() -> nat {
        4
    }

    /// Two's complement.
    open spec fn encode(self) -> Seq<u8> {
        le_bytes(
            if self < 0 {
                (self + 0x1_0000_0000) as nat
            } else {
                self as nat
            },
            4,
        )
    }

    proof fn lemma_encode(self) {
        le_bytes_value(
            if self < 0 {
                (self + 0x1_0000_0000) as nat
            } else {
                self as nat
            },
            4,
        );
    }

    fn guest_byte_count() -> (count: u32) {
        4
    }

    fn to_guest_bytes(&self) -> (bytes: Vec<u8>) {
        let value: i64 = *self as i64;
        let bits: u64 = if value < 0 {
            (value + 0x1_0000_0000) as u64
        } else {
            value as u64
        };
        write_le(bits, 4)
    }
}

impl SafeRead for i32 {
    open spec fn decode(bytes: Seq<u8>) -> Self {
        let bits = le_value(bytes);
        if bits >= 0x8000_0000 {
            (bits - 0x1_0000_0000) as i32
        } else {
            bits as i32
        }
    }

    proof fn lemma_decode(self) {
        byte_range_of_words();
        le_bytes_value(
            if self < 0 {
                (self + 0x1_0000_0000) as nat
            } else {
                self as nat
            },
            4,
        );
    }

    fn from_guest_bytes(bytes: &[u8]) -> (value: Self) {
        proof {
            byte_range_of_words();
            le_value_bytes(bytes@);
        }
        let bits: u64 = read_le(bytes);
        if bits >= 0x8000_0000 {
            (bits as i64 - 0x1_0000_0000) as i32
        } else {
            bits as i32
        }
    }
}

impl SafeWrite for u32 {
    open spec fn byte_count() -> nat {
        4
    }

    open spec fn encode(self) -> Seq<u8> {
        le_bytes(self as nat, 4)
    }

    proof fn lemma_encode(self) {
        le_bytes_value(self as nat, 4);
    }

    fn guest_byte_count() -> (count: u32) {
        4
    }

    fn to_guest_bytes(&self) -> (bytes: Vec<u8>) {
        write_le(*self as u64, 4)
    }
}

impl SafeRead for u32 {
    open spec fn decode(bytes: Seq<u8>) -> Self {
        le_value(bytes) as u32
    }

    proof fn lemma_decode(self) {
        byte_range_of_words();
        le_bytes_value(self as nat, 4);
    }

    fn from_guest_bytes(bytes: &[u8]) -> (value: Self) {
        proof {
            byte_range_of_words();
            le_value_bytes(bytes@);
        }
        read_le(bytes) as u32
    }
}

impl SafeWrite for i64 {
    open spec fn byte_count() -> nat {
        8
    }

    /// Two's complement.
    open spec fn encode(self) -> Seq<u8> {
        le_bytes(
            if self < 0 {
                (self + 0x1_0000_0000_0000_0000) as nat
            } else {
                self as nat
            },
            8,
        )
    }

    proof fn lemma_encode(self) {
        le_bytes_value(
            if self < 0 {
                (self + 0x1_0000_0000_0000_0000) as nat
            } else {
                self as nat
            },
            8,
        );
    }

    fn guest_byte_count() -> (count: u32) {
        8
    }

    fn to_guest_bytes(&self) -> (bytes: Vec<u8>) {
        let value: i128 = *self as i128;
        let bits: u64 = if value < 0 {
            (value + 0x1_0000_0000_0000_0000) as u64
        } else {
            value as u64
        };
        write_le(bits, 8)
    }
}

impl SafeRead for i64 {
    open spec fn decode(bytes: Seq<u8>) -> Self {
        let bits = le_value(bytes);
        if bits >= 0x8000_0000_0000_0000 {
            (bits - 0x1_0000_0000_0000_0000) as i64
        } else {
            bits as i64
        }
    }

    proof fn lemma_decode(self) {
        byte_range_of_words();
        le_bytes_value(
            if self < 0 {
                (self + 0x1_0000_0000_0000_0000) as nat
            } else {
                self as nat
            },
            8,
        );
    }

    fn from_guest_bytes(bytes: &[u8]) -> (value: Self) {
        proof {
            byte_range_of_words();
            le_value_bytes(bytes@);
        }
        let bits: u64 = read_le(bytes);
        if bits >= 0x8000_0000_0000_0000 {
            (bits as i128 - 0x1_0000_0000_0000_0000) as i64
        } else {
            bits as i64
        }
    }
}

impl SafeWrite for u64 {
    open spec fn byte_count() -> nat {
        8
    }

    open spec fn encode(self) -> Seq<u8> {
        le_bytes(self as nat, 8)
    }

    proof fn lemma_encode(self) {
        le_bytes_value(self as nat, 8);
    }

    fn guest_byte_count() -> (count: u32) {
        8
    }

    fn to_guest_bytes(&self) -> (bytes: Vec<u8>) {
        write_le(*self as u64, 8)
    }
}

impl SafeRead for u64 {
    open spec fn decode(bytes: Seq<u8>) -> Self {
        le_value(bytes) as u64
    }

    proof fn lemma_decode(self) {
        byte_range_of_words();
        le_bytes_value(self as nat, 8);
    }

    fn from_guest_bytes(bytes: &[u8]) -> (value: Self) {
        proof {
            byte_range_of_words();
            le_value_bytes(bytes@);
        }
        read_le(bytes) as u64
    }
}

impl<T, const MUT: bool> SafeWrite for Ptr<T, MUT> {
    open spec fn byte_count() -> nat {
        4
    }

    open spec fn encode(self) -> Seq<u8> {
        le_bytes(self.bits() as nat, 4)
    }

    proof fn lemma_encode(self) {
        le_bytes_value(self.bits() as nat, 4);
    }

    fn guest_byte_count() -> (count: u32) {
        4
    }

    fn to_guest_bytes(&self) -> (bytes: Vec<u8>) {
        write_le(self.to_bits() as u64, 4)
    }
}

impl<T, const MUT: bool> SafeRead for Ptr<T, MUT> {
    open spec fn decode(bytes: Seq<u8>) -> Self {
        Self::at(le_value(bytes) as u32)
    }

    proof fn lemma_decode(self) {
        byte_range_of_words();
        le_bytes_value(self.bits() as nat, 4);
        Self::lemma_at(self.bits());
        self.lemma_bits_determine(Self::at(self.bits()));
    }

    fn from_guest_bytes(bytes: &[u8]) -> (value: Self) {
        proof {
            byte_range_of_words();
            le_value_bytes(bytes@);
        }
        Ptr::from_bits(read_le(bytes) as u32)
    }
}

} // verus!
