//! The types of the values that can be searched for and changed.
use vstd::prelude::*;

use crate::mem::allocator::disjoint;
use crate::mem::bytes::{splice, splice_reads_back};
use crate::mem::encoding::{
    byte_range, byte_range_of_words, le_bytes, le_bytes_value, le_value, le_value_bytes, read_le,
    write_le,
};
use crate::mem::{Mem, Ptr};
use crate::numeric::float::{
    decimal_fraction, denominator, denominator_positive, numerator, parse_f32, rounding_is_unique,
    rounds_to, F32_INFINITY, F32_SIGN,
};
use crate::numeric::digits::{
    chars_of, decimal_int, has_hex_prefix, hex_bits, is_negative, read_decimal, read_hex,
    unsigned_part,
};

verus! {

/// Type of a value in guest memory.
#[derive(Clone, Copy, Debug, PartialEq, Eq, Structural)]
pub enum VType {
    U8,
    I8,
    U16,
    I16,
    U32,
    I32,
    F32,
    /// Any of the others.
    Auto,
}

/// A value as it is shown.
#[derive(Clone, Copy, Debug, PartialEq, Eq, Structural)]
pub enum Shown {
    Integer(i64),
    /// The bit pattern of a float.
    Float(u32),
    Nothing,
}

impl VType {
    /// Number of bytes. [VType::Auto] has none of its own.
    pub open spec fn width(self) -> nat {
        match self {
            VType::U8 | VType::I8 => 1,
            VType::U16 | VType::I16 => 2,
            VType::U32 | VType::I32 | VType::F32 => 4,
            VType::Auto => 0,
        }
    }

    /// The smallest and the largest integer of this type.
    pub open spec fn bounds(self) -> (int, int) {
        match self {
            VType::U8 => (0, 0xff),
            VType::I8 => (-0x80, 0x7f),
            VType::U16 => (0, 0xffff),
            VType::I16 => (-0x8000, 0x7fff),
            VType::U32 => (0, 0xffff_ffff),
            VType::I32 => (-0x8000_0000, 0x7fff_ffff),
            VType::F32 | VType::Auto => (0, -1),
        }
    }

    /// Whether the text denotes the value with the given bits: as raw bits
    /// after `0x`, as a decimal integer that fits the type, or for a float as
    /// a decimal number, which is rounded to the nearest finite float.
    pub open spec fn denotes(self, text: Seq<char>, bits: u64) -> bool {
        if self == VType::Auto {
            false
        } else if has_hex_prefix(text) {
            bits < byte_range(self.width()) && hex_bits(text) == Some(bits as nat)
        } else if self == VType::F32 {
            let magnitude = if is_negative(text) {
                bits - F32_SIGN
            } else {
                bits as int
            };
            &&& decimal_fraction(text) matches Some((digits, exponent))
            &&& 0 <= magnitude < F32_INFINITY
            &&& rounds_to(numerator(digits, exponent), denominator(exponent), magnitude)
        } else {
            &&& decimal_int(text) matches Some(value)
            &&& self.bounds().0 <= value <= self.bounds().1
            &&& bits == if value < 0 {
                value + byte_range(self.width())
            } else {
                value
            }
        }
    }

    /// The bits of the value that the text denotes, if it denotes one.
    pub open spec fn meaning(self, text: Seq<char>) -> Option<u64> {
        if exists|bits: u64| self.denotes(text, bits) {
            Some(choose|bits: u64| self.denotes(text, bits))
        } else {
            None
        }
    }

    /// A text denotes one value of a type at most, and one that fits.
    pub proof fn denotes_one(self, text: Seq<char>, a: u64, b: u64)
        requires
            self.denotes(text, a),
            self.denotes(text, b),
        ensures
            a == b,
            a < byte_range(self.width()),
            self.meaning(text) == Some(a),
    {
        self.denotes_same(text, a, b);
        let c = choose|bits: u64| self.denotes(text, bits);
        self.denotes_same(text, a, c);
    }

    proof fn denotes_same(self, text: Seq<char>, a: u64, b: u64)
        requires
            self.denotes(text, a),
            self.denotes(text, b),
        ensures
            a == b,
            a < byte_range(self.width()),
    {
        byte_range_of_words();
        if self == VType::F32 && !has_hex_prefix(text) {
            let (digits, exponent) = decimal_fraction(text).unwrap();
            let sign = if is_negative(text) {
                F32_SIGN as int
            } else {
                0
            };
            denominator_positive(exponent);
            rounding_is_unique(
                numerator(digits, exponent),
                denominator(exponent),
                a - sign,
                b - sign,
            );
        }
    }

    /// Reads a value of this type from text.
    pub fn parse(self, text: &str) -> (bits: Option<u64>)
        ensures
            bits == self.meaning(text@),
            bits matches Some(b) ==> self.denotes(text@, b) && b < byte_range(self.width()),
            bits is None ==> forall|b: u64| #![trigger self.denotes(text@, b)] !self.denotes(text@, b),
    {
        let bits = self.parse_chars(&chars_of(text));
        proof {
            if let Some(b) = bits {
                self.denotes_one(text@, b, b);
            }
        }
        bits
    }

    fn parse_chars(self, chars: &Vec<char>) -> (bits: Option<u64>)
        ensures
            bits matches Some(b) ==> self.denotes(chars@, b),
            bits is None ==> forall|b: u64| !#[trigger] self.denotes(chars@, b),
    {
        proof {
            byte_range_of_words();
        }
        if self == VType::Auto {
            return None;
        }
        if chars.len() >= 2 && chars[0] == '0' && chars[1] == 'x' {
            let limit: u64 = match self.size() {
                1 => 0xff,
                2 => 0xffff,
                _ => 0xffff_ffff,
            };
            return match read_hex(chars, 2, limit) {
                Some(value) => if value <= limit {
                    Some(value)
                } else {
                    None
                },
                None => None,
            };
        }
        if self == VType::F32 {
            return match parse_f32(chars) {
                Some(bits) => Some(bits as u64),
                None => {
                    proof {
                        assert forall|b: u64| !#[trigger] self.denotes(chars@, b) by {
                            if self.denotes(chars@, b) {
                                let (digits, exponent) = decimal_fraction(chars@).unwrap();
                                let magnitude = if is_negative(chars@) {
                                    b - F32_SIGN
                                } else {
                                    b as int
                                };
                                denominator_positive(exponent);
                                rounding_is_unique(
                                    numerator(digits, exponent),
                                    denominator(exponent),
                                    magnitude,
                                    magnitude,
                                );
                            }
                        }
                    }
                    None
                },
            };
        }
        let negative: bool = chars.len() > 0 && chars[0] == '-';
        let signed: bool = chars.len() > 0 && (chars[0] == '+' || chars[0] == '-');
        let start: usize = if signed {
            1
        } else {
            0
        };
        assert(chars@.subrange(start as int, chars@.len() as int) =~= unsigned_part(chars@));
        match read_decimal(chars, start, chars.len(), 0xffff_ffff) {
            None => None,
            Some(amount) => {
                let value: i64 = if negative {
                    -(amount as i64)
                } else {
                    amount as i64
                };
                let (low, high, range) = self.limits();
                if value < low || value > high {
                    return None;
                }
                if value < 0 {
                    Some((value + range) as u64)
                } else {
                    Some(value as u64)
                }
            },
        }
    }

    /// The smallest and the largest integer of this type, and the number of
    /// bit patterns.
    fn limits(self) -> (limits: (i64, i64, i64))
        requires
            self != VType::Auto,
        ensures
            limits.0 == self.bounds().0,
            limits.1 == self.bounds().1,
            limits.2 == byte_range(self.width()),
            -0x8000_0000 <= limits.0 <= 0,
            limits.1 <= 0xffff_ffff,
            limits.2 <= 0x1_0000_0000,
    {
        proof {
            byte_range_of_words();
        }
        match self {
            VType::U8 => (0, 0xff, 0x100),
            VType::I8 => (-0x80, 0x7f, 0x100),
            VType::U16 => (0, 0xffff, 0x1_0000),
            VType::I16 => (-0x8000, 0x7fff, 0x1_0000),
            VType::U32 => (0, 0xffff_ffff, 0x1_0000_0000),
            VType::I32 => (-0x8000_0000, 0x7fff_ffff, 0x1_0000_0000),
            VType::F32 => (0, -1, 0x1_0000_0000),
            VType::Auto => (0, -1, 1),
        }
    }

    /// Number of bytes. [VType::Auto] has none of its own.
    pub fn size(self) -> (size: u32)
        ensures
            size == self.width(),
            size <= 4,
    {
        match self {
            VType::U8 | VType::I8 => 1,
            VType::U16 | VType::I16 => 2,
            VType::U32 | VType::I32 | VType::F32 => 4,
            VType::Auto => 0,
        }
    }

    /// The type that comes after this one when cycling through all of them.
    pub fn next(self) -> (next: VType)
        ensures
            next == self.successor(),
    {
        match self {
            VType::U8 => VType::I8,
            VType::I8 => VType::U16,
            VType::U16 => VType::I16,
            VType::I16 => VType::U32,
            VType::U32 => VType::I32,
            VType::I32 => VType::F32,
            VType::F32 => VType::Auto,
            VType::Auto => VType::U8,
        }
    }

    pub open spec fn successor(self) -> VType {
        match self {
            VType::U8 => VType::I8,
            VType::I8 => VType::U16,
            VType::U16 => VType::I16,
            VType::I16 => VType::U32,
            VType::U32 => VType::I32,
            VType::I32 => VType::F32,
            VType::F32 => VType::Auto,
            VType::Auto => VType::U8,
        }
    }

    /// The type that comes after this one in four steps.
    pub open spec fn fourth(self) -> VType {
        self.successor().successor().successor().successor()
    }

    /// Cycling through the types comes back to each of them after eight steps,
    /// not after a part of them, and no two types have the same successor.
    pub proof fn cycle_is_complete(self, other: VType)
        ensures
            self.fourth().fourth() == self,
            self.fourth() != self,
            self.successor() == other.successor() ==> self == other,
    {
    }

    /// How the type is called.
    pub fn name(self) -> (name: &'static str)
        ensures
            name@ == match self {
                VType::U8 => "U8"@,
                VType::I8 => "I8"@,
                VType::U16 => "U16"@,
                VType::I16 => "I16"@,
                VType::U32 => "U32"@,
                VType::I32 => "I32"@,
                VType::F32 => "F32"@,
                VType::Auto => "AUTO"@,
            },
    {
        match self {
            VType::U8 => "U8",
            VType::I8 => "I8",
            VType::U16 => "U16",
            VType::I16 => "I16",
            VType::U32 => "U32",
            VType::I32 => "I32",
            VType::F32 => "F32",
            VType::Auto => "AUTO",
        }
    }

    /// What a value with the given bits is shown as. Bits beyond the width of the
    /// type are not part of it.
    pub fn shown(self, bits: u64) -> (shown: Shown)
        ensures
            ({
                let own = bits as int % byte_range(self.width()) as int;
                shown == match self {
                    VType::Auto => Shown::Nothing,
                    VType::F32 => Shown::Float(own as u32),
                    _ => Shown::Integer(
                        if own <= self.bounds().1 {
                            own as i64
                        } else {
                            (own - byte_range(self.width())) as i64
                        },
                    ),
                }
            }),
    {
        proof {
            byte_range_of_words();
        }
        if self == VType::Auto {
            return Shown::Nothing;
        }
        let (_, high, range) = self.limits();
        let own: i64 = (bits % range as u64) as i64;
        if self == VType::F32 {
            Shown::Float(own as u32)
        } else if own <= high {
            Shown::Integer(own)
        } else {
            Shown::Integer(own - range)
        }
    }

    /// An integer is shown as the number that its text denotes.
    pub proof fn shown_as_denoted(self, text: Seq<char>, bits: u64)
        requires
            self.denotes(text, bits),
            self != VType::F32,
            !has_hex_prefix(text),
        ensures
            bits < byte_range(self.width()),
            decimal_int(text).unwrap() == if bits <= self.bounds().1 {
                bits as int
            } else {
                bits - byte_range(self.width())
            },
    {
        byte_range_of_words();
    }

    /// Whether a value of this type at `addr` can be read and written.
    pub open spec fn accessible(self, mem: Mem, addr: int) -> bool {
        self != VType::Auto && mem.mapped(addr, self.width() as int)
    }

    /// The bits of the value at `addr`.
    pub open spec fn bits_at(self, mem: Mem, addr: int) -> u64 {
        le_value(mem.contents().subrange(addr, addr + self.width())) as u64
    }

    /// Reads a value. `None` where there is no memory.
    pub fn read_at(self, mem: &Mem, addr: u32) -> (bits: Option<u64>)
        requires
            mem.wf(),
        ensures
            bits == if self.accessible(*mem, addr as int) {
                Some(self.bits_at(*mem, addr as int))
            } else {
                None
            },
            bits matches Some(b) ==> b < byte_range(self.width()) && b
                == le_value(mem.contents().subrange(addr as int, addr + self.width())),
    {
        if self == VType::Auto {
            return None;
        }
        let size: u32 = self.size();
        if addr < mem.null_segment_size() || addr as u64 + size as u64 > 0x1_0000_0000 {
            return None;
        }
        let bytes = mem.bytes_at(Ptr::<u8, false>::from_bits(addr), size);
        proof {
            le_value_bytes(bytes@);
            byte_range_of_words();
        }
        Some(read_le(bytes.as_slice()))
    }

    /// Writes a value, and says whether there was memory to write to.
    pub fn write_at(self, mem: &mut Mem, addr: u32, bits: u64) -> (done: bool)
        requires
            old(mem).wf(),
        ensures
            final(mem).wf(),
            done == self.accessible(*old(mem), addr as int),
            done ==> {
                &&& final(mem).same_layout(*old(mem))
                &&& final(mem).sink() == old(mem).sink()
                &&& final(mem).contents() == splice(
                    old(mem).contents(),
                    addr as int,
                    le_bytes(bits as nat, self.width()),
                )
            },
            !done ==> *final(mem) == *old(mem),
    {
        if self == VType::Auto {
            return false;
        }
        let size: u32 = self.size();
        if addr < mem.null_segment_size() || addr as u64 + size as u64 > 0x1_0000_0000 {
            return false;
        }
        let bytes = write_le(bits, size as usize);
        proof {
            le_bytes_value(bits as nat, size as nat);
        }
        mem.put(addr, bytes.as_slice());
        true
    }

    /// A value that was written is read back, as far as it fits the type, and
    /// a value elsewhere stays.
    pub proof fn written_value_is_read(
        self,
        before: Mem,
        after: Mem,
        addr: int,
        bits: u64,
        other_type: VType,
        other: int,
    )
        requires
            before.wf(),
            0 <= addr,
            self.accessible(before, addr),
            after.contents() == splice(
                before.contents(),
                addr,
                le_bytes(bits as nat, self.width()),
            ),
            0 <= other,
            other_type.accessible(before, other),
        ensures
            self.bits_at(after, addr) == bits as nat % byte_range(self.width()),
            bits < byte_range(self.width()) ==> self.bits_at(after, addr) == bits,
            disjoint(addr, self.width() as int, other, other_type.width() as int)
                ==> other_type.bits_at(after, other) == other_type.bits_at(before, other),
    {
        byte_range_of_words();
        le_bytes_value(bits as nat, self.width());
        splice_reads_back(before.contents(), addr, le_bytes(bits as nat, self.width()));
        vstd::arithmetic::div_mod::lemma_mod_bound(
            bits as int,
            byte_range(self.width()) as int,
        );
    }
}

} // verus!
