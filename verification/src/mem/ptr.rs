//! Guest pointers: 32-bit virtual addresses with a pointee type.
use vstd::prelude::*;

use crate::text::{lower_hex, push_lower_hex};

verus! {

/// Equivalent of `usize` for guest memory.
pub type GuestUSize = u32;

/// Equivalent of `isize` for guest memory.
pub type GuestISize = i32;

/// An untyped virtual address.
pub type VAddr = GuestUSize;

/// Pointee type of a guest `void *`.
#[derive(Debug, Hash)]
pub struct GuestVoid {}

/// Number of addresses in the guest's virtual address space.
pub open spec fn address_space() -> int {
    0x1_0000_0000
}

/// Size of `T` in bytes, as a guest size.
pub fn guest_size_of<T: Sized>() -> (size: GuestUSize)
    requires
        vstd::layout::size_of::<T>() <= u32::MAX,
    ensures
        size == vstd::layout::size_of::<T>(),
{
    std::mem::size_of::<T>() as u32
}

/// The address `count` elements of type `T` away from `bits`, modulo 2^32 as
/// 32-bit ARM computes it. A negative `count` counts downwards.
pub open spec fn element_address<T>(bits: u32, count: int) -> u32 {
    ((bits + count * vstd::layout::size_of::<T>()) % address_space()) as u32
}

/// Pointer type for guest memory, or the "guest pointer" type.
///
/// The `MUT` type parameter determines whether this is mutable or not.
/// Don't write it out explicitly, use [ConstPtr], [MutPtr], [ConstVoidPtr] or
/// [MutVoidPtr] instead.
#[derive(Debug, Hash)]
pub struct Ptr<T, const MUT: bool>(VAddr, std::marker::PhantomData<T>);

/// Constant guest pointer type (like Rust's `*const T`).
pub type ConstPtr<T> = Ptr<T, false>;

/// Mutable guest pointer type (like Rust's `*mut T`).
pub type MutPtr<T> = Ptr<T, true>;

/// Constant guest pointer-to-void type (like C's `const void *`).
pub type ConstVoidPtr = ConstPtr<GuestVoid>;

/// Mutable guest pointer-to-void type (like C's `void *`).
pub type MutVoidPtr = MutPtr<GuestVoid>;

impl<T, const MUT: bool> Clone for Ptr<T, MUT> {
    fn clone(&self) -> (copy: Self)
        ensures
            copy == *self,
    {
        *self
    }
}

impl<T, const MUT: bool> Copy for Ptr<T, MUT> {

}

impl<T, const MUT: bool> PartialEq for Ptr<T, MUT> {
    fn eq(&self, other: &Self) -> (same: bool) {
        self.0 == other.0
    }
}

impl<T, const MUT: bool> vstd::std_specs::cmp::PartialEqSpecImpl for Ptr<T, MUT> {
    open spec fn obeys_eq_spec() -> bool {
        true
    }

    open spec fn eq_spec(&self, other: &Self) -> bool {
        self.bits() == other.bits()
    }
}

impl<T, const MUT: bool> Eq for Ptr<T, MUT> {

}

impl<T, const MUT: bool> Ptr<T, MUT> {
    /// The address that this pointer holds.
    pub closed spec fn bits(self) -> u32 {
        self.0
    }

    /// The pointer with the given address.
    pub closed spec fn at(bits: u32) -> Self {
        Ptr(bits, std::marker::PhantomData)
    }

    /// A pointer is its address: nothing else tells two pointers apart.
    pub broadcast proof fn lemma_at(bits: u32)
        ensures
            (#[trigger] Self::at(bits)).bits() == bits,
    {
    }

    /// Two pointers with one address are one pointer.
    pub proof fn lemma_bits_determine(self, other: Self)
        ensures
            self.bits() == other.bits() <==> self == other,
    {
    }

    pub fn null() -> (ptr: Self)
        ensures
            ptr == Self::at(0),
            ptr.bits() == 0,
    {
        Ptr(0, std::marker::PhantomData)
    }

    pub fn to_bits(self) -> (bits: VAddr)
        ensures
            bits == self.bits(),
    {
        self.0
    }

    pub fn from_bits(bits: VAddr) -> (ptr: Self)
        ensures
            ptr == Self::at(bits),
            ptr.bits() == bits,
    {
        Ptr(bits, std::marker::PhantomData)
    }

    pub fn cast<U>(self) -> (ptr: Ptr<U, MUT>)
        ensures
            ptr == Ptr::<U, MUT>::at(self.bits()),
            ptr.bits() == self.bits(),
    {
        Ptr::<U, MUT>::from_bits(self.to_bits())
    }

    pub fn cast_void(self) -> (ptr: Ptr<GuestVoid, MUT>)
        ensures
            ptr == Ptr::<GuestVoid, MUT>::at(self.bits()),
            ptr.bits() == self.bits(),
    {
        self.cast()
    }

    pub fn is_null(self) -> (null: bool)
        ensures
            null == (self.bits() == 0),
    {
        self.to_bits() == 0
    }

    /// The pointer as text: its address in hexadecimal, or that it is null.
    pub fn describe(self) -> (text: String)
        ensures
            text@ == if self.bits() == 0 {
                "(null)"@
            } else {
                "0x"@ + lower_hex(self.bits() as nat)
            },
    {
        if self.is_null() {
            return "(null)".to_string();
        }
        let mut text = "0x".to_string();
        push_lower_hex(&mut text, self.to_bits());
        text
    }

    /// `None` for the null pointer, the same address otherwise.
    pub fn non_null(self) -> (ptr: Option<NonNullPtr<T>>)
        ensures
            ptr is None <==> self.bits() == 0,
            ptr matches Some(p) ==> p.bits() == self.bits(),
    {
        NonNullPtr::try_from_bits(self.0)
    }

    /// The pointer `count` elements further on, wrapping modulo 2^32.
    fn forward(self, count: GuestUSize) -> (ptr: Self)
        ensures
            ptr == Self::at(element_address::<T>(self.bits(), count as int)),
    {
        let size: usize = std::mem::size_of::<T>();
        let size_bits: u32 = (size as u64 % 0x1_0000_0000) as u32;
        let step: u32 = count.wrapping_mul(size_bits);
        let bits: u32 = self.to_bits().wrapping_add(step);
        proof {
            lemma_wrapping_step(self.bits() as int, count as int, size as int);
        }
        Self::from_bits(bits)
    }

    /// The pointer `count` elements back, wrapping modulo 2^32.
    fn backward(self, count: GuestUSize) -> (ptr: Self)
        ensures
            ptr == Self::at(element_address::<T>(self.bits(), -(count as int))),
    {
        let size: usize = std::mem::size_of::<T>();
        let size_bits: u32 = (size as u64 % 0x1_0000_0000) as u32;
        let step: u32 = count.wrapping_mul(size_bits);
        let bits: u32 = self.to_bits().wrapping_sub(step);
        proof {
            lemma_wrapping_step(self.bits() as int, count as int, size as int);
        }
        Self::from_bits(bits)
    }
}

/// Reducing the element size and the step modulo 2^32 before the final
/// reduction changes nothing.
proof fn lemma_wrapping_step(bits: int, count: int, size: int)
    requires
        size >= 0,
        count >= 0,
    ensures
        (bits + (count * (size % address_space())) % address_space()) % address_space() == (bits
            + count * size) % address_space(),
        (bits - (count * (size % address_space())) % address_space()) % address_space() == (bits + (
        -count) * size) % address_space(),
{
    let m = address_space();
    vstd::arithmetic::div_mod::lemma_mul_mod_noop_right(count, size, m);
    vstd::arithmetic::div_mod::lemma_add_mod_noop(bits, count * size, m);
    vstd::arithmetic::div_mod::lemma_add_mod_noop(
        bits,
        (count * (size % m)) % m,
        m,
    );
    vstd::arithmetic::div_mod::lemma_sub_mod_noop(bits, count * size, m);
    vstd::arithmetic::div_mod::lemma_sub_mod_noop(
        bits,
        (count * (size % m)) % m,
        m,
    );
    assert((-count) * size == -(count * size)) by (nonlinear_arith);
}

impl<T> ConstPtr<T> {
    pub fn cast_mut(self) -> (ptr: MutPtr<T>)
        ensures
            ptr == MutPtr::<T>::at(self.bits()),
            ptr.bits() == self.bits(),
    {
        Ptr::from_bits(self.to_bits())
    }
}

impl<T> MutPtr<T> {
    pub fn cast_const(self) -> (ptr: ConstPtr<T>)
        ensures
            ptr == ConstPtr::<T>::at(self.bits()),
            ptr.bits() == self.bits(),
    {
        Ptr::from_bits(self.to_bits())
    }
}

impl<T, const MUT: bool> Default for Ptr<T, MUT> {
    fn default() -> (ptr: Self)
        ensures
            ptr.bits() == 0,
    {
        Self::null()
    }
}

// C-like pointer arithmetic. Real 32-bit ARM computes addresses modulo 2^32:
// the arithmetic wraps around the 4 GiB address space and never traps.
impl<T, const MUT: bool> std::ops::Add<GuestUSize> for Ptr<T, MUT> {
    type Output = Self;

    fn add(self, other: GuestUSize) -> (ptr: Self) {
        self.forward(other)
    }
}

impl<T, const MUT: bool> vstd::std_specs::ops::AddSpecImpl<GuestUSize> for Ptr<T, MUT> {
    open spec fn obeys_add_spec() -> bool {
        true
    }

    /// The pointee has a size, and one that the guest can address.
    open spec fn add_req(self, rhs: GuestUSize) -> bool {
        0 < vstd::layout::size_of::<T>() <= u32::MAX
    }

    open spec fn add_spec(self, rhs: GuestUSize) -> Self {
        Self::at(element_address::<T>(self.bits(), rhs as int))
    }
}

impl<T, const MUT: bool> std::ops::AddAssign<GuestUSize> for Ptr<T, MUT> {
    fn add_assign(&mut self, rhs: GuestUSize)
        ensures
            *final(self) == Self::at(element_address::<T>(old(self).bits(), rhs as int)),
    {
        *self = self.forward(rhs);
    }
}

impl<T, const MUT: bool> std::ops::Sub<GuestUSize> for Ptr<T, MUT> {
    type Output = Self;

    fn sub(self, other: GuestUSize) -> (ptr: Self) {
        self.backward(other)
    }
}

impl<T, const MUT: bool> vstd::std_specs::ops::SubSpecImpl<GuestUSize> for Ptr<T, MUT> {
    open spec fn obeys_sub_spec() -> bool {
        true
    }

    open spec fn sub_req(self, rhs: GuestUSize) -> bool {
        0 < vstd::layout::size_of::<T>() <= u32::MAX
    }

    open spec fn sub_spec(self, rhs: GuestUSize) -> Self {
        Self::at(element_address::<T>(self.bits(), -(rhs as int)))
    }
}

impl<T, const MUT: bool> std::ops::SubAssign<GuestUSize> for Ptr<T, MUT> {
    fn sub_assign(&mut self, rhs: GuestUSize)
        ensures
            *final(self) == Self::at(element_address::<T>(old(self).bits(), -(rhs as int))),
    {
        *self = self.backward(rhs);
    }
}

/// Non-null pointer type for guest memory, similar to [std::ptr::NonNull].
/// You should use this wrapped in [Option] when storing types instead of
/// storing null pointers.
///
/// You can convert to this type using [Ptr::non_null] (where null pointers
/// will become [None] and other pointers will become [Some], and convert back
/// using [Self::const_ptr] and [Self::mut_ptr].
#[derive(Debug, Hash)]
pub struct NonNullPtr<T>(VAddr, std::marker::PhantomData<T>);

pub type NonNullVoidPtr = NonNullPtr<GuestVoid>;

impl<T> Clone for NonNullPtr<T> {
    fn clone(&self) -> (copy: Self)
        ensures
            copy == *self,
    {
        *self
    }
}

impl<T> Copy for NonNullPtr<T> {

}

impl<T> PartialEq for NonNullPtr<T> {
    fn eq(&self, other: &Self) -> (same: bool) {
        self.0 == other.0
    }
}

impl<T> vstd::std_specs::cmp::PartialEqSpecImpl for NonNullPtr<T> {
    open spec fn obeys_eq_spec() -> bool {
        true
    }

    open spec fn eq_spec(&self, other: &Self) -> bool {
        self.bits() == other.bits()
    }
}

impl<T> Eq for NonNullPtr<T> {

}

impl<T> NonNullPtr<T> {
    /// The address that this pointer holds.
    pub closed spec fn bits(self) -> u32 {
        self.0
    }

    #[verifier::type_invariant]
    spec fn is_non_null(self) -> bool {
        self.0 != 0
    }

    pub fn to_bits(self) -> (bits: VAddr)
        ensures
            bits == self.bits(),
            bits != 0,
    {
        proof {
            use_type_invariant(&self);
        }
        self.0
    }

    /// `None` exactly for the null address.
    pub fn try_from_bits(bits: VAddr) -> (ptr: Option<Self>)
        ensures
            ptr is None <==> bits == 0,
            ptr matches Some(p) ==> p.bits() == bits,
    {
        if bits == 0 {
            None
        } else {
            Some(NonNullPtr(bits, std::marker::PhantomData))
        }
    }

    pub fn from_bits(bits: VAddr) -> (ptr: Self)
        requires
            bits != 0,
        ensures
            ptr.bits() == bits,
    {
        NonNullPtr(bits, std::marker::PhantomData)
    }

    pub fn cast<U>(self) -> (ptr: NonNullPtr<U>)
        ensures
            ptr.bits() == self.bits(),
    {
        NonNullPtr::<U>::from_bits(self.to_bits())
    }

    pub fn cast_void(self) -> (ptr: NonNullPtr<GuestVoid>)
        ensures
            ptr.bits() == self.bits(),
    {
        self.cast()
    }

    pub fn mut_ptr(self) -> (ptr: MutPtr<T>)
        ensures
            ptr == MutPtr::<T>::at(self.bits()),
            ptr.bits() == self.bits(),
    {
        MutPtr::from_bits(self.0)
    }

    pub fn const_ptr(self) -> (ptr: MutPtr<T>)
        ensures
            ptr == MutPtr::<T>::at(self.bits()),
            ptr.bits() == self.bits(),
    {
        MutPtr::from_bits(self.0)
    }
}

/// Pointer arithmetic undoes itself, even where it wraps around the end of
/// the address space.
pub proof fn ptr_steps_cancel<T, const MUT: bool>(ptr: Ptr<T, MUT>, count: u32)
    ensures
        Ptr::<T, MUT>::at(
            element_address::<T>(
                Ptr::<T, MUT>::at(element_address::<T>(ptr.bits(), count as int)).bits(),
                -(count as int),
            ),
        ) == ptr,
{
    let m = address_space();
    let step = count * vstd::layout::size_of::<T>();
    let there = (ptr.bits() + step) % m;
    assert((-(count as int)) * vstd::layout::size_of::<T>() == -step) by (nonlinear_arith)
        requires
            step == count * vstd::layout::size_of::<T>(),
    ;
    vstd::arithmetic::div_mod::lemma_sub_mod_noop(ptr.bits() + step, step, m);
    vstd::arithmetic::div_mod::lemma_sub_mod_noop(there, step, m);
    assert(there % m == there);
    assert((there - step) % m == ptr.bits());
}

} // verus!
