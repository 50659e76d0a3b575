//! Pointer-level bookkeeping: each indirection level of a type carries one
//! mutability bit, and the bits live in a `bit_vec::BitVec<u8>` exactly as
//! the emitted code's pointer spelling orders them.
//!
//! The bit vector is an outside collection; Verus sees it through the name
//! `ptr_bits` and the trusted wrappers below, each of which states what the
//! crate's source shows of one call.

use vstd::prelude::*;

verus! {

#[verifier::external_type_specification]
#[verifier::external_body]
#[verifier::reject_recursive_types(B)]
pub struct ExBitVec<B>(bit_vec::BitVec<B>);

/// The booleans a pointer-level bit vector holds, first level first.
pub uninterp spec fn ptr_bits(v: bit_vec::BitVec<u8>) -> Seq<bool>;

/// Relies on `BitVec`'s `Default`: a vector with no bits.
#[verifier::external_body]
pub fn bits_new() -> (r: bit_vec::BitVec<u8>)
    ensures
        ptr_bits(r) == Seq::<bool>::empty(),
{
    Default::default()
}

/// Relies on `BitVec::len`: the number of bits held.
#[verifier::external_body]
pub fn bits_len(v: &bit_vec::BitVec<u8>) -> (r: usize)
    ensures
        r as nat == ptr_bits(*v).len(),
{
    v.len()
}

/// Relies on `BitVec::is_empty`: whether no bits are held.
#[verifier::external_body]
pub fn bits_is_empty(v: &bit_vec::BitVec<u8>) -> (r: bool)
    ensures
        r == (ptr_bits(*v).len() == 0),
{
    v.is_empty()
}

/// Relies on `BitVec::get`: the bit at an index, `None` past the end.
#[verifier::external_body]
pub fn bits_get(v: &bit_vec::BitVec<u8>, i: usize) -> (r: Option<bool>)
    ensures
        match r {
            Some(b) => i < ptr_bits(*v).len() && b == ptr_bits(*v)[i as int],
            None => i >= ptr_bits(*v).len(),
        },
{
    v.get(i)
}

/// Relies on `BitVec::pop`: removes and returns the last bit, `None` when
/// the vector is empty.
#[verifier::external_body]
pub fn bits_pop(v: bit_vec::BitVec<u8>) -> (r: (bit_vec::BitVec<u8>, Option<bool>))
    ensures
        match r.1 {
            Some(b) => {
                &&& ptr_bits(v).len() > 0
                &&& b == ptr_bits(v).last()
                &&& ptr_bits(r.0) == ptr_bits(v).drop_last()
            },
            None => ptr_bits(v).len() == 0 && ptr_bits(r.0) == ptr_bits(v),
        },
{
    let mut v = v;
    let b = v.pop();
    (v, b)
}

/// Relies on `BitVec`'s `PartialEq`: equal exactly when the held bits
/// are. The crate compares lengths and then whole storage blocks; its
/// operations keep the unused tail of the last block zeroed, so block
/// equality is bit equality.
#[verifier::external_body]
pub fn bits_eq(a: &bit_vec::BitVec<u8>, b: &bit_vec::BitVec<u8>) -> (r: bool)
    ensures
        r == (ptr_bits(*a) == ptr_bits(*b)),
{
    a == b
}

/// Relies on `BitVec`'s `Clone`: the copy holds the same bits.
#[verifier::external_body]
pub fn bits_clone(v: &bit_vec::BitVec<u8>) -> (r: bit_vec::BitVec<u8>)
    ensures
        ptr_bits(r) == ptr_bits(*v),
{
    v.clone()
}

/// Builder helpers around the pointer-level bit vector.
pub struct BitPtrIter;

impl BitPtrIter {
    /// Relies on `BitVec::push`: appends one bit at the end.
    #[verifier::external_body]
    pub fn append(vec: bit_vec::BitVec<u8>, value: bool) -> (r: bit_vec::BitVec<u8>)
        ensures
            ptr_bits(r) == ptr_bits(vec).push(value),
    {
        let mut vec = vec;
        vec.push(value);
        vec
    }

    /// Relies on `BitVec`'s `Extend<bool>`: appends the bits in order.
    #[verifier::external_body]
    pub fn append_many(vec: bit_vec::BitVec<u8>, value: Vec<bool>) -> (r: bit_vec::BitVec<u8>)
        ensures
            ptr_bits(r) == ptr_bits(vec) + value@,
    {
        let mut vec = vec;
        vec.extend(value.into_iter());
        vec
    }
}

} // verus!
