//! The nullable bitset of object instances, and the instance accessors.
//!
//! Bit `i` of a bitset lives in byte `i / 8` at position `i % 8`; a set bit
//! means the corresponding nullable attribute is present, a clear bit means
//! it is null.

use vstd::prelude::*;

use crate::value::{view_values, GcObject, Value, ValueV};
use crate::wire::{bit_of, set_bit};

verus! {

/// Whether the bit for the nullable attribute at `offset` says null.
pub fn attr_is_null(bitset: &Vec<u8>, offset: usize) -> (r: bool)
    requires
        offset / 8 < bitset@.len(),
    ensures
        r == !bit_of(bitset@, offset as int),
{
    let bi = offset / 8;
    let pos = (offset % 8) as u32;
    ((bitset[bi] as u32) >> pos) & 1 != 1
}

/// Clears the bit for the nullable attribute at `offset`: it is null.
pub fn gc_object_set_null(bitset: &mut Vec<u8>, offset: usize)
    requires
        offset / 8 < old(bitset)@.len(),
    ensures
        final(bitset)@ == set_bit(old(bitset)@, offset as int, false),
{
    let bi = offset / 8;
    let pos = (offset % 8) as u32;
    let b = bitset[bi];
    let x = (b as u32) & (0xffu32 ^ (1u32 << pos));
    assert(x < 256) by (bit_vector)
        requires
            x == (b as u32) & (0xffu32 ^ (1u32 << pos)),
            b < 256,
            pos < 8,
    ;
    bitset.set(bi, x as u8);
    assert(final(bitset)@ =~= set_bit(old(bitset)@, offset as int, false));
}

/// Sets the bit for the nullable attribute at `offset`: it is present.
pub fn gc_object_set_not_null(bitset: &mut Vec<u8>, offset: usize)
    requires
        offset / 8 < old(bitset)@.len(),
    ensures
        final(bitset)@ == set_bit(old(bitset)@, offset as int, true),
{
    let bi = offset / 8;
    let pos = (offset % 8) as u32;
    let b = bitset[bi];
    let x = (b as u32) | (1u32 << pos);
    assert(x < 256) by (bit_vector)
        requires
            x == (b as u32) | (1u32 << pos),
            b < 256,
            pos < 8,
    ;
    bitset.set(bi, x as u8);
    assert(final(bitset)@ =~= set_bit(old(bitset)@, offset as int, true));
}

impl GcObject {
    /// Builds an instance from a type id and its slots.
    pub fn new(ty: u32, values: Option<Vec<Value>>) -> (r: GcObject)
        ensures
            r.ty == ty,
            r.values == values,
    {
        GcObject { ty, values }
    }

    /// Replaces one slot of the instance; the index must be in bounds of
    /// the slot vector, when there is one.
    pub fn set_value(&mut self, index: usize, value: Value)
        requires
            old(self).values matches Some(vals) ==> index < vals@.len(),
        ensures
            final(self).ty == old(self).ty,
            match old(self).values {
                Some(vals) => final(self).values matches Some(vals2) && view_values(vals2@)
                    == view_values(vals@).update(index as int, value@),
                None => *final(self) == *old(self),
            },
    {
        match &mut self.values {
            Some(vals) => {
                proof {
                    crate::value::lemma_view_values_update(vals@, index as int, value);
                }
                vals.set(index, value);
            },
            None => {},
        }
    }

    /// The slot at `index`, if the instance carries slots and the index is
    /// in bounds.
    pub fn get_value(&self, index: usize) -> (r: Option<&Value>)
        ensures
            match self.values {
                Some(vals) => {
                    if index < vals@.len() {
                        r matches Some(v) && v == &vals@[index as int]
                    } else {
                        r is None
                    }
                },
                None => r is None,
            },
    {
        match &self.values {
            Some(vals) => {
                if index < vals.len() {
                    Some(&vals[index])
                } else {
                    None
                }
            },
            None => None,
        }
    }
}

} // verus!
