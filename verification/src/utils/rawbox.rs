//! A box that holds the address of its value and does not own it.

use vstd::prelude::*;
use core::marker::PhantomData;

verus! {

/// The address of a `T` that lives elsewhere.
pub struct RawBox<T> {
    pub data: usize,
    pub _value: PhantomData<T>,
}

impl<T> RawBox<T> {
    /// A box for `_s`, for which no memory is set aside: its address is 0.
    pub fn new(_s: T) -> (b: Self)
        ensures
            b.data == 0,
    {
        RawBox { data: 0, _value: PhantomData }
    }

    /// The box of the value at address `ptr`.
    pub fn from_ptr(ptr: usize) -> (b: Self)
        ensures
            b.data == ptr,
    {
        RawBox { data: ptr, _value: PhantomData }
    }

    /// The address of the value.
    pub fn to_ptr(&self) -> (ptr: usize)
        ensures
            ptr == self.data,
    {
        self.data
    }

    /// Whether the box holds no address.
    pub fn is_null(&self) -> (b: bool)
        ensures
            b == (self.data == 0),
    {
        self.data == 0
    }
}

} // verus!
