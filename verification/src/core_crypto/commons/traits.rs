//! Containers that back the entities: owned vectors and borrowed slices of scalars.
use vstd::prelude::*;

verus! {

/// A contiguous buffer of scalars that can be read.
pub trait Container: Sized {
    /// The scalars, in order.
    spec fn elements(&self) -> Seq<u64>;

    /// The scalars as a slice.
    fn as_slice(&self) -> (slice: &[u64])
        ensures
            slice@ == self.elements(),
    ;

    /// The number of scalars.
    fn container_len(&self) -> (len: usize)
        ensures
            len == self.elements().len(),
    ;
}

/// A contiguous buffer of scalars that can be written in place.
pub trait ContainerMut: Container {
    /// The scalars as a mutable slice.
    fn as_mut_slice(&mut self) -> (slice: &mut [u64])
        ensures
            slice@ == old(self).elements(),
            final(self).elements() == final(slice)@,
    ;
}

impl Container for Vec<u64> {
    open spec fn elements(&self) -> Seq<u64> {
        self@
    }

    fn as_slice(&self) -> (slice: &[u64]) {
        Vec::as_slice(self)
    }

    fn container_len(&self) -> (len: usize) {
        self.len()
    }
}

impl ContainerMut for Vec<u64> {
    fn as_mut_slice(&mut self) -> (slice: &mut [u64]) {
        Vec::as_mut_slice(self)
    }
}

impl<'a> Container for &'a [u64] {
    open spec fn elements(&self) -> Seq<u64> {
        (*self)@
    }

    fn as_slice(&self) -> (slice: &[u64]) {
        *self
    }

    fn container_len(&self) -> (len: usize) {
        self.len()
    }
}

impl<'a> Container for &'a mut [u64] {
    open spec fn elements(&self) -> Seq<u64> {
        (*self)@
    }

    fn as_slice(&self) -> (slice: &[u64]) {
        &**self
    }

    fn container_len(&self) -> (len: usize) {
        self.len()
    }
}

impl<'a> ContainerMut for &'a mut [u64] {
    fn as_mut_slice(&mut self) -> (slice: &mut [u64]) {
        &mut **self
    }
}

} // verus!
