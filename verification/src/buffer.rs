//! Named, sliceable columnar buffers.
//!
//! A `Buf` is the host-side store behind every witness column and every HAL
//! operand. Verified code cannot alias mutable storage, so a slice is a
//! value snapshot of the chosen range rather than a live subview; its
//! contents are exactly the parent's contents over that range.

use vstd::prelude::*;

verus! {

/// A named, logically contiguous sequence of elements.
pub struct Buf<T> {
    name: &'static str,
    elems: Vec<T>,
}

impl<T> View for Buf<T> {
    type V = Seq<T>;

    closed spec fn view(&self) -> Seq<T> {
        self.elems@
    }
}

impl<T: Copy> Buf<T> {
    /// A fresh buffer of `size` copies of `fill`.
    pub fn new_filled(name: &'static str, size: usize, fill: T) -> (r: Buf<T>)
        ensures
            r@.len() == size,
            forall|i: int| 0 <= i < size ==> r@[i] == fill,
    {
        let mut elems: Vec<T> = Vec::new();
        let mut i: usize = 0;
        while i < size
            invariant
                i <= size,
                elems@.len() == i,
                forall|k: int| 0 <= k < i ==> elems@[k] == fill,
            decreases size - i,
        {
            elems.push(fill);
            i += 1;
        }
        Buf { name, elems }
    }

    /// A fresh buffer holding a copy of `slice`.
    pub fn copy_from(name: &'static str, slice: &[T]) -> (r: Buf<T>)
        ensures
            r@ == slice@,
    {
        let mut elems: Vec<T> = Vec::new();
        let mut i: usize = 0;
        while i < slice.len()
            invariant
                i <= slice@.len(),
                elems@ == slice@.subrange(0, i as int),
            decreases slice@.len() - i,
        {
            elems.push(slice[i]);
            proof {
                assert(elems@ =~= slice@.subrange(0, i + 1));
            }
            i += 1;
        }
        proof {
            assert(elems@ =~= slice@);
        }
        Buf { name, elems }
    }

    /// The logical length.
    pub fn size(&self) -> (r: usize)
        ensures
            r == self@.len(),
    {
        self.elems.len()
    }

    /// The name given at allocation.
    pub fn name(&self) -> &'static str {
        self.name
    }

    /// One element.
    pub fn get_at(&self, i: usize) -> (r: T)
        requires
            i < self@.len(),
        ensures
            r == self@[i as int],
    {
        self.elems[i]
    }

    /// Overwrite one element.
    pub fn set_at(&mut self, i: usize, v: T)
        requires
            i < old(self)@.len(),
        ensures
            final(self)@ == old(self)@.update(i as int, v),
    {
        self.elems.set(i, v);
    }

    /// A snapshot of the range `[offset, offset + size)`: its contents equal
    /// the parent's contents over that range.
    pub fn slice(&self, offset: usize, size: usize) -> (r: Buf<T>)
        requires
            offset + size <= self@.len(),
        ensures
            r@ == self@.subrange(offset as int, offset as int + size as int),
    {
        let n: usize = self.elems.len();
        let mut elems: Vec<T> = Vec::new();
        let mut i: usize = 0;
        while i < size
            invariant
                i <= size,
                offset + size <= n,
                n == self@.len(),
                elems@ == self@.subrange(offset as int, offset as int + i as int),
            decreases size - i,
        {
            elems.push(self.elems[offset + i]);
            proof {
                assert(elems@ =~= self@.subrange(offset as int, offset as int + i as int + 1));
            }
            i += 1;
        }
        Buf { name: self.name, elems }
    }

    /// A host-side copy of the whole contents.
    pub fn host_view(&self) -> (r: Vec<T>)
        ensures
            r@ == self@,
    {
        let mut out: Vec<T> = Vec::new();
        let mut i: usize = 0;
        while i < self.elems.len()
            invariant
                i <= self@.len(),
                out@ == self@.subrange(0, i as int),
            decreases self@.len() - i,
        {
            out.push(self.elems[i]);
            proof {
                assert(out@ =~= self@.subrange(0, i as int + 1));
            }
            i += 1;
        }
        proof {
            assert(out@ =~= self@);
        }
        out
    }
}

} // verus!
