//! Storage for component values of one type, reserved ahead of use.
use vstd::prelude::*;

use std::alloc::Layout;
use vstd::layout::{align_of, layout_for_type_is_valid, size_of, valid_layout};

verus! {

#[verifier::external_type_specification]
#[verifier::external_body]
pub struct ExLayout(std::alloc::Layout);

/// The layout that `Layout::from_size_align(size, align)` builds when it
/// succeeds.
pub uninterp spec fn layout_of(size: usize, align: usize) -> Layout;

/// `Layout::from_size_align`: succeeds exactly when `align` is a power of two
/// and `size`, rounded up to a multiple of `align`, does not exceed
/// `isize::MAX` (the conditions that `vstd::layout::valid_layout` writes
/// down); the layout it then gives depends on `size` and `align` alone.
#[verifier::external_body]
fn layout_from_size_align(size: usize, align: usize) -> (r: Option<Layout>)
    ensures
        r is Some <==> valid_layout(size, align),
        r is Some ==> r->0 == layout_of(size, align),
{
    Layout::from_size_align(size, align).ok()
}

/// Room for `capacity` values of `T`. A zero-sized `T` needs no memory, so
/// its capacity is unbounded (`usize::MAX`).
#[derive(Debug)]
pub struct RawAlloc<T> {
    buf: Vec<T>,
    cap: usize,
}

/// A multiple of `a` that does not exceed `m` does not exceed the largest
/// multiple of `a` below `m`.
proof fn lemma_multiple_below(x: int, a: int, m: int)
    requires
        a > 0,
        0 <= x <= m,
        x % a == 0,
    ensures
        x <= m - m % a,
{
    assert(x == a * (x / a)) by (nonlinear_arith)
        requires
            a > 0,
            x % a == 0,
    ;
    assert(m == a * (m / a) + m % a) by (nonlinear_arith)
        requires
            a > 0,
    ;
    assert(x / a <= m / a) by (nonlinear_arith)
        requires
            a > 0,
            0 <= x <= m,
    ;
    assert(a * (x / a) <= a * (m / a)) by (nonlinear_arith)
        requires
            a > 0,
            x / a <= m / a,
    ;
}

impl<T> RawAlloc<T> {
    /// The number of values there is room for.
    pub closed spec fn capacity(&self) -> nat {
        self.cap as nat
    }

    /// The reserved bytes fit in `isize::MAX`, and a zero-sized type has an
    /// unbounded capacity.
    pub closed spec fn wf(&self) -> bool {
        &&& self.buf@.len() == 0
        &&& size_of::<T>() == 0 ==> self.cap == usize::MAX
        &&& size_of::<T>() * self.cap <= isize::MAX
    }

    /// Reserves room for at least `min_capacity` values.
    pub fn new(min_capacity: usize) -> (r: Self)
        requires
            size_of::<T>() * min_capacity <= isize::MAX,
        ensures
            r.wf(),
            r.capacity() == if size_of::<T>() == 0 {
                usize::MAX as nat
            } else {
                min_capacity as nat
            },
    {
        if core::mem::size_of::<T>() == 0 {
            RawAlloc { buf: Vec::new(), cap: usize::MAX }
        } else if min_capacity == 0 {
            RawAlloc { buf: Vec::new(), cap: 0 }
        } else {
            RawAlloc { buf: Vec::with_capacity(min_capacity), cap: min_capacity }
        }
    }

    /// The layout of the reserved memory: `capacity` values of `T`, aligned
    /// for `T`.
    pub fn layout(&self) -> (l: Layout)
        requires
            self.wf(),
        ensures
            l == layout_of((size_of::<T>() * self.capacity()) as usize, align_of::<T>() as usize),
    {
        layout_for_type_is_valid::<T>();
        let size = core::mem::size_of::<T>();
        let align = core::mem::align_of::<T>();
        proof {
            let q = size as int / align as int;
            assert(size == align * q) by (nonlinear_arith)
                requires
                    align > 0,
                    size % align == 0,
                    q == size as int / align as int,
            ;
            assert(size * self.cap == (q * self.cap) * align) by (nonlinear_arith)
                requires
                    size == align * q,
            ;
            vstd::arithmetic::div_mod::lemma_mod_multiples_basic(q * self.cap, align as int);
            lemma_multiple_below(size * self.cap, align as int, isize::MAX as int);
        }
        let bytes = size * self.cap;
        layout_from_size_align(bytes, align).unwrap()
    }

    /// Makes room for `new_capacity` values; the capacity must grow.
    pub fn grow(&mut self, new_capacity: usize)
        requires
            old(self).wf(),
            old(self).capacity() < new_capacity,
            size_of::<T>() * new_capacity <= isize::MAX,
        ensures
            final(self).wf(),
            final(self).capacity() == new_capacity,
    {
        self.buf.reserve(new_capacity);
        self.cap = new_capacity;
    }
}

} // verus!
