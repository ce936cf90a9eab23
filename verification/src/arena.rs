//! A bump arena over a fixed region of addresses.
//!
//! The arena hands out address ranges from `base` upwards and never takes one
//! back. Its cursor is an atomic offset into the region, advanced by
//! compare-and-exchange, so that any number of callers may allocate at once.

use vstd::prelude::*;
use vstd::arithmetic::div_mod::{lemma_fundamental_div_mod, lemma_mod_bound, lemma_mod_multiples_basic};
use std::sync::atomic::AtomicUsize;

verus! {

/// The least multiple of `align` that is not below `x`.
pub open spec fn round_up(x: int, align: int) -> int {
    if x % align == 0 {
        x
    } else {
        x + align - x % align
    }
}

/// Where a request of `size` bytes at `align` lands when the cursor stands at
/// `offset`: the address granted and the cursor's next value, or `None` where
/// the aligned range would pass the end of the region.
pub open spec fn placement(base: int, capacity: int, offset: int, size: int, align: int)
    -> Option<(int, int)> {
    let address = round_up(base + offset, align);
    let end = address + size - base;
    if end <= capacity {
        Some((address, end))
    } else {
        None
    }
}

/// The placement is a grant of `address`.
pub open spec fn placed_at(p: Option<(int, int)>, address: int) -> bool {
    p is Some && p.unwrap().0 == address
}

/// `round_up(x, align)` is a multiple of `align`, not below `x`, and less
/// than `align` above it.
pub proof fn lemma_round_up(x: int, align: int)
    requires
        align > 0,
    ensures
        round_up(x, align) % align == 0,
        x <= round_up(x, align) < x + align,
{
    lemma_mod_bound(x, align);
    if x % align != 0 {
        lemma_fundamental_div_mod(x, align);
        let q = x / align;
        assert(x + align - x % align == (q + 1) * align) by (nonlinear_arith)
            requires
                x == align * q + x % align,
        ;
        lemma_mod_multiples_basic(q + 1, align);
    }
}

/// No multiple of `align` lies between `x` and `round_up(x, align)`: a
/// multiple that is not below `x` is not below `round_up(x, align)` either.
pub proof fn lemma_round_up_least(x: int, m: int, align: int)
    requires
        align > 0,
        m % align == 0,
        x <= m,
    ensures
        round_up(x, align) <= m,
{
    lemma_round_up(x, align);
    let r = round_up(x, align);
    lemma_fundamental_div_mod(r, align);
    lemma_fundamental_div_mod(m, align);
    let qr = r / align;
    let qm = m / align;
    if m < r {
        assert(qm < qr) by (nonlinear_arith)
            requires
                align > 0,
                align * qm < align * qr,
        ;
        assert(align * qm + align <= align * qr) by (nonlinear_arith)
            requires
                align > 0,
                qm + 1 <= qr,
        ;
        assert(false);
    }
}

/// A granted placement is aligned, starts at or after the cursor, lies inside
/// the region, and moves the cursor to its end: by at least `size`.
pub proof fn lemma_placement_bounds(base: int, capacity: int, offset: int, size: int, align: int)
    requires
        align > 0,
        0 <= size,
        placement(base, capacity, offset, size, align) is Some,
    ensures
        ({
            let (address, end) = placement(base, capacity, offset, size, align).unwrap();
            &&& address % align == 0
            &&& base + offset <= address < base + offset + align
            &&& end == address - base + size
            &&& offset + size <= end <= capacity
            &&& address + size <= base + capacity
        }),
{
    lemma_round_up(base + offset, align);
}

/// Two grants never overlap: a placement made once the cursor has passed the
/// end of an earlier one starts at or after that end.
pub proof fn lemma_placements_disjoint(
    base: int,
    capacity: int,
    align_a: int,
    size_a: int,
    offset_a: int,
    align_b: int,
    size_b: int,
    offset_b: int,
)
    requires
        align_a > 0,
        align_b > 0,
        0 <= size_a,
        0 <= size_b,
        placement(base, capacity, offset_a, size_a, align_a) is Some,
        placement(base, capacity, offset_b, size_b, align_b) is Some,
        placement(base, capacity, offset_a, size_a, align_a).unwrap().1 <= offset_b,
    ensures
        placement(base, capacity, offset_a, size_a, align_a).unwrap().0 + size_a <= placement(
            base,
            capacity,
            offset_b,
            size_b,
            align_b,
        ).unwrap().0,
{
    lemma_placement_bounds(base, capacity, offset_a, size_a, align_a);
    lemma_placement_bounds(base, capacity, offset_b, size_b, align_b);
}

/// Exhaustion is final: a request that does not fit at one cursor value fits
/// at no later one.
pub proof fn lemma_exhaustion_persists(
    base: int,
    capacity: int,
    offset: int,
    later: int,
    size: int,
    align: int,
)
    requires
        align > 0,
        offset <= later,
        placement(base, capacity, offset, size, align) is None,
    ensures
        placement(base, capacity, later, size, align) is None,
{
    lemma_round_up(base + later, align);
    lemma_round_up_least(base + offset, round_up(base + later, align), align);
}

/// A request larger than what is left of the region is refused, whatever
/// its alignment.
pub proof fn lemma_oversized_is_refused(
    base: int,
    capacity: int,
    offset: int,
    size: int,
    align: int,
)
    requires
        align > 0,
        offset + size > capacity,
    ensures
        placement(base, capacity, offset, size, align) is None,
{
    lemma_round_up(base + offset, align);
}

/// Computes where a request lands for one observed value of the cursor.
pub fn place(base: usize, capacity: usize, offset: usize, size: usize, align: usize) -> (r: Option<
    (usize, usize),
>)
    requires
        align > 0,
        base + capacity <= usize::MAX,
    ensures
        match r {
            Some((address, end)) => placement(
                base as int,
                capacity as int,
                offset as int,
                size as int,
                align as int,
            ) == Some((address as int, end as int)),
            None => placement(
                base as int,
                capacity as int,
                offset as int,
                size as int,
                align as int,
            ) is None,
        },
{
    proof {
        lemma_round_up(base + offset, align as int);
    }
    if offset > capacity {
        return None;
    }
    let at: usize = base + offset;
    let rem: usize = at % align;
    let address: usize = if rem == 0 {
        at
    } else {
        let pad: usize = align - rem;
        if pad > usize::MAX - at {
            return None;
        }
        at + pad
    };
    let used: usize = address - base;
    if used > capacity || size > capacity - used {
        return None;
    }
    Some((address, used + size))
}

/// The outcome of one request to the arena.
#[derive(Clone, Copy, Debug, PartialEq, Eq, Structural)]
pub enum Allocation {
    /// The range of `size` bytes from this address on is the caller's.
    Granted(usize),
    /// The request does not fit in what is left of the region.
    Exhausted,
    /// The cursor was seen to stand still or move backwards after a lost
    /// race, which the arena never does: the caller must stop.
    Fault,
}

/// A fixed region of addresses and the cursor into it.
pub struct Arena {
    base: usize,
    capacity: usize,
    cursor: AtomicUsize,
}

impl Arena {
    /// The region's first address.
    pub closed spec fn base(&self) -> int {
        self.base as int
    }

    /// The region's size in bytes.
    pub closed spec fn capacity(&self) -> int {
        self.capacity as int
    }

    #[verifier::type_invariant]
    spec fn inv(&self) -> bool {
        self.base + self.capacity <= usize::MAX
    }

    /// `address` is what a request of `size` bytes at `align` is granted at
    /// some value of the cursor.
    pub open spec fn grants(&self, size: int, align: int, address: int) -> bool {
        exists|offset: int|
            0 <= offset <= self.capacity() && placed_at(
                #[trigger] placement(self.base(), self.capacity(), offset, size, align),
                address,
            )
    }

    /// A request of `size` bytes at `align` is refused at some value of the
    /// cursor.
    pub open spec fn refuses(&self, size: int, align: int) -> bool {
        exists|offset: int|
            0 <= offset && (#[trigger] placement(
                self.base(),
                self.capacity(),
                offset,
                size,
                align,
            )) is None
    }

    /// A request of `size` bytes at `align` is refused at every value of the
    /// cursor: it can never be granted.
    pub open spec fn refuses_throughout(&self, size: int, align: int) -> bool {
        forall|offset: int|
            0 <= offset ==> (#[trigger] placement(
                self.base(),
                self.capacity(),
                offset,
                size,
                align,
            )) is None
    }

    /// An arena over the `capacity` bytes from `base` on, with nothing
    /// allocated; `None` where the region would pass the end of the address
    /// space.
    pub fn new(base: usize, capacity: usize) -> (r: Option<Arena>)
        ensures
            r is Some <==> base + capacity <= usize::MAX,
            r matches Some(arena) ==> arena.base() == base && arena.capacity() == capacity,
    {
        if capacity > usize::MAX - base {
            None
        } else {
            Some(Arena { base, capacity, cursor: AtomicUsize::new(0) })
        }
    }

    /// The region's first address.
    pub fn base_address(&self) -> (r: usize)
        ensures
            r == self.base(),
    {
        self.base
    }

    /// The region's size in bytes.
    pub fn size(&self) -> (r: usize)
        ensures
            r == self.capacity(),
    {
        self.capacity
    }

    /// Reads the cursor. Another caller may move it at any moment, so nothing
    /// is known of the value read.
    fn observe(&self) -> usize {
        self.cursor.load(std::sync::atomic::Ordering::Relaxed)
    }

    /// Moves the cursor from `seen` to `next` if it still stands at `seen`;
    /// else hands back, as the error, the value it stands at.
    fn advance(&self, seen: usize, next: usize) -> Result<usize, usize> {
        self.cursor.compare_exchange(
            seen,
            next,
            std::sync::atomic::Ordering::SeqCst,
            std::sync::atomic::Ordering::Relaxed,
        )
    }

    /// Allocates `size` bytes at a multiple of `align`.
    ///
    /// Reads the cursor, computes the placement, and tries to move the cursor
    /// from the value read to the placement's end; where another caller moved
    /// it first, takes the value that caller left and tries again. Nothing is
    /// changed by a request that is refused.
    pub fn allocate(&self, size: usize, align: usize) -> (r: Allocation)
        requires
            align > 0,
        ensures
            match r {
                Allocation::Granted(address) => {
                    &&& self.grants(size as int, align as int, address as int)
                    &&& address % align == 0
                    &&& self.base() <= address
                    &&& address + size <= self.base() + self.capacity()
                },
                Allocation::Exhausted => self.refuses(size as int, align as int),
                Allocation::Fault => !self.refuses_throughout(size as int, align as int),
            },
            self.refuses_throughout(size as int, align as int) ==> r == Allocation::Exhausted,
            size > self.capacity() ==> r == Allocation::Exhausted,
    {
        proof {
            use_type_invariant(self);
        }
        let mut offset: usize = self.observe();
        loop
            invariant
                align > 0,
                self.base + self.capacity <= usize::MAX,
            decreases
                    (if offset <= self.capacity {
                        self.capacity - offset + 1
                    } else {
                        0
                    }),
        {
            match place(self.base, self.capacity, offset, size, align) {
                None => {
                    return Allocation::Exhausted;
                },
                Some((address, end)) => {
                    proof {
                        lemma_placement_bounds(
                            self.base(),
                            self.capacity(),
                            offset as int,
                            size as int,
                            align as int,
                        );
                    }
                    match self.advance(offset, end) {
                        Ok(_) => {
                            return Allocation::Granted(address);
                        },
                        Err(seen) => {
                            if seen <= offset {
                                return Allocation::Fault;
                            }
                            offset = seen;
                        },
                    }
                },
            }
        }
    }

    /// Starts the region over, with nothing allocated. The exclusive borrow
    /// keeps every other caller out, and every address granted before is
    /// void from here on.
    pub fn reset(&mut self)
        ensures
            final(self).base() == old(self).base(),
            final(self).capacity() == old(self).capacity(),
    {
        proof {
            use_type_invariant(&*self);
        }
        self.cursor = AtomicUsize::new(0);
    }

    /// Takes an address back. The arena never reuses space, so nothing
    /// happens.
    pub fn deallocate(&self, address: usize) {
    }
}

} // verus!
