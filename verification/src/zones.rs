use vstd::prelude::*;
use vstd::arithmetic::div_mod::{lemma_fundamental_div_mod, lemma_mod_multiples_basic, lemma_mod_bound};
use vstd::arithmetic::mul::{lemma_mul_inequality, lemma_mul_is_associative, lemma_mul_is_commutative};
use vstd::arithmetic::power2::is_pow2;
use crate::error::AllocError;

verus! {

/// The least multiple of `align` that is not below `addr`.
pub open spec fn align_up(addr: int, align: int) -> int {
    if addr % align == 0 {
        addr
    } else {
        addr + align - addr % align
    }
}

/// The greatest multiple of `align` that is not above `addr`.
pub open spec fn align_down(addr: int, align: int) -> int {
    addr - addr % align
}

/// Whether a byte alignment is acceptable to the page side: a multiple of the
/// page size whose page count is a power of two.
pub open spec fn page_align_ok(align_pow2: int, page_size: int) -> bool {
    align_pow2 % page_size == 0 && is_pow2(align_pow2 / page_size)
}

/// The mathematical state of the allocator: a range `[start, end)` with the
/// byte zone `[start, byte_pos)` at its low end and the page zone
/// `[page_pos, end)` at its high end.
pub struct Zones {
    pub start: int,
    pub byte_pos: int,
    pub page_pos: int,
    pub end: int,
}

impl Zones {
    /// The two zones lie inside the range and do not cross.
    pub open spec fn wf(self) -> bool {
        0 <= self.start <= self.byte_pos <= self.page_pos <= self.end <= usize::MAX
    }

    /// A range of `size` bytes at `start` with nothing handed out.
    pub open spec fn fresh(start: int, size: int) -> Zones {
        Zones { start, byte_pos: start, page_pos: start + size, end: start + size }
    }

    pub open spec fn total_bytes(self) -> int {
        self.end - self.start
    }

    pub open spec fn used_bytes(self) -> int {
        self.byte_pos - self.start
    }

    pub open spec fn available_bytes(self) -> int {
        self.page_pos - self.byte_pos
    }

    pub open spec fn total_pages(self, page_size: int) -> int {
        (self.end - self.start) / page_size
    }

    pub open spec fn used_pages(self, page_size: int) -> int {
        (self.end - self.page_pos) / page_size
    }

    pub open spec fn available_pages(self, page_size: int) -> int {
        (self.page_pos - self.byte_pos) / page_size
    }

    /// Where a byte block of the given alignment would start.
    pub open spec fn byte_target(self, align: int) -> int {
        align_up(self.byte_pos, align)
    }

    /// What a byte request yields: the block's address, or why there is none.
    /// A block may end at the page zone's edge but not beyond it.
    pub open spec fn byte_outcome(self, size: int, align: int) -> Result<int, AllocError> {
        if !is_pow2(align) {
            Err(AllocError::InvalidParam)
        } else if self.byte_target(align) + size > self.page_pos {
            Err(AllocError::NoMemory)
        } else {
            Ok(self.byte_target(align))
        }
    }

    /// The state after a byte request: the byte zone ends where the block
    /// ends, or nothing has changed if the request was turned down.
    pub open spec fn after_alloc(self, size: int, align: int) -> Zones {
        match self.byte_outcome(size, align) {
            Ok(addr) => Zones { byte_pos: addr + size, ..self },
            Err(_) => self,
        }
    }

    /// Whether `[addr, addr + size)` is the block at the top of the byte zone.
    pub open spec fn is_last_block(self, addr: int, size: int) -> bool {
        self.start <= addr && addr + size == self.byte_pos
    }

    /// The state after a byte block is given back: only the block at the top
    /// of the byte zone is taken back.
    pub open spec fn after_dealloc(self, addr: int, size: int) -> Zones {
        if self.is_last_block(addr, size) {
            Zones { byte_pos: addr, ..self }
        } else {
            self
        }
    }

    /// The page number at which a page block would start: the pages are
    /// taken below the page zone, then the start is rounded down.
    pub open spec fn page_target(self, num_pages: int, align_pow2: int, page_size: int) -> int {
        align_down(self.page_pos / page_size - num_pages, align_pow2 / page_size)
    }

    /// What a page request yields: the block's address, or why there is none.
    /// A block never starts in the page that the byte zone's end lies in.
    pub open spec fn page_outcome(self, num_pages: int, align_pow2: int, page_size: int) -> Result<
        int,
        AllocError,
    > {
        if !page_align_ok(align_pow2, page_size) {
            Err(AllocError::InvalidParam)
        } else if num_pages > self.page_pos / page_size {
            Err(AllocError::NoMemory)
        } else if self.page_target(num_pages, align_pow2, page_size) <= self.byte_pos / page_size {
            Err(AllocError::NoMemory)
        } else {
            Ok(self.page_target(num_pages, align_pow2, page_size) * page_size)
        }
    }

    /// The state after a page request: the page zone starts where the block
    /// starts, or nothing has changed if the request was turned down.
    pub open spec fn after_alloc_pages(self, num_pages: int, align_pow2: int, page_size: int) -> Zones {
        match self.page_outcome(num_pages, align_pow2, page_size) {
            Ok(addr) => Zones { page_pos: addr, ..self },
            Err(_) => self,
        }
    }
}

/// A power of two is at least one.
pub proof fn lemma_pow2_positive(n: int)
    requires
        is_pow2(n),
    ensures
        n >= 1,
{
    reveal(is_pow2);
}

/// Rounding up lands on a multiple of `align` less than `align` above `addr`.
pub proof fn lemma_align_up(addr: int, align: int)
    requires
        align > 0,
    ensures
        addr <= align_up(addr, align) < addr + align,
        align_up(addr, align) % align == 0,
        addr % align == 0 ==> align_up(addr, align) == addr,
{
    lemma_fundamental_div_mod(addr, align);
    lemma_mod_bound(addr, align);
    if addr % align != 0 {
        let q = addr / align;
        assert(addr + align - addr % align == (q + 1) * align) by (nonlinear_arith)
            requires
                addr == align * q + addr % align,
        ;
        lemma_mod_multiples_basic(q + 1, align);
    }
}

/// Rounding down lands on a multiple of `align` less than `align` below `addr`.
pub proof fn lemma_align_down(addr: int, align: int)
    requires
        align > 0,
    ensures
        addr - align < align_down(addr, align) <= addr,
        align_down(addr, align) == (addr / align) * align,
        align_down(addr, align) % align == 0,
{
    lemma_fundamental_div_mod(addr, align);
    lemma_mod_bound(addr, align);
    lemma_mul_is_commutative(align, addr / align);
    lemma_mod_multiples_basic(addr / align, align);
}

/// An address lies in the page that its page number names.
pub proof fn lemma_page_of(addr: int, page_size: int)
    requires
        page_size > 0,
    ensures
        (addr / page_size) * page_size <= addr < (addr / page_size + 1) * page_size,
{
    lemma_fundamental_div_mod(addr, page_size);
    lemma_mod_bound(addr, page_size);
    let q = addr / page_size;
    assert(page_size * q == q * page_size && (q + 1) * page_size == q * page_size + page_size)
        by (nonlinear_arith);
}

/// A byte block that was granted is aligned, starts at or above the old end
/// of the byte zone and ends at or below the page zone.
pub proof fn lemma_byte_block(z: Zones, size: int, align: int)
    requires
        z.wf(),
        size >= 0,
        z.byte_outcome(size, align) is Ok,
    ensures
        z.byte_target(align) % align == 0,
        z.byte_pos <= z.byte_target(align) < z.byte_pos + align,
        z.byte_target(align) + size == z.after_alloc(size, align).byte_pos,
        z.after_alloc(size, align).wf(),
{
    lemma_pow2_positive(align);
    lemma_align_up(z.byte_pos, align);
}

/// A page block that was granted is aligned as asked, lies wholly below the
/// old start of the page zone and above the byte zone.
pub proof fn lemma_page_block(z: Zones, num_pages: int, align_pow2: int, page_size: int)
    requires
        z.wf(),
        page_size > 0,
        num_pages >= 0,
        z.page_outcome(num_pages, align_pow2, page_size) is Ok,
    ensures
        align_pow2 > 0,
        (z.page_target(num_pages, align_pow2, page_size) * page_size) % align_pow2 == 0,
        (z.page_target(num_pages, align_pow2, page_size) * page_size) % page_size == 0,
        z.byte_pos < z.page_target(num_pages, align_pow2, page_size) * page_size,
        z.page_target(num_pages, align_pow2, page_size) * page_size + num_pages * page_size
            <= z.page_pos,
        z.after_alloc_pages(num_pages, align_pow2, page_size).wf(),
{
    let align_pages = align_pow2 / page_size;
    let current = z.page_pos / page_size;
    let first = current - num_pages;
    let target = z.page_target(num_pages, align_pow2, page_size);
    lemma_pow2_positive(align_pages);
    lemma_align_down(first, align_pages);
    lemma_page_of(z.page_pos, page_size);
    lemma_page_of(z.byte_pos, page_size);
    lemma_fundamental_div_mod(align_pow2, page_size);
    lemma_mul_is_commutative(page_size, align_pages);
    assert(align_pow2 == align_pages * page_size);
    assert(align_pow2 > 0) by (nonlinear_arith)
        requires
            align_pow2 == align_pages * page_size,
            align_pages >= 1,
            page_size >= 1,
    ;
    // The address is a whole number of alignment units.
    let k = first / align_pages;
    lemma_mul_is_associative(k, align_pages, page_size);
    assert(target * page_size == k * align_pow2);
    lemma_mod_multiples_basic(k, align_pow2);
    lemma_mod_multiples_basic(target, page_size);
    // It lies above the byte zone and leaves room for the pages asked for.
    lemma_mul_inequality(z.byte_pos / page_size + 1, target, page_size);
    lemma_mul_inequality(target + num_pages, current, page_size);
    assert((target + num_pages) * page_size == target * page_size + num_pages * page_size)
        by (nonlinear_arith);
}

} // verus!
