use vstd::prelude::*;
use crate::error::AllocError;
use crate::zones::{
    lemma_align_down, lemma_align_up, lemma_byte_block, lemma_page_block, lemma_pow2_positive,
    Zones,
};

verus! {

/// Early memory allocator, for use before the full byte and page allocators
/// can work. It manages one range from both ends:
///
/// ```text
/// [ bytes-used | avail-area | pages-used ]
/// |            | -->    <-- |            |
/// start     byte_pos     page_pos       end
/// ```
///
/// Bytes are handed out upward from `start`, pages downward from `end`. Only
/// the byte block handed out last can be taken back; pages never are.
pub struct EarlyAllocator<const PAGE_SIZE: usize> {
    start: usize,
    byte_pos: usize,
    end: usize,
    page_pos: usize,
}

impl<const PAGE_SIZE: usize> View for EarlyAllocator<PAGE_SIZE> {
    type V = Zones;

    closed spec fn view(&self) -> Zones {
        Zones {
            start: self.start as int,
            byte_pos: self.byte_pos as int,
            page_pos: self.page_pos as int,
            end: self.end as int,
        }
    }
}

impl<const PAGE_SIZE: usize> EarlyAllocator<PAGE_SIZE> {
    /// The zones lie inside the range and do not cross.
    pub open spec fn wf(&self) -> bool {
        self@.wf()
    }

    /// Creates a new empty [`EarlyAllocator`].
    pub fn new() -> (r: Self)
        ensures
            r.wf(),
            r@ == Zones::fresh(0, 0),
    {
        Self { start: 0, byte_pos: 0, end: 0, page_pos: 0 }
    }

    /// Takes over the range of `size` bytes at `start`. Whatever was handed
    /// out before is forgotten.
    pub fn init(&mut self, start: usize, size: usize)
        requires
            start + size <= usize::MAX,
        ensures
            final(self).wf(),
            final(self)@ == Zones::fresh(start as int, size as int),
    {
        let end: usize = start + size;
        self.start = start;
        self.end = end;
        self.byte_pos = start;
        self.page_pos = end;
    }

    /// Adding a second range is not supported: always fails with
    /// [`AllocError::NoMemory`] and changes nothing.
    pub fn add_memory(&mut self, start: usize, size: usize) -> (r: Result<(), AllocError>)
        ensures
            r == Err::<(), AllocError>(AllocError::NoMemory),
            final(self)@ == old(self)@,
    {
        Err(AllocError::NoMemory)
    }

    /// Allocates `size` bytes at an address that is a multiple of `align`.
    ///
    /// The block starts at the end of the byte zone rounded up to `align` and
    /// may reach up to the page zone, not into it. An `align` that is not a
    /// power of two is refused. A request that is turned down changes nothing.
    pub fn allocate(&mut self, size: usize, align: usize) -> (r: Result<usize, AllocError>)
        requires
            old(self).wf(),
        ensures
            final(self).wf(),
            final(self)@ == old(self)@.after_alloc(size as int, align as int),
            match r {
                Ok(addr) => old(self)@.byte_outcome(size as int, align as int) == Ok::<
                    int,
                    AllocError,
                >(addr as int),
                Err(e) => old(self)@.byte_outcome(size as int, align as int) == Err::<
                    int,
                    AllocError,
                >(e),
            },
            r matches Ok(addr) ==> {
                &&& addr % align == 0
                &&& old(self)@.byte_pos <= addr
                &&& addr + size == final(self)@.byte_pos
            },
    {
        if !align.is_power_of_two() {
            return Err(AllocError::InvalidParam);
        }
        proof {
            lemma_pow2_positive(align as int);
            lemma_align_up(self.byte_pos as int, align as int);
        }
        let rem: usize = self.byte_pos % align;
        let pad: usize = if rem == 0 {
            0
        } else {
            align - rem
        };
        let room: usize = self.page_pos - self.byte_pos;
        if pad > room {
            return Err(AllocError::NoMemory);
        }
        let real_start: usize = self.byte_pos + pad;
        if size > self.page_pos - real_start {
            return Err(AllocError::NoMemory);
        }
        proof {
            lemma_byte_block(self@, size as int, align as int);
        }
        self.byte_pos = real_start + size;
        Ok(real_start)
    }

    /// Gives back the block of `size` bytes at `pos`.
    ///
    /// Only the block that ends where the byte zone ends is taken back: the
    /// zone then ends at `pos`. Any other block is ignored, and so is one
    /// that would start below the range.
    pub fn dealloc(&mut self, pos: usize, size: usize)
        requires
            old(self).wf(),
        ensures
            final(self).wf(),
            final(self)@ == old(self)@.after_dealloc(pos as int, size as int),
    {
        if pos >= self.start && pos <= self.byte_pos && self.byte_pos - pos == size {
            self.byte_pos = pos;
        }
    }

    /// Returns total memory size in bytes.
    pub fn total_bytes(&self) -> (r: usize)
        requires
            self.wf(),
        ensures
            r == self@.total_bytes(),
    {
        self.end - self.start
    }

    /// Returns allocated memory size in bytes.
    pub fn used_bytes(&self) -> (r: usize)
        requires
            self.wf(),
        ensures
            r == self@.used_bytes(),
    {
        self.byte_pos - self.start
    }

    /// Returns available memory size in bytes: the free area between the
    /// two zones.
    pub fn available_bytes(&self) -> (r: usize)
        requires
            self.wf(),
        ensures
            r == self@.available_bytes(),
    {
        self.page_pos - self.byte_pos
    }

    /// Allocates `num_pages` pages at an address that is a multiple of
    /// `align_pow2`, which is given in bytes.
    ///
    /// `align_pow2` must be a multiple of the page size, and the number of
    /// pages it spans a power of two. The pages are taken just below the page
    /// zone and the start is then rounded down to the alignment. The block
    /// must start above the page in which the byte zone ends. A request that
    /// is turned down changes nothing.
    pub fn alloc_pages(&mut self, num_pages: usize, align_pow2: usize) -> (r: Result<
        usize,
        AllocError,
    >)
        requires
            old(self).wf(),
            PAGE_SIZE > 0,
        ensures
            final(self).wf(),
            final(self)@ == old(self)@.after_alloc_pages(
                num_pages as int,
                align_pow2 as int,
                PAGE_SIZE as int,
            ),
            match r {
                Ok(addr) => old(self)@.page_outcome(
                    num_pages as int,
                    align_pow2 as int,
                    PAGE_SIZE as int,
                ) == Ok::<int, AllocError>(addr as int),
                Err(e) => old(self)@.page_outcome(
                    num_pages as int,
                    align_pow2 as int,
                    PAGE_SIZE as int,
                ) == Err::<int, AllocError>(e),
            },
            r matches Ok(addr) ==> {
                &&& align_pow2 > 0
                &&& addr % align_pow2 == 0
                &&& old(self)@.byte_pos < addr
                &&& addr + num_pages * PAGE_SIZE <= old(self)@.page_pos
                &&& addr == final(self)@.page_pos
            },
    {
        if align_pow2 % PAGE_SIZE != 0 {
            return Err(AllocError::InvalidParam);
        }
        let align_pages: usize = align_pow2 / PAGE_SIZE;
        if !align_pages.is_power_of_two() {
            return Err(AllocError::InvalidParam);
        }
        let current_page: usize = self.page_pos / PAGE_SIZE;
        let start_page: usize = match current_page.checked_sub(num_pages) {
            Some(page) => page,
            None => {
                return Err(AllocError::NoMemory);
            },
        };
        proof {
            lemma_pow2_positive(align_pages as int);
            lemma_align_down(start_page as int, align_pages as int);
        }
        let aligned_start_page: usize = start_page - start_page % align_pages;
        let byte_page: usize = self.byte_pos / PAGE_SIZE;
        if aligned_start_page <= byte_page {
            return Err(AllocError::NoMemory);
        }
        proof {
            lemma_page_block(self@, num_pages as int, align_pow2 as int, PAGE_SIZE as int);
        }
        self.page_pos = aligned_start_page * PAGE_SIZE;
        Ok(self.page_pos)
    }

    /// Pages are never taken back: does nothing.
    pub fn dealloc_pages(&mut self, pos: usize, num_pages: usize)
        ensures
            *final(self) == *old(self),
            final(self)@ == old(self)@,
    {
    }

    /// Returns the total number of whole pages in the range.
    pub fn total_pages(&self) -> (r: usize)
        requires
            self.wf(),
            PAGE_SIZE > 0,
        ensures
            r == self@.total_pages(PAGE_SIZE as int),
    {
        (self.end - self.start) / PAGE_SIZE
    }

    /// Returns the number of whole pages in the page zone.
    pub fn used_pages(&self) -> (r: usize)
        requires
            self.wf(),
            PAGE_SIZE > 0,
        ensures
            r == self@.used_pages(PAGE_SIZE as int),
    {
        (self.end - self.page_pos) / PAGE_SIZE
    }

    /// Returns the number of whole pages in the free area.
    pub fn available_pages(&self) -> (r: usize)
        requires
            self.wf(),
            PAGE_SIZE > 0,
        ensures
            r == self@.available_pages(PAGE_SIZE as int),
    {
        (self.page_pos - self.byte_pos) / PAGE_SIZE
    }
}

} // verus!
