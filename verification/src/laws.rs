use vstd::prelude::*;
use vstd::arithmetic::power2::is_pow2;
use crate::error::AllocError;
use crate::zones::{lemma_align_up, lemma_byte_block, lemma_page_block, lemma_pow2_positive, Zones};

verus! {

/// One request made of the allocator.
pub enum Request {
    /// `size` bytes at a multiple of `align`.
    Bytes { size: int, align: int },
    /// `num_pages` pages at a multiple of `align_pow2`, which is in bytes.
    Pages { num_pages: int, align_pow2: int },
}

impl Request {
    /// The number of bytes or pages asked for.
    pub open spec fn amount(self) -> int {
        match self {
            Request::Bytes { size, align } => size,
            Request::Pages { num_pages, align_pow2 } => num_pages,
        }
    }

    /// The alignment asked for, in bytes.
    pub open spec fn alignment(self) -> int {
        match self {
            Request::Bytes { size, align } => align,
            Request::Pages { num_pages, align_pow2 } => align_pow2,
        }
    }

    /// The length in bytes of the block asked for.
    pub open spec fn extent(self, page_size: int) -> int {
        match self {
            Request::Bytes { size, align } => size,
            Request::Pages { num_pages, align_pow2 } => num_pages * page_size,
        }
    }

    /// What the request yields in state `z`.
    pub open spec fn outcome(self, z: Zones, page_size: int) -> Result<int, AllocError> {
        match self {
            Request::Bytes { size, align } => z.byte_outcome(size, align),
            Request::Pages { num_pages, align_pow2 } => z.page_outcome(
                num_pages,
                align_pow2,
                page_size,
            ),
        }
    }

    /// The state that the request leaves when made in state `z`.
    pub open spec fn apply(self, z: Zones, page_size: int) -> Zones {
        match self {
            Request::Bytes { size, align } => z.after_alloc(size, align),
            Request::Pages { num_pages, align_pow2 } => z.after_alloc_pages(
                num_pages,
                align_pow2,
                page_size,
            ),
        }
    }
}

/// The state after the first `n` requests of `reqs`, made in order.
pub open spec fn after_requests(z: Zones, reqs: Seq<Request>, page_size: int, n: nat) -> Zones
    decreases n,
{
    if n == 0 {
        z
    } else {
        reqs[n - 1].apply(after_requests(z, reqs, page_size, (n - 1) as nat), page_size)
    }
}

/// What request `i` of `reqs` yields when the requests are made in order.
pub open spec fn outcome_at(z: Zones, reqs: Seq<Request>, page_size: int, i: int) -> Result<
    int,
    AllocError,
> {
    reqs[i].outcome(after_requests(z, reqs, page_size, i as nat), page_size)
}

/// No request asks for a negative number of bytes or pages.
pub open spec fn amounts_valid(reqs: Seq<Request>) -> bool {
    forall|k: int| 0 <= k < reqs.len() ==> (#[trigger] reqs[k]).amount() >= 0
}

/// A range that was just taken over has no byte and no page in use, and all
/// of it is available.
pub proof fn law_fresh_range_is_unused(start: int, size: int, page_size: int)
    requires
        0 <= start,
        0 <= size,
        start + size <= usize::MAX,
        page_size > 0,
    ensures
        Zones::fresh(start, size).wf(),
        Zones::fresh(start, size).total_bytes() == size,
        Zones::fresh(start, size).used_bytes() == 0,
        Zones::fresh(start, size).used_pages(page_size) == 0,
        Zones::fresh(start, size).available_bytes() == size,
{
}

/// Requests keep the state well formed, and move the end of the byte zone
/// only up and the start of the page zone only down.
proof fn lemma_requests_advance(z: Zones, reqs: Seq<Request>, page_size: int, m: nat, n: nat)
    requires
        z.wf(),
        page_size > 0,
        m <= n <= reqs.len(),
        amounts_valid(reqs),
    ensures
        after_requests(z, reqs, page_size, n).wf(),
        after_requests(z, reqs, page_size, m).byte_pos <= after_requests(
            z,
            reqs,
            page_size,
            n,
        ).byte_pos,
        after_requests(z, reqs, page_size, n).page_pos <= after_requests(
            z,
            reqs,
            page_size,
            m,
        ).page_pos,
    decreases n,
{
    if n > 0 {
        let p = (n - 1) as nat;
        let m0 = if m == n {
            p
        } else {
            m
        };
        lemma_requests_advance(z, reqs, page_size, m0, p);
        lemma_block_granted(z, reqs, page_size, p as int);
    }
}

/// What holds of request `i` and the states around it once the state before
/// it is known to be well formed.
proof fn lemma_block_granted(z: Zones, reqs: Seq<Request>, page_size: int, i: int)
    requires
        page_size > 0,
        0 <= i < reqs.len(),
        amounts_valid(reqs),
        after_requests(z, reqs, page_size, i as nat).wf(),
    ensures
        ({
            let before = after_requests(z, reqs, page_size, i as nat);
            let after = after_requests(z, reqs, page_size, (i + 1) as nat);
            &&& after.wf()
            &&& before.byte_pos <= after.byte_pos
            &&& after.page_pos <= before.page_pos
            &&& outcome_at(z, reqs, page_size, i) matches Ok(addr) ==> {
                &&& addr % reqs[i].alignment() == 0
                &&& reqs[i] is Bytes ==> before.byte_pos <= addr && addr + reqs[i].extent(page_size)
                    == after.byte_pos
                &&& reqs[i] is Pages ==> addr == after.page_pos && addr + reqs[i].extent(page_size)
                    <= before.page_pos
            }
        }),
{
    let before = after_requests(z, reqs, page_size, i as nat);
    assert(reqs[i].amount() >= 0);
    assert(after_requests(z, reqs, page_size, (i + 1) as nat) == reqs[i].apply(before, page_size));
    match reqs[i] {
        Request::Bytes { size, align } => {
            if before.byte_outcome(size, align) is Ok {
                lemma_byte_block(before, size, align);
            }
        },
        Request::Pages { num_pages, align_pow2 } => {
            if before.page_outcome(num_pages, align_pow2, page_size) is Ok {
                lemma_page_block(before, num_pages, align_pow2, page_size);
            }
        },
    }
}

/// Among requests made one after another, of bytes or of pages, granted or
/// not: two byte blocks that were granted are each at a multiple of the
/// alignment asked for, the later one starts at or above the end of the
/// earlier one, and strictly above its start unless the earlier one is empty.
pub proof fn law_byte_blocks_ascend(z: Zones, reqs: Seq<Request>, page_size: int, i: int, j: int)
    requires
        z.wf(),
        page_size > 0,
        amounts_valid(reqs),
        0 <= i < j < reqs.len(),
        reqs[i] is Bytes,
        reqs[j] is Bytes,
        outcome_at(z, reqs, page_size, i) is Ok,
        outcome_at(z, reqs, page_size, j) is Ok,
    ensures
        ({
            let first = outcome_at(z, reqs, page_size, i)->Ok_0;
            let second = outcome_at(z, reqs, page_size, j)->Ok_0;
            &&& first % reqs[i].alignment() == 0
            &&& second % reqs[j].alignment() == 0
            &&& first + reqs[i].amount() <= second
            &&& reqs[i].amount() > 0 ==> first < second
        }),
{
    lemma_requests_advance(z, reqs, page_size, i as nat, i as nat);
    lemma_requests_advance(z, reqs, page_size, (i + 1) as nat, j as nat);
    lemma_block_granted(z, reqs, page_size, i);
    lemma_block_granted(z, reqs, page_size, j);
}

/// Among requests made one after another, of bytes or of pages, granted or
/// not: two page blocks that were granted are each at a multiple of the
/// alignment asked for, the later one ends at or below the start of the
/// earlier one, and starts strictly below it unless the later one is empty.
pub proof fn law_page_blocks_descend(z: Zones, reqs: Seq<Request>, page_size: int, i: int, j: int)
    requires
        z.wf(),
        page_size > 0,
        amounts_valid(reqs),
        0 <= i < j < reqs.len(),
        reqs[i] is Pages,
        reqs[j] is Pages,
        outcome_at(z, reqs, page_size, i) is Ok,
        outcome_at(z, reqs, page_size, j) is Ok,
    ensures
        ({
            let first = outcome_at(z, reqs, page_size, i)->Ok_0;
            let second = outcome_at(z, reqs, page_size, j)->Ok_0;
            &&& first % reqs[i].alignment() == 0
            &&& second % reqs[j].alignment() == 0
            &&& first % page_size == 0
            &&& second % page_size == 0
            &&& second + reqs[j].amount() * page_size <= first
            &&& reqs[j].amount() > 0 ==> second < first
        }),
{
    lemma_requests_advance(z, reqs, page_size, i as nat, i as nat);
    lemma_requests_advance(z, reqs, page_size, (i + 1) as nat, j as nat);
    lemma_block_granted(z, reqs, page_size, i);
    lemma_block_granted(z, reqs, page_size, j);
    let zi = after_requests(z, reqs, page_size, i as nat);
    let zj = after_requests(z, reqs, page_size, j as nat);
    lemma_page_block(zi, reqs[i].amount(), reqs[i].alignment(), page_size);
    lemma_page_block(zj, reqs[j].amount(), reqs[j].alignment(), page_size);
    assert(reqs[j].amount() > 0 ==> reqs[j].amount() * page_size > 0) by (nonlinear_arith)
        requires
            page_size > 0,
    ;
}

/// Among requests made one after another, a byte block and a page block that
/// were granted never overlap, whichever was asked for first: the byte block
/// ends at or below the start of the page block.
pub proof fn law_byte_blocks_below_page_blocks(
    z: Zones,
    reqs: Seq<Request>,
    page_size: int,
    i: int,
    j: int,
)
    requires
        z.wf(),
        page_size > 0,
        amounts_valid(reqs),
        0 <= i < reqs.len(),
        0 <= j < reqs.len(),
        reqs[i] is Bytes,
        reqs[j] is Pages,
        outcome_at(z, reqs, page_size, i) is Ok,
        outcome_at(z, reqs, page_size, j) is Ok,
    ensures
        outcome_at(z, reqs, page_size, i)->Ok_0 + reqs[i].amount() <= outcome_at(
            z,
            reqs,
            page_size,
            j,
        )->Ok_0,
{
    lemma_requests_advance(z, reqs, page_size, i as nat, i as nat);
    lemma_requests_advance(z, reqs, page_size, j as nat, j as nat);
    lemma_block_granted(z, reqs, page_size, i);
    lemma_block_granted(z, reqs, page_size, j);
    if i < j {
        lemma_requests_advance(z, reqs, page_size, (i + 1) as nat, j as nat);
        lemma_page_block(
            after_requests(z, reqs, page_size, j as nat),
            reqs[j].amount(),
            reqs[j].alignment(),
            page_size,
        );
    } else {
        lemma_requests_advance(z, reqs, page_size, (j + 1) as nat, (i + 1) as nat);
    }
}

/// Block A is handed out, then block B, neither with padding before it.
/// Giving back B and then A puts the byte zone back where it was before A.
pub proof fn law_release_in_reverse_restores(
    z: Zones,
    size_a: int,
    align_a: int,
    size_b: int,
    align_b: int,
)
    requires
        z.wf(),
        size_a >= 0,
        size_b >= 0,
        z.byte_outcome(size_a, align_a) is Ok,
        z.after_alloc(size_a, align_a).byte_outcome(size_b, align_b) is Ok,
        z.byte_pos % align_a == 0,
        z.after_alloc(size_a, align_a).byte_pos % align_b == 0,
    ensures
        ({
            let za = z.after_alloc(size_a, align_a);
            let zb = za.after_alloc(size_b, align_b);
            let a = z.byte_outcome(size_a, align_a)->Ok_0;
            let b = za.byte_outcome(size_b, align_b)->Ok_0;
            &&& zb.after_dealloc(b, size_b) == za
            &&& zb.after_dealloc(b, size_b).after_dealloc(a, size_a) == z
        }),
{
    let za = z.after_alloc(size_a, align_a);
    lemma_byte_block(z, size_a, align_a);
    lemma_byte_block(za, size_b, align_b);
    lemma_pow2_positive(align_a);
    lemma_pow2_positive(align_b);
    lemma_align_up(z.byte_pos, align_a);
    lemma_align_up(za.byte_pos, align_b);
}

/// Block A is handed out, then a block B that is not empty. Giving back A
/// while B is still out changes nothing.
pub proof fn law_release_out_of_order_is_ignored(
    z: Zones,
    size_a: int,
    align_a: int,
    size_b: int,
    align_b: int,
)
    requires
        z.wf(),
        size_a >= 0,
        size_b > 0,
        z.byte_outcome(size_a, align_a) is Ok,
        z.after_alloc(size_a, align_a).byte_outcome(size_b, align_b) is Ok,
    ensures
        ({
            let zb = z.after_alloc(size_a, align_a).after_alloc(size_b, align_b);
            zb.after_dealloc(z.byte_outcome(size_a, align_a)->Ok_0, size_a) == zb
        }),
{
    let za = z.after_alloc(size_a, align_a);
    lemma_byte_block(z, size_a, align_a);
    lemma_byte_block(za, size_b, align_b);
}

/// A byte request for more than the whole range is turned down for want of
/// memory, whatever has or has not been handed out, and changes nothing.
pub proof fn law_oversized_request_fails(z: Zones, size: int, align: int)
    requires
        z.wf(),
        is_pow2(align),
        size > z.total_bytes(),
    ensures
        z.byte_outcome(size, align) == Err::<int, AllocError>(AllocError::NoMemory),
        z.after_alloc(size, align) == z,
{
    lemma_pow2_positive(align);
    lemma_align_up(z.byte_pos, align);
}

/// The zones never cross: whatever is asked of it, a byte request leaves the
/// byte zone at or below the page zone, and a page request that is granted
/// leaves the page zone strictly above the end of the byte zone.
pub proof fn law_zones_never_cross(
    z: Zones,
    size: int,
    align: int,
    num_pages: int,
    align_pow2: int,
    page_size: int,
)
    requires
        z.wf(),
        page_size > 0,
        size >= 0,
        num_pages >= 0,
    ensures
        z.after_alloc(size, align).wf(),
        z.after_alloc_pages(num_pages, align_pow2, page_size).wf(),
        z.page_outcome(num_pages, align_pow2, page_size) is Ok ==> z.byte_pos < z.after_alloc_pages(
            num_pages,
            align_pow2,
            page_size,
        ).page_pos,
{
    if z.byte_outcome(size, align) is Ok {
        lemma_byte_block(z, size, align);
    }
    if z.page_outcome(num_pages, align_pow2, page_size) is Ok {
        lemma_page_block(z, num_pages, align_pow2, page_size);
    }
}

} // verus!
