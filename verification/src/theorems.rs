//! What holds of every heap, however it was used: theorems over the model of
//! `layout`, which the contracts of the allocator are stated in.
use crate::header::HEADER_SIZE;
use crate::layout::{Block, Layout};
use vstd::prelude::*;

verus! {

/// One request to a heap.
pub ghost enum Request {
    /// Allocate `size` bytes.
    Allocate { size: nat },
    /// Free the block at `address`.
    Deallocate { address: nat },
}

/// Bytes of the region that a run of blocks takes up, headers included.
pub open spec fn total_footprint(blocks: Seq<Block>) -> nat
    decreases blocks.len(),
{
    if blocks.len() == 0 {
        0
    } else {
        total_footprint(blocks.drop_last()) + blocks.last().footprint()
    }
}

impl Layout {
    /// The layout after one request.
    pub open spec fn after(self, request: Request) -> Layout {
        match request {
            Request::Allocate { size } => self.after_alloc(size),
            Request::Deallocate { address } => self.after_dealloc(address),
        }
    }

    /// The layout after a run of requests, served in order.
    pub open spec fn after_all(self, requests: Seq<Request>) -> Layout
        decreases requests.len(),
    {
        if requests.len() == 0 {
            self
        } else {
            self.after_all(requests.drop_last()).after(requests.last())
        }
    }

    /// The size of the allocation that `address` stands for, if any.
    pub open spec fn live_size(self, address: nat) -> Option<nat> {
        match self.live_index(address) {
            Some(i) => Some(self.blocks[i].extent),
            None => None,
        }
    }
}

/// A heap without a region is valid, and so is one right after
/// initialisation.
pub proof fn theorem_initial_valid(base: nat, length: nat)
    requires
        length >= 2 * HEADER_SIZE,
    ensures
        Layout::unset().valid(),
        Layout::fresh(base, length).valid(),
{
}

/// No request breaks validity or changes the region, whether it is served or
/// turned down.
pub proof fn theorem_request_keeps_valid(layout: Layout, request: Request)
    requires
        layout.valid(),
    ensures
        layout.after(request).valid(),
        layout.after(request).base == layout.base,
        layout.after(request).length == layout.length,
{
    match request {
        Request::Allocate { size } => {
            if let Some(i) = layout.first_fit(size) {
                assert(layout.is_first_fit(i, size));
                layout.lemma_split_valid(i, size);
            }
        },
        Request::Deallocate { address } => {
            if let Some(i) = layout.live_index(address) {
                assert(layout.is_live(i, address));
                layout.lemma_release_valid(i);
            }
        },
    }
}

/// Every layout that can be reached from a valid one is valid, over the same
/// region.
pub proof fn theorem_reachable_valid(layout: Layout, requests: Seq<Request>)
    requires
        layout.valid(),
    ensures
        layout.after_all(requests).valid(),
        layout.after_all(requests).base == layout.base,
        layout.after_all(requests).length == layout.length,
    decreases requests.len(),
{
    if requests.len() > 0 {
        theorem_reachable_valid(layout, requests.drop_last());
        theorem_request_keeps_valid(layout.after_all(requests.drop_last()), requests.last());
    }
}

/// The blocks before block `k` take up exactly the bytes before it.
proof fn lemma_prefix_footprint(layout: Layout, k: int)
    requires
        layout.valid(),
        0 <= k < layout.blocks.len(),
    ensures
        total_footprint(layout.blocks.take(k + 1)) == layout.blocks[k].end(),
    decreases k,
{
    let prefix = layout.blocks.take(k + 1);
    assert(prefix.drop_last() =~= layout.blocks.take(k));
    if k > 0 {
        lemma_prefix_footprint(layout, k - 1);
        assert(layout.blocks[k - 1].end() == layout.blocks[k].start);
    } else {
        assert(total_footprint(layout.blocks.take(0)) == 0);
    }
}

/// Conservation: the blocks of a valid layout, each with its two headers,
/// take up the region exactly.
pub proof fn theorem_conservation(layout: Layout)
    requires
        layout.valid(),
    ensures
        total_footprint(layout.blocks) == layout.length,
{
    if layout.blocks.len() > 0 {
        lemma_prefix_footprint(layout, layout.blocks.len() - 1);
        assert(layout.blocks.take(layout.blocks.len() as int) =~= layout.blocks);
    }
}

/// Conservation holds at every point of every run of requests on an
/// initialised region.
pub proof fn theorem_conservation_always(base: nat, length: nat, requests: Seq<Request>)
    requires
        length >= 2 * HEADER_SIZE,
    ensures
        total_footprint(Layout::fresh(base, length).after_all(requests).blocks) == length,
{
    theorem_reachable_valid(Layout::fresh(base, length), requests);
    theorem_conservation(Layout::fresh(base, length).after_all(requests));
}

/// The blocks of a valid layout do not overlap and lie inside the region:
/// block `i` ends, back header included, before a later block `j` starts,
/// and the bytes of each are the region's.
pub proof fn theorem_blocks_disjoint(layout: Layout, i: int, j: int)
    requires
        layout.valid(),
        0 <= i < j < layout.blocks.len(),
    ensures
        layout.address(i) + layout.blocks[i].extent + 2 * HEADER_SIZE <= layout.address(j),
        layout.base + HEADER_SIZE <= layout.address(i),
        layout.address(j) + layout.blocks[j].extent + HEADER_SIZE <= layout.base + layout.length,
{
    layout.lemma_ordered(i, j);
    layout.lemma_within(j);
}

/// No overlap: two different live allocations never share a byte, and each
/// lies inside the region.
pub proof fn theorem_no_overlap(layout: Layout, p: nat, q: nat)
    requires
        layout.valid(),
        layout.live_size(p) is Some,
        layout.live_size(q) is Some,
        p != q,
    ensures
        p + layout.live_size(p).unwrap() <= q || q + layout.live_size(q).unwrap() <= p,
        layout.base <= p,
        p + layout.live_size(p).unwrap() <= layout.base + layout.length,
{
    let i = layout.live_index(p).unwrap();
    let j = layout.live_index(q).unwrap();
    assert(layout.is_live(i, p));
    assert(layout.is_live(j, q));
    layout.lemma_within(i);
    if i < j {
        theorem_blocks_disjoint(layout, i, j);
    } else if j < i {
        theorem_blocks_disjoint(layout, j, i);
    }
}

/// No two live allocations share a byte at any point of any run of requests
/// on an initialised region.
pub proof fn theorem_no_overlap_always(base: nat, length: nat, requests: Seq<Request>, p: nat, q: nat)
    requires
        length >= 2 * HEADER_SIZE,
        Layout::fresh(base, length).after_all(requests).live_size(p) is Some,
        Layout::fresh(base, length).after_all(requests).live_size(q) is Some,
        p != q,
    ensures
        ({
            let reached = Layout::fresh(base, length).after_all(requests);
            p + reached.live_size(p).unwrap() <= q || q + reached.live_size(q).unwrap() <= p
        }),
{
    theorem_reachable_valid(Layout::fresh(base, length), requests);
    theorem_no_overlap(Layout::fresh(base, length).after_all(requests), p, q);
}

/// The bytes between the two headers of a block are no header's: what a
/// caller writes to an allocation touches no bookkeeping.
pub proof fn theorem_payload_apart(layout: Layout, i: int, k: int)
    requires
        layout.valid(),
        0 <= i < layout.blocks.len(),
        layout.holds(i, k),
    ensures
        !layout.is_tag_byte(k),
{
    assert forall|j: int| 0 <= j < layout.blocks.len() implies !layout.tags(j, k) by {
        if j < i {
            layout.lemma_ordered(j, i);
        }
        if i < j {
            layout.lemma_ordered(i, j);
        }
    }
}

/// Where an address stands for no allocation, no block is live at it.
proof fn lemma_not_live(layout: Layout, address: nat, k: int)
    requires
        layout.valid(),
        layout.live_index(address) is None,
    ensures
        !layout.is_live(k, address),
{
    if layout.is_live(k, address) {
        layout.lemma_live_index_is(k, address);
    }
}

/// What an allocation does to the live allocations: the address handed out
/// becomes live with exactly the size asked for; every other address stays
/// as it was, live with its size or not live. A request that is turned down
/// changes nothing.
pub proof fn theorem_alloc_live(layout: Layout, size: nat, q: nat)
    requires
        layout.valid(),
    ensures
        layout.after_alloc(size).live_size(q) == if layout.alloc_address(size) == Some(q) {
            Some(size)
        } else {
            layout.live_size(q)
        },
{
    if let Some(i) = layout.first_fit(size) {
        assert(layout.is_first_fit(i, size));
        let after = layout.split(i, size);
        layout.lemma_split_valid(i, size);
        let p = layout.address(i);
        if q == p {
            assert(after.is_live(i, p));
            after.lemma_live_index_is(i, p);
        } else if let Some(k) = layout.live_index(q) {
            assert(layout.is_live(k, q));
            let moved = if k < i {
                k
            } else {
                k + 1
            };
            assert(after.blocks[moved] == layout.blocks[k]);
            assert(after.is_live(moved, q));
            after.lemma_live_index_is(moved, q);
        } else {
            assert forall|k: int| 0 <= k < after.blocks.len() implies !(#[trigger] after.blocks[k]).occupied
                || after.address(k) != q by {
                if k < i {
                    assert(after.blocks[k] == layout.blocks[k]);
                    lemma_not_live(layout, q, k);
                } else if k > i + 1 {
                    assert(after.blocks[k] == layout.blocks[k - 1]);
                    lemma_not_live(layout, q, k - 1);
                }
            }
            after.lemma_live_index_none(q);
        }
    }
}

/// What freeing does to the live allocations: the address freed is live no
/// more; every other address stays as it was. Freeing an address that
/// stands for no allocation changes nothing.
pub proof fn theorem_dealloc_live(layout: Layout, p: nat, q: nat)
    requires
        layout.valid(),
    ensures
        layout.after_dealloc(p).live_size(q) == if q == p {
            None
        } else {
            layout.live_size(q)
        },
{
    if let Some(i) = layout.live_index(p) {
        assert(layout.is_live(i, p));
        let after = layout.release(i);
        layout.lemma_release_valid(i);
        layout.lemma_release_shape(i);
        let lo = layout.merge_lo(i);
        let hi = layout.merge_hi(i);
        let shift = hi - lo;
        if q != p && layout.live_index(q) is Some {
            let k = layout.live_index(q).unwrap();
            assert(layout.is_live(k, q));
            let moved = if k < lo {
                k
            } else {
                k - shift
            };
            assert(after.blocks[moved] == layout.blocks[k]);
            assert(after.is_live(moved, q));
            after.lemma_live_index_is(moved, q);
        } else {
            assert forall|k: int| 0 <= k < after.blocks.len() implies !(#[trigger] after.blocks[k]).occupied
                || after.address(k) != q by {
                if k < lo {
                    assert(after.blocks[k] == layout.blocks[k]);
                    if q == p {
                        if layout.is_live(k, p) {
                            layout.lemma_ordered(k, i);
                        }
                    } else {
                        lemma_not_live(layout, q, k);
                    }
                } else if k > lo {
                    assert(after.blocks[k] == layout.blocks[k + shift]);
                    if q == p {
                        if layout.is_live(k + shift, p) {
                            layout.lemma_ordered(i, k + shift);
                        }
                    } else {
                        lemma_not_live(layout, q, k + shift);
                    }
                }
            }
            after.lemma_live_index_none(q);
        }
    }
}

/// What is handed out was free: the bytes of a new allocation are shared
/// with no allocation that was live before it, and its address is none of
/// theirs.
pub proof fn theorem_alloc_disjoint(layout: Layout, size: nat, q: nat)
    requires
        layout.valid(),
        layout.alloc_address(size) is Some,
        layout.live_size(q) is Some,
    ensures
        ({
            let p = layout.alloc_address(size).unwrap();
            &&& p != q
            &&& p + size <= q || q + layout.live_size(q).unwrap() <= p
        }),
{
    let p = layout.alloc_address(size).unwrap();
    let i = layout.first_fit(size).unwrap();
    assert(layout.is_first_fit(i, size));
    let j = layout.live_index(q).unwrap();
    assert(layout.is_live(j, q));
    if j < i {
        layout.lemma_ordered(j, i);
    }
    if i < j {
        layout.lemma_ordered(i, j);
    }
}

/// When a freed address is handed out again. After the block at `p` was
/// freed, a request for `size` bytes yields `p` exactly where the block was
/// not absorbed by its left neighbour, has, with what it gained from its
/// right neighbour, room for the request and the two headers of the
/// remainder, and no earlier block fits the request.
pub proof fn theorem_reuse_exact(layout: Layout, i: int, p: nat, size: nat)
    requires
        layout.valid(),
        layout.is_live(i, p),
    ensures
        layout.after_dealloc(p).alloc_address(size) == Some(p) <==> {
            &&& !layout.merges_prev(i)
            &&& layout.blocks[i].extent + layout.gain_next(i) >= size + 2 * HEADER_SIZE
            &&& forall|j: int| 0 <= j < i ==> !(#[trigger] layout.blocks[j]).fits(size)
        },
{
    layout.lemma_live_index_is(i, p);
    layout.lemma_release_valid(i);
    let after = layout.release(i);
    let lo = layout.merge_lo(i);
    let hi = layout.merge_hi(i);
    let shift = hi - lo;
    assert forall|k: int| 0 <= k < lo implies #[trigger] after.blocks[k] == layout.blocks[k] by {}
    if after.alloc_address(size) == Some(p) {
        let k = after.first_fit(size).unwrap();
        assert(after.is_first_fit(k, size));
        assert(after.blocks[k].start == layout.blocks[i].start);
        if k < lo {
            layout.lemma_ordered(k, i);
        } else if k > lo {
            assert(after.blocks[k] == layout.blocks[k + shift]);
            layout.lemma_ordered(i, k + shift);
        } else if lo < i {
            layout.lemma_ordered(lo, i);
        }
        assert(k == i && lo == i);
        assert forall|j: int| 0 <= j < i implies !(#[trigger] layout.blocks[j]).fits(size) by {
            assert(after.blocks[j] == layout.blocks[j]);
        }
    }
    if !layout.merges_prev(i) && layout.blocks[i].extent + layout.gain_next(i) >= size + 2 * HEADER_SIZE
        && (forall|j: int| 0 <= j < i ==> !(#[trigger] layout.blocks[j]).fits(size)) {
        assert(after.blocks[i] == layout.merged(i));
        assert forall|j: int| 0 <= j < i implies !(#[trigger] after.blocks[j]).fits(size) by {
            assert(after.blocks[j] == layout.blocks[j]);
        }
        assert(after.is_first_fit(i, size));
        after.lemma_first_fit_is(i, size);
    }
}

/// Reuse: free an allocation of `n` bytes whose left neighbour is allocated
/// (or absent) and whose right neighbour is free, in a heap where no earlier
/// block fits `n` bytes; the next request for `n` bytes is handed the same
/// address.
pub proof fn theorem_reuse(layout: Layout, i: int, p: nat)
    requires
        layout.valid(),
        layout.is_live(i, p),
        !layout.merges_prev(i),
        layout.merges_next(i),
        forall|j: int| 0 <= j < i ==> !(#[trigger] layout.blocks[j]).fits(layout.blocks[i].extent),
    ensures
        layout.after_dealloc(p).alloc_address(layout.blocks[i].extent) == Some(p),
{
    theorem_reuse_exact(layout, i, p, layout.blocks[i].extent);
}

/// The freed address is not handed out for one byte more than it held where
/// the block gained nothing but two headers: its right neighbour is
/// allocated, absent, or free without a byte of its own.
pub proof fn theorem_no_reuse_for_more(layout: Layout, i: int, p: nat)
    requires
        layout.valid(),
        layout.is_live(i, p),
        layout.gain_next(i) <= 2 * HEADER_SIZE,
    ensures
        layout.after_dealloc(p).alloc_address(layout.blocks[i].extent + 1) != Some(p),
{
    theorem_reuse_exact(layout, i, p, layout.blocks[i].extent + 1);
}

/// Capacity of an initialised region: a request is served, at the first
/// address after the front header, exactly where it leaves room for four
/// headers, two for the block handed out and two for the remainder.
pub proof fn theorem_fresh_capacity(base: nat, length: nat, size: nat)
    requires
        length >= 2 * HEADER_SIZE,
    ensures
        Layout::fresh(base, length).alloc_address(size) == if size + 4 * HEADER_SIZE <= length {
            Some(base + HEADER_SIZE as nat)
        } else {
            None
        },
{
    let fresh = Layout::fresh(base, length);
    if size + 4 * HEADER_SIZE <= length {
        assert(fresh.is_first_fit(0, size));
        fresh.lemma_first_fit_is(0, size);
    } else {
        fresh.lemma_first_fit_none(size);
    }
}

/// Exhaustion: an initialised region turns down a request for as many bytes
/// as it has.
pub proof fn theorem_whole_region_refused(base: nat, length: nat)
    requires
        length >= 2 * HEADER_SIZE,
    ensures
        Layout::fresh(base, length).alloc_address(length) is None,
{
    theorem_fresh_capacity(base, length, length);
}

/// Exhaustion: the largest request an initialised region serves is for its
/// length less four headers, and once it is served every request is turned
/// down.
pub proof fn theorem_largest_once(base: nat, length: nat, size: nat)
    requires
        length >= 4 * HEADER_SIZE,
    ensures
        Layout::fresh(base, length).alloc_address((length - 4 * HEADER_SIZE) as nat) == Some(
            base + HEADER_SIZE as nat,
        ),
        Layout::fresh(base, length).after_alloc((length - 4 * HEADER_SIZE) as nat).alloc_address(size) is None,
{
    let fresh = Layout::fresh(base, length);
    let most = (length - 4 * HEADER_SIZE) as nat;
    theorem_fresh_capacity(base, length, most);
    assert(fresh.is_first_fit(0, most));
    fresh.lemma_first_fit_is(0, most);
    let after = fresh.split(0, most);
    assert(after.blocks.len() == 2);
    assert(after.blocks[0].occupied);
    assert(after.blocks[1].extent == 0);
    after.lemma_first_fit_none(size);
}

/// Two layouts of one region with the same live allocations.
pub open spec fn same_live(a: Layout, b: Layout) -> bool {
    &&& a.base == b.base
    &&& a.length == b.length
    &&& forall|x: nat| #[trigger] a.live_size(x) == b.live_size(x)
}

/// Where two layouts agree on their first `k` blocks and one has a block
/// `k`, so has the other, at the same offset.
proof fn lemma_same_start(a: Layout, b: Layout, k: int)
    requires
        a.valid(),
        b.valid(),
        same_live(a, b),
        0 <= k < a.blocks.len(),
        k <= b.blocks.len(),
        forall|j: int| 0 <= j < k ==> a.blocks[j] == b.blocks[j],
    ensures
        k < b.blocks.len(),
        b.blocks[k].start == a.blocks[k].start,
{
    a.lemma_within(k);
    if k > 0 {
        assert(a.blocks[k - 1] == b.blocks[k - 1]);
        assert(a.blocks[k - 1].end() == a.blocks[k].start);
        if k < b.blocks.len() {
            assert(b.blocks[k - 1].end() == b.blocks[k].start);
        }
    }
}

/// An allocated block of one layout is, in a layout with the same live
/// allocations, the block at the same offset.
proof fn lemma_same_occupied(a: Layout, b: Layout, k: int)
    requires
        a.valid(),
        b.valid(),
        same_live(a, b),
        0 <= k < a.blocks.len(),
        k < b.blocks.len(),
        b.blocks[k].start == a.blocks[k].start,
        a.blocks[k].occupied,
    ensures
        b.blocks[k] == a.blocks[k],
{
    let x = a.address(k);
    assert(a.is_live(k, x));
    a.lemma_live_index_is(k, x);
    assert(a.live_size(x) == b.live_size(x));
    let j = b.live_index(x).unwrap();
    assert(b.is_live(j, x));
    if j < k {
        b.lemma_ordered(j, k);
    }
    if k < j {
        b.lemma_ordered(k, j);
    }
}

/// A free block of one layout is not shorter than the free block at the same
/// offset of a layout with the same live allocations: the allocated block
/// that ends it would have to start inside the other.
proof fn lemma_free_not_shorter(a: Layout, b: Layout, k: int)
    requires
        a.valid(),
        b.valid(),
        same_live(a, b),
        0 <= k < a.blocks.len(),
        k < b.blocks.len(),
        b.blocks[k].start == a.blocks[k].start,
        !a.blocks[k].occupied,
        !b.blocks[k].occupied,
    ensures
        a.blocks[k].extent >= b.blocks[k].extent,
{
    if a.blocks[k].extent < b.blocks[k].extent {
        b.lemma_within(k);
        assert(k + 1 < a.blocks.len());
        assert(a.blocks[k].end() == a.blocks[k + 1].start);
        assert(a.blocks[k].occupied || a.blocks[k + 1].occupied);
        let x = a.address(k + 1);
        assert(a.is_live(k + 1, x));
        a.lemma_live_index_is(k + 1, x);
        assert(a.live_size(x) == b.live_size(x));
        let j = b.live_index(x).unwrap();
        assert(b.is_live(j, x));
        if j < k {
            b.lemma_ordered(j, k);
        }
        if k < j {
            b.lemma_ordered(k, j);
        }
    }
}

/// Layouts with the same live allocations agree block by block.
proof fn lemma_same_upto(a: Layout, b: Layout, k: int)
    requires
        a.valid(),
        b.valid(),
        same_live(a, b),
        0 <= k <= a.blocks.len(),
    ensures
        k <= b.blocks.len(),
        forall|j: int| 0 <= j < k ==> a.blocks[j] == b.blocks[j],
    decreases k,
{
    if k > 0 {
        let t = k - 1;
        lemma_same_upto(a, b, t);
        lemma_same_start(a, b, t);
        if a.blocks[t].occupied {
            lemma_same_occupied(a, b, t);
        } else {
            if b.blocks[t].occupied {
                lemma_same_occupied(b, a, t);
            }
            lemma_free_not_shorter(a, b, t);
            lemma_free_not_shorter(b, a, t);
        }
    }
}

/// Free space has one shape only: a valid layout is determined by its region
/// and its live allocations. However the same allocations came about, the
/// free bytes between them are cut into the same blocks.
pub proof fn theorem_determined_by_live(a: Layout, b: Layout)
    requires
        a.valid(),
        b.valid(),
        same_live(a, b),
    ensures
        a == b,
{
    lemma_same_upto(a, b, a.blocks.len() as int);
    lemma_same_upto(b, a, b.blocks.len() as int);
    assert(a.blocks =~= b.blocks);
}

/// Coalescing does not depend on the order of frees: freeing two addresses
/// leaves the same layout whichever goes first.
pub proof fn theorem_free_order(layout: Layout, p: nat, q: nat)
    requires
        layout.valid(),
    ensures
        layout.after_dealloc(p).after_dealloc(q) == layout.after_dealloc(q).after_dealloc(p),
{
    let first = layout.after_dealloc(p);
    let second = layout.after_dealloc(q);
    theorem_request_keeps_valid(layout, Request::Deallocate { address: p });
    theorem_request_keeps_valid(layout, Request::Deallocate { address: q });
    theorem_request_keeps_valid(first, Request::Deallocate { address: q });
    theorem_request_keeps_valid(second, Request::Deallocate { address: p });
    let pq = first.after_dealloc(q);
    let qp = second.after_dealloc(p);
    assert forall|x: nat| #[trigger] pq.live_size(x) == qp.live_size(x) by {
        theorem_dealloc_live(layout, p, x);
        theorem_dealloc_live(layout, q, x);
        theorem_dealloc_live(first, q, x);
        theorem_dealloc_live(second, p, x);
    }
    theorem_determined_by_live(pq, qp);
}

/// The layout after three frees, in the order given.
pub open spec fn after_three_frees(layout: Layout, p: nat, q: nat, r: nat) -> Layout {
    layout.after_dealloc(p).after_dealloc(q).after_dealloc(r)
}

/// Freeing three addresses leaves the same layout in each of the six orders.
pub proof fn theorem_free_order_three(layout: Layout, a: nat, b: nat, c: nat)
    requires
        layout.valid(),
    ensures
        after_three_frees(layout, a, c, b) == after_three_frees(layout, a, b, c),
        after_three_frees(layout, b, a, c) == after_three_frees(layout, a, b, c),
        after_three_frees(layout, b, c, a) == after_three_frees(layout, a, b, c),
        after_three_frees(layout, c, a, b) == after_three_frees(layout, a, b, c),
        after_three_frees(layout, c, b, a) == after_three_frees(layout, a, b, c),
{
    theorem_request_keeps_valid(layout, Request::Deallocate { address: a });
    theorem_request_keeps_valid(layout, Request::Deallocate { address: b });
    theorem_request_keeps_valid(layout, Request::Deallocate { address: c });
    theorem_free_order(layout, a, b);
    theorem_free_order(layout, a, c);
    theorem_free_order(layout, b, c);
    theorem_free_order(layout.after_dealloc(a), b, c);
    theorem_free_order(layout.after_dealloc(b), a, c);
    theorem_free_order(layout.after_dealloc(c), a, b);
}

/// Two of three allocations side by side are freed, the first of them with
/// no free block before it: they are one free block where the first stood,
/// and the third follows it.
proof fn lemma_two_coalesce(layout: Layout, i: int, a: nat, b: nat) -> (two: Layout)
    requires
        layout.valid(),
        layout.is_live(i, a),
        layout.is_live(i + 1, b),
        i + 2 < layout.blocks.len(),
        layout.blocks[i + 2].occupied,
        !layout.merges_prev(i),
    ensures
        two == layout.after_dealloc(a).after_dealloc(b),
        two.valid(),
        two.base == layout.base,
        i + 1 < two.blocks.len(),
        two.blocks[i] == (Block {
            start: layout.blocks[i].start,
            extent: layout.blocks[i].extent + layout.blocks[i + 1].extent + 2 * HEADER_SIZE as nat,
            occupied: false,
        }),
        two.blocks[i + 1] == layout.blocks[i + 2],
        forall|j: int| 0 <= j < i ==> #[trigger] two.blocks[j] == layout.blocks[j],
{
    layout.lemma_live_index_is(i, a);
    layout.lemma_release_valid(i);
    layout.lemma_release_shape(i);
    let one = layout.release(i);
    assert(one.blocks[i + 1] == layout.blocks[i + 1]);
    assert(one.blocks[i + 2] == layout.blocks[i + 2]);
    assert(one.is_live(i + 1, b));
    one.lemma_live_index_is(i + 1, b);
    one.lemma_release_valid(i + 1);
    one.lemma_release_shape(i + 1);
    let two = one.release(i + 1);
    assert(two.blocks[i + 1] == one.blocks[i + 2]);
    assert forall|j: int| 0 <= j < i implies #[trigger] two.blocks[j] == layout.blocks[j] by {
        assert(two.blocks[j] == one.blocks[j]);
        assert(one.blocks[j] == layout.blocks[j]);
    }
    two
}

/// Full coalescing: three allocations side by side, the first with no free
/// block before it, are freed in any order. A request for their three sizes
/// and two headers more, which only the whole of what they gave back can
/// hold, is then served at the address of the first, provided no earlier
/// block fits it.
pub proof fn theorem_three_coalesce(layout: Layout, i: int, a: nat, b: nat, c: nat)
    requires
        layout.valid(),
        layout.is_live(i, a),
        layout.is_live(i + 1, b),
        layout.is_live(i + 2, c),
        !layout.merges_prev(i),
        forall|j: int|
            0 <= j < i ==> !(#[trigger] layout.blocks[j]).fits(
                layout.blocks[i].extent + layout.blocks[i + 1].extent + layout.blocks[i + 2].extent + 2
                    * HEADER_SIZE as nat,
            ),
    ensures
        ({
            let whole = layout.blocks[i].extent + layout.blocks[i + 1].extent + layout.blocks[i + 2].extent + 2
                * HEADER_SIZE as nat;
            &&& after_three_frees(layout, a, b, c).alloc_address(whole) == Some(a)
            &&& after_three_frees(layout, a, c, b).alloc_address(whole) == Some(a)
            &&& after_three_frees(layout, b, a, c).alloc_address(whole) == Some(a)
            &&& after_three_frees(layout, b, c, a).alloc_address(whole) == Some(a)
            &&& after_three_frees(layout, c, a, b).alloc_address(whole) == Some(a)
            &&& after_three_frees(layout, c, b, a).alloc_address(whole) == Some(a)
        }),
{
    let whole = layout.blocks[i].extent + layout.blocks[i + 1].extent + layout.blocks[i + 2].extent + 2
        * HEADER_SIZE as nat;
    let two = lemma_two_coalesce(layout, i, a, b);
    // The third goes: what the first two left absorbs it, and it may gain
    // from its right neighbour too.
    assert(two.is_live(i + 1, c));
    two.lemma_live_index_is(i + 1, c);
    two.lemma_release_valid(i + 1);
    two.lemma_release_shape(i + 1);
    let three = two.release(i + 1);
    assert(three.blocks[i] == two.merged(i + 1));
    assert forall|j: int| 0 <= j < i implies !(#[trigger] three.blocks[j]).fits(whole) by {
        assert(three.blocks[j] == two.blocks[j]);
        assert(two.blocks[j] == layout.blocks[j]);
    }
    assert(three.is_first_fit(i, whole));
    three.lemma_first_fit_is(i, whole);
    assert(three == after_three_frees(layout, a, b, c));
    theorem_free_order_three(layout, a, b, c);
}

} // verus!
