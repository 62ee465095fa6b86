//! The boundary-tag heap itself: first-fit allocation by a linear walk over
//! the header chain, and freeing with merging of free neighbours.
//!
//! The heap does not own the bytes of its region. Whoever owns them lends
//! them to each call; between calls they may write to what was allocated to
//! them, and to nothing else.
use crate::header::{header_at, lemma_header_at_local, Header, HEADER_SIZE};
use crate::layout::{Block, Layout};
use crate::region::Region;
use vstd::prelude::*;

verus! {

/// Why a request to the heap was turned down.
#[derive(Clone, Copy, Debug, PartialEq, Eq, Structural)]
pub enum AllocError {
    /// No free block, in address order, has room for the request and the two
    /// headers of the remainder.
    OutOfMemory,
    /// The address does not stand for an allocated block: it was never handed
    /// out, or it was freed already.
    InvalidFree,
    /// The region is too short for one block or runs past the last address,
    /// or the bytes lent are not as many as the region has.
    InvalidRegion,
    /// The headers stored in the region do not form a chain: the two headers
    /// of a block disagree, a sentinel flag is missing or misplaced, the
    /// blocks do not add up to the region, or two neighbours are both free.
    CorruptHeader,
}

/// One block as a caller sees it.
#[derive(Clone, Copy, Debug, PartialEq, Eq, Structural)]
pub struct Span {
    /// Address of the first byte after the block's front header.
    pub address: usize,
    /// Bytes between the block's two headers.
    pub extent: usize,
    /// Whether the block is allocated.
    pub occupied: bool,
}

impl Span {
    /// The span that stands for `block` in a region at `base`.
    pub open spec fn of(base: nat, block: Block) -> Span {
        Span {
            address: (base + block.payload()) as usize,
            extent: block.extent as usize,
            occupied: block.occupied,
        }
    }
}

/// A heap over one fixed region. Its only bookkeeping is the headers stored
/// in the region itself.
pub struct Allocator {
    base: usize,
    length: usize,
    blocks: Ghost<Seq<Block>>,
}

/// The two headers that block `i` of `blocks` must have in `mem`. Both carry
/// the block's extent and state; the sentinel flag marks the front header of
/// the first block and the back header of the last, and no other.
pub open spec fn tags_match(mem: Seq<u8>, blocks: Seq<Block>, i: int) -> bool {
    let b = blocks[i];
    &&& header_at(mem, b.start as int) == Header {
        is_sentinel: i == 0,
        is_occupied: b.occupied,
        extent: b.extent as usize,
    }
    &&& header_at(mem, b.back() as int) == Header {
        is_sentinel: i == blocks.len() - 1,
        is_occupied: b.occupied,
        extent: b.extent as usize,
    }
}

/// Writes the two headers of the block that starts at `start`: the only way
/// the heap ever writes to its region. No byte outside the two headers
/// changes.
fn tag_block(mem: &mut [u8], start: usize, extent: usize, occupied: bool, first: bool, last: bool)
    requires
        start + extent + 2 * HEADER_SIZE <= old(mem).len(),
    ensures
        final(mem)@.len() == old(mem)@.len(),
        header_at(final(mem)@, start as int) == (Header { is_sentinel: first, is_occupied: occupied, extent }),
        header_at(final(mem)@, start + HEADER_SIZE + extent) == (Header {
            is_sentinel: last,
            is_occupied: occupied,
            extent,
        }),
        forall|other: int|
            0 <= other && other + HEADER_SIZE <= old(mem)@.len() && (other + HEADER_SIZE <= start || start
                + extent + 2 * HEADER_SIZE <= other) ==> #[trigger] header_at(final(mem)@, other)
                == header_at(old(mem)@, other),
        forall|k: int|
            0 <= k < old(mem)@.len() && !(start <= k < start + HEADER_SIZE) && !(start + HEADER_SIZE + extent
                <= k < start + extent + 2 * HEADER_SIZE) ==> #[trigger] final(mem)@[k] == old(mem)@[k],
{
    let front = Header { is_sentinel: first, is_occupied: occupied, extent };
    let back = Header { is_sentinel: last, is_occupied: occupied, extent };
    front.store(mem, start);
    back.store(mem, start + HEADER_SIZE + extent);
}

/// Replacing blocks `lo..=hi` of a chain by `fresh` new blocks over the same
/// bytes keeps every other block's headers: where the headers outside that
/// span are untouched and the new blocks carry their tags, all blocks do.
proof fn lemma_retag(before: Layout, after: Layout, mem0: Seq<u8>, mem1: Seq<u8>, lo: int, hi: int, fresh: int)
    requires
        before.valid(),
        0 <= lo <= hi < before.blocks.len(),
        fresh >= 1,
        mem0.len() == before.length,
        mem1.len() == before.length,
        after.blocks.len() == before.blocks.len() - (hi - lo + 1) + fresh,
        forall|k: int| 0 <= k < lo ==> #[trigger] after.blocks[k] == before.blocks[k],
        forall|k: int|
            lo + fresh <= k < after.blocks.len() ==> #[trigger] after.blocks[k] == before.blocks[k - fresh + (hi
                - lo + 1)],
        forall|k: int| 0 <= k < before.blocks.len() ==> tags_match(mem0, before.blocks, k),
        forall|k: int| lo <= k < lo + fresh ==> tags_match(mem1, after.blocks, k),
        forall|other: int|
            0 <= other && other + HEADER_SIZE <= before.length && (other + HEADER_SIZE <= before.blocks[lo].start
                || before.blocks[hi].end() <= other) ==> #[trigger] header_at(mem1, other) == header_at(
                mem0,
                other,
            ),
    ensures
        forall|k: int| 0 <= k < after.blocks.len() ==> tags_match(mem1, after.blocks, k),
{
    assert forall|k: int| 0 <= k < after.blocks.len() implies tags_match(mem1, after.blocks, k) by {
        if k < lo {
            assert(after.blocks[k] == before.blocks[k]);
            assert(tags_match(mem0, before.blocks, k));
            before.lemma_ordered(k, lo);
            before.lemma_within(k);
        } else if k >= lo + fresh {
            let origin = k - fresh + (hi - lo + 1);
            assert(after.blocks[k] == before.blocks[origin]);
            assert(tags_match(mem0, before.blocks, origin));
            before.lemma_ordered(hi, origin);
            before.lemma_within(origin);
        }
    }
}

/// A block was tagged in `mem0`, giving `mem1`: what `tag_block` promises.
spec fn tagged(mem0: Seq<u8>, mem1: Seq<u8>, block: Block, first: bool, last: bool) -> bool {
    &&& mem1.len() == mem0.len()
    &&& header_at(mem1, block.start as int) == (Header {
        is_sentinel: first,
        is_occupied: block.occupied,
        extent: block.extent as usize,
    })
    &&& header_at(mem1, block.back() as int) == (Header {
        is_sentinel: last,
        is_occupied: block.occupied,
        extent: block.extent as usize,
    })
    &&& forall|other: int|
        0 <= other && other + HEADER_SIZE <= mem0.len() && (other + HEADER_SIZE <= block.start || block.end()
            <= other) ==> #[trigger] header_at(mem1, other) == header_at(mem0, other)
    &&& forall|k: int|
        0 <= k < mem0.len() && !(block.start <= k < block.payload()) && !(block.back() <= k < block.end())
            ==> #[trigger] mem1[k] == mem0[k]
}

/// Tagging the two halves of a free block that fits describes the chain
/// after the split, and writes headers of that chain only.
proof fn lemma_split_tagged(before: Layout, mem0: Seq<u8>, mem1: Seq<u8>, mem2: Seq<u8>, i: int, size: nat)
    requires
        describes(mem0, before),
        0 <= i < before.blocks.len(),
        before.blocks[i].fits(size),
        tagged(mem0, mem1, before.split(i, size).blocks[i], i == 0, false),
        tagged(mem1, mem2, before.split(i, size).blocks[i + 1], false, i == before.blocks.len() - 1),
    ensures
        describes(mem2, before.split(i, size)),
        forall|k: int|
            0 <= k < mem0.len() && #[trigger] mem2[k] != mem0[k] ==> before.split(i, size).is_tag_byte(k),
{
    let after = before.split(i, size);
    before.lemma_within(i);
    before.lemma_split_valid(i, size);
    assert(tags_match(mem2, after.blocks, i));
    assert(tags_match(mem2, after.blocks, i + 1));
    lemma_retag(before, after, mem0, mem2, i, i, 2);
    assert forall|k: int| 0 <= k < mem0.len() && #[trigger] mem2[k] != mem0[k] implies after.is_tag_byte(k) by {
        if mem1[k] != mem0[k] {
            assert(after.tags(i, k));
        } else {
            assert(after.tags(i + 1, k));
        }
    }
}

/// Tagging the block that a free leaves behind describes the chain after
/// the free, and writes headers of that chain only.
proof fn lemma_release_tagged(before: Layout, mem0: Seq<u8>, mem1: Seq<u8>, i: int)
    requires
        describes(mem0, before),
        0 <= i < before.blocks.len(),
        before.blocks[i].occupied,
        tagged(
            mem0,
            mem1,
            before.merged(i),
            before.merge_lo(i) == 0,
            before.merge_hi(i) == before.blocks.len() - 1,
        ),
    ensures
        describes(mem1, before.release(i)),
        forall|k: int| 0 <= k < mem0.len() && #[trigger] mem1[k] != mem0[k] ==> before.release(i).is_tag_byte(k),
{
    let after = before.release(i);
    let lo = before.merge_lo(i);
    before.lemma_release_valid(i);
    before.lemma_release_shape(i);
    assert(tags_match(mem1, after.blocks, lo));
    lemma_retag(before, after, mem0, mem1, lo, before.merge_hi(i), 1);
    assert forall|k: int| 0 <= k < mem0.len() && #[trigger] mem1[k] != mem0[k] implies after.is_tag_byte(k) by {
        assert(after.tags(lo, k));
    }
}

/// The stored headers of `mem` say what `layout` says: the bytes are the
/// region's, the chain is valid, and every block carries its two tags.
pub open spec fn describes(mem: Seq<u8>, layout: Layout) -> bool {
    &&& mem.len() == layout.length
    &&& layout.valid()
    &&& forall|i: int| 0 <= i < layout.blocks.len() ==> tags_match(mem, layout.blocks, i)
}

/// The headers stored in `mem` form a valid chain over a region of `length`
/// bytes at `base`.
pub open spec fn intact(mem: Seq<u8>, base: nat, length: nat) -> bool {
    exists|blocks: Seq<Block>| describes(mem, Layout { base, length, blocks })
}

/// Two chains that the same bytes describe agree block by block.
proof fn lemma_same_chain(mem: Seq<u8>, a: Layout, b: Layout, k: int)
    requires
        describes(mem, a),
        describes(mem, b),
        mem.len() <= usize::MAX,
        0 <= k <= a.blocks.len(),
    ensures
        k <= b.blocks.len(),
        forall|j: int| 0 <= j < k ==> a.blocks[j] == b.blocks[j],
    decreases k,
{
    if k > 0 {
        let t = k - 1;
        lemma_same_chain(mem, a, b, t);
        a.lemma_within(t);
        if t > 0 {
            assert(a.blocks[t - 1] == b.blocks[t - 1]);
            assert(a.blocks[t - 1].end() == a.blocks[t].start);
            if t < b.blocks.len() {
                assert(b.blocks[t - 1].end() == b.blocks[t].start);
            }
        }
        b.lemma_within(t);
        assert(tags_match(mem, a.blocks, t));
        assert(tags_match(mem, b.blocks, t));
    }
}

/// The chain is the headers and nothing besides: the bytes of a region
/// describe one chain at most.
pub proof fn theorem_chain_is_the_bytes(mem: Seq<u8>, a: Layout, b: Layout)
    requires
        describes(mem, a),
        describes(mem, b),
        mem.len() <= usize::MAX,
    ensures
        a.blocks == b.blocks,
{
    lemma_same_chain(mem, a, b, a.blocks.len() as int);
    lemma_same_chain(mem, b, a, b.blocks.len() as int);
    assert(a.blocks =~= b.blocks);
}

impl View for Allocator {
    type V = Layout;

    closed spec fn view(&self) -> Layout {
        Layout { base: self.base as nat, length: self.length as nat, blocks: self.blocks@ }
    }
}

impl Allocator {
    /// The heap's invariant, over the bytes `mem` of its region: the region
    /// has addresses, the chain of blocks covers it exactly, and the headers
    /// stored in it say what the chain says. The two headers of a block carry
    /// the same extent; the headers at the two ends of the region, and they
    /// alone, carry the sentinel flag.
    pub open spec fn governs(&self, mem: Seq<u8>) -> bool {
        &&& self@.base + self@.length <= usize::MAX
        &&& describes(mem, self@)
    }

    /// A heap without a region. Every request to it is turned down until
    /// `init` hands it one.
    pub fn new() -> (heap: Allocator)
        ensures
            heap@ == Layout::unset(),
            heap.governs(Seq::empty()),
    {
        Allocator { base: 0, length: 0, blocks: Ghost(Seq::empty()) }
    }

    /// Takes over `region`, whose bytes are `mem`, and lays one free block
    /// over all of it: a header at each end, both with the sentinel flag,
    /// both free, both with the extent of the region less the two headers.
    /// Whatever the heap held before is forgotten. A region that cannot carry
    /// a heap, or bytes that are not as many as the region has, are refused;
    /// then neither the heap nor the bytes change.
    pub fn init(&mut self, region: Region, mem: &mut [u8]) -> (outcome: Result<(), AllocError>)
        ensures
            match outcome {
                Ok(()) => {
                    &&& region.usable()
                    &&& old(mem)@.len() == region.length
                    &&& final(self)@ == Layout::fresh(region.base as nat, region.length as nat)
                    &&& final(self).governs(final(mem)@)
                },
                Err(e) => {
                    &&& e == AllocError::InvalidRegion
                    &&& !(region.usable() && old(mem)@.len() == region.length)
                    &&& *final(self) == *old(self)
                    &&& final(mem)@ == old(mem)@
                },
            },
    {
        if !region.is_usable() || mem.len() != region.length {
            return Err(AllocError::InvalidRegion);
        }
        let extent = region.length - 2 * HEADER_SIZE;
        tag_block(mem, 0, extent, false, true, true);
        self.base = region.base;
        self.length = region.length;
        proof {
            self.blocks@ = seq![Block { start: 0, extent: extent as nat, occupied: false }];
        }
        Ok(())
    }

    /// Walks the chain from the first header, in address order, and stops at
    /// the first block that fits `size`. The walk ends without a block at the
    /// back header that carries the sentinel flag: the end of the region.
    fn find_fit(&self, mem: &[u8], size: usize) -> (found: (Option<usize>, Ghost<int>))
        requires
            self.governs(mem@),
        ensures
            match found.0 {
                Some(pos) => self@.is_first_fit(found.1@, size as nat) && pos == self@.blocks[found.1@].start,
                None => self@.first_fit(size as nat) is None,
            },
    {
        if self.length == 0 {
            proof {
                self@.lemma_first_fit_none(size as nat);
            }
            return (None, Ghost(0));
        }
        let mut pos: usize = 0;
        let ghost mut i: int = 0;
        loop
            invariant
                self.governs(mem@),
                0 <= i < self.blocks@.len(),
                pos == self.blocks@[i].start,
                forall|j: int| 0 <= j < i ==> !(#[trigger] self.blocks@[j]).fits(size as nat),
            decreases self.blocks@.len() - i,
        {
            proof {
                self@.lemma_within(i);
                assert(tags_match(mem@, self.blocks@, i));
            }
            let front = Header::load(mem, pos);
            if !front.is_occupied && front.extent >= 2 * HEADER_SIZE && front.extent - 2 * HEADER_SIZE >= size {
                return (Some(pos), Ghost(i));
            }
            let back = Header::load(mem, pos + HEADER_SIZE + front.extent);
            if back.is_sentinel {
                proof {
                    self@.lemma_first_fit_none(size as nat);
                }
                return (None, Ghost(i));
            }
            pos = pos + front.extent + 2 * HEADER_SIZE;
            proof {
                i = i + 1;
            }
        }
    }

    /// Cuts `size` bytes from the front of the free block at `pos`: the front
    /// header becomes that of the allocated block, a back header closes it, a
    /// front header opens the remainder, and the old back header now closes
    /// the remainder. Both outer headers keep their sentinel flag.
    fn carve(&mut self, mem: &mut [u8], pos: usize, Ghost(i): Ghost<int>, size: usize)
        requires
            old(self).governs(old(mem)@),
            0 <= i < old(self)@.blocks.len(),
            old(self)@.blocks[i].fits(size as nat),
            pos == old(self)@.blocks[i].start,
        ensures
            final(self).governs(final(mem)@),
            final(self)@ == old(self)@.split(i, size as nat),
            forall|k: int|
                0 <= k < old(mem)@.len() && #[trigger] final(mem)@[k] != old(mem)@[k] ==> final(self)@.is_tag_byte(
                    k,
                ),
    {
        proof {
            self@.lemma_within(i);
            assert(tags_match(mem@, self.blocks@, i));
        }
        let front = Header::load(mem, pos);
        let back = Header::load(mem, pos + HEADER_SIZE + front.extent);
        let rest = front.extent - size - 2 * HEADER_SIZE;
        tag_block(mem, pos, size, true, front.is_sentinel, false);
        let ghost half = mem@;
        tag_block(mem, pos + size + 2 * HEADER_SIZE, rest, false, false, back.is_sentinel);
        proof {
            let before = old(self)@;
            self.blocks@ = before.split(i, size as nat).blocks;
            lemma_split_tagged(before, old(mem)@, half, mem@, i, size as nat);
        }
    }

    /// Allocates `size` bytes from the first block, in address order, that is
    /// free and has room for the request and the two headers of the remainder.
    /// The block is split: its front part is handed out, the rest stays free
    /// (with no bytes at all where the block fitted exactly). Where no block
    /// fits, the request is turned down and nothing changes. The only bytes
    /// written are headers of the chain as it stands afterwards.
    pub fn allocate(&mut self, mem: &mut [u8], size: usize) -> (outcome: Result<usize, AllocError>)
        requires
            old(self).governs(old(mem)@),
        ensures
            final(self).governs(final(mem)@),
            final(self)@ == old(self)@.after_alloc(size as nat),
            match outcome {
                Ok(address) => old(self)@.alloc_address(size as nat) == Some(address as nat),
                Err(e) => {
                    &&& e == AllocError::OutOfMemory
                    &&& old(self)@.alloc_address(size as nat) is None
                    &&& final(mem)@ == old(mem)@
                },
            },
            forall|k: int|
                0 <= k < old(mem)@.len() && #[trigger] final(mem)@[k] != old(mem)@[k] ==> final(self)@.is_tag_byte(
                    k,
                ),
    {
        let (found, Ghost(i)) = self.find_fit(mem, size);
        match found {
            Some(pos) => {
                proof {
                    self@.lemma_first_fit_is(i, size as nat);
                    self@.lemma_within(i);
                }
                self.carve(mem, pos, Ghost(i), size);
                Ok(self.base + pos + HEADER_SIZE)
            },
            None => Err(AllocError::OutOfMemory),
        }
    }

    /// Walks the chain from the first header to the block whose first byte
    /// after the front header has this `address`, and says whether it is
    /// allocated. The walk stops as soon as it has passed the address.
    fn find_live(&self, mem: &[u8], address: usize) -> (found: (Option<usize>, Ghost<int>))
        requires
            self.governs(mem@),
        ensures
            match found.0 {
                Some(pos) => self@.is_live(found.1@, address as nat) && pos == self@.blocks[found.1@].start,
                None => self@.live_index(address as nat) is None,
            },
    {
        if self.length == 0 || address < self.base || address - self.base < HEADER_SIZE {
            proof {
                self@.lemma_live_index_none(address as nat);
            }
            return (None, Ghost(0));
        }
        let target = address - self.base - HEADER_SIZE;
        let mut pos: usize = 0;
        let ghost mut i: int = 0;
        loop
            invariant
                self.governs(mem@),
                0 <= i < self.blocks@.len(),
                pos == self.blocks@[i].start,
                target == address - self.base - HEADER_SIZE,
                forall|j: int| 0 <= j < i ==> (#[trigger] self.blocks@[j]).start < target,
            decreases self.blocks@.len() - i,
        {
            proof {
                self@.lemma_within(i);
                assert(tags_match(mem@, self.blocks@, i));
                assert forall|k: int| i < k < self.blocks@.len() implies (#[trigger] self.blocks@[k]).start
                    > pos by {
                    self@.lemma_ordered(i, k);
                }
            }
            let front = Header::load(mem, pos);
            if pos >= target {
                if pos == target && front.is_occupied {
                    return (Some(pos), Ghost(i));
                }
                proof {
                    self@.lemma_live_index_none(address as nat);
                }
                return (None, Ghost(i));
            }
            let back = Header::load(mem, pos + HEADER_SIZE + front.extent);
            if back.is_sentinel {
                proof {
                    self@.lemma_live_index_none(address as nat);
                }
                return (None, Ghost(i));
            }
            pos = pos + front.extent + 2 * HEADER_SIZE;
            proof {
                i = i + 1;
            }
        }
    }

    /// Looks at the right neighbour of the allocated block at `pos`, unless
    /// the block's own back header is the sentinel: where that neighbour is
    /// free, says what the block gains by absorbing it, and whether the result
    /// is then the last block.
    fn probe_next(&self, mem: &[u8], pos: usize, Ghost(i): Ghost<int>) -> (found: (usize, bool))
        requires
            self.governs(mem@),
            0 <= i < self@.blocks.len(),
            pos == self@.blocks[i].start,
        ensures
            found.0 == self@.gain_next(i),
            found.1 == (self@.merge_hi(i) == self@.blocks.len() - 1),
    {
        proof {
            self@.lemma_within(i);
            assert(tags_match(mem@, self.blocks@, i));
            if i + 1 < self.blocks@.len() {
                self@.lemma_within(i + 1);
                assert(tags_match(mem@, self.blocks@, i + 1));
                assert(self.blocks@[i].end() == self.blocks@[i + 1].start);
            }
        }
        let front = Header::load(mem, pos);
        let back_pos = pos + HEADER_SIZE + front.extent;
        let back = Header::load(mem, back_pos);
        if back.is_sentinel {
            return (0, true);
        }
        let next = Header::load(mem, back_pos + HEADER_SIZE);
        if next.is_occupied {
            return (0, false);
        }
        let next_back = Header::load(mem, back_pos + 2 * HEADER_SIZE + next.extent);
        (next.extent + 2 * HEADER_SIZE, next_back.is_sentinel)
    }

    /// Looks at the left neighbour of the allocated block at `pos`, unless the
    /// block's own front header is the sentinel. The neighbour is found
    /// through the back header that ends just before `pos`. Where it is free,
    /// says where the merged block starts, what it gains, and whether it is
    /// then the first block.
    fn probe_prev(&self, mem: &[u8], pos: usize, Ghost(i): Ghost<int>) -> (found: (usize, usize, bool))
        requires
            self.governs(mem@),
            0 <= i < self@.blocks.len(),
            pos == self@.blocks[i].start,
        ensures
            found.0 == self@.blocks[self@.merge_lo(i)].start,
            found.1 == self@.gain_prev(i),
            found.2 == (self@.merge_lo(i) == 0),
    {
        proof {
            self@.lemma_within(i);
            assert(tags_match(mem@, self.blocks@, i));
            if i > 0 {
                self@.lemma_within(i - 1);
                assert(tags_match(mem@, self.blocks@, i - 1));
                assert(self.blocks@[i - 1].end() == self.blocks@[i].start);
            }
        }
        let front = Header::load(mem, pos);
        if front.is_sentinel {
            return (pos, 0, true);
        }
        let prev_back = Header::load(mem, pos - HEADER_SIZE);
        let prev_start = pos - 2 * HEADER_SIZE - prev_back.extent;
        let prev_front = Header::load(mem, prev_start);
        if prev_front.is_occupied {
            return (pos, 0, false);
        }
        (prev_start, prev_back.extent + 2 * HEADER_SIZE, prev_front.is_sentinel)
    }

    /// Frees the allocated block at `pos` and merges it with each neighbour
    /// that is free. Only the two outermost headers of the result are written;
    /// what lies between them is never read again.
    fn merge(&mut self, mem: &mut [u8], pos: usize, Ghost(i): Ghost<int>)
        requires
            old(self).governs(old(mem)@),
            0 <= i < old(self)@.blocks.len(),
            old(self)@.blocks[i].occupied,
            pos == old(self)@.blocks[i].start,
        ensures
            final(self).governs(final(mem)@),
            final(self)@ == old(self)@.release(i),
            forall|k: int|
                0 <= k < old(mem)@.len() && #[trigger] final(mem)@[k] != old(mem)@[k] ==> final(self)@.is_tag_byte(
                    k,
                ),
    {
        proof {
            self@.lemma_within(i);
            assert(tags_match(mem@, self.blocks@, i));
            self@.lemma_release_valid(i);
            self@.lemma_within(self@.merge_hi(i));
        }
        let front = Header::load(mem, pos);
        let (gain_next, last) = self.probe_next(mem, pos, Ghost(i));
        let (start, gain_prev, first) = self.probe_prev(mem, pos, Ghost(i));
        let extent = front.extent + gain_next + gain_prev;
        tag_block(mem, start, extent, false, first, last);
        proof {
            let before = old(self)@;
            self.blocks@ = before.release(i).blocks;
            lemma_release_tagged(before, old(mem)@, mem@, i);
        }
    }

    /// Frees the block that `address` was handed out for and merges it with
    /// each neighbour that is free, so that free space is never split over
    /// two neighbouring blocks. An address that stands for no allocated block
    /// (never handed out, or freed already) is reported and nothing changes.
    /// The only bytes written are headers of the chain as it stands
    /// afterwards.
    pub fn deallocate(&mut self, mem: &mut [u8], address: usize) -> (outcome: Result<(), AllocError>)
        requires
            old(self).governs(old(mem)@),
        ensures
            final(self).governs(final(mem)@),
            final(self)@ == old(self)@.after_dealloc(address as nat),
            match outcome {
                Ok(()) => old(self)@.live_index(address as nat) is Some,
                Err(e) => {
                    &&& e == AllocError::InvalidFree
                    &&& old(self)@.live_index(address as nat) is None
                    &&& final(mem)@ == old(mem)@
                },
            },
            forall|k: int|
                0 <= k < old(mem)@.len() && #[trigger] final(mem)@[k] != old(mem)@[k] ==> final(self)@.is_tag_byte(
                    k,
                ),
    {
        let (found, Ghost(i)) = self.find_live(mem, address);
        match found {
            Some(pos) => {
                proof {
                    self@.lemma_live_index_is(i, address as nat);
                }
                self.merge(mem, pos, Ghost(i));
                Ok(())
            },
            None => Err(AllocError::InvalidFree),
        }
    }

    /// Address of the first byte of the region.
    pub fn base(&self) -> (base: usize)
        ensures
            base == self@.base,
    {
        self.base
    }

    /// Number of bytes in the region.
    pub fn length(&self) -> (length: usize)
        ensures
            length == self@.length,
    {
        self.length
    }

    /// Lists the blocks in address order, as read from the headers.
    pub fn spans(&self, mem: &[u8]) -> (list: Vec<Span>)
        requires
            self.governs(mem@),
        ensures
            list@.len() == self@.blocks.len(),
            forall|k: int| 0 <= k < list@.len() ==> #[trigger] list@[k] == Span::of(self@.base, self@.blocks[k]),
            forall|k: int|
                0 <= k < list@.len() ==> (#[trigger] list@[k]).address == self@.address(k) && list@[k].extent
                    == self@.blocks[k].extent,
    {
        let mut list: Vec<Span> = Vec::new();
        if self.length == 0 {
            return list;
        }
        let mut pos: usize = 0;
        let ghost mut i: int = 0;
        loop
            invariant
                self.governs(mem@),
                0 <= i < self.blocks@.len(),
                pos == self.blocks@[i].start,
                list@.len() == i,
                forall|k: int| 0 <= k < i ==> #[trigger] list@[k] == Span::of(self@.base, self@.blocks[k]),
                forall|k: int|
                    0 <= k < i ==> (#[trigger] list@[k]).address == self@.address(k) && list@[k].extent
                        == self@.blocks[k].extent,
            decreases self.blocks@.len() - i,
        {
            proof {
                self@.lemma_within(i);
                assert(tags_match(mem@, self.blocks@, i));
            }
            let front = Header::load(mem, pos);
            let back = Header::load(mem, pos + HEADER_SIZE + front.extent);
            list.push(
                Span { address: self.base + pos + HEADER_SIZE, extent: front.extent, occupied: front.is_occupied },
            );
            if back.is_sentinel {
                return list;
            }
            pos = pos + front.extent + 2 * HEADER_SIZE;
            proof {
                i = i + 1;
            }
        }
    }

    /// Checks the headers stored in `mem`, block by block from the first:
    /// the front header of the first block, and no other front header, is a
    /// sentinel; each back header lies inside the region and agrees with its
    /// front header on extent and state; the back header that ends the
    /// region, and no other, is a sentinel; no two neighbours are both free.
    /// The check passes exactly where the headers form a valid chain over
    /// the region, as they do in every region that the heap governs.
    pub fn audit(&self, mem: &[u8]) -> (outcome: Result<(), AllocError>)
        ensures
            outcome is Ok <==> intact(mem@, self@.base, self@.length),
            outcome is Err ==> outcome == Err::<(), AllocError>(AllocError::CorruptHeader),
            self.governs(mem@) ==> outcome is Ok,
    {
        let ghost base = self@.base;
        let ghost length = self@.length;
        let ghost has = intact(mem@, base, length);
        let ghost own = Layout {
            base,
            length,
            blocks: choose|blocks: Seq<Block>| describes(mem@, Layout { base, length, blocks }),
        };
        proof {
            if self.governs(mem@) {
                assert(describes(mem@, Layout { base, length, blocks: self@.blocks }));
            }
        }
        if mem.len() != self.length {
            return Err(AllocError::CorruptHeader);
        }
        if self.length == 0 {
            proof {
                assert(describes(mem@, Layout { base, length, blocks: Seq::empty() }));
            }
            return Ok(());
        }
        let mut pos: usize = 0;
        let mut after_free = false;
        let ghost mut seen: Seq<Block> = Seq::empty();
        loop
            invariant
                mem.len() == self.length,
                self.length > 0,
                base == self@.base,
                length == self@.length,
                own.base == base,
                own.length == length,
                has == intact(mem@, base, length),
                has ==> describes(mem@, own),
                pos < self.length,
                pos == 0 <==> seen.len() == 0,
                seen.len() == 0 ==> !after_free,
                seen.len() > 0 ==> seen[0].start == 0 && seen.last().end() == pos && after_free
                    == !seen.last().occupied,
                forall|i: int, j: int|
                    #![trigger seen[i], seen[j]]
                    0 <= i && j == i + 1 && j < seen.len() ==> seen[i].end() == seen[j].start && (
                    seen[i].occupied || seen[j].occupied),
                forall|i: int|
                    0 <= i < seen.len() ==> header_at(mem@, (#[trigger] seen[i]).start as int) == (Header {
                        is_sentinel: i == 0,
                        is_occupied: seen[i].occupied,
                        extent: seen[i].extent as usize,
                    }) && header_at(mem@, seen[i].back() as int) == (Header {
                        is_sentinel: false,
                        is_occupied: seen[i].occupied,
                        extent: seen[i].extent as usize,
                    }) && seen[i].extent <= usize::MAX,
                has ==> seen.len() < own.blocks.len() && own.blocks[seen.len() as int].start == pos
                    && forall|i: int| 0 <= i < seen.len() ==> #[trigger] seen[i] == own.blocks[i],
            decreases self.length - pos,
        {
            let ghost n = seen.len() as int;
            proof {
                if has {
                    own.lemma_within(n);
                    assert(tags_match(mem@, own.blocks, n));
                    if n > 0 {
                        assert(seen[n - 1] == own.blocks[n - 1]);
                        assert(own.blocks[n - 1].occupied || own.blocks[n].occupied);
                    }
                    if n + 1 < own.blocks.len() {
                        own.lemma_within(n + 1);
                        assert(own.blocks[n].end() == own.blocks[n + 1].start);
                    }
                }
            }
            if self.length - pos < 2 * HEADER_SIZE {
                return Err(AllocError::CorruptHeader);
            }
            let front = Header::load(mem, pos);
            if front.is_sentinel != (pos == 0) || front.extent > self.length - pos - 2 * HEADER_SIZE {
                return Err(AllocError::CorruptHeader);
            }
            if after_free && !front.is_occupied {
                return Err(AllocError::CorruptHeader);
            }
            let back_pos = pos + HEADER_SIZE + front.extent;
            let back = Header::load(mem, back_pos);
            let end = back_pos + HEADER_SIZE;
            if back.extent != front.extent || back.is_occupied != front.is_occupied || back.is_sentinel != (end
                == self.length) {
                return Err(AllocError::CorruptHeader);
            }
            let ghost block = Block { start: pos as nat, extent: front.extent as nat, occupied: front.is_occupied };
            if end == self.length {
                proof {
                    let blocks = seen.push(block);
                    assert forall|i: int| 0 <= i < blocks.len() implies tags_match(mem@, blocks, i) by {
                        if i < n {
                            assert(blocks[i] == seen[i]);
                        }
                    }
                    assert forall|i: int, j: int|
                        #![trigger blocks[i], blocks[j]]
                        0 <= i && j == i + 1 && j < blocks.len() implies blocks[i].end() == blocks[j].start && (
                        blocks[i].occupied || blocks[j].occupied) by {
                        assert(blocks[i] == seen[i]);
                        if j < n {
                            assert(blocks[j] == seen[j]);
                        }
                    }
                    assert(describes(mem@, Layout { base, length, blocks }));
                }
                return Ok(());
            }
            proof {
                let grown = seen.push(block);
                assert forall|i: int, j: int|
                    #![trigger grown[i], grown[j]]
                    0 <= i && j == i + 1 && j < grown.len() implies grown[i].end() == grown[j].start && (
                    grown[i].occupied || grown[j].occupied) by {
                    assert(grown[i] == seen[i]);
                    if j < n {
                        assert(grown[j] == seen[j]);
                    }
                }
                assert forall|i: int| 0 <= i < grown.len() implies header_at(
                    mem@,
                    (#[trigger] grown[i]).start as int,
                ) == (Header { is_sentinel: i == 0, is_occupied: grown[i].occupied, extent: grown[i].extent as usize })
                    && header_at(mem@, grown[i].back() as int) == (Header {
                    is_sentinel: false,
                    is_occupied: grown[i].occupied,
                    extent: grown[i].extent as usize,
                }) && grown[i].extent <= usize::MAX by {
                    if i < n {
                        assert(grown[i] == seen[i]);
                    }
                }
                if has {
                    assert(own.blocks[n] == block);
                    assert forall|i: int| 0 <= i < grown.len() implies #[trigger] grown[i] == own.blocks[i] by {
                        if i < n {
                            assert(grown[i] == seen[i]);
                        }
                    }
                }
                seen = grown;
            }
            after_free = !front.is_occupied;
            pos = end;
        }
    }

    /// The bytes between the headers are the callers': whatever is written
    /// to the region outside the headers of the chain, the heap still governs
    /// it.
    pub proof fn theorem_payload_is_free(&self, before: Seq<u8>, after: Seq<u8>)
        requires
            self.governs(before),
            after.len() == before.len(),
            forall|k: int| 0 <= k < before.len() && after[k] != before[k] ==> !self@.is_tag_byte(k),
        ensures
            self.governs(after),
    {
        let layout = self@;
        assert forall|i: int| 0 <= i < layout.blocks.len() implies tags_match(after, layout.blocks, i) by {
            let b = layout.blocks[i];
            layout.lemma_within(i);
            assert(tags_match(before, layout.blocks, i));
            assert forall|k: int| b.start <= k < b.start + HEADER_SIZE implies after[k] == before[k] by {
                assert(layout.tags(i, k));
            }
            assert forall|k: int| b.back() <= k < b.back() + HEADER_SIZE implies after[k] == before[k] by {
                assert(layout.tags(i, k));
            }
            lemma_header_at_local(after, before, b.start as int);
            lemma_header_at_local(after, before, b.back() as int);
        }
    }
}

} // verus!
