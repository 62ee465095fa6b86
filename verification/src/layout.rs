//! The mathematical model of a heap: the region cut into a gapless chain of
//! blocks, and what allocating and freeing do to that chain.
use crate::header::HEADER_SIZE;
use vstd::prelude::*;

verus! {

/// One block of the chain: a front header, `extent` bytes, a back header.
pub ghost struct Block {
    /// Offset of the front header from the start of the region.
    pub start: nat,
    /// Bytes between the two headers.
    pub extent: nat,
    /// Whether the block is allocated.
    pub occupied: bool,
}

impl Block {
    /// Offset of the first byte after the front header: what a caller is handed.
    pub open spec fn payload(self) -> nat {
        self.start + HEADER_SIZE as nat
    }

    /// Offset of the back header.
    pub open spec fn back(self) -> nat {
        self.start + HEADER_SIZE as nat + self.extent
    }

    /// Offset of the first byte after the back header.
    pub open spec fn end(self) -> nat {
        self.start + self.extent + 2 * HEADER_SIZE as nat
    }

    /// Bytes of the region that the block takes up, headers included.
    pub open spec fn footprint(self) -> nat {
        self.extent + 2 * HEADER_SIZE as nat
    }

    /// Whether a request for `size` bytes can be carved out of this block: it
    /// is free and has room for the request and the two headers of the
    /// remainder.
    pub open spec fn fits(self, size: nat) -> bool {
        !self.occupied && self.extent >= size + 2 * HEADER_SIZE as nat
    }
}

/// A region and the chain of blocks it is cut into.
pub ghost struct Layout {
    /// Address of the first byte of the region.
    pub base: nat,
    /// Number of bytes in the region.
    pub length: nat,
    /// The blocks, in address order.
    pub blocks: Seq<Block>,
}

impl Layout {
    /// The layout before any region was handed over: no bytes, no blocks.
    pub open spec fn unset() -> Layout {
        Layout { base: 0, length: 0, blocks: Seq::empty() }
    }

    /// The layout right after initialisation: one free block over the whole
    /// region.
    pub open spec fn fresh(base: nat, length: nat) -> Layout
        recommends
            length >= 2 * HEADER_SIZE,
    {
        Layout {
            base,
            length,
            blocks: seq![Block { start: 0, extent: (length - 2 * HEADER_SIZE) as nat, occupied: false }],
        }
    }

    /// Each block starts where the one before it ends.
    pub open spec fn chained(self) -> bool {
        forall|i: int, j: int|
            #![trigger self.blocks[i], self.blocks[j]]
            0 <= i && j == i + 1 && j < self.blocks.len() ==> self.blocks[i].end() == self.blocks[j].start
    }

    /// No two neighbours are both free.
    pub open spec fn coalesced(self) -> bool {
        forall|i: int, j: int|
            #![trigger self.blocks[i], self.blocks[j]]
            0 <= i && j == i + 1 && j < self.blocks.len() ==> self.blocks[i].occupied
                || self.blocks[j].occupied
    }

    /// The chain covers the region exactly, without gap or overlap, and free
    /// space is never split over two neighbouring blocks.
    pub open spec fn valid(self) -> bool {
        &&& if self.blocks.len() == 0 {
            self.length == 0
        } else {
            self.blocks[0].start == 0 && self.blocks.last().end() == self.length
        }
        &&& self.chained()
        &&& self.coalesced()
    }

    /// Byte `k` of the region lies in one of the two headers of block `i`.
    pub open spec fn tags(self, i: int, k: int) -> bool {
        let b = self.blocks[i];
        b.start <= k < b.payload() || b.back() <= k < b.end()
    }

    /// Byte `k` of the region lies in a header of the chain.
    pub open spec fn is_tag_byte(self, k: int) -> bool {
        exists|i: int| 0 <= i < self.blocks.len() && self.tags(i, k)
    }

    /// Byte `k` of the region lies between the two headers of block `i`.
    pub open spec fn holds(self, i: int, k: int) -> bool {
        self.blocks[i].payload() <= k < self.blocks[i].back()
    }

    /// Address that a caller holds for block `i`.
    pub open spec fn address(self, i: int) -> nat {
        self.base + self.blocks[i].payload()
    }

    /// Block `i` is the first, in address order, that fits `size`.
    pub open spec fn is_first_fit(self, i: int, size: nat) -> bool {
        &&& 0 <= i < self.blocks.len()
        &&& self.blocks[i].fits(size)
        &&& forall|j: int| 0 <= j < i ==> !(#[trigger] self.blocks[j]).fits(size)
    }

    /// The block that a request for `size` bytes is served from, if any.
    pub open spec fn first_fit(self, size: nat) -> Option<int> {
        if exists|i: int| self.is_first_fit(i, size) {
            Some(choose|i: int| self.is_first_fit(i, size))
        } else {
            None
        }
    }

    /// The chain after `size` bytes were carved from the front of block `i`:
    /// an occupied block of that extent, then a free block with the rest.
    pub open spec fn split(self, i: int, size: nat) -> Layout {
        let chosen = self.blocks[i];
        let taken = Block { start: chosen.start, extent: size, occupied: true };
        let rest = Block {
            start: taken.end(),
            extent: (chosen.extent - size - 2 * HEADER_SIZE) as nat,
            occupied: false,
        };
        Layout {
            blocks: self.blocks.subrange(0, i) + seq![taken, rest] + self.blocks.subrange(
                i + 1,
                self.blocks.len() as int,
            ),
            ..self
        }
    }

    /// The address that allocating `size` bytes yields; `None` where no block
    /// fits.
    pub open spec fn alloc_address(self, size: nat) -> Option<nat> {
        match self.first_fit(size) {
            Some(i) => Some(self.address(i)),
            None => None,
        }
    }

    /// The layout after allocating `size` bytes; unchanged where no block fits.
    pub open spec fn after_alloc(self, size: nat) -> Layout {
        match self.first_fit(size) {
            Some(i) => self.split(i, size),
            None => self,
        }
    }

    /// Block `i` is allocated and `address` is what its caller holds.
    pub open spec fn is_live(self, i: int, address: nat) -> bool {
        &&& 0 <= i < self.blocks.len()
        &&& self.blocks[i].occupied
        &&& self.address(i) == address
    }

    /// The allocated block that `address` stands for, if any.
    pub open spec fn live_index(self, address: nat) -> Option<int> {
        if exists|i: int| self.is_live(i, address) {
            Some(choose|i: int| self.is_live(i, address))
        } else {
            None
        }
    }

    /// Whether freeing block `i` absorbs its right neighbour.
    pub open spec fn merges_next(self, i: int) -> bool {
        i + 1 < self.blocks.len() && !self.blocks[i + 1].occupied
    }

    /// Whether freeing block `i` lets its left neighbour absorb it.
    pub open spec fn merges_prev(self, i: int) -> bool {
        i > 0 && !self.blocks[i - 1].occupied
    }

    /// The first block that freeing block `i` merges: `i` or its left
    /// neighbour.
    pub open spec fn merge_lo(self, i: int) -> int {
        if self.merges_prev(i) {
            i - 1
        } else {
            i
        }
    }

    /// The last block that freeing block `i` merges: `i` or its right
    /// neighbour.
    pub open spec fn merge_hi(self, i: int) -> int {
        if self.merges_next(i) {
            i + 1
        } else {
            i
        }
    }

    /// What freeing block `i` gains from its right neighbour: where that one
    /// is free, its extent and the two headers that stood between.
    pub open spec fn gain_next(self, i: int) -> nat {
        if self.merges_next(i) {
            self.blocks[i + 1].extent + 2 * HEADER_SIZE as nat
        } else {
            0
        }
    }

    /// What freeing block `i` gains from its left neighbour.
    pub open spec fn gain_prev(self, i: int) -> nat {
        if self.merges_prev(i) {
            self.blocks[i - 1].extent + 2 * HEADER_SIZE as nat
        } else {
            0
        }
    }

    /// The free block that freeing block `i` leaves behind.
    pub open spec fn merged(self, i: int) -> Block {
        Block {
            start: self.blocks[self.merge_lo(i)].start,
            extent: self.blocks[i].extent + self.gain_next(i) + self.gain_prev(i),
            occupied: false,
        }
    }

    /// The chain after block `i` was freed and merged with each neighbour that
    /// is free.
    pub open spec fn release(self, i: int) -> Layout {
        Layout {
            blocks: self.blocks.subrange(0, self.merge_lo(i)) + seq![self.merged(i)] + self.blocks.subrange(
                self.merge_hi(i) + 1,
                self.blocks.len() as int,
            ),
            ..self
        }
    }

    /// The layout after freeing `address`; unchanged where `address` stands
    /// for no allocated block.
    pub open spec fn after_dealloc(self, address: nat) -> Layout {
        match self.live_index(address) {
            Some(i) => self.release(i),
            None => self,
        }
    }

    /// Blocks lie in address order: a block ends before any later one starts.
    pub proof fn lemma_ordered(self, i: int, j: int)
        requires
            self.valid(),
            0 <= i < j < self.blocks.len(),
        ensures
            self.blocks[i].end() <= self.blocks[j].start,
        decreases j - i,
    {
        if j > i + 1 {
            self.lemma_ordered(i, j - 1);
            assert(self.blocks[j - 1].end() == self.blocks[j].start);
        }
    }

    /// Every block lies inside the region.
    pub proof fn lemma_within(self, i: int)
        requires
            self.valid(),
            0 <= i < self.blocks.len(),
        ensures
            self.blocks[i].end() <= self.length,
    {
        let last = self.blocks.len() - 1;
        if i < last {
            self.lemma_ordered(i, last);
        }
    }

    /// At most one block is the first fit.
    pub proof fn lemma_first_fit_is(self, i: int, size: nat)
        requires
            self.is_first_fit(i, size),
        ensures
            self.first_fit(size) == Some(i),
    {
        let k = choose|k: int| self.is_first_fit(k, size);
        assert(self.is_first_fit(k, size));
        if k < i {
            assert(!self.blocks[k].fits(size));
        }
        if i < k {
            assert(!self.blocks[i].fits(size));
        }
    }

    /// Where no block fits, there is no first fit.
    pub proof fn lemma_first_fit_none(self, size: nat)
        requires
            forall|j: int| 0 <= j < self.blocks.len() ==> !(#[trigger] self.blocks[j]).fits(size),
        ensures
            self.first_fit(size) is None,
    {
    }

    /// An address stands for at most one block.
    pub proof fn lemma_live_index_is(self, i: int, address: nat)
        requires
            self.valid(),
            self.is_live(i, address),
        ensures
            self.live_index(address) == Some(i),
    {
        let k = choose|k: int| self.is_live(k, address);
        assert(self.is_live(k, address));
        if k < i {
            self.lemma_ordered(k, i);
        }
        if i < k {
            self.lemma_ordered(i, k);
        }
    }

    /// An address that no allocated block has stands for none.
    pub proof fn lemma_live_index_none(self, address: nat)
        requires
            forall|k: int| 0 <= k < self.blocks.len() ==> !(#[trigger] self.blocks[k]).occupied
                || self.address(k) != address,
        ensures
            self.live_index(address) is None,
    {
    }

    /// Splitting a block that fits keeps the layout valid.
    pub proof fn lemma_split_valid(self, i: int, size: nat)
        requires
            self.valid(),
            0 <= i < self.blocks.len(),
            self.blocks[i].fits(size),
        ensures
            self.split(i, size).valid(),
            self.split(i, size).blocks.len() == self.blocks.len() + 1,
    {
        let after = self.split(i, size);
        assert forall|a: int, b: int|
            #![trigger after.blocks[a], after.blocks[b]]
            0 <= a && b == a + 1 && b < after.blocks.len() implies after.blocks[a].end() == after.blocks[b].start
            && (after.blocks[a].occupied || after.blocks[b].occupied) by {
            if b < i {
                assert(after.blocks[a] == self.blocks[a]);
                assert(after.blocks[b] == self.blocks[b]);
            } else if b == i {
                assert(after.blocks[a] == self.blocks[a]);
                assert(self.blocks[a].end() == self.blocks[i].start);
            } else if a == i {
            } else if a == i + 1 {
                assert(after.blocks[b] == self.blocks[b - 1]);
                assert(self.blocks[i].end() == self.blocks[b - 1].start);
                assert(self.blocks[i].occupied || self.blocks[b - 1].occupied);
            } else {
                assert(after.blocks[a] == self.blocks[a - 1]);
                assert(after.blocks[b] == self.blocks[b - 1]);
            }
        }
        if i + 1 < self.blocks.len() {
            assert(after.blocks.last() == self.blocks.last());
        }
    }

    /// Freeing an allocated block keeps the layout valid.
    pub proof fn lemma_release_valid(self, i: int)
        requires
            self.valid(),
            0 <= i < self.blocks.len(),
            self.blocks[i].occupied,
        ensures
            self.release(i).valid(),
            self.merged(i).end() == self.blocks[self.merge_hi(i)].end(),
    {
        let after = self.release(i);
        let lo = self.merge_lo(i);
        let hi = self.merge_hi(i);
        let shift = hi - lo;
        if lo < i {
            assert(self.blocks[lo].end() == self.blocks[i].start);
        }
        if i < hi {
            assert(self.blocks[i].end() == self.blocks[hi].start);
        }
        assert(after.blocks[lo].end() == self.blocks[hi].end());
        assert forall|a: int, b: int|
            #![trigger after.blocks[a], after.blocks[b]]
            0 <= a && b == a + 1 && b < after.blocks.len() implies after.blocks[a].end() == after.blocks[b].start
            && (after.blocks[a].occupied || after.blocks[b].occupied) by {
            if b < lo {
                assert(after.blocks[a] == self.blocks[a]);
                assert(after.blocks[b] == self.blocks[b]);
            } else if b == lo {
                assert(after.blocks[a] == self.blocks[a]);
                assert(self.blocks[a].end() == self.blocks[lo].start);
                assert(self.blocks[a].occupied || self.blocks[lo].occupied);
            } else if a == lo {
                assert(after.blocks[b] == self.blocks[hi + 1]);
                assert(self.blocks[hi].end() == self.blocks[hi + 1].start);
                assert(self.blocks[hi].occupied || self.blocks[hi + 1].occupied);
            } else {
                assert(after.blocks[a] == self.blocks[a + shift]);
                assert(after.blocks[b] == self.blocks[b + shift]);
            }
        }
        if hi + 1 < self.blocks.len() {
            assert(after.blocks.last() == self.blocks.last());
        }
    }

    /// What freeing an allocated block does to the chain, block by block:
    /// the blocks before the merged one stay, the merged one takes the place
    /// of those it is made of, the blocks after it move up.
    pub proof fn lemma_release_shape(self, i: int)
        requires
            0 <= i < self.blocks.len(),
        ensures
            self.release(i).blocks.len() == self.blocks.len() - (self.merge_hi(i) - self.merge_lo(i)),
            self.release(i).blocks[self.merge_lo(i)] == self.merged(i),
            forall|k: int| 0 <= k < self.merge_lo(i) ==> #[trigger] self.release(i).blocks[k] == self.blocks[k],
            forall|k: int|
                self.merge_lo(i) < k < self.release(i).blocks.len() ==> #[trigger] self.release(i).blocks[k]
                    == self.blocks[k + (self.merge_hi(i) - self.merge_lo(i))],
    {
    }
}

} // verus!
