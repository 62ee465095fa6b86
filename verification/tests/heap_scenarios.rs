use bootkit::allocator::{AllocError, Allocator, Span};
use bootkit::header::HEADER_SIZE;
use bootkit::region::Region;

const H: usize = HEADER_SIZE;

/// A heap together with the bytes of its region.
struct Arena {
    heap: Allocator,
    mem: Vec<u8>,
}

impl Arena {
    fn allocate(&mut self, size: usize) -> Result<usize, AllocError> {
        self.heap.allocate(&mut self.mem, size)
    }

    fn deallocate(&mut self, address: usize) -> Result<(), AllocError> {
        self.heap.deallocate(&mut self.mem, address)
    }

    fn spans(&self) -> Vec<Span> {
        self.heap.spans(&self.mem)
    }

    fn audit(&self) -> Result<(), AllocError> {
        self.heap.audit(&self.mem)
    }

    fn init(&mut self, region: Region) -> Result<(), AllocError> {
        let mut mem = vec![0xA5u8; region.length];
        let outcome = self.heap.init(region, &mut mem);
        if outcome.is_ok() {
            self.mem = mem;
        }
        outcome
    }

    fn base(&self) -> usize {
        self.heap.base()
    }

    fn length(&self) -> usize {
        self.heap.length()
    }

    /// The bytes of the allocation at `address`.
    fn payload(&mut self, address: usize, size: usize) -> &mut [u8] {
        let from = address - self.heap.base();
        &mut self.mem[from..from + size]
    }
}

fn unset() -> Arena {
    Arena { heap: Allocator::new(), mem: Vec::new() }
}

fn heap(base: usize, length: usize) -> Arena {
    let mut arena = unset();
    assert_eq!(arena.init(Region { base, length }), Ok(()));
    arena
}

fn footprint(heap: &Arena) -> usize {
    heap.spans().iter().map(|s| s.extent + 2 * H).sum()
}

#[test]
fn init_lays_one_free_block_over_the_region() {
    let heap = heap(0x10_0000, 1024);
    assert_eq!(heap.base(), 0x10_0000);
    assert_eq!(heap.length(), 1024);
    assert_eq!(
        heap.spans(),
        vec![Span { address: 0x10_0000 + H, extent: 1024 - 2 * H, occupied: false }]
    );
}

#[test]
fn allocate_then_free_restores_the_single_span() {
    let base = 0x10_0000;
    let mut heap = heap(base, 1024);
    assert_eq!(heap.allocate(64), Ok(base + H));
    assert_eq!(
        heap.spans(),
        vec![
            Span { address: base + H, extent: 64, occupied: true },
            Span { address: base + 3 * H + 64, extent: 1024 - 2 * H - 64 - 2 * H, occupied: false },
        ]
    );
    assert_eq!(heap.deallocate(base + H), Ok(()));
    assert_eq!(heap.spans(), vec![Span { address: base + H, extent: 1024 - 2 * H, occupied: false }]);
    assert_eq!(heap.allocate(1024 - 4 * H), Ok(base + H));
    assert_eq!(
        heap.spans(),
        vec![
            Span { address: base + H, extent: 1024 - 4 * H, occupied: true },
            Span { address: base + 1024 - H, extent: 0, occupied: false },
        ]
    );
}

#[test]
fn request_for_the_whole_region_is_turned_down() {
    let mut heap = heap(4096, 1024);
    assert_eq!(heap.allocate(1024), Err(AllocError::OutOfMemory));
    assert_eq!(heap.spans().len(), 1);
}

#[test]
fn request_that_leaves_no_room_for_the_remainder_is_turned_down() {
    let mut heap = heap(4096, 1024);
    assert_eq!(heap.allocate(1024 - 2 * H), Err(AllocError::OutOfMemory));
    assert_eq!(heap.allocate(1024 - 4 * H + 1), Err(AllocError::OutOfMemory));
    assert_eq!(heap.spans(), vec![Span { address: 4096 + H, extent: 1024 - 2 * H, occupied: false }]);
}

#[test]
fn largest_request_is_served_exactly_once() {
    let mut heap = heap(4096, 1024);
    assert_eq!(heap.allocate(1024 - 4 * H), Ok(4096 + H));
    assert_eq!(heap.allocate(1024 - 4 * H), Err(AllocError::OutOfMemory));
    assert_eq!(heap.allocate(1), Err(AllocError::OutOfMemory));
    assert_eq!(heap.allocate(0), Err(AllocError::OutOfMemory));
}

#[test]
fn request_larger_than_any_address_is_turned_down() {
    let mut heap = heap(0, 256);
    assert_eq!(heap.allocate(usize::MAX), Err(AllocError::OutOfMemory));
    assert_eq!(heap.allocate(usize::MAX - 2 * H + 1), Err(AllocError::OutOfMemory));
}

#[test]
fn exact_fit_leaves_an_empty_free_block_that_merges_back() {
    let mut heap = heap(0, 10 * H);
    let a = heap.allocate(2 * H).unwrap();
    assert_eq!(a, H);
    let b = heap.allocate(2 * H).unwrap();
    assert_eq!(b, 5 * H);
    assert_eq!(
        heap.spans(),
        vec![
            Span { address: H, extent: 2 * H, occupied: true },
            Span { address: 5 * H, extent: 2 * H, occupied: true },
            Span { address: 9 * H, extent: 0, occupied: false },
        ]
    );
    assert_eq!(heap.deallocate(b), Ok(()));
    assert_eq!(
        heap.spans(),
        vec![
            Span { address: H, extent: 2 * H, occupied: true },
            Span { address: 5 * H, extent: 4 * H, occupied: false },
        ]
    );
}

#[test]
fn zero_bytes_take_a_block_of_their_own() {
    let mut heap = heap(64, 8 * H);
    assert_eq!(heap.allocate(0), Ok(64 + H));
    assert_eq!(heap.allocate(0), Ok(64 + 3 * H));
    assert_eq!(
        heap.spans(),
        vec![
            Span { address: 64 + H, extent: 0, occupied: true },
            Span { address: 64 + 3 * H, extent: 0, occupied: true },
            Span { address: 64 + 5 * H, extent: 2 * H, occupied: false },
        ]
    );
    assert_eq!(heap.deallocate(64 + H), Ok(()));
    assert_eq!(heap.deallocate(64 + 3 * H), Ok(()));
    assert_eq!(heap.spans(), vec![Span { address: 64 + H, extent: 6 * H, occupied: false }]);
}

#[test]
fn first_fit_goes_by_address_not_by_size() {
    let mut heap = heap(0, 4096);
    let a = heap.allocate(512).unwrap();
    let b = heap.allocate(64).unwrap();
    let c = heap.allocate(128).unwrap();
    let d = heap.allocate(64).unwrap();
    assert_eq!(heap.deallocate(a), Ok(()));
    assert_eq!(heap.deallocate(c), Ok(()));
    // Both holes fit; the one of 128 bytes fits more tightly, the one of 512 comes first.
    assert_eq!(heap.allocate(64), Ok(a));
    assert!(b < c && c < d);
}

#[test]
fn hole_without_room_for_two_headers_is_passed_over() {
    let mut heap = heap(0, 4096);
    let a = heap.allocate(100).unwrap();
    let b = heap.allocate(100).unwrap();
    assert_eq!(heap.deallocate(a), Ok(()));
    // The hole has 100 bytes, but 100 bytes and the two headers of a remainder do not fit in it.
    let c = heap.allocate(100).unwrap();
    assert!(c > b);
    assert_eq!(heap.allocate(100 - 2 * H), Ok(a));
}

#[test]
fn freed_address_is_handed_out_again_for_the_same_size() {
    let mut heap = heap(0x8000, 1024);
    let p = heap.allocate(200).unwrap();
    assert_eq!(heap.deallocate(p), Ok(()));
    assert_eq!(heap.allocate(200), Ok(p));
}

#[test]
fn freed_address_is_not_handed_out_for_one_byte_more_than_it_can_hold() {
    let n = 200;
    let mut heap = heap(0x8000, n + 4 * H);
    let p = heap.allocate(n).unwrap();
    assert_eq!(heap.deallocate(p), Ok(()));
    assert_eq!(heap.allocate(n + 1), Err(AllocError::OutOfMemory));
    assert_eq!(heap.allocate(n), Ok(p));
}

#[test]
fn freed_address_serves_a_larger_request_where_its_neighbour_was_free() {
    let mut heap = heap(0x8000, 1024);
    let p = heap.allocate(64).unwrap();
    assert_eq!(heap.deallocate(p), Ok(()));
    assert_eq!(heap.allocate(65), Ok(p));
}

fn three_blocks() -> (Arena, [usize; 3]) {
    let mut heap = heap(0x4000, 2048);
    let a = heap.allocate(100).unwrap();
    let b = heap.allocate(200).unwrap();
    let c = heap.allocate(300).unwrap();
    assert_eq!(a, 0x4000 + H);
    assert_eq!(b, a + 100 + 2 * H);
    assert_eq!(c, b + 200 + 2 * H);
    (heap, [a, b, c])
}

fn free_in_order(order: [usize; 3]) {
    let (mut heap, at) = three_blocks();
    for i in order {
        assert_eq!(heap.deallocate(at[i]), Ok(()));
    }
    assert_eq!(heap.spans(), vec![Span { address: at[0], extent: 2048 - 2 * H, occupied: false }]);
    assert_eq!(heap.allocate(100 + 200 + 300 + 4 * H), Ok(at[0]));
}

#[test]
fn coalescing_order_a_b_c() {
    free_in_order([0, 1, 2]);
}

#[test]
fn coalescing_order_a_c_b() {
    free_in_order([0, 2, 1]);
}

#[test]
fn coalescing_order_b_a_c() {
    free_in_order([1, 0, 2]);
}

#[test]
fn coalescing_order_b_c_a() {
    free_in_order([1, 2, 0]);
}

#[test]
fn coalescing_order_c_a_b() {
    free_in_order([2, 0, 1]);
}

#[test]
fn coalescing_order_c_b_a() {
    free_in_order([2, 1, 0]);
}

#[test]
fn forward_merge_absorbs_the_right_neighbour_only() {
    let (mut heap, at) = three_blocks();
    let d = heap.allocate(50).unwrap();
    assert_eq!(heap.deallocate(at[2]), Ok(()));
    assert_eq!(heap.deallocate(at[1]), Ok(()));
    assert_eq!(
        heap.spans()[..3],
        [
            Span { address: at[0], extent: 100, occupied: true },
            Span { address: at[1], extent: 200 + 300 + 2 * H, occupied: false },
            Span { address: d, extent: 50, occupied: true },
        ]
    );
}

#[test]
fn backward_merge_lets_the_left_neighbour_absorb() {
    let (mut heap, at) = three_blocks();
    let d = heap.allocate(50).unwrap();
    assert_eq!(heap.deallocate(at[1]), Ok(()));
    assert_eq!(heap.deallocate(at[2]), Ok(()));
    assert_eq!(
        heap.spans()[..3],
        [
            Span { address: at[0], extent: 100, occupied: true },
            Span { address: at[1], extent: 200 + 300 + 2 * H, occupied: false },
            Span { address: d, extent: 50, occupied: true },
        ]
    );
}

#[test]
fn merge_on_both_sides_gives_back_four_headers() {
    let (mut heap, at) = three_blocks();
    let d = heap.allocate(50).unwrap();
    assert_eq!(heap.deallocate(at[0]), Ok(()));
    assert_eq!(heap.deallocate(at[2]), Ok(()));
    assert_eq!(heap.deallocate(at[1]), Ok(()));
    assert_eq!(
        heap.spans()[..2],
        [
            Span { address: at[0], extent: 100 + 200 + 300 + 4 * H, occupied: false },
            Span { address: d, extent: 50, occupied: true },
        ]
    );
}

#[test]
fn blocks_and_their_headers_always_add_up_to_the_region() {
    let mut heap = heap(0x2000, 4096);
    assert_eq!(footprint(&heap), 4096);
    let mut held = Vec::new();
    for size in [1usize, 32, 7, 500, 64, 0, 129, 1000, 3] {
        if let Ok(p) = heap.allocate(size) {
            held.push(p);
        }
        assert_eq!(footprint(&heap), 4096);
    }
    for i in [3usize, 0, 5, 1] {
        assert_eq!(heap.deallocate(held[i]), Ok(()));
        assert_eq!(footprint(&heap), 4096);
    }
    assert_eq!(heap.allocate(5000), Err(AllocError::OutOfMemory));
    assert_eq!(heap.deallocate(held[3]), Err(AllocError::InvalidFree));
    assert_eq!(footprint(&heap), 4096);
}

#[test]
fn live_allocations_never_share_a_byte() {
    let mut heap = heap(0x2000, 4096);
    let mut live: Vec<(usize, usize)> = Vec::new();
    for size in [40usize, 8, 300, 16, 77, 5, 640] {
        let p = heap.allocate(size).unwrap();
        live.push((p, size));
    }
    let gone = live.remove(2);
    assert_eq!(heap.deallocate(gone.0), Ok(()));
    for size in [100usize, 100, 20] {
        let p = heap.allocate(size).unwrap();
        live.push((p, size));
    }
    for (i, &(p, n)) in live.iter().enumerate() {
        assert!(p >= 0x2000 + H && p + n + H <= 0x2000 + 4096);
        for &(q, m) in &live[i + 1..] {
            assert!(p + n <= q || q + m <= p);
        }
    }
    let occupied: Vec<(usize, usize)> =
        heap.spans().iter().filter(|s| s.occupied).map(|s| (s.address, s.extent)).collect();
    let mut sorted = live.clone();
    sorted.sort();
    assert_eq!(occupied, sorted);
}

#[test]
fn no_two_neighbours_are_both_free() {
    let mut heap = heap(0, 4096);
    let held: Vec<usize> = (0..12).map(|i| heap.allocate(16 + 8 * i).unwrap()).collect();
    for i in [1usize, 3, 2, 7, 9, 8, 11, 10, 0] {
        assert_eq!(heap.deallocate(held[i]), Ok(()));
        let spans = heap.spans();
        for pair in spans.windows(2) {
            assert!(pair[0].occupied || pair[1].occupied);
            assert_eq!(pair[0].address + pair[0].extent + 2 * H, pair[1].address);
        }
    }
}

#[test]
fn double_free_is_reported_and_changes_nothing() {
    let mut heap = heap(0, 256);
    let p = heap.allocate(8).unwrap();
    let q = heap.allocate(8).unwrap();
    assert_eq!(heap.deallocate(p), Ok(()));
    let before = heap.spans();
    assert_eq!(heap.deallocate(p), Err(AllocError::InvalidFree));
    assert_eq!(heap.spans(), before);
    assert_eq!(heap.deallocate(q), Ok(()));
    assert_eq!(heap.deallocate(q), Err(AllocError::InvalidFree));
}

#[test]
fn address_never_handed_out_is_reported_and_changes_nothing() {
    let base = 0x1000;
    let mut heap = heap(base, 512);
    let p = heap.allocate(64).unwrap();
    let before = heap.spans();
    for bad in [0, base, base + H - 1, p + 1, p + 64, p + 64 + H, p + 64 + 2 * H, base + 512, usize::MAX] {
        assert_eq!(heap.deallocate(bad), Err(AllocError::InvalidFree));
        assert_eq!(heap.spans(), before);
    }
    assert_eq!(heap.deallocate(p), Ok(()));
}

#[test]
fn stale_header_inside_a_merged_block_is_not_taken_for_a_block() {
    let mut heap = heap(0, 1024);
    let a = heap.allocate(64).unwrap();
    let b = heap.allocate(64).unwrap();
    assert_eq!(heap.deallocate(a), Ok(()));
    assert_eq!(heap.deallocate(b), Ok(()));
    let big = heap.allocate(512).unwrap();
    assert_eq!(big, a);
    // `b` now lies inside the payload of `big`, where its old header still stands.
    assert_eq!(heap.deallocate(b), Err(AllocError::InvalidFree));
    assert_eq!(heap.spans()[0], Span { address: a, extent: 512, occupied: true });
}

#[test]
fn heap_without_a_region_turns_everything_down() {
    let mut heap = unset();
    assert_eq!(heap.base(), 0);
    assert_eq!(heap.length(), 0);
    assert_eq!(heap.spans(), vec![]);
    assert_eq!(heap.allocate(1), Err(AllocError::OutOfMemory));
    assert_eq!(heap.allocate(0), Err(AllocError::OutOfMemory));
    assert_eq!(heap.deallocate(H), Err(AllocError::InvalidFree));
}

#[test]
fn region_too_short_for_two_headers_is_refused() {
    let mut heap = unset();
    assert_eq!(heap.init(Region { base: 0, length: 2 * H - 1 }), Err(AllocError::InvalidRegion));
    assert_eq!(heap.init(Region { base: 0, length: 0 }), Err(AllocError::InvalidRegion));
    assert_eq!(heap.length(), 0);
    assert_eq!(heap.init(Region { base: 0, length: 2 * H }), Ok(()));
    assert_eq!(heap.spans(), vec![Span { address: H, extent: 0, occupied: false }]);
    assert_eq!(heap.allocate(0), Err(AllocError::OutOfMemory));
}

#[test]
fn region_that_runs_past_the_last_address_is_refused() {
    let mut heap = heap(0x1000, 256);
    let p = heap.allocate(16).unwrap();
    assert_eq!(heap.init(Region { base: usize::MAX - 100, length: 256 }), Err(AllocError::InvalidRegion));
    // The heap is as it was.
    assert_eq!(heap.base(), 0x1000);
    assert_eq!(heap.deallocate(p), Ok(()));
    let mut top = unset();
    assert_eq!(top.init(Region { base: usize::MAX - 256, length: 256 }), Ok(()));
    assert_eq!(top.allocate(256 - 4 * H), Ok(usize::MAX - 256 + H));
}

#[test]
fn init_again_forgets_what_was_allocated() {
    let mut heap = heap(0x1000, 256);
    let p = heap.allocate(16).unwrap();
    assert_eq!(heap.init(Region { base: 0x9000, length: 128 }), Ok(()));
    assert_eq!(heap.spans(), vec![Span { address: 0x9000 + H, extent: 128 - 2 * H, occupied: false }]);
    assert_eq!(heap.deallocate(p), Err(AllocError::InvalidFree));
}

#[test]
fn bytes_lent_must_be_as_many_as_the_region_has() {
    let mut heap = Allocator::new();
    let mut mem = vec![0u8; 100];
    assert_eq!(heap.init(Region { base: 0, length: 101 }, &mut mem), Err(AllocError::InvalidRegion));
    assert_eq!(heap.init(Region { base: 0, length: 99 }, &mut mem), Err(AllocError::InvalidRegion));
    assert_eq!(mem, vec![0u8; 100]);
    assert_eq!(heap.length(), 0);
    assert_eq!(heap.init(Region { base: 0, length: 100 }, &mut mem), Ok(()));
    assert_eq!(heap.length(), 100);
}

#[test]
fn init_writes_a_sentinel_header_at_each_end_and_nothing_else() {
    let mut heap = Allocator::new();
    let mut mem = vec![0x77u8; 4 * H];
    assert_eq!(heap.init(Region { base: 0x1000, length: 4 * H }, &mut mem), Ok(()));
    let tag = [1u8, 0, 0, 0, 0, 0, 0, 0, 2 * H as u8, 0, 0, 0, 0, 0, 0, 0];
    assert_eq!(mem[..H], tag);
    assert_eq!(mem[H..3 * H], [0x77u8; 2 * H]);
    assert_eq!(mem[3 * H..], tag);
}

#[test]
fn split_keeps_the_sentinel_flags_at_the_two_ends() {
    let mut heap = heap(0, 8 * H);
    assert_eq!(heap.allocate(H), Ok(H));
    assert_eq!(heap.allocate(H), Ok(4 * H));
    let flags: Vec<(u8, u8, u8)> = (0..8)
        .filter(|slot| ![1, 4, 7].contains(slot) || *slot == 7)
        .map(|slot| (heap.mem[slot * H], heap.mem[slot * H + 1], heap.mem[slot * H + 8]))
        .collect();
    // Headers at 0, 2H, 3H, 5H, 6H and 7H; 6H..7H is the empty free block's front header.
    assert_eq!(
        flags,
        vec![
            (1, 1, H as u8),
            (0, 1, H as u8),
            (0, 1, H as u8),
            (0, 1, H as u8),
            (0, 0, 0),
            (1, 0, 0),
        ]
    );
    assert_eq!(heap.deallocate(H), Ok(()));
    assert_eq!(heap.deallocate(4 * H), Ok(()));
    // One free block again: a sentinel header at each end with the whole extent.
    assert_eq!((heap.mem[0], heap.mem[1], heap.mem[8]), (1, 0, 6 * H as u8));
    assert_eq!((heap.mem[7 * H], heap.mem[7 * H + 1], heap.mem[7 * H + 8]), (1, 0, 6 * H as u8));
}

#[test]
fn what_callers_write_to_their_bytes_does_not_disturb_the_heap() {
    let mut heap = heap(0x3000, 1024);
    let a = heap.allocate(64).unwrap();
    let b = heap.allocate(128).unwrap();
    let c = heap.allocate(32).unwrap();
    // Fill each allocation with bytes that would read as an occupied sentinel header.
    heap.payload(a, 64).fill(0xFF);
    heap.payload(b, 128).fill(0x01);
    heap.payload(c, 32).fill(0xFF);
    assert_eq!(
        heap.spans()[..3],
        [
            Span { address: a, extent: 64, occupied: true },
            Span { address: b, extent: 128, occupied: true },
            Span { address: c, extent: 32, occupied: true },
        ]
    );
    assert_eq!(heap.deallocate(b + 16), Err(AllocError::InvalidFree));
    assert_eq!(heap.deallocate(b), Ok(()));
    assert_eq!(heap.deallocate(a), Ok(()));
    assert_eq!(heap.spans()[0], Span { address: a, extent: 64 + 128 + 2 * H, occupied: false });
    // The hole has 64 + 128 bytes and the two headers that stood between.
    assert_eq!(heap.allocate(64 + 128), Ok(a));
    assert_eq!(footprint(&heap), 1024);
}

#[test]
fn heap_writes_headers_only() {
    let mut heap = heap(0, 1024);
    let a = heap.allocate(64).unwrap();
    let b = heap.allocate(64).unwrap();
    let c = heap.allocate(64).unwrap();
    for (at, byte) in [(a, 0x11u8), (b, 0x22), (c, 0x33)] {
        heap.payload(at, 64).fill(byte);
    }
    let d = heap.allocate(100).unwrap();
    assert_eq!(heap.deallocate(b), Ok(()));
    for (at, byte) in [(a, 0x11u8), (b, 0x22), (c, 0x33)] {
        assert!(heap.payload(at, 64).iter().all(|&x| x == byte));
    }
    assert_eq!(heap.deallocate(a), Ok(()));
    assert_eq!(heap.deallocate(d), Ok(()));
    assert!(heap.payload(c, 64).iter().all(|&x| x == 0x33));
    // The bytes of what was freed are left as they were, too.
    assert!(heap.payload(a, 64).iter().all(|&x| x == 0x11));
    assert!(heap.payload(b, 64).iter().all(|&x| x == 0x22));
}

#[test]
fn audit_passes_whatever_was_allocated_and_freed() {
    let mut heap = heap(0x2000, 2048);
    assert_eq!(heap.audit(), Ok(()));
    let mut held = Vec::new();
    for size in [10usize, 0, 300, 64, 1, 500, 32] {
        held.push(heap.allocate(size).unwrap());
        assert_eq!(heap.audit(), Ok(()));
    }
    for i in [2usize, 3, 0, 6, 5, 1, 4] {
        assert_eq!(heap.deallocate(held[i]), Ok(()));
        assert_eq!(heap.audit(), Ok(()));
    }
    assert_eq!(heap.spans().len(), 1);
    assert_eq!(unset().audit(), Ok(()));
}

#[test]
fn audit_passes_whatever_callers_wrote_to_their_bytes() {
    let mut heap = heap(0, 512);
    let a = heap.allocate(100).unwrap();
    let b = heap.allocate(100).unwrap();
    heap.payload(a, 100).fill(0xFF);
    heap.payload(b, 100).fill(0x01);
    assert_eq!(heap.audit(), Ok(()));
}

/// A heap with three allocations of 64 bytes, and the offset of the front header of the second.
fn audited() -> (Arena, usize) {
    let mut heap = heap(0x1000, 1024);
    let _ = heap.allocate(64).unwrap();
    let b = heap.allocate(64).unwrap();
    let _ = heap.allocate(64).unwrap();
    assert_eq!(heap.audit(), Ok(()));
    (heap, b - 0x1000 - H)
}

#[test]
fn audit_finds_two_headers_of_a_block_that_disagree_on_the_extent() {
    let (mut heap, front) = audited();
    heap.mem[front + 64 + H + 8] = 63;
    assert_eq!(heap.audit(), Err(AllocError::CorruptHeader));
    let (mut heap, front) = audited();
    heap.mem[front + 8] = 65;
    assert_eq!(heap.audit(), Err(AllocError::CorruptHeader));
}

#[test]
fn audit_finds_two_headers_of_a_block_that_disagree_on_the_state() {
    let (mut heap, front) = audited();
    heap.mem[front + 1] = 0;
    assert_eq!(heap.audit(), Err(AllocError::CorruptHeader));
    let (mut heap, front) = audited();
    heap.mem[front + 64 + H + 1] = 0;
    assert_eq!(heap.audit(), Err(AllocError::CorruptHeader));
}

#[test]
fn audit_finds_a_sentinel_flag_missing_or_misplaced() {
    let (mut heap, _) = audited();
    heap.mem[0] = 0;
    assert_eq!(heap.audit(), Err(AllocError::CorruptHeader));
    let (mut heap, _) = audited();
    heap.mem[1024 - H] = 0;
    assert_eq!(heap.audit(), Err(AllocError::CorruptHeader));
    let (mut heap, front) = audited();
    heap.mem[front] = 1;
    assert_eq!(heap.audit(), Err(AllocError::CorruptHeader));
    let (mut heap, front) = audited();
    heap.mem[front + 64 + H] = 1;
    assert_eq!(heap.audit(), Err(AllocError::CorruptHeader));
}

#[test]
fn audit_finds_an_extent_that_runs_out_of_the_region() {
    let (mut heap, front) = audited();
    heap.mem[front + 9] = 0xFF;
    assert_eq!(heap.audit(), Err(AllocError::CorruptHeader));
    let (mut heap, front) = audited();
    heap.mem[front + 15] = 0xFF;
    assert_eq!(heap.audit(), Err(AllocError::CorruptHeader));
}

#[test]
fn audit_finds_two_free_neighbours() {
    let (mut heap, front) = audited();
    // Both headers of the first and of the second block say free: each is a block, but they were not merged.
    for at in [0, 64 + H, front, front + 64 + H] {
        heap.mem[at + 1] = 0;
    }
    assert_eq!(heap.audit(), Err(AllocError::CorruptHeader));
    // With the first one allocated again the chain is valid, though not the one the heap made.
    for at in [0, 64 + H] {
        heap.mem[at + 1] = 1;
    }
    assert_eq!(heap.audit(), Ok(()));
}

#[test]
fn audit_finds_bytes_that_are_not_as_many_as_the_region_has() {
    let (mut heap, _) = audited();
    heap.mem.push(0);
    assert_eq!(heap.audit(), Err(AllocError::CorruptHeader));
    heap.mem.truncate(1023);
    assert_eq!(heap.audit(), Err(AllocError::CorruptHeader));
    assert_eq!(unset().heap.audit(&[0]), Err(AllocError::CorruptHeader));
}
