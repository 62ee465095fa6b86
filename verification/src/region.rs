//! The byte range that a heap manages, as its provider describes it.
use crate::boot::{MultibootInfo, MultibootMMapEntry, MMAP_ENTRY_SIZE};
use crate::header::HEADER_SIZE;
use vstd::prelude::*;

verus! {

/// One contiguous byte range, fixed for the lifetime of the heap built on it.
#[derive(Clone, Copy, Debug, PartialEq, Eq, Structural)]
pub struct Region {
    /// Address of the first byte.
    pub base: usize,
    /// Number of bytes.
    pub length: usize,
}

impl Region {
    /// A region can carry a heap when it holds the two headers of one block
    /// and its last byte still has an address.
    pub open spec fn usable(self) -> bool {
        self.length >= 2 * HEADER_SIZE && self.base + self.length <= usize::MAX
    }

    /// Decides whether the region can carry a heap.
    pub fn is_usable(&self) -> (ok: bool)
        ensures
            ok == self.usable(),
    {
        self.length >= 2 * HEADER_SIZE && self.length <= usize::MAX - self.base
    }

    /// What is left of a memory-map entry above the boot image that lies at
    /// its start. The image takes `image_end - image_start` bytes; the rest
    /// is cut, at its low end, to a multiple of four bytes. There is no such
    /// region where the image ends before it starts or is longer than the
    /// entry, or where the region's end has no address.
    pub open spec fn carved(entry: MultibootMMapEntry, image_start: u64, image_end: u64) -> Option<Region> {
        if image_start > image_end || entry.len < image_end - image_start {
            None
        } else {
            let usable = entry.len - (image_end - image_start);
            let slack = usable % 4;
            if image_end + usable > usize::MAX {
                None
            } else {
                Some(Region { base: (image_end + slack) as usize, length: (usable - slack) as usize })
            }
        }
    }

    /// Entry `k` is the first of the map that starts at `address`.
    pub open spec fn is_first_at(entries: Seq<MultibootMMapEntry>, k: int, address: u64) -> bool {
        &&& 0 <= k < entries.len()
        &&& entries[k].addr == address
        &&& forall|j: int| 0 <= j < k ==> (#[trigger] entries[j]).addr != address
    }

    /// The first entry of the map that starts at `address`, if any.
    pub open spec fn first_at(entries: Seq<MultibootMMapEntry>, address: u64) -> Option<int> {
        if exists|k: int| Region::is_first_at(entries, k, address) {
            Some(choose|k: int| Region::is_first_at(entries, k, address))
        } else {
            None
        }
    }

    /// The region above the boot image: the first entry of the memory map
    /// that starts where the image starts, less the image itself.
    pub open spec fn spec_above_image(entries: Seq<MultibootMMapEntry>, image_start: u64, image_end: u64) -> Option<
        Region,
    > {
        match Region::first_at(entries, image_start) {
            Some(k) => Region::carved(entries[k], image_start, image_end),
            None => None,
        }
    }

    /// Finds the region above the boot image in the memory map that `info`
    /// announces and `memory` holds.
    pub fn above_image(info: &MultibootInfo, memory: &[u8], image_start: u64, image_end: u64) -> (found: Option<
        Region,
    >)
        requires
            memory.len() >= info.mmap_entries() * MMAP_ENTRY_SIZE,
        ensures
            found == Region::spec_above_image(info.mmap(memory@), image_start, image_end),
    {
        let ghost entries = info.mmap(memory@);
        let count = info.mmap_count();
        let mut k: usize = 0;
        while k < count
            invariant
                0 <= k <= count,
                count == info.mmap_entries(),
                entries == info.mmap(memory@),
                memory.len() >= info.mmap_entries() * MMAP_ENTRY_SIZE,
                forall|j: int| 0 <= j < k ==> (#[trigger] entries[j]).addr != image_start,
            decreases count - k,
        {
            let entry = info.mmap_entry(memory, k);
            if entry.addr() == image_start {
                proof {
                    assert(Region::is_first_at(entries, k as int, image_start));
                    let chosen = choose|c: int| Region::is_first_at(entries, c, image_start);
                    assert(Region::is_first_at(entries, chosen, image_start));
                    if chosen < k {
                        assert(entries[chosen].addr != image_start);
                    }
                    if k < chosen {
                        assert(entries[k as int].addr != image_start);
                    }
                }
                return Region::carve(&entry, image_start, image_end);
            }
            k = k + 1;
        }
        None
    }

    /// Computes what is left of `entry` above the boot image.
    pub fn carve(entry: &MultibootMMapEntry, image_start: u64, image_end: u64) -> (found: Option<Region>)
        ensures
            found == Region::carved(*entry, image_start, image_end),
    {
        if image_start > image_end {
            return None;
        }
        let reserved = image_end - image_start;
        if entry.len() < reserved {
            return None;
        }
        let usable = entry.len() - reserved;
        let slack = usable % 4;
        if usable > usize::MAX as u64 || image_end > usize::MAX as u64 - usable {
            return None;
        }
        Some(Region { base: (image_end + slack) as usize, length: (usable - slack) as usize })
    }
}

/// Where the heap's region comes from; chosen once, at start-up.
pub enum RegionSource<'a> {
    /// The memory map that the boot loader announces in `info` and that
    /// `memory` holds, and where the boot image lies.
    FirmwareMap { info: MultibootInfo, memory: &'a [u8], image_start: u64, image_end: u64 },
    /// A buffer set aside beforehand.
    FixedBuffer { base: usize, length: usize },
}

impl<'a> RegionSource<'a> {
    /// The region that a source provides, if it provides one.
    pub open spec fn region(self) -> Option<Region> {
        match self {
            RegionSource::FixedBuffer { base, length } => Some(Region { base, length }),
            RegionSource::FirmwareMap { info, memory, image_start, image_end } => Region::spec_above_image(
                info.mmap(memory@),
                image_start,
                image_end,
            ),
        }
    }

    /// The memory map, where there is one, is all there.
    pub open spec fn complete(self) -> bool {
        match self {
            RegionSource::FixedBuffer { .. } => true,
            RegionSource::FirmwareMap { info, memory, .. } => memory@.len() >= info.mmap_entries()
                * MMAP_ENTRY_SIZE,
        }
    }

    /// Describes the region that this source provides.
    pub fn describe(&self) -> (found: Option<Region>)
        requires
            self.complete(),
        ensures
            found == self.region(),
    {
        match self {
            RegionSource::FixedBuffer { base, length } => Some(Region { base: *base, length: *length }),
            RegionSource::FirmwareMap { info, memory, image_start, image_end } => Region::above_image(
                info,
                memory,
                *image_start,
                *image_end,
            ),
        }
    }
}

} // verus!
