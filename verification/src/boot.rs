//! What the boot loader hands over: the information record and the memory
//! map it points to.
use crate::bytes::{le_value, read_u32, read_u64};
use vstd::prelude::*;

verus! {

/// The value a compliant boot loader leaves in the first argument register.
pub const MULTIBOOT_BOOTLOADER_MAGIC: u32 = 0x2BADB002;

/// Bytes one stored memory-map entry occupies.
pub const MMAP_ENTRY_SIZE: usize = 24;

/// The information record of the boot loader, field for field.
#[derive(Clone, Copy, Debug, PartialEq, Eq, Structural)]
pub struct MultibootInfo {
    pub flags: u32,
    pub mem_lower: u32,
    pub mem_upper: u32,
    pub boot_device: u32,
    pub cmdline: u32,
    pub mods_count: u32,
    pub mods_addr: u32,
    pub mmap_length: u32,
    pub mmap_addr: u32,
    pub drives_length: u32,
    pub drives_addr: u32,
    pub config_table: u32,
    pub boot_loader_name: u32,
    pub apm_table: u32,
    pub vbe_control_info: u32,
    pub vbe_mode_info: u32,
    pub vbe_mode: u16,
    pub vbe_interface_seg: u16,
    pub vbe_interface_off: u16,
    pub vbe_interface_len: u16,
    pub framebuffer_addr: u64,
    pub framebuffer_pitch: u32,
    pub framebuffer_width: u32,
    pub framebuffer_height: u32,
    pub framebuffer_bpp: u8,
    pub framebuffer_type: u8,
}

/// One entry of the memory map.
#[derive(Clone, Copy, Debug, PartialEq, Eq, Structural)]
pub struct MultibootMMapEntry {
    pub size: u32,
    pub addr: u64,
    pub len: u64,
    pub kind: u32,
}

/// What a memory-map entry says its range is good for.
#[derive(Clone, Copy, Debug, PartialEq, Eq, Structural)]
pub enum MultibootMemoryMappedType {
    Available,
    Reserved,
    AcpiReclaimable,
    Nvs,
    BadRam,
    InvalidData,
}

impl MultibootInfo {
    /// Tests bit 6 of the flags, the one that announces a memory map, and
    /// answers `true` where that bit is clear.
    pub fn check_flags_for_memmap(&self) -> (clear: bool)
        ensures
            clear == ((self.flags / 64) % 2 == 0),
    {
        let flags = self.flags;
        assert((flags >> 6) & 1 == (flags / 64) % 2) by (bit_vector);
        (self.flags >> 6) & 0x1 == 0
    }

    /// Number of whole entries in a memory map of `mmap_length` bytes.
    pub open spec fn mmap_entries(self) -> nat {
        (self.mmap_length as nat) / (MMAP_ENTRY_SIZE as nat)
    }

    /// The memory map that `memory` holds: the whole records among its first
    /// `mmap_length` bytes, in order.
    pub open spec fn mmap(self, memory: Seq<u8>) -> Seq<MultibootMMapEntry> {
        Seq::new(self.mmap_entries(), |i: int| MultibootMMapEntry::stored_at(memory, i * MMAP_ENTRY_SIZE))
    }

    /// Number of whole entries in the memory map.
    pub fn mmap_count(&self) -> (count: usize)
        ensures
            count == self.mmap_entries(),
    {
        self.mmap_length as usize / MMAP_ENTRY_SIZE
    }

    /// Decodes the memory map. `memory` holds the bytes that `mmap_addr`
    /// points to.
    pub fn get_mmap_addrs(&self, memory: &[u8]) -> (entries: Vec<MultibootMMapEntry>)
        requires
            memory.len() >= self.mmap_entries() * MMAP_ENTRY_SIZE,
        ensures
            entries@ == self.mmap(memory@),
    {
        let count = self.mmap_count();
        let mut entries: Vec<MultibootMMapEntry> = Vec::new();
        let mut i: usize = 0;
        while i < count
            invariant
                0 <= i <= count,
                count == self.mmap_entries(),
                memory.len() >= count * MMAP_ENTRY_SIZE,
                entries@.len() == i,
                forall|k: int| 0 <= k < i ==> #[trigger] entries@[k] == self.mmap(memory@)[k],
            decreases count - i,
        {
            let entry = MultibootMMapEntry::load(memory, i * MMAP_ENTRY_SIZE);
            entries.push(entry);
            i = i + 1;
        }
        proof {
            assert(entries@ =~= self.mmap(memory@));
        }
        entries
    }

    /// Reads entry `i` of the memory map.
    pub fn mmap_entry(&self, memory: &[u8], i: usize) -> (entry: MultibootMMapEntry)
        requires
            i < self.mmap_entries(),
            memory.len() >= self.mmap_entries() * MMAP_ENTRY_SIZE,
        ensures
            entry == self.mmap(memory@)[i as int],
    {
        MultibootMMapEntry::load(memory, i * MMAP_ENTRY_SIZE)
    }
}

impl MultibootMMapEntry {
    /// The entry that the 24 bytes of `mem` from `at` on denote: size,
    /// address, length and type, packed, each least significant byte first.
    pub open spec fn stored_at(mem: Seq<u8>, at: int) -> MultibootMMapEntry {
        MultibootMMapEntry {
            size: le_value(mem, at, 4) as u32,
            addr: le_value(mem, at + 4, 8) as u64,
            len: le_value(mem, at + 12, 8) as u64,
            kind: le_value(mem, at + 20, 4) as u32,
        }
    }

    /// Reads the entry stored at `at`.
    pub fn load(mem: &[u8], at: usize) -> (entry: MultibootMMapEntry)
        requires
            at + MMAP_ENTRY_SIZE <= mem.len(),
        ensures
            entry == MultibootMMapEntry::stored_at(mem@, at as int),
    {
        MultibootMMapEntry {
            size: read_u32(mem, at),
            addr: read_u64(mem, at + 4),
            len: read_u64(mem, at + 12),
            kind: read_u32(mem, at + 20),
        }
    }

    pub fn size(&self) -> (size: u32)
        ensures
            size == self.size,
    {
        self.size
    }

    pub fn addr(&self) -> (addr: u64)
        ensures
            addr == self.addr,
    {
        self.addr
    }

    pub fn len(&self) -> (len: u64)
        ensures
            len == self.len,
    {
        self.len
    }

    /// The raw type code of the entry.
    pub fn entry_type(&self) -> (kind: u32)
        ensures
            kind == self.kind,
    {
        self.kind
    }
}

impl MultibootMemoryMappedType {
    /// The meaning of a raw type code: 1 to 5 are the known kinds, in order;
    /// every other code is invalid data.
    pub open spec fn of(value: u32) -> MultibootMemoryMappedType {
        if value == 1 {
            MultibootMemoryMappedType::Available
        } else if value == 2 {
            MultibootMemoryMappedType::Reserved
        } else if value == 3 {
            MultibootMemoryMappedType::AcpiReclaimable
        } else if value == 4 {
            MultibootMemoryMappedType::Nvs
        } else if value == 5 {
            MultibootMemoryMappedType::BadRam
        } else {
            MultibootMemoryMappedType::InvalidData
        }
    }

    pub fn from_u32(value: u32) -> (kind: MultibootMemoryMappedType)
        ensures
            kind == MultibootMemoryMappedType::of(value),
    {
        match value {
            1 => MultibootMemoryMappedType::Available,
            2 => MultibootMemoryMappedType::Reserved,
            3 => MultibootMemoryMappedType::AcpiReclaimable,
            4 => MultibootMemoryMappedType::Nvs,
            5 => MultibootMemoryMappedType::BadRam,
            _ => MultibootMemoryMappedType::InvalidData,
        }
    }
}

} // verus!
