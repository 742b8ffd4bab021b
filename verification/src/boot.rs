//! The hand-off record that the UEFI loader passes to the kernel.
use vstd::prelude::*;

verus! {

/// One memory-map entry, as the loader copies it from the firmware map.
#[derive(Clone, Copy)]
pub struct MemMapEntry {
    pub physical_start: u64,
    pub num_pages: u64,
    pub mem_type: u32,
    pub _pad: u32,
}

/// EFI memory type 7: conventional (free) RAM.
pub const EFI_CONVENTIONAL_MEMORY: u32 = 7;

/// Number of memory-map slots in the hand-off record.
pub const MAX_MMAP_ENTRIES: usize = 256;

/// The hand-off record.
#[allow(non_camel_case_types)]
pub struct CoreOS_BootInfo {
    pub fb_base: u64,
    pub fb_size: u64,
    pub width: u32,
    pub height: u32,
    pub pitch: u32,
    pub mmap: [MemMapEntry; 256],
    pub mmap_count: u32,
    pub _pad: u32,
    pub kernel_phys_base: u64,
    pub kernel_alloc_size: u64,
    pub user_elf_base: u64,
    pub user_elf_size: u64,
    pub font_base: u64,
    pub font_size: u64,
    pub tsc_bootloader_start: u64,
}

impl MemMapEntry {
    /// An entry with every field zero.
    pub fn zeroed() -> (e: Self)
        ensures
            e.physical_start == 0,
            e.num_pages == 0,
            e.mem_type == 0,
            e._pad == 0,
    {
        MemMapEntry { physical_start: 0, num_pages: 0, mem_type: 0, _pad: 0 }
    }
}

impl CoreOS_BootInfo {
    /// A record with every field zero.
    pub fn zeroed() -> (b: Self)
        ensures
            b.fb_base == 0 && b.fb_size == 0 && b.width == 0 && b.height == 0 && b.pitch == 0,
            forall|i: int| 0 <= i < 256 ==> #[trigger] b.mmap[i] == (MemMapEntry { physical_start: 0, num_pages: 0, mem_type: 0, _pad: 0 }),
            b.mmap_count == 0 && b._pad == 0,
            b.kernel_phys_base == 0 && b.kernel_alloc_size == 0,
            b.user_elf_base == 0 && b.user_elf_size == 0,
            b.font_base == 0 && b.font_size == 0,
            b.tsc_bootloader_start == 0,
    {
        CoreOS_BootInfo {
            fb_base: 0,
            fb_size: 0,
            width: 0,
            height: 0,
            pitch: 0,
            mmap: [MemMapEntry { physical_start: 0, num_pages: 0, mem_type: 0, _pad: 0 }; 256],
            mmap_count: 0,
            _pad: 0,
            kernel_phys_base: 0,
            kernel_alloc_size: 0,
            user_elf_base: 0,
            user_elf_size: 0,
            font_base: 0,
            font_size: 0,
            tsc_bootloader_start: 0,
        }
    }
}

} // verus!
