//! The calls into the `x86_64` crate. Nothing in this file is proved: each
//! contract restates what the crate's source does.

use vstd::prelude::*;
use x86_64::structures::paging::{Page, PageTable, PageTableFlags, PhysFrame, Size4KiB};
use x86_64::{PhysAddr, VirtAddr};

verus! {

/// `x86_64::structures::paging::PageTable`: one paging structure of 512
/// eight-byte entries.
#[verifier::external_type_specification]
#[verifier::external_body]
pub struct ExPageTable(PageTable);

/// The raw entries of a paging structure, in slot order.
pub uninterp spec fn table_entries(table: PageTable) -> Seq<u64>;

/// The entries of a paging structure of which slot `index` has been set to
/// `value`: 512 entries, the others as in `entries`.
pub open spec fn with_entry(entries: Seq<u64>, index: int, value: u64) -> Seq<u64> {
    Seq::new(
        512,
        |slot: int|
            if slot == index {
                value
            } else {
                entries[slot]
            },
    )
}

/// An address whose bits 48 to 63 repeat bit 47.
pub open spec fn is_canonical(addr: u64) -> bool {
    addr < 0x0000_8000_0000_0000 || addr >= 0xffff_8000_0000_0000
}

/// `addr` with bits 48 to 63 replaced by copies of bit 47.
pub open spec fn sign_extended(addr: u64) -> u64 {
    if addr & 0x0000_8000_0000_0000 != 0 {
        addr | 0xffff_0000_0000_0000
    } else {
        addr & 0x0000_ffff_ffff_ffff
    }
}

/// The largest physical address plus one: physical addresses have 52 bits.
pub open spec fn phys_limit() -> int {
    0x0010_0000_0000_0000
}

/// `PageTableEntry::is_unused` on slot `index` of `table`: an entry is unused
/// exactly when its raw value is zero.
#[verifier::external_body]
pub(crate) fn entry_is_unused(table: &PageTable, index: usize) -> (unused: bool)
    requires
        index < 512,
    ensures
        unused == (table_entries(*table)[index as int] == 0),
{
    table[index].is_unused()
}

/// `PageTableEntry::set_addr` on slot `index` of `table`: the slot becomes
/// the bitwise or of the address and the flag bits, and none of the other
/// 511 slots changes. The crate panics on an address of more than 52 bits or
/// one that is not 4 KiB aligned, so both are required.
#[verifier::external_body]
pub(crate) fn set_entry(table: &mut PageTable, index: usize, addr: u64, flags: u64)
    requires
        index < 512,
        addr < phys_limit(),
        addr % 4096 == 0,
    ensures
        table_entries(*final(table)) == with_entry(table_entries(*old(table)), index as int, addr | flags),
{
    table[index].set_addr(PhysAddr::new(addr), PageTableFlags::from_bits_retain(flags));
}

/// `VirtAddr::new_truncate`: sign extension of bit 47 over bits 48 to 63.
#[verifier::external_body]
pub(crate) fn truncate_virt_addr(addr: u64) -> (canonical: u64)
    ensures
        canonical == sign_extended(addr),
{
    VirtAddr::new_truncate(addr).as_u64()
}

/// `PhysAddr::new_truncate`: the low 52 bits of `addr`.
#[verifier::external_body]
pub(crate) fn truncate_phys_addr(addr: u64) -> (physical: u64)
    ensures
        physical == addr % 0x0010_0000_0000_0000,
{
    PhysAddr::new_truncate(addr).as_u64()
}

/// `Page::<Size4KiB>::from_start_address`: the page that starts at `addr`,
/// or nothing when `addr` is not a multiple of 4096. `VirtAddr::new` panics
/// on an address that is not canonical, so that is required.
#[verifier::external_body]
pub(crate) fn page_from_start_address(addr: u64) -> (page: Option<u64>)
    requires
        is_canonical(addr),
    ensures
        page == if addr % 4096 == 0 { Some(addr) } else { None },
{
    match Page::<Size4KiB>::from_start_address(VirtAddr::new(addr)) {
        Ok(page) => Some(page.start_address().as_u64()),
        Err(_) => None,
    }
}

/// `PhysFrame::<Size4KiB>::from_start_address`: the frame that starts at
/// `addr`, or nothing when `addr` is not a multiple of 4096. `PhysAddr::new`
/// panics on an address of more than 52 bits, so that is required.
#[verifier::external_body]
pub(crate) fn frame_from_start_address(addr: u64) -> (frame: Option<u64>)
    requires
        addr < phys_limit(),
    ensures
        frame == if addr % 4096 == 0 { Some(addr) } else { None },
{
    match PhysFrame::<Size4KiB>::from_start_address(PhysAddr::new(addr)) {
        Ok(frame) => Some(frame.start_address().as_u64()),
        Err(_) => None,
    }
}

} // verus!
