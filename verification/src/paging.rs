//! The recursive slot of the top-level paging structure.
//!
//! A top-level table whose slot `i` points back at the table itself makes
//! every paging level readable through ordinary virtual addresses: the
//! address whose four table indices are all `i` resolves to the table.

use vstd::prelude::*;
use x86_64::structures::paging::PageTable;
use crate::x86::{
    entry_is_unused, phys_limit, set_entry, sign_extended, table_entries, truncate_virt_addr, with_entry,
};

verus! {

/// Size of a virtual page in bytes.
pub const PAGE_SIZE: usize = 4096;

/// Size of a physical frame in bytes.
pub const FRAME_SIZE: usize = 4096;

/// Number of entries in one paging structure.
pub const ENTRY_COUNT: usize = 512;

/// Entry flag: the entry refers to memory that is present.
pub const FLAG_PRESENT: u64 = 0x1;

/// Entry flag: writes through the entry are allowed.
pub const FLAG_WRITABLE: u64 = 0x2;

/// Entry flag: the entry stays cached across address-space switches.
pub const FLAG_GLOBAL: u64 = 0x100;

/// Entry flag: no instruction fetch through the entry.
pub const FLAG_NO_EXECUTE: u64 = 0x8000_0000_0000_0000;

/// The flags of the recursive entry: present, global, no-execute.
pub const RECURSIVE_ENTRY_FLAGS: u64 = 0x8000_0000_0000_0101;

/// The flags of an ordinary mapping: present, writable.
pub const MAPPING_FLAGS: u64 = 0x3;

/// Why the recursive slot could not be installed.
#[derive(Clone, Copy, Debug, PartialEq, Eq, Structural)]
pub enum RecursivePageTableCreationError {
    TooLarge,
    UnsafeFinalEntry,
    AlreadyUsed,
    Cr3ReadError,
    WrongAddr,
    NotRecursive,
}

impl RecursivePageTableCreationError {
    /// The text that `message` returns for each variant.
    pub open spec fn message_text(self) -> Seq<char> {
        match self {
            Self::TooLarge => "The index provided was too large (512 or over)"@,
            Self::UnsafeFinalEntry => "The index provided was 511, which is unsafe due to potential pointer overflows or UB"@,
            Self::AlreadyUsed => "The page table entry at the provided inddex is in use already"@,
            Self::Cr3ReadError => "For whatever reason it wasn't possible to read from Cr3"@,
            Self::WrongAddr => "Somehow the wrong address fell through for the page table"@,
            Self::NotRecursive => "I'm a dumbass and for whatever reason it's not recursive"@,
        }
    }

    /// A human-readable description of the failure.
    pub fn message(&self) -> (text: &'static str)
        ensures
            text@ == self.message_text(),
    {
        match self {
            Self::TooLarge => "The index provided was too large (512 or over)",
            Self::UnsafeFinalEntry => "The index provided was 511, which is unsafe due to potential pointer overflows or UB",
            Self::AlreadyUsed => "The page table entry at the provided inddex is in use already",
            Self::Cr3ReadError => "For whatever reason it wasn't possible to read from Cr3",
            Self::WrongAddr => "Somehow the wrong address fell through for the page table",
            Self::NotRecursive => "I'm a dumbass and for whatever reason it's not recursive",
        }
    }
}

/// A top-level table with its recursive slot installed. Only
/// `create_recursive_page_table` makes one, so whoever holds one knows that
/// the slot has been written.
#[derive(Clone, Copy, Debug, PartialEq, Eq, Structural)]
pub struct RecursiveSlot {
    index: usize,
    table: u64,
    address: u64,
}

/// What a `RecursiveSlot` says.
pub struct RecursiveSlotView {
    /// The slot that points back at the table.
    pub index: usize,
    /// Physical address of the table.
    pub table: u64,
    /// Virtual address that resolves to the table through the slot.
    pub address: u64,
}

impl View for RecursiveSlot {
    type V = RecursiveSlotView;

    closed spec fn view(&self) -> RecursiveSlotView {
        RecursiveSlotView { index: self.index, table: self.table, address: self.address }
    }
}

impl RecursiveSlot {
    #[verifier::type_invariant]
    spec fn installed(self) -> bool {
        &&& 0 < self.index < 511
        &&& valid_table_address(self.table)
        &&& self.address == recursive_address(self.index as int)
    }

    /// The slot that points back at the table: one of 1 to 510.
    pub fn index(&self) -> (index: usize)
        ensures
            index == self@.index,
            0 < index < 511,
    {
        proof {
            use_type_invariant(self);
        }
        self.index
    }

    /// The physical address of the table.
    pub fn table(&self) -> (table: u64)
        ensures
            table == self@.table,
            valid_table_address(table),
    {
        proof {
            use_type_invariant(self);
        }
        self.table
    }

    /// The virtual address that resolves to the table through the slot.
    pub fn address(&self) -> (address: u64)
        ensures
            address == self@.address,
            address == recursive_address(self@.index as int),
    {
        proof {
            use_type_invariant(self);
        }
        self.address
    }
}

/// 2^39 + 2^30 + 2^21 + 2^12: an index multiplied by this stands in all
/// four table-index fields of an address.
pub open spec fn all_levels() -> int {
    0x80_4020_1000
}

/// The canonical virtual address whose level-4, level-3, level-2 and level-1
/// table indices are all `index`, with page offset zero.
pub open spec fn recursive_address(index: int) -> int {
    if index >= 256 {
        index * all_levels() + 0xffff_0000_0000_0000
    } else {
        index * all_levels()
    }
}

/// The table index that `addr` selects at `level` (1 to 4).
pub open spec fn table_index(addr: int, level: int) -> int {
    if level == 4 {
        (addr / 0x80_0000_0000) % 512
    } else if level == 3 {
        (addr / 0x4000_0000) % 512
    } else if level == 2 {
        (addr / 0x20_0000) % 512
    } else {
        (addr / 0x1000) % 512
    }
}

/// A physical address at which a paging structure can lie: not null, at
/// most 52 bits, 4 KiB aligned.
pub open spec fn valid_table_address(addr: u64) -> bool {
    addr != 0 && addr < phys_limit() && addr % 4096 == 0
}

/// What can be decided of a request before the table is looked at.
pub open spec fn slot_check(index: int, table_addr: u64) -> Result<(), RecursivePageTableCreationError> {
    if index >= ENTRY_COUNT {
        Err(RecursivePageTableCreationError::TooLarge)
    } else if index == 511 {
        Err(RecursivePageTableCreationError::UnsafeFinalEntry)
    } else if !valid_table_address(table_addr) {
        Err(RecursivePageTableCreationError::Cr3ReadError)
    } else {
        Ok(())
    }
}

/// Whether a request gets as far as writing the recursive entry.
pub open spec fn installs(entries: Seq<u64>, table_addr: u64, index: int) -> bool {
    slot_check(index, table_addr) is Ok && entries[index] == 0
}

/// The entries of the table after a request.
pub open spec fn entries_after(entries: Seq<u64>, table_addr: u64, index: int) -> Seq<u64> {
    if installs(entries, table_addr, index) {
        with_entry(entries, index, (table_addr | RECURSIVE_ENTRY_FLAGS) as u64)
    } else {
        entries
    }
}

/// The answer to a request.
pub open spec fn creation_result(entries: Seq<u64>, table_addr: u64, index: int) -> Result<
    RecursiveSlotView,
    RecursivePageTableCreationError,
> {
    match slot_check(index, table_addr) {
        Err(e) => Err(e),
        Ok(_) => if entries[index] != 0 {
            Err(RecursivePageTableCreationError::AlreadyUsed)
        } else if recursive_address(index) == 0 {
            Err(RecursivePageTableCreationError::WrongAddr)
        } else {
            Ok(RecursiveSlotView { index: index as usize, table: table_addr, address: recursive_address(index) as u64 })
        },
    }
}

proof fn lemma_address_bits(i: u64)
    by (bit_vector)
    requires
        i < 512,
    ensures
        (i << 39 | i << 30 | i << 21 | i << 12) == i * 0x80_4020_1000,
        i * 0x80_4020_1000 < 0x1_0000_0000_0000,
        i >= 256 ==> sign_extended((i * 0x80_4020_1000) as u64) == i * 0x80_4020_1000 + 0xffff_0000_0000_0000,
        i < 256 ==> sign_extended((i * 0x80_4020_1000) as u64) == i * 0x80_4020_1000,
{
}

/// The virtual address that resolves to the top-level table through slot
/// `index` at every paging level.
pub fn recursive_table_address(index: usize) -> (address: u64)
    requires
        index < ENTRY_COUNT,
    ensures
        address == recursive_address(index as int),
{
    let i: u64 = index as u64;
    proof {
        lemma_address_bits(i);
    }
    truncate_virt_addr(i << 39 | i << 30 | i << 21 | i << 12)
}

/// Decides what can be decided before the table is looked at: the index must
/// be below 511 and `table_addr`, the content of the paging-root register,
/// must be the address of a paging structure.
pub fn check_recursive_slot(index: usize, table_addr: u64) -> (checked: Result<(), RecursivePageTableCreationError>)
    ensures
        checked == slot_check(index as int, table_addr),
{
    if index >= ENTRY_COUNT {
        return Err(RecursivePageTableCreationError::TooLarge);
    }
    if index == ENTRY_COUNT - 1 {
        return Err(RecursivePageTableCreationError::UnsafeFinalEntry);
    }
    if table_addr == 0 || table_addr >= 0x0010_0000_0000_0000 || table_addr % 4096 != 0 {
        return Err(RecursivePageTableCreationError::Cr3ReadError);
    }
    Ok(())
}

/// Installs the recursive entry in `table`, the top-level paging structure
/// that lies at physical address `table_addr`.
///
/// Slot `index` must be unused; it is set to `table_addr` with the flags
/// present, global and no-execute, and the answer names the virtual address
/// through which the table is reached from then on. No other slot changes,
/// and on an error before the write no slot changes at all.
pub fn create_recursive_page_table(table: &mut PageTable, table_addr: u64, index: usize) -> (created: Result<
    RecursiveSlot,
    RecursivePageTableCreationError,
>)
    ensures
        match created {
            Ok(slot) => creation_result(table_entries(*old(table)), table_addr, index as int) == Ok::<
                _,
                RecursivePageTableCreationError,
            >(slot@),
            Err(e) => creation_result(table_entries(*old(table)), table_addr, index as int) == Err::<
                RecursiveSlotView,
                _,
            >(e),
        },
        table_entries(*final(table)) == entries_after(table_entries(*old(table)), table_addr, index as int),
        index == 511 ==> created == Err::<RecursiveSlot, _>(RecursivePageTableCreationError::UnsafeFinalEntry),
        index >= 512 ==> created == Err::<RecursiveSlot, _>(RecursivePageTableCreationError::TooLarge),
{
    match check_recursive_slot(index, table_addr) {
        Err(e) => {
            return Err(e);
        },
        Ok(_) => {},
    }
    if !entry_is_unused(table, index) {
        return Err(RecursivePageTableCreationError::AlreadyUsed);
    }
    set_entry(table, index, table_addr, RECURSIVE_ENTRY_FLAGS);
    let address = recursive_table_address(index);
    if address == 0 {
        return Err(RecursivePageTableCreationError::WrongAddr);
    }
    proof {
        lemma_recursive_address_loops(index as int);
    }
    Ok(RecursiveSlot { index, table: table_addr, address })
}

proof fn lemma_flags_make_nonzero(addr: u64)
    by (bit_vector)
    ensures
        addr | 0x8000_0000_0000_0101 != 0,
        (addr | 0x8000_0000_0000_0101) & 0x1 == 0x1,
{
}

/// The two sets of flags are made of the single flags that their names say.
pub proof fn lemma_flag_sets()
    ensures
        RECURSIVE_ENTRY_FLAGS == FLAG_PRESENT | FLAG_GLOBAL | FLAG_NO_EXECUTE,
        MAPPING_FLAGS == FLAG_PRESENT | FLAG_WRITABLE,
{
    assert(0x8000_0000_0000_0101u64 == 0x1u64 | 0x100u64 | 0x8000_0000_0000_0000u64) by (bit_vector);
    assert(0x3u64 == 0x1u64 | 0x2u64) by (bit_vector);
}

/// The address of the recursive slot selects that slot at every paging
/// level, has page offset zero and is canonical.
pub proof fn lemma_recursive_address_loops(index: int)
    requires
        0 <= index < 512,
    ensures
        table_index(recursive_address(index), 4) == index,
        table_index(recursive_address(index), 3) == index,
        table_index(recursive_address(index), 2) == index,
        table_index(recursive_address(index), 1) == index,
        recursive_address(index) % 4096 == 0,
        0 <= recursive_address(index) <= u64::MAX,
        crate::x86::is_canonical(recursive_address(index) as u64),
        recursive_address(index) == 0 <==> index == 0,
{
    let i = index as u64;
    assert(i < 512 ==> {
        let a: u64 = if i >= 256 {
            (i * 0x80_4020_1000 + 0xffff_0000_0000_0000) as u64
        } else {
            (i * 0x80_4020_1000) as u64
        };
        &&& (a / 0x80_0000_0000) % 512 == i
        &&& (a / 0x4000_0000) % 512 == i
        &&& (a / 0x20_0000) % 512 == i
        &&& (a / 0x1000) % 512 == i
        &&& a % 4096 == 0
        &&& (a < 0x0000_8000_0000_0000 || a >= 0xffff_8000_0000_0000)
        &&& (a == 0 <==> i == 0)
        &&& i * 0x80_4020_1000 + 0xffff_0000_0000_0000 <= 0xffff_ffff_ffff_ffff
    }) by (bit_vector);
}

/// Slot 511 is refused as unsafe and an index of 512 or more as too large,
/// whatever the table holds and wherever it lies.
pub proof fn lemma_index_rejection(entries: Seq<u64>, table_addr: u64, index: int)
    requires
        index >= 511,
    ensures
        index == 511 ==> creation_result(entries, table_addr, index) == Err::<RecursiveSlotView, _>(
            RecursivePageTableCreationError::UnsafeFinalEntry,
        ),
        index >= 512 ==> creation_result(entries, table_addr, index) == Err::<RecursiveSlotView, _>(
            RecursivePageTableCreationError::TooLarge,
        ),
        entries_after(entries, table_addr, index) == entries,
{
}

/// A request that wrote the recursive entry, as every successful request
/// has, cannot be repeated: the same index on the table it left behind is
/// answered with `AlreadyUsed`, and the table stays as it is.
pub proof fn lemma_second_request_rejected(entries: Seq<u64>, table_addr: u64, index: int)
    requires
        0 <= index,
        installs(entries, table_addr, index),
    ensures
        creation_result(entries_after(entries, table_addr, index), table_addr, index) == Err::<
            RecursiveSlotView,
            _,
        >(RecursivePageTableCreationError::AlreadyUsed),
        entries_after(entries_after(entries, table_addr, index), table_addr, index) == entries_after(
            entries,
            table_addr,
            index,
        ),
{
    lemma_flags_make_nonzero(table_addr);
}

/// Every successful request wrote the entry, and the entry it wrote is
/// present and holds the table's own address.
pub proof fn lemma_success_installs(entries: Seq<u64>, table_addr: u64, index: int)
    requires
        0 <= index,
        creation_result(entries, table_addr, index) is Ok,
    ensures
        installs(entries, table_addr, index),
        0 < index < 511,
        entries_after(entries, table_addr, index)[index] == table_addr | RECURSIVE_ENTRY_FLAGS,
        entries_after(entries, table_addr, index)[index] & FLAG_PRESENT == FLAG_PRESENT,
        forall|j: int| 0 <= j < 512 && j != index ==> entries_after(entries, table_addr, index)[j] == entries[j],
        creation_result(entries, table_addr, index)->Ok_0.address == recursive_address(index),
{
    lemma_flags_make_nonzero(table_addr);
    lemma_recursive_address_loops(index);
}

} // verus!
