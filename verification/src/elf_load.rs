//! The entry of the ELF loader: which kind of object a file is and whether
//! this machine can run it. Placing the segments of an object in memory is
//! not written yet, so every object that passes the checks is answered with
//! `NotImplemented`.

use vstd::prelude::*;
use elf::endian::AnyEndian;
use elf::parse::ParseError;
use elf::ElfBytes;
use crate::frame::FrameAllocator;

verus! {

/// `elf::parse::ParseError`: why the `elf` crate could not read a file.
#[verifier::external_type_specification]
#[verifier::external_body]
pub struct ExParseError(ParseError);

/// Header value of a relocatable object.
pub const ET_REL: u16 = 1;

/// Header value of an executable.
pub const ET_EXEC: u16 = 2;

/// Header value of a shared object.
pub const ET_DYN: u16 = 3;

/// Header value of the x86-64 instruction set.
pub const EM_X86_64: u16 = 62;

/// Where in virtual memory an object is to be placed.
#[derive(Clone, Copy, Debug, PartialEq, Eq, Structural)]
pub enum LoadLocation {
    Any,
    Exactly(u64),
    LessThan(u64),
    GreaterThan(u64),
}

/// Why an object was not loaded.
pub enum ElfLoadError {
    ElfHeaderParseError(ParseError),
    IncorrectType,
    WrongInstructionSet,
    CommonDataNotFound,
    MissingSymTab,
    NotImplemented,
}

impl From<ParseError> for ElfLoadError {
    fn from(value: ParseError) -> (error: Self) {
        Self::ElfHeaderParseError(value)
    }
}

impl vstd::std_specs::convert::FromSpecImpl<ParseError> for ElfLoadError {
    open spec fn obeys_from_spec() -> bool {
        true
    }

    open spec fn from_spec(value: ParseError) -> Self {
        ElfLoadError::ElfHeaderParseError(value)
    }
}

/// What the loader reads of a file header: the object type and the machine.
#[derive(Clone, Copy, Debug, PartialEq, Eq, Structural)]
pub struct ElfHeader {
    pub e_type: u16,
    pub e_machine: u16,
}

/// The object type and the machine that the `elf` crate reads from the
/// header of a file, where it can read the file at all.
pub uninterp spec fn header_fields(data: Seq<u8>) -> Option<(u16, u16)>;

/// `ElfBytes::<AnyEndian>::minimal_parse`: reads the file header and locates
/// the section and program header tables. On success the answer holds the
/// header's `e_type` and `e_machine`.
#[verifier::external_body]
fn parse_header(data: &[u8]) -> (header: Result<ElfHeader, ParseError>)
    ensures
        match header {
            Ok(h) => header_fields(data@) == Some((h.e_type, h.e_machine)),
            Err(_) => header_fields(data@) is None,
        },
{
    match ElfBytes::<AnyEndian>::minimal_parse(data) {
        Ok(file) => Ok(ElfHeader { e_type: file.ehdr.e_type, e_machine: file.ehdr.e_machine }),
        Err(e) => Err(e),
    }
}

/// The answer to an object with the given header: it must be for x86-64 and
/// be a shared object, an executable or a relocatable object, and none of
/// these can be loaded yet.
pub open spec fn load_answer(header: ElfHeader) -> ElfLoadError {
    if header.e_machine != EM_X86_64 {
        ElfLoadError::WrongInstructionSet
    } else if header.e_type == ET_DYN || header.e_type == ET_EXEC || header.e_type == ET_REL {
        ElfLoadError::NotImplemented
    } else {
        ElfLoadError::IncorrectType
    }
}

fn load_shared_library<A: FrameAllocator>(data: &[u8], allocator: &A, load_location: LoadLocation) -> (entry: Result<
    u64,
    ElfLoadError,
>)
    ensures
        entry == Err::<u64, _>(ElfLoadError::NotImplemented),
{
    Err(ElfLoadError::NotImplemented)
}

fn load_executable<A: FrameAllocator>(data: &[u8], allocator: &A, load_location: LoadLocation) -> (entry: Result<
    u64,
    ElfLoadError,
>)
    ensures
        entry == Err::<u64, _>(ElfLoadError::NotImplemented),
{
    Err(ElfLoadError::NotImplemented)
}

fn load_relocatable<A: FrameAllocator>(data: &[u8], allocator: &A, load_location: LoadLocation) -> (entry: Result<
    u64,
    ElfLoadError,
>)
    ensures
        entry == Err::<u64, _>(ElfLoadError::NotImplemented),
{
    Err(ElfLoadError::NotImplemented)
}

/// Loads the object `data`, whose header has been read already, and returns
/// the virtual address of its entry point.
pub fn load_with_header<A: FrameAllocator>(
    header: Result<ElfHeader, ParseError>,
    data: &[u8],
    allocator: &A,
    load_location: LoadLocation,
) -> (entry: Result<u64, ElfLoadError>)
    ensures
        entry == match header {
            Ok(h) => Err::<u64, _>(load_answer(h)),
            Err(e) => Err::<u64, _>(ElfLoadError::ElfHeaderParseError(e)),
        },
{
    let header = match header {
        Ok(header) => header,
        Err(e) => {
            return Err(ElfLoadError::from(e));
        },
    };
    if header.e_machine != EM_X86_64 {
        return Err(ElfLoadError::WrongInstructionSet);
    }
    if header.e_type == ET_DYN {
        load_shared_library(data, allocator, load_location)
    } else if header.e_type == ET_EXEC {
        load_executable(data, allocator, load_location)
    } else if header.e_type == ET_REL {
        load_relocatable(data, allocator, load_location)
    } else {
        Err(ElfLoadError::IncorrectType)
    }
}

/// Loads the object in `data`, the whole file in memory, and returns the
/// virtual address of its entry point. `allocator` is to give the frames
/// for its segments and `load_location` says where to place it.
pub fn load<A: FrameAllocator>(data: &[u8], allocator: &A, load_location: LoadLocation) -> (entry: Result<
    u64,
    ElfLoadError,
>)
    ensures
        match header_fields(data@) {
            Some((e_type, e_machine)) => entry == Err::<u64, _>(load_answer(ElfHeader { e_type, e_machine })),
            None => entry matches Err(ElfLoadError::ElfHeaderParseError(_)),
        },
{
    load_with_header(parse_header(data), data, allocator, load_location)
}

} // verus!
