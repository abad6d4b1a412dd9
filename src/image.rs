//! Candidate regions of a firmware image: its section headers, read with
//! goblin, against the RAM of the target's memory map.

use crate::region::{candidates_of, ram_of, ram_ranges, select_candidates, AddrRange, MemoryRegion, Section};
use scroll::Pread;
use vstd::prelude::*;

verus! {

#[verifier::external_type_specification]
#[verifier::external_body]
pub struct ExGoblinError(goblin::error::Error);

/// Whether goblin reads the ELF header of `image` and then its table of
/// section headers, both returning `Ok`.
pub uninterp spec fn elf_parses(image: Seq<u8>) -> bool;

/// The section headers that goblin reads from `image`, in table order.
pub uninterp spec fn elf_sections(image: Seq<u8>) -> Seq<Section>;

/// Relies on goblin's ELF header reader (`Pread` of `goblin::elf::Header`,
/// with `Header::container` and `Header::endianness`) and on
/// `goblin::elf::SectionHeader::parse`: together they fail, or give the
/// section headers, each with its address and size, in the order of the
/// file. Every read there is bounds-checked and the header count is checked
/// against the length of `image`. Program headers and dynamic sections are
/// not read.
#[verifier::external_body]
fn parse_sections(image: &[u8]) -> (r: Result<Vec<Section>, goblin::error::Error>)
    ensures
        r.is_ok() == elf_parses(image@),
        r matches Ok(v) ==> v@ == elf_sections(image@),
{
    let header: goblin::elf::Header = image.pread(0)?;
    let ctx = goblin::container::Ctx::new(header.container()?, header.endianness()?);
    let headers = goblin::elf::SectionHeader::parse(image, header.e_shoff as usize, header.e_shnum as usize, ctx)?;
    Ok(headers.iter().map(|sh| Section { addr: sh.sh_addr, size: sh.sh_size }).collect())
}

/// The firmware image could not be read as an ELF file.
#[derive(Clone, Copy, Debug, PartialEq, Eq, Structural)]
pub struct ImageParseError;

/// The candidate regions of a firmware image: the non-empty sections of
/// `image` that lie wholly in one of the RAM regions of `memory_map`, in
/// section-header order.
pub fn find_candidates(image: &[u8], memory_map: &Vec<MemoryRegion>) -> (r: Result<
    Vec<AddrRange>,
    ImageParseError,
>)
    ensures
        r.is_ok() == elf_parses(image@),
        r matches Ok(v) ==> v@ == candidates_of(elf_sections(image@), ram_of(memory_map@)),
{
    match parse_sections(image) {
        Ok(sections) => {
            let ram = ram_ranges(memory_map);
            Ok(select_candidates(&sections, &ram))
        },
        Err(_) => Err(ImageParseError),
    }
}

} // verus!
