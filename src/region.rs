//! Candidate regions: the address ranges of loaded firmware sections that lie
//! wholly inside the target's RAM.

use vstd::prelude::*;

verus! {

/// A half-open address range `start..end`.
#[derive(Clone, Copy, Debug, PartialEq, Eq, Structural)]
pub struct AddrRange {
    pub start: u64,
    pub end: u64,
}

/// One section header of a firmware image: its load address and its size.
#[derive(Clone, Copy, Debug, PartialEq, Eq, Structural)]
pub struct Section {
    pub addr: u64,
    pub size: u64,
}

/// The kind of a region of the target's memory map.
#[derive(Clone, Copy, Debug, PartialEq, Eq, Structural)]
pub enum RegionKind {
    Ram,
    Other,
}

/// One region of the target's memory map.
#[derive(Clone, Copy, Debug, PartialEq, Eq, Structural)]
pub struct MemoryRegion {
    pub kind: RegionKind,
    pub range: AddrRange,
}

/// `start..end` lies wholly inside `r`.
pub open spec fn contained_in(start: int, end: int, r: AddrRange) -> bool {
    r.start <= start && end <= r.end
}

/// `start..end` and `r` share at least one address.
pub open spec fn overlaps(start: int, end: int, r: AddrRange) -> bool {
    start < r.end && r.start < end
}

/// `start..end` lies wholly inside one of the ranges of `ram`.
pub open spec fn in_ram(start: int, end: int, ram: Seq<AddrRange>) -> bool {
    exists|i: int| 0 <= i < ram.len() && contained_in(start, end, #[trigger] ram[i])
}

/// The end address of a section, which may lie beyond `u64::MAX`.
pub open spec fn section_end(s: Section) -> int {
    s.addr + s.size
}

/// A section is a candidate when it is not empty and lies wholly in RAM.
pub open spec fn is_candidate(s: Section, ram: Seq<AddrRange>) -> bool {
    s.size > 0 && in_ram(s.addr as int, section_end(s), ram)
}

/// The ranges of the candidate sections, in the order of the sections.
pub open spec fn candidates_of(sections: Seq<Section>, ram: Seq<AddrRange>) -> Seq<AddrRange>
    decreases sections.len(),
{
    if sections.len() == 0 {
        Seq::empty()
    } else {
        let s = sections.last();
        let rest = candidates_of(sections.drop_last(), ram);
        if is_candidate(s, ram) {
            rest.push(AddrRange { start: s.addr, end: (s.addr + s.size) as u64 })
        } else {
            rest
        }
    }
}

/// The ranges of the RAM regions of a memory map, in map order.
pub open spec fn ram_of(map: Seq<MemoryRegion>) -> Seq<AddrRange>
    decreases map.len(),
{
    if map.len() == 0 {
        Seq::empty()
    } else {
        let rest = ram_of(map.drop_last());
        if map.last().kind == RegionKind::Ram {
            rest.push(map.last().range)
        } else {
            rest
        }
    }
}

/// Every candidate region is a non-empty range that lies wholly inside one
/// of the RAM ranges.
pub proof fn lemma_candidates_in_ram(sections: Seq<Section>, ram: Seq<AddrRange>)
    ensures
        forall|i: int|
            0 <= i < candidates_of(sections, ram).len() ==> {
                let c = #[trigger] candidates_of(sections, ram)[i];
                &&& c.start < c.end
                &&& in_ram(c.start as int, c.end as int, ram)
            },
    decreases sections.len(),
{
    if sections.len() > 0 {
        lemma_candidates_in_ram(sections.drop_last(), ram);
        let s = sections.last();
        if is_candidate(s, ram) {
            let k = choose|k: int| 0 <= k < ram.len()
                && contained_in(s.addr as int, section_end(s), #[trigger] ram[k]);
            assert(section_end(s) <= u64::MAX);
            let c = AddrRange { start: s.addr, end: (s.addr + s.size) as u64 };
            assert(contained_in(c.start as int, c.end as int, ram[k]));
            let all = candidates_of(sections, ram);
            let rest = candidates_of(sections.drop_last(), ram);
            assert forall|i: int| 0 <= i < all.len() implies {
                let c = #[trigger] all[i];
                &&& c.start < c.end
                &&& in_ram(c.start as int, c.end as int, ram)
            } by {
                if i < rest.len() {
                    assert(all[i] == rest[i]);
                }
            }
        }
    }
}

/// Candidates keep the order of the sections: those of an earlier run of
/// sections come before those of a later one.
pub proof fn lemma_candidates_in_order(first: Seq<Section>, second: Seq<Section>, ram: Seq<AddrRange>)
    ensures
        candidates_of(first + second, ram) == candidates_of(first, ram) + candidates_of(second, ram),
    decreases second.len(),
{
    if second.len() == 0 {
        assert(first + second == first);
        assert(candidates_of(first, ram) + Seq::<AddrRange>::empty() == candidates_of(first, ram));
    } else {
        assert((first + second).drop_last() == first + second.drop_last());
        assert((first + second).last() == second.last());
        lemma_candidates_in_order(first, second.drop_last(), ram);
        let a = candidates_of(first, ram);
        let b = candidates_of(second.drop_last(), ram);
        let s = second.last();
        assert((a + b).push(AddrRange { start: s.addr, end: (s.addr + s.size) as u64 }) == a + b.push(
            AddrRange { start: s.addr, end: (s.addr + s.size) as u64 },
        ));
    }
}

/// Where no non-empty section shares an address with any RAM range, there is
/// no candidate.
pub proof fn lemma_no_overlap_no_candidates(sections: Seq<Section>, ram: Seq<AddrRange>)
    requires
        forall|i: int, k: int|
            #![trigger sections[i], ram[k]]
            0 <= i < sections.len() && 0 <= k < ram.len() && sections[i].size > 0 ==> !overlaps(
                sections[i].addr as int,
                section_end(sections[i]),
                ram[k],
            ),
    ensures
        candidates_of(sections, ram) == Seq::<AddrRange>::empty(),
    decreases sections.len(),
{
    if sections.len() > 0 {
        let s = sections.last();
        assert forall|i: int, k: int|
            #![trigger sections.drop_last()[i], ram[k]]
            0 <= i < sections.drop_last().len() && 0 <= k < ram.len()
                && sections.drop_last()[i].size > 0 implies !overlaps(
            sections.drop_last()[i].addr as int,
            section_end(sections.drop_last()[i]),
            ram[k],
        ) by {
            assert(sections.drop_last()[i] == sections[i]);
        }
        lemma_no_overlap_no_candidates(sections.drop_last(), ram);
        if is_candidate(s, ram) {
            let k = choose|k: int| 0 <= k < ram.len()
                && contained_in(s.addr as int, section_end(s), #[trigger] ram[k]);
            assert(sections[sections.len() - 1] == s);
            assert(!overlaps(s.addr as int, section_end(s), ram[k]));
        }
    }
}

/// Whether `r` holds the whole range `start..end`.
pub fn contains_range(r: &AddrRange, start: u64, end: u64) -> (b: bool)
    ensures
        b == contained_in(start as int, end as int, *r),
{
    r.start <= start && end <= r.end
}

/// The ranges of the RAM regions of `map`.
pub fn ram_ranges(map: &Vec<MemoryRegion>) -> (r: Vec<AddrRange>)
    ensures
        r@ == ram_of(map@),
{
    let mut out: Vec<AddrRange> = Vec::new();
    let mut i: usize = 0;
    while i < map.len()
        invariant
            i <= map.len(),
            out@ == ram_of(map@.subrange(0, i as int)),
        decreases map.len() - i,
    {
        assert(map@.subrange(0, i + 1).drop_last() == map@.subrange(0, i as int));
        if map[i].kind == RegionKind::Ram {
            out.push(map[i].range);
        }
        i = i + 1;
    }
    assert(map@.subrange(0, map.len() as int) == map@);
    out
}

/// Whether one of `ram` holds the whole range `start..end`.
fn fits_in_ram(ram: &Vec<AddrRange>, start: u64, end: u64) -> (b: bool)
    ensures
        b == in_ram(start as int, end as int, ram@),
{
    let mut i: usize = 0;
    while i < ram.len()
        invariant
            i <= ram.len(),
            forall|k: int| 0 <= k < i ==> !contained_in(start as int, end as int, #[trigger] ram@[k]),
        decreases ram.len() - i,
    {
        if contains_range(&ram[i], start, end) {
            return true;
        }
        i = i + 1;
    }
    false
}

/// The candidate regions among `sections`: each non-empty section that lies
/// wholly inside one of `ram`, as an address range, in section order.
pub fn select_candidates(sections: &Vec<Section>, ram: &Vec<AddrRange>) -> (r: Vec<AddrRange>)
    ensures
        r@ == candidates_of(sections@, ram@),
{
    let mut out: Vec<AddrRange> = Vec::new();
    let mut i: usize = 0;
    while i < sections.len()
        invariant
            i <= sections.len(),
            out@ == candidates_of(sections@.subrange(0, i as int), ram@),
        decreases sections.len() - i,
    {
        let s = sections[i];
        assert(sections@.subrange(0, i + 1).drop_last() == sections@.subrange(0, i as int));
        assert(sections@.subrange(0, i + 1).last() == s);
        if s.size > 0 {
            match s.addr.checked_add(s.size) {
                Some(end) => {
                    if fits_in_ram(ram, s.addr, end) {
                        out.push(AddrRange { start: s.addr, end });
                    }
                },
                None => {
                    assert(!is_candidate(s, ram@)) by {
                        if in_ram(s.addr as int, section_end(s), ram@) {
                            let k = choose|k: int| 0 <= k < ram@.len()
                                && contained_in(s.addr as int, section_end(s), #[trigger] ram@[k]);
                            assert(ram@[k].end <= u64::MAX);
                        }
                    }
                },
            }
        }
        i = i + 1;
    }
    assert(sections@.subrange(0, sections.len() as int) == sections@);
    out
}

} // verus!
