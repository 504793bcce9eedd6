//! Locating a named section inside an ELF relocatable object.
//!
//! The ELF metadata itself is parsed by the `goblin` crate; what the rest of
//! the library needs of it is only the list of section headers, each reduced
//! to its resolved name, file offset and byte size. Everything past that
//! reduction is ordinary verified code over plain values.

use vstd::prelude::*;

verus! {

/// One section of an ELF image, reduced to what the version-table logic
/// reads: the section's resolved name, its file offset and its byte size.
#[derive(Debug)]
pub struct SectionHeader {
    pub name: Vec<u8>,
    pub offset: usize,
    pub size: usize,
}

/// The first section whose name equals `name`, scanning in file order.
pub open spec fn section_for(sections: Seq<SectionHeader>, name: Seq<u8>) -> Option<SectionHeader>
    decreases sections.len(),
{
    if sections.len() == 0 {
        None
    } else if sections[0].name@ == name {
        Some(sections[0])
    } else {
        section_for(sections.skip(1), name)
    }
}

proof fn lemma_section_for_step(sections: Seq<SectionHeader>, name: Seq<u8>, k: int)
    requires
        0 <= k < sections.len(),
        sections[k].name@ != name,
    ensures
        section_for(sections.skip(k), name) == section_for(sections.skip(k + 1), name),
{
    assert(sections.skip(k)[0] == sections[k]);
    assert(sections.skip(k).skip(1) =~= sections.skip(k + 1));
}

/// Finds the first section header named `name`, returning its index.
pub fn find_section(sections: &Vec<SectionHeader>, name: &[u8]) -> (r: Option<usize>)
    ensures
        match r {
            Some(i) => {
                &&& i < sections@.len()
                &&& sections@[i as int].name@ == name@
                &&& section_for(sections@, name@) == Some(sections@[i as int])
            },
            None => section_for(sections@, name@) is None,
        },
{
    let n = sections.len();
    assert(sections@.skip(0) =~= sections@);
    for i in 0..n
        invariant
            n == sections@.len(),
            section_for(sections@, name@) == section_for(sections@.skip(i as int), name@),
    {
        if crate::records::bytes_eq(sections[i].name.as_slice(), name) {
            assert(sections@.skip(i as int)[0] == sections@[i as int]);
            return Some(i);
        }
        proof {
            lemma_section_for_step(sections@, name@, i as int);
        }
    }
    assert(sections@.skip(n as int).len() == 0);
    None
}

/// The section headers that the `goblin` crate's ELF parser reads out of a
/// byte image — each reduced to (name, offset, size) — or nothing when the
/// bytes do not parse as an ELF object. The result is a function of the
/// bytes alone.
pub uninterp spec fn elf_sections_of(data: Seq<u8>) -> Option<Seq<(Seq<u8>, int, int)>>;

/// Section headers reduced to the plain values the rest of the library
/// reads of them.
pub open spec fn section_views(sections: Seq<SectionHeader>) -> Seq<(Seq<u8>, int, int)> {
    sections.map(|i: int, sh: SectionHeader| (sh.name@, sh.offset as int, sh.size as int))
}

/// Relies on `goblin::elf::Elf::parse` to read the ELF metadata of `data`,
/// and on `goblin::strtab::Strtab::get_at` to resolve each section header's
/// name from the section-header string table; a name that fails to resolve
/// becomes the empty name, so such a section never matches a lookup. Nothing
/// is assumed of the offsets and sizes goblin reports — the codec re-checks
/// them against the buffer before any use — only that parsing the same bytes
/// again reads the same section headers.
#[verifier::external_body]
pub(crate) fn parse_elf_sections(data: &[u8]) -> (r: Result<Vec<SectionHeader>, String>)
    ensures
        match r {
            Ok(sections) => elf_sections_of(data@) == Some(section_views(sections@)),
            Err(_) => elf_sections_of(data@) is None,
        },
{
    let elf = goblin::elf::Elf::parse(data).map_err(|e| format!("{}", e))?;
    let mut out = Vec::new();
    for sh in &elf.section_headers {
        let name = elf.shdr_strtab.get_at(sh.sh_name).unwrap_or("");
        out.push(SectionHeader {
            name: name.as_bytes().to_vec(),
            offset: sh.sh_offset as usize,
            size: sh.sh_size as usize,
        });
    }
    Ok(out)
}

} // verus!
