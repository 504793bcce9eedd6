//! Decoding the `__versions` section of a kernel module image into a
//! version table.
//!
//! The section holds fixed 64-byte records: bytes [0,8) are a little-endian
//! 64-bit checksum, bytes [8,64) a zero-padded symbol name. A section whose
//! byte size is not an exact multiple of 64, or which reaches past the end of
//! the image buffer, is malformed; a module with no `__versions` section at
//! all is a valid, distinct outcome.

use vstd::arithmetic::div_mod::lemma_fundamental_div_mod;
use vstd::bytes::spec_u64_from_le_bytes;
use vstd::bytes::u64_from_le_bytes;
use vstd::prelude::*;
use vstd::slice::slice_subrange;
use vstd::slice::slice_to_vec;

use crate::elf::elf_sections_of;
use crate::elf::find_section;
use crate::elf::section_for;
use crate::elf::section_views;
use crate::elf::SectionHeader;
use crate::records::table_in_bounds;
use crate::records::VersionRecord;
use crate::records::VersionTable;

verus! {

/// Each version record occupies exactly this many bytes.
pub const RECORD_SIZE: usize = 64;

/// The checksum field occupies the record's first bytes, the name field the
/// rest, starting here.
pub const NAME_OFFSET: usize = 8;

/// The name of the ELF section that holds the version table: `__versions`.
pub open spec fn versions_section_name() -> Seq<u8> {
    seq![95u8, 95u8, 118u8, 101u8, 114u8, 115u8, 105u8, 111u8, 110u8, 115u8]
}

/// The bytes of the ASCII name `__versions`.
pub fn versions_section_name_bytes() -> (r: Vec<u8>)
    ensures
        r@ == versions_section_name(),
{
    let mut v: Vec<u8> = Vec::new();
    v.push(95);
    v.push(95);
    v.push(118);
    v.push(101);
    v.push(114);
    v.push(115);
    v.push(105);
    v.push(111);
    v.push(110);
    v.push(115);
    proof {
        assert(v@ =~= versions_section_name());
    }
    v
}

/// The index of the first zero byte of `s`, or `s.len()` when no byte is
/// zero.
pub open spec fn first_zero(s: Seq<u8>) -> int
    decreases s.len(),
{
    if s.len() == 0 {
        0
    } else if s[0] == 0 {
        0
    } else {
        1 + first_zero(s.skip(1))
    }
}

/// An index below which every byte is nonzero and which is either the end or
/// a zero byte is exactly `first_zero`.
pub proof fn lemma_first_zero(s: Seq<u8>, m: int)
    requires
        0 <= m <= s.len(),
        forall|k: int| 0 <= k < m ==> s[k] != 0,
        m < s.len() ==> s[m] == 0,
    ensures
        first_zero(s) == m,
    decreases m,
{
    if m == 0 {
    } else {
        assert(s[0] != 0);
        let t = s.skip(1);
        assert(forall|k: int| 0 <= k < m - 1 ==> t[k] == s[k + 1] && t[k] != 0);
        assert(m - 1 < t.len() ==> t[m - 1] == s[m]);
        lemma_first_zero(t, m - 1);
    }
}

/// The name a fixed-width field encodes: its bytes up to (not including) the
/// first zero byte, or the whole field when no byte is zero.
pub open spec fn truncated_name(field: Seq<u8>) -> Seq<u8> {
    field.take(first_zero(field))
}

/// `r` is the version record stored at absolute offset `off` of `data`.
pub open spec fn record_decoded(data: Seq<u8>, off: int, r: VersionRecord) -> bool {
    &&& r.offset == off
    &&& r.crc == spec_u64_from_le_bytes(data.subrange(off, off + 8))
    &&& r.name@ == truncated_name(data.subrange(off + 8, off + 64))
}

/// `records` holds, in order, the `n` version records of the table that
/// starts at absolute offset `sec_off` of `data`.
pub open spec fn table_decoded(data: Seq<u8>, sec_off: int, n: int, records: Seq<VersionRecord>) -> bool {
    &&& records.len() == n
    &&& forall|i: int|
        0 <= i < n ==> record_decoded(data, sec_off + 64 * i, #[trigger] records[i])
}

/// The image has a `__versions` section but its extent is unusable: its size
/// is not a whole number of records, or it reaches past the buffer's end.
pub open spec fn malformed_section(sections: Seq<SectionHeader>, data: Seq<u8>) -> bool {
    match section_for(sections, versions_section_name()) {
        None => false,
        Some(sh) => sh.size as int % 64 != 0 || sh.offset as int + sh.size as int > data.len(),
    }
}

/// Decoding failed: the `__versions` section is present but malformed.
#[derive(Debug, Clone, Copy, PartialEq, Eq)]
pub enum DecodeError {
    MalformedTable,
}

/// What decoding found: no `__versions` section at all (a valid state, the
/// module needs no patching), or the fully decoded table.
#[derive(Debug)]
pub enum TableOutcome {
    Absent,
    Present(VersionTable),
}

/// Decodes the version table of the image `data`, whose section headers are
/// `sections`. Absence of the `__versions` section is reported as the
/// distinct `Absent` outcome, never as an error; a present section yields an
/// error exactly when its size is not a multiple of the record size or it
/// overruns the buffer, and otherwise the table of all `size / 64` records.
pub fn decode_version_table(sections: &Vec<SectionHeader>, data: &Vec<u8>) -> (r: Result<
    TableOutcome,
    DecodeError,
>)
    ensures
        (section_for(sections@, versions_section_name()) is None) <==> (r matches Ok(o)
            && o is Absent),
        malformed_section(sections@, data@) <==> r == Err::<TableOutcome, DecodeError>(
            DecodeError::MalformedTable,
        ),
        match section_for(sections@, versions_section_name()) {
            None => true,
            Some(sh) => !malformed_section(sections@, data@) ==> {
                &&& r matches Ok(TableOutcome::Present(t))
                &&& table_decoded(data@, sh.offset as int, sh.size as int / 64, t.records@)
                &&& table_in_bounds(t.records@, data@.len() as int)
            },
        },
{
    let sec_name = versions_section_name_bytes();
    let idx = match find_section(sections, sec_name.as_slice()) {
        None => {
            return Ok(TableOutcome::Absent);
        },
        Some(i) => i,
    };
    let sec_off = sections[idx].offset;
    let sec_size = sections[idx].size;
    if sec_size % 64 != 0 || sec_size > data.len() || sec_off > data.len() - sec_size {
        return Err(DecodeError::MalformedTable);
    }
    let dlen = data.len();
    let entries = sec_size / 64;
    proof {
        lemma_fundamental_div_mod(sec_size as int, 64);
    }
    assert(64 * entries == sec_size);
    let mut records: Vec<VersionRecord> = Vec::new();
    let mut e: usize = 0;
    while e < entries
        invariant
            e <= entries,
            64 * entries == sec_size,
            dlen == data@.len(),
            sec_off + sec_size <= dlen,
            records@.len() == e,
            forall|i: int|
                0 <= i < e ==> record_decoded(data@, sec_off + 64 * i, #[trigger] records@[i]),
            forall|i: int| 0 <= i < e ==> #[trigger] records@[i].offset + 64 <= data@.len(),
        decreases entries - e,
    {
        proof {
            assert(64 * (e + 1) <= 64 * entries) by (nonlinear_arith)
                requires
                    e < entries,
            ;
        }
        assert(e * 64 + 64 <= sec_size);
        let start = sec_off + e * 64;
        assert(start + 64 <= dlen);
        let crc = u64_from_le_bytes(slice_subrange(data.as_slice(), start, start + 8));
        let ghost field = data@.subrange(start as int + 8, start as int + 64);
        let mut nlen: usize = 0;
        while nlen < 56 && data[start + 8 + nlen] != 0
            invariant
                nlen <= 56,
                start + 64 <= dlen,
                dlen == data@.len(),
                field == data@.subrange(start as int + 8, start as int + 64),
                forall|j: int| 0 <= j < nlen ==> field[j] != 0,
            decreases 56 - nlen,
        {
            assert(field[nlen as int] == data@[start + 8 + nlen]);
            nlen = nlen + 1;
        }
        proof {
            if nlen < 56 {
                assert(field[nlen as int] == data@[start + 8 + nlen]);
            }
            lemma_first_zero(field, nlen as int);
        }
        let name = slice_to_vec(slice_subrange(data.as_slice(), start + 8, start + 8 + nlen));
        proof {
            assert(name@ =~= field.take(nlen as int));
        }
        records.push(VersionRecord { name, crc, offset: start });
        e = e + 1;
    }
    Ok(TableOutcome::Present(VersionTable { records }))
}

/// Reading a module image failed before a table could be decoded: the bytes
/// are not a parseable ELF object (with the parser's message), or the
/// `__versions` section is malformed.
#[derive(Debug)]
pub enum ModuleError {
    InvalidElf(String),
    MalformedTable,
}

/// Parses the ELF metadata of the image `data` and decodes its version
/// table, returning the section headers alongside the outcome. Whatever
/// section list the parser produced, the outcome is exactly what
/// `decode_version_table` specifies for it.
pub fn read_version_table(data: &Vec<u8>) -> (r: Result<
    (Vec<SectionHeader>, TableOutcome),
    ModuleError,
>)
    ensures
        (r matches Err(ModuleError::InvalidElf(m))) <==> elf_sections_of(data@) is None,
        match r {
            Ok(p) => {
                &&& elf_sections_of(data@) == Some(section_views(p.0@))
                &&& !malformed_section(p.0@, data@)
                &&& ((section_for(p.0@, versions_section_name()) is None) <==> p.1 is Absent)
                &&& match section_for(p.0@, versions_section_name()) {
                    None => true,
                    Some(sh) => {
                        &&& p.1 matches TableOutcome::Present(t)
                        &&& table_decoded(data@, sh.offset as int, sh.size as int / 64, t.records@)
                        &&& table_in_bounds(t.records@, data@.len() as int)
                    },
                }
            },
            Err(ModuleError::MalformedTable) => exists|sections: Seq<SectionHeader>|
                elf_sections_of(data@) == Some(section_views(sections))
                    && #[trigger] malformed_section(sections, data@),
            Err(ModuleError::InvalidElf(_)) => true,
        },
{
    let sections = match crate::elf::parse_elf_sections(data.as_slice()) {
        Ok(s) => s,
        Err(msg) => {
            return Err(ModuleError::InvalidElf(msg));
        },
    };
    match decode_version_table(&sections, data) {
        Ok(outcome) => Ok((sections, outcome)),
        Err(DecodeError::MalformedTable) => {
            proof {
                assert(elf_sections_of(data@) == Some(section_views(sections@))
                    && malformed_section(sections@, data@));
            }
            Err(ModuleError::MalformedTable)
        },
    }
}

/// What `String::from_utf8_lossy` makes of a byte sequence.
pub uninterp spec fn lossy_utf8_of(bytes: Seq<u8>) -> Seq<char>;

/// Relies on `String::from_utf8_lossy`: the text depends on the input bytes
/// alone, and no bytes yield no text.
#[verifier::external_body]
fn from_utf8_lossy_string(bytes: &[u8]) -> (r: String)
    ensures
        r@ == lossy_utf8_of(bytes@),
        bytes@.len() == 0 ==> r@.len() == 0,
{
    String::from_utf8_lossy(bytes).into_owned()
}

/// Recovers the text of a zero-terminated byte field: the bytes up to (not
/// including) the first zero byte — all of them when none is zero — turned
/// into text with invalid sequences replaced.
pub fn str_from_u8(utf8: &[u8]) -> (r: String)
    ensures
        r@ == lossy_utf8_of(utf8@.take(first_zero(utf8@))),
{
    let n = utf8.len();
    let mut null_idx: usize = 0;
    while null_idx < n && utf8[null_idx] != 0
        invariant
            null_idx <= n,
            n == utf8@.len(),
            forall|j: int| 0 <= j < null_idx ==> utf8@[j] != 0,
        decreases n - null_idx,
    {
        null_idx = null_idx + 1;
    }
    proof {
        lemma_first_zero(utf8@, null_idx as int);
    }
    from_utf8_lossy_string(slice_subrange(utf8, 0, null_idx))
}

} // verus!
