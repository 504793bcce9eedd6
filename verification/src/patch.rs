//! The patch engine: rewriting checksum bytes of a module image in place.
//!
//! Given the target image's decoded version table, an optional source table
//! (decoded from a reference module) and an optional explicit override for
//! the distinguished `module_layout` symbol, the engine overwrites exactly
//! the 8 checksum bytes of each affected record, in this order: first every
//! target symbol the source also knows gets the source's checksum, then the
//! explicit override — which therefore always wins — is written over the
//! `module_layout` record. No other byte of the buffer changes, and its
//! length never changes.

use vstd::bytes::lemma_auto_spec_u64_to_from_le_bytes;
use vstd::bytes::spec_u64_from_le_bytes;
use vstd::bytes::spec_u64_to_le_bytes;
use vstd::bytes::u64_to_le_bytes;
use vstd::prelude::*;

use crate::codec::table_decoded;
use crate::records::lookup;
use crate::records::table_in_bounds;
use crate::records::VersionRecord;
use crate::records::VersionTable;

verus! {

/// The name of the distinguished symbol an explicit override patches:
/// `module_layout`.
pub open spec fn module_layout_name() -> Seq<u8> {
    seq![
        109u8,
        111u8,
        100u8,
        117u8,
        108u8,
        101u8,
        95u8,
        108u8,
        97u8,
        121u8,
        111u8,
        117u8,
        116u8,
    ]
}

/// The bytes of the ASCII name `module_layout`.
pub fn module_layout_name_bytes() -> (r: Vec<u8>)
    ensures
        r@ == module_layout_name(),
{
    let mut v: Vec<u8> = Vec::new();
    v.push(109);
    v.push(111);
    v.push(100);
    v.push(117);
    v.push(108);
    v.push(101);
    v.push(95);
    v.push(108);
    v.push(97);
    v.push(121);
    v.push(111);
    v.push(117);
    v.push(116);
    proof {
        assert(v@ =~= module_layout_name());
    }
    v
}

/// `data` with its 8 bytes at [off, off+8) replaced by the little-endian
/// encoding of `v`; every other byte, and the length, kept.
pub open spec fn write_le64_at(data: Seq<u8>, off: int, v: u64) -> Seq<u8> {
    Seq::new(
        data.len(),
        |i: int|
            if off <= i < off + 8 {
                spec_u64_to_le_bytes(v)[i - off]
            } else {
                data[i]
            },
    )
}

/// `data` after copying, record by record in table order, the source's
/// checksum over each target record whose name the source table also has.
pub open spec fn apply_source_spec(
    data: Seq<u8>,
    target: Seq<VersionRecord>,
    source: Seq<VersionRecord>,
) -> Seq<u8>
    decreases target.len(),
{
    if target.len() == 0 {
        data
    } else {
        let prev = apply_source_spec(data, target.drop_last(), source);
        match lookup(source, target.last().name@) {
            Some(srec) => write_le64_at(prev, target.last().offset as int, srec.crc),
            None => prev,
        }
    }
}

/// `data` after the source-copy step, which does nothing when no source
/// table was supplied.
pub open spec fn after_source(
    data: Seq<u8>,
    target: Seq<VersionRecord>,
    source: Option<Seq<VersionRecord>>,
) -> Seq<u8> {
    match source {
        Some(src) => apply_source_spec(data, target, src),
        None => data,
    }
}

/// `data` after the whole patch: the source-copy step first, then — written
/// over whatever that step left there — the explicit override at the target's
/// `module_layout` record, when an override was supplied and the record
/// exists.
pub open spec fn patched(
    data: Seq<u8>,
    target: Seq<VersionRecord>,
    source: Option<Seq<VersionRecord>>,
    layout_override: Option<u64>,
) -> Seq<u8> {
    let mid = after_source(data, target, source);
    match layout_override {
        Some(v) => match lookup(target, module_layout_name()) {
            Some(ml) => write_le64_at(mid, ml.offset as int, v),
            None => mid,
        },
        None => mid,
    }
}

/// The source tables of an optional borrowed table, as the spec functions
/// take them.
pub open spec fn source_view(source: Option<&VersionTable>) -> Option<Seq<VersionRecord>> {
    match source {
        Some(s) => Some(s.records@),
        None => None,
    }
}

/// The patch request cannot be honored.
#[derive(Debug, Clone, Copy, PartialEq, Eq)]
pub enum PatchError {
    /// An explicit override was requested but the target's table has no
    /// `module_layout` record to write it to.
    MissingModuleLayout,
}

/// Overwrites the 8 bytes at `off` with the little-endian encoding of `v`.
fn write_le64(buffer: &mut Vec<u8>, off: usize, v: u64)
    requires
        off + 8 <= old(buffer)@.len(),
    ensures
        final(buffer)@ == write_le64_at(old(buffer)@, off as int, v),
{
    let bytes = u64_to_le_bytes(v);
    let blen = buffer.len();
    let mut j: usize = 0;
    while j < 8
        invariant
            j <= 8,
            bytes@ == spec_u64_to_le_bytes(v),
            bytes@.len() == 8,
            off + 8 <= blen,
            blen == buffer@.len(),
            buffer@.len() == old(buffer)@.len(),
            forall|i: int|
                0 <= i < buffer@.len() ==> buffer@[i] == (if off <= i < off + j {
                    spec_u64_to_le_bytes(v)[i - off]
                } else {
                    old(buffer)@[i]
                }),
        decreases 8 - j,
    {
        let b = bytes[j];
        buffer.set(off + j, b);
        j = j + 1;
    }
    proof {
        assert(buffer@ =~= write_le64_at(old(buffer)@, off as int, v));
    }
}

/// Applies the patch to `buffer` in place. The source-copy step runs first:
/// every record of `target` whose name `source` also has gets the source's
/// checksum. Then the explicit override, when supplied, is written over the
/// `module_layout` record, taking precedence over anything the source wrote.
/// An override without a `module_layout` record in the target is the one
/// error; the buffer is then left untouched. The buffer's length never
/// changes.
pub fn apply_patch(
    target: &VersionTable,
    buffer: &mut Vec<u8>,
    source: Option<&VersionTable>,
    layout_override: Option<u64>,
) -> (r: Result<(), PatchError>)
    requires
        table_in_bounds(target.records@, old(buffer)@.len() as int),
    ensures
        (r is Err) <==> (layout_override is Some && lookup(target.records@, module_layout_name())
            is None),
        r is Err ==> final(buffer)@ == old(buffer)@,
        r is Ok ==> final(buffer)@ == patched(
            old(buffer)@,
            target.records@,
            source_view(source),
            layout_override,
        ),
        final(buffer)@.len() == old(buffer)@.len(),
{
    let ml_name = module_layout_name_bytes();
    let ml = target.get(ml_name.as_slice());
    if layout_override.is_some() && ml.is_none() {
        return Err(PatchError::MissingModuleLayout);
    }
    if let Some(src) = source {
        let n = target.records.len();
        assert(target.records@.subrange(0, 0).len() == 0);
        let mut i: usize = 0;
        while i < n
            invariant
                i <= n,
                n == target.records@.len(),
                table_in_bounds(target.records@, old(buffer)@.len() as int),
                buffer@.len() == old(buffer)@.len(),
                buffer@ == apply_source_spec(
                    old(buffer)@,
                    target.records@.subrange(0, i as int),
                    src.records@,
                ),
            decreases n - i,
        {
            let rec = &target.records[i];
            proof {
                lemma_apply_source_len(
                    old(buffer)@,
                    target.records@.subrange(0, i as int),
                    src.records@,
                );
                assert(target.records@.subrange(0, i + 1).drop_last() =~= target.records@.subrange(
                    0,
                    i as int,
                ));
                assert(target.records@.subrange(0, i + 1).last() == target.records@[i as int]);
            }
            match src.get(rec.name.as_slice()) {
                Some(found) => {
                    write_le64(buffer, rec.offset, found.0);
                },
                None => {},
            }
            i = i + 1;
        }
        assert(target.records@.subrange(0, n as int) =~= target.records@);
    }
    if let Some(v) = layout_override {
        let off = match ml {
            Some(p) => p.1,
            // not reached: an override without the record returned the error above
            None => 0,
        };
        proof {
            crate::records::lemma_lookup_found(target.records@, module_layout_name());
        }
        write_le64(buffer, off, v);
    }
    Ok(())
}

/// The byte sequences a patch writes never grow or shrink the image.
pub proof fn lemma_apply_source_len(
    data: Seq<u8>,
    target: Seq<VersionRecord>,
    source: Seq<VersionRecord>,
)
    ensures
        apply_source_spec(data, target, source).len() == data.len(),
    decreases target.len(),
{
    if target.len() > 0 {
        lemma_apply_source_len(data, target.drop_last(), source);
    }
}

/// Byte `i` lies in the 8 checksum bytes of record `r`.
pub open spec fn in_record_range(i: int, r: VersionRecord) -> bool {
    r.offset <= i < r.offset + 8
}

/// Byte `i` belongs to a checksum range the patch overwrites: a target
/// record whose name the source table has, or the `module_layout` record
/// when an explicit override was supplied.
pub open spec fn byte_patched(
    i: int,
    target: Seq<VersionRecord>,
    source: Option<Seq<VersionRecord>>,
    layout_override: Option<u64>,
) -> bool {
    ||| (source matches Some(src) && exists|k: int|
        0 <= k < target.len() && lookup(src, (#[trigger] target[k]).name@) is Some
            && in_record_range(i, target[k]))
    ||| (layout_override is Some && (lookup(target, module_layout_name()) matches Some(ml)
        && in_record_range(i, ml)))
}

proof fn lemma_apply_source_frame(
    data: Seq<u8>,
    target: Seq<VersionRecord>,
    source: Seq<VersionRecord>,
    i: int,
)
    requires
        0 <= i < data.len(),
        forall|k: int|
            0 <= k < target.len() ==> !(lookup(source, (#[trigger] target[k]).name@) is Some
                && in_record_range(i, target[k])),
    ensures
        apply_source_spec(data, target, source)[i] == data[i],
    decreases target.len(),
{
    if target.len() > 0 {
        let pre = target.drop_last();
        assert(forall|k: int| 0 <= k < pre.len() ==> pre[k] == target[k]);
        lemma_apply_source_frame(data, pre, source, i);
        lemma_apply_source_len(data, pre, source);
        assert(target[target.len() - 1] == target.last());
    }
}

/// A patch changes nothing but the checksum bytes of the affected records:
/// every byte outside those 8-byte ranges is identical before and after, and
/// the image's length is identical.
pub proof fn lemma_patch_frame(
    data: Seq<u8>,
    target: Seq<VersionRecord>,
    source: Option<Seq<VersionRecord>>,
    layout_override: Option<u64>,
    i: int,
)
    requires
        0 <= i < data.len(),
        !byte_patched(i, target, source, layout_override),
    ensures
        patched(data, target, source, layout_override).len() == data.len(),
        patched(data, target, source, layout_override)[i] == data[i],
{
    let mid = after_source(data, target, source);
    match source {
        Some(src) => {
            lemma_apply_source_len(data, target, src);
            lemma_apply_source_frame(data, target, src, i);
        },
        None => {},
    }
    assert(mid.len() == data.len() && mid[i] == data[i]);
}

/// Records decoded from one table occupy pairwise disjoint checksum ranges.
pub open spec fn ranges_disjoint(target: Seq<VersionRecord>) -> bool {
    forall|i: int, j: int|
        #![trigger target[i].offset, target[j].offset]
        0 <= i < j < target.len() ==> (target[i].offset + 8 <= target[j].offset || target[j].offset
            + 8 <= target[i].offset)
}

/// Any table the codec decodes has its records at consecutive 64-byte
/// strides, so their checksum ranges are pairwise disjoint.
pub proof fn lemma_decoded_ranges_disjoint(
    data: Seq<u8>,
    sec_off: int,
    n: int,
    records: Seq<VersionRecord>,
)
    requires
        0 <= sec_off,
        table_decoded(data, sec_off, n, records),
    ensures
        ranges_disjoint(records),
{
    assert forall|i: int, j: int|
        #![trigger records[i].offset, records[j].offset]
        0 <= i < j < records.len() implies (records[i].offset + 8 <= records[j].offset
        || records[j].offset + 8 <= records[i].offset) by {
        assert(records[i].offset == sec_off + 64 * i);
        assert(records[j].offset == sec_off + 64 * j);
        assert(64 * i + 8 <= 64 * j) by (nonlinear_arith)
            requires
                i < j,
        ;
    }
}

/// Patching with a source table and no override copies the source's checksum
/// over every target record whose name the source also has, and leaves the
/// checksum bytes of every other record exactly as they were.
pub proof fn lemma_source_patch_exact(
    data: Seq<u8>,
    target: Seq<VersionRecord>,
    source: Seq<VersionRecord>,
    k: int,
)
    requires
        table_in_bounds(target, data.len() as int),
        ranges_disjoint(target),
        0 <= k < target.len(),
    ensures
        ({
            let out = patched(data, target, Some(source), None);
            let off = target[k].offset as int;
            match lookup(source, target[k].name@) {
                Some(srec) => out.subrange(off, off + 8) == spec_u64_to_le_bytes(srec.crc),
                None => out.subrange(off, off + 8) == data.subrange(off, off + 8),
            }
        }),
    decreases target.len(),
{
    lemma_auto_spec_u64_to_from_le_bytes();
    let out = patched(data, target, Some(source), None);
    let off = target[k].offset as int;
    let pre = target.drop_last();
    let prev = apply_source_spec(data, pre, source);
    lemma_apply_source_len(data, pre, source);
    assert(forall|k2: int| 0 <= k2 < pre.len() ==> pre[k2] == target[k2]);
    if k == target.len() - 1 {
        assert(target[k] == target.last());
        match lookup(source, target[k].name@) {
            Some(srec) => {
                assert(out == write_le64_at(prev, off, srec.crc));
                assert(out.subrange(off, off + 8) =~= spec_u64_to_le_bytes(srec.crc));
            },
            None => {
                assert(out == prev);
                assert forall|i: int| off <= i < off + 8 implies out[i] == data[i] by {
                    assert forall|k2: int|
                        0 <= k2 < pre.len() implies !(lookup(
                        source,
                        (#[trigger] pre[k2]).name@,
                    ) is Some && in_record_range(i, pre[k2])) by {
                        if pre[k2].name@ == target[k].name@ {
                            assert(lookup(source, pre[k2].name@) is None);
                        } else {
                            assert(pre[k2].offset + 8 <= target[k].offset || target[k].offset + 8
                                <= pre[k2].offset);
                        }
                    }
                    lemma_apply_source_frame(data, pre, source, i);
                }
                assert(out.subrange(off, off + 8) =~= data.subrange(off, off + 8));
            },
        }
    } else {
        lemma_source_patch_exact(data, pre, source, k);
        let prev_out = patched(data, pre, Some(source), None);
        assert(prev_out == prev);
        assert(target[k] == pre[k]);
        match lookup(source, target.last().name@) {
            Some(srec) => {
                let last_off = target.last().offset as int;
                assert(out == write_le64_at(prev, last_off, srec.crc));
                assert(target[target.len() - 1] == target.last());
                assert(off + 8 <= last_off || last_off + 8 <= off);
                assert(out.subrange(off, off + 8) =~= prev.subrange(off, off + 8));
            },
            None => {
                assert(out == prev);
            },
        }
        assert(out.subrange(off, off + 8) == prev.subrange(off, off + 8));
    }
}

/// The explicit `module_layout` override always takes precedence: whatever
/// the source-copy step wrote, the final image holds the override's
/// little-endian encoding at the `module_layout` record.
pub proof fn lemma_override_wins(
    data: Seq<u8>,
    target: Seq<VersionRecord>,
    source: Option<Seq<VersionRecord>>,
    v: u64,
)
    requires
        table_in_bounds(target, data.len() as int),
        lookup(target, module_layout_name()) is Some,
    ensures
        ({
            let ml = lookup(target, module_layout_name()).unwrap();
            patched(data, target, source, Some(v)).subrange(
                ml.offset as int,
                ml.offset + 8,
            ) == spec_u64_to_le_bytes(v)
        }),
{
    lemma_auto_spec_u64_to_from_le_bytes();
    let ml = lookup(target, module_layout_name()).unwrap();
    crate::records::lemma_lookup_found(target, module_layout_name());
    let mid = after_source(data, target, source);
    match source {
        Some(src) => {
            lemma_apply_source_len(data, target, src);
        },
        None => {},
    }
    let out = patched(data, target, source, Some(v));
    assert(out == write_le64_at(mid, ml.offset as int, v));
    assert(out.subrange(ml.offset as int, ml.offset + 8) =~= spec_u64_to_le_bytes(v));
}

/// Writing a decoded checksum back over its own record's checksum bytes
/// reproduces the image exactly: decoding and re-encoding are inverse.
pub proof fn lemma_checksum_roundtrip(data: Seq<u8>, off: int)
    requires
        0 <= off,
        off + 8 <= data.len(),
    ensures
        write_le64_at(data, off, spec_u64_from_le_bytes(data.subrange(off, off + 8))) == data,
{
    lemma_auto_spec_u64_to_from_le_bytes();
    let v = spec_u64_from_le_bytes(data.subrange(off, off + 8));
    assert(spec_u64_to_le_bytes(v) == data.subrange(off, off + 8));
    assert(write_le64_at(data, off, v) =~= data);
}

} // verus!
