//! Setting the event counts of an archive: the one change that is made to
//! an archive after it is written.

use crate::cursor::extend_bytes;
use crate::cursor::ByteReader;
use crate::endian::write_u32_be;
use crate::endian::u32_be_bytes;
use crate::labeler::archive::lemma_archive_opens;
use crate::labeler::reader::open_archive;
use crate::labeler::reader::LabelerDataReader;
use crate::labeler::reader::LabelerDataReaderError;
use crate::labeler::reader::ReaderErrorSpec;
use crate::labeler::writer::archive_bytes;
use crate::labeler::writer::footer_bytes;
use crate::labeler::writer::prelude_bytes;
use crate::labeler::writer::records_bytes;
use crate::protos::log_labeler_data::FrameSpec;
use crate::protos::log_labeler_data::MetadataSpec;
use crate::protos::wire::ProtoError;
use vstd::prelude::*;
use vstd::slice::slice_subrange;

verus! {

/// The index `m` with other event counts.
pub open spec fn with_events(m: MetadataSpec, num_passing_events: u32, num_goal_shot_events: u32)
    -> MetadataSpec {
    MetadataSpec { num_passing_events, num_goal_shot_events, ..m }
}

/// The bytes `s` with `footer` written over them from position `start`
/// on: what `s` holds before `start` stays, and so does what it holds
/// beyond the end of `footer`, if anything.
pub open spec fn overwrite(s: Seq<u8>, start: int, footer: Seq<u8>) -> Seq<u8> {
    if start + footer.len() < s.len() {
        s.take(start) + footer + s.skip(start + footer.len())
    } else {
        s.take(start) + footer
    }
}

/// The archive `s`, of index `m`, after its event counts are set: the new
/// index and its length are written where the old index starts.
pub open spec fn rewritten(s: Seq<u8>, m: MetadataSpec, changed: MetadataSpec) -> Seq<u8> {
    overwrite(s, s.len() - 4 - m_len(s), footer_bytes(changed))
}

/// The length of the index of the archive `s`, as its last four bytes say
/// it.
pub open spec fn m_len(s: Seq<u8>) -> int {
    crate::endian::be_u32(s.skip(s.len() - 4)) as int
}

/// Sets the two event counts in the index of an archive: reads the index
/// from the end, and writes the changed index and its length where the
/// old index starts. Bytes of the old index that lie beyond are left;
/// there are none where the changed index is no shorter than the old.
/// Bytes that are no archive are refused and left as they are, and so is
/// an index too long for its length to be written.
pub fn set_event_counts(
    archive: &mut Vec<u8>,
    num_passing_events: u32,
    num_goal_shot_events: u32,
) -> (r: Result<(), LabelerDataReaderError>)
    ensures
        match open_archive(old(archive)@, 0) {
            Err(e) => r is Err && r->Err_0@ == e && final(archive)@ == old(archive)@,
            Ok(m) => {
                let changed = with_events(m, num_passing_events, num_goal_shot_events);
                if changed.bytes().len() <= u32::MAX {
                    r is Ok && final(archive)@ == rewritten(old(archive)@, m, changed)
                } else {
                    r is Err && r->Err_0@ == ReaderErrorSpec::Protobuf(ProtoError::TooLarge)
                        && final(archive)@ == old(archive)@
                }
            },
        },
{
    let ghost s = archive@;
    let mut bytes: Vec<u8> = Vec::new();
    std::mem::swap(archive, &mut bytes);
    let source = ByteReader::new(bytes);
    let (reader, old_size) = match LabelerDataReader::read_index(source) {
        Ok(found) => found,
        Err((e, source)) => {
            let mut bytes = source.into_inner();
            std::mem::swap(archive, &mut bytes);
            return Err(e);
        },
    };
    let (source, mut metadata) = reader.into_parts();
    metadata.num_passing_events = num_passing_events;
    metadata.num_goal_shot_events = num_goal_shot_events;
    let metadata_bytes = metadata.write_to_bytes();
    let mut bytes = source.into_inner();
    if metadata_bytes.len() > 0xffff_ffff {
        std::mem::swap(archive, &mut bytes);
        return Err(LabelerDataReaderError::Protobuf(ProtoError::TooLarge));
    }
    let start: usize = bytes.len() - 4 - old_size as usize;
    let mut out: Vec<u8> = Vec::new();
    extend_bytes(&mut out, slice_subrange(bytes.as_slice(), 0, start));
    extend_bytes(&mut out, metadata_bytes.as_slice());
    write_u32_be(&mut out, metadata_bytes.len() as u32);
    let end: usize = out.len();
    if end < bytes.len() {
        extend_bytes(&mut out, slice_subrange(bytes.as_slice(), end, bytes.len()));
    }
    proof {
        let changed = metadata@;
        assert(out@ =~= rewritten(s, reader.metadata(), changed));
    }
    std::mem::swap(archive, &mut out);
    Ok(())
}

/// Setting the event counts of a written archive gives the archive of the
/// same groups with the changed index, which opens, as long as the
/// changed index is no shorter than the old one.
pub proof fn lemma_set_event_counts(
    groups: Seq<Seq<FrameSpec>>,
    m: MetadataSpec,
    num_passing_events: u32,
    num_goal_shot_events: u32,
)
    requires
        m.bytes().len() <= u32::MAX,
        with_events(m, num_passing_events, num_goal_shot_events).bytes().len() <= u32::MAX,
        with_events(m, num_passing_events, num_goal_shot_events).bytes().len() >= m.bytes().len(),
    ensures
        ({
            let changed = with_events(m, num_passing_events, num_goal_shot_events);
            let s = archive_bytes(groups, m);
            &&& rewritten(s, m, changed) == archive_bytes(groups, changed)
            &&& open_archive(rewritten(s, m, changed), 0) == Ok::<MetadataSpec, ReaderErrorSpec>(
                changed,
            )
        }),
{
    let changed = with_events(m, num_passing_events, num_goal_shot_events);
    let s = archive_bytes(groups, m);
    let size = m.bytes().len() as u32;
    crate::endian::lemma_u32_round_trip(size, Seq::empty());
    assert(s.skip(s.len() - 4) =~= u32_be_bytes(size) + Seq::<u8>::empty());
    assert(s.take(s.len() - 4 - size) =~= prelude_bytes() + records_bytes(groups));
    assert(rewritten(s, m, changed) =~= archive_bytes(groups, changed));
    lemma_archive_opens(groups, changed);
}

} // verus!
