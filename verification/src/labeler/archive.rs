//! What holds between the writer and the reader of an archive: what the
//! one writes, the other finds.

use crate::cursor::bytes_from;
use crate::endian::be_u32;
use crate::endian::lemma_u32_round_trip;
use crate::endian::u32_be_bytes;
use crate::labeler::expected_header;
use crate::labeler::reader::iteration;
use crate::labeler::reader::open_archive;
use crate::labeler::reader::read_footer;
use crate::labeler::reader::read_group_at;
use crate::labeler::reader::read_groups_at;
use crate::labeler::reader::ReaderErrorSpec;
use crate::labeler::segmenter::accepted;
use crate::labeler::segmenter::count_camera;
use crate::labeler::segmenter::frame_of;
use crate::labeler::segmenter::lemma_stage_gating;
use crate::labeler::segmenter::segment;
use crate::labeler::segmenter::SegmenterSpec;
use crate::labeler::writer::archive_bytes;
use crate::labeler::writer::footer_bytes;
use crate::labeler::writer::group_offset;
use crate::labeler::writer::groups_fit;
use crate::labeler::writer::lemma_flush_archive_ok;
use crate::labeler::writer::prelude_bytes;
use crate::labeler::writer::record_bytes;
use crate::labeler::writer::records_bytes;
use crate::labeler::writer::WriterSpec;
use crate::labeler::HEADER_LEN;
use crate::labeler::LABELER_DATA_VERSION;
use crate::labeler::PRELUDE_LEN;
use crate::persistence::message::MessageSpec;
use crate::persistence::writer::messages_wf;
use crate::protos::log_labeler_data::frames_wf;
use crate::protos::log_labeler_data::group_bytes;
use crate::protos::log_labeler_data::lemma_group_round_trip;
use crate::protos::log_labeler_data::lemma_metadata_round_trip;
use crate::protos::log_labeler_data::FrameSpec;
use crate::protos::log_labeler_data::MetadataSpec;
use crate::protos::log_labeler_data::read_group;
use crate::protos::wire::ProtoError;
use vstd::prelude::*;

verus! {

/// Whether every frame of every group of `groups` is well-formed.
pub open spec fn groups_wf(groups: Seq<Seq<FrameSpec>>) -> bool {
    forall|k: int| 0 <= k < groups.len() ==> frames_wf(#[trigger] groups[k])
}

/// Where the records of `groups` start in their archive.
pub open spec fn offsets_of(groups: Seq<Seq<FrameSpec>>) -> Seq<u64> {
    Seq::new(groups.len(), |i: int| group_offset(groups, i) as u64)
}

/// The records of groups are those of the first, then those of the rest.
pub proof fn lemma_records_first(groups: Seq<Seq<FrameSpec>>)
    requires
        groups.len() > 0,
    ensures
        records_bytes(groups) == record_bytes(groups[0]) + records_bytes(groups.skip(1)),
    decreases groups.len(),
{
    if groups.len() == 1 {
        assert(groups.drop_last() =~= Seq::<Seq<FrameSpec>>::empty());
        assert(groups.skip(1) =~= Seq::<Seq<FrameSpec>>::empty());
        assert(records_bytes(groups) =~= record_bytes(groups[0]) + records_bytes(groups.skip(1)));
    } else {
        lemma_records_first(groups.drop_last());
        assert(groups.drop_last().skip(1) =~= groups.skip(1).drop_last());
        assert(groups.skip(1).last() == groups.last());
        assert(records_bytes(groups) =~= record_bytes(groups[0]) + records_bytes(groups.skip(1)));
    }
}

/// The records of groups are those of the first `i`, then those of the
/// rest.
pub proof fn lemma_records_split(groups: Seq<Seq<FrameSpec>>, i: int)
    requires
        0 <= i <= groups.len(),
    ensures
        records_bytes(groups) == records_bytes(groups.take(i)) + records_bytes(groups.skip(i)),
    decreases groups.len() - i,
{
    if i == groups.len() {
        assert(groups.take(i) =~= groups);
        assert(groups.skip(i) =~= Seq::<Seq<FrameSpec>>::empty());
        assert(records_bytes(groups) =~= records_bytes(groups.take(i)) + records_bytes(
            groups.skip(i),
        ));
    } else {
        lemma_records_split(groups, i + 1);
        lemma_records_first(groups.skip(i));
        assert(groups.skip(i).skip(1) =~= groups.skip(i + 1));
        assert(groups.take(i + 1).drop_last() =~= groups.take(i));
        assert(groups.take(i + 1).last() == groups[i]);
        assert(records_bytes(groups) =~= records_bytes(groups.take(i)) + records_bytes(
            groups.skip(i),
        ));
    }
}

/// What starts with the prelude passes the checks of header and version.
pub proof fn lemma_prelude_found(body: Seq<u8>)
    ensures
        (prelude_bytes() + body).len() == PRELUDE_LEN + body.len(),
        (prelude_bytes() + body).take(HEADER_LEN as int) == expected_header(),
        be_u32((prelude_bytes() + body).skip(HEADER_LEN as int)) == LABELER_DATA_VERSION,
{
    let s = prelude_bytes() + body;
    assert(s.take(HEADER_LEN as int) =~= expected_header());
    assert(s.skip(HEADER_LEN as int) =~= u32_be_bytes(LABELER_DATA_VERSION) + body);
    lemma_u32_round_trip(LABELER_DATA_VERSION, body);
}

/// The index at the end of an archive is found, whatever stands before
/// it.
pub proof fn lemma_footer_found(front: Seq<u8>, m: MetadataSpec)
    requires
        m.bytes().len() <= u32::MAX,
    ensures
        read_footer(front + footer_bytes(m)) == Ok::<MetadataSpec, ReaderErrorSpec>(m),
{
    let s = front + footer_bytes(m);
    let index = m.bytes();
    let size = index.len() as u32;
    lemma_u32_round_trip(size, Seq::empty());
    assert(s.len() == front.len() + index.len() + 4);
    assert(s.skip(s.len() - 4) =~= u32_be_bytes(size) + Seq::<u8>::empty());
    assert(s.subrange(s.len() - 4 - size, s.len() - 4) =~= index);
    lemma_metadata_round_trip(m);
}

/// An archive opens, and its index is the one that was written.
pub proof fn lemma_archive_opens(groups: Seq<Seq<FrameSpec>>, m: MetadataSpec)
    requires
        m.bytes().len() <= u32::MAX,
    ensures
        open_archive(archive_bytes(groups, m), 0) == Ok::<MetadataSpec, ReaderErrorSpec>(m),
{
    let s = archive_bytes(groups, m);
    let body = records_bytes(groups) + footer_bytes(m);
    assert(s =~= prelude_bytes() + body);
    assert(bytes_from(s, 0) =~= s);
    lemma_prelude_found(body);
    lemma_footer_found(prelude_bytes() + records_bytes(groups), m);
}

/// A record is found where it starts, whatever stands before it and
/// after it.
pub proof fn lemma_record_found(before: Seq<u8>, frames: Seq<FrameSpec>, after: Seq<u8>)
    requires
        frames_wf(frames),
        group_bytes(frames).len() <= u32::MAX,
        before.len() <= u64::MAX,
    ensures
        read_group_at(before + record_bytes(frames) + after, before.len() as u64) == Ok::<
            Seq<FrameSpec>,
            ReaderErrorSpec,
        >(frames),
{
    let s = before + record_bytes(frames) + after;
    let body = group_bytes(frames);
    let size = body.len() as u32;
    let rem = bytes_from(s, before.len());
    assert(u32_be_bytes(size).len() == 4);
    assert(rem =~= u32_be_bytes(size) + (body + after));
    assert(be_u32(rem) == size) by {
        lemma_u32_round_trip(size, body + after);
    }
    assert(rem.subrange(4, 4 + size) =~= body);
    assert(read_group(body) == Ok::<Seq<FrameSpec>, ProtoError>(frames)) by {
        lemma_group_round_trip(frames);
    }
}

/// Runs of bytes, put together in two ways.
proof fn lemma_regroup(a: Seq<u8>, b: Seq<u8>, c: Seq<u8>, d: Seq<u8>, e: Seq<u8>)
    ensures
        a + (b + (c + d)) + e == (a + b) + c + (d + e),
{
    assert(a + (b + (c + d)) + e =~= (a + b) + c + (d + e));
}

/// Each group of an archive is found at the place where its record
/// starts.
pub proof fn lemma_group_found(groups: Seq<Seq<FrameSpec>>, m: MetadataSpec, i: int)
    requires
        0 <= i < groups.len(),
        frames_wf(groups[i]),
        group_bytes(groups[i]).len() <= u32::MAX,
        group_offset(groups, i) <= u64::MAX,
    ensures
        read_group_at(archive_bytes(groups, m), group_offset(groups, i) as u64) == Ok::<
            Seq<FrameSpec>,
            ReaderErrorSpec,
        >(groups[i]),
{
    let s = archive_bytes(groups, m);
    let before = prelude_bytes() + records_bytes(groups.take(i));
    let after = records_bytes(groups.skip(i + 1)) + footer_bytes(m);
    let record = record_bytes(groups[i]);
    let first = records_bytes(groups.take(i));
    let rest = records_bytes(groups.skip(i + 1));
    assert(records_bytes(groups) == first + (record + rest)) by {
        lemma_records_split(groups, i);
        lemma_records_first(groups.skip(i));
        assert(groups.skip(i).skip(1) =~= groups.skip(i + 1));
        assert(groups.skip(i)[0] == groups[i]);
    }
    lemma_prelude_found(first);
    lemma_regroup(prelude_bytes(), first, record, rest, footer_bytes(m));
    lemma_record_found(before, groups[i], after);
}

/// The groups of an archive are found, in order, at the places that its
/// index names.
pub proof fn lemma_groups_found(groups: Seq<Seq<FrameSpec>>, m: MetadataSpec, n: int)
    requires
        0 <= n <= groups.len(),
        groups_wf(groups),
        groups_fit(groups),
        group_offset(groups, groups.len() as int) <= u64::MAX,
    ensures
        read_groups_at(archive_bytes(groups, m), offsets_of(groups).take(n)) == Ok::<
            Seq<Seq<FrameSpec>>,
            ReaderErrorSpec,
        >(groups.take(n)),
    decreases n,
{
    let offsets = offsets_of(groups);
    if n == 0 {
        assert(groups.take(0) =~= Seq::<Seq<FrameSpec>>::empty());
        assert(offsets.take(0) =~= Seq::<u64>::empty());
    } else {
        lemma_groups_found(groups, m, n - 1);
        lemma_offsets_grow(groups, n - 1);
        lemma_group_found(groups, m, n - 1);
        assert(offsets.take(n).drop_last() =~= offsets.take(n - 1));
        assert(offsets.take(n).last() == group_offset(groups, n - 1) as u64);
        assert(groups.take(n - 1).push(groups[n - 1]) =~= groups.take(n));
    }
}

/// The records of an archive start one after the other.
pub proof fn lemma_offsets_grow(groups: Seq<Seq<FrameSpec>>, i: int)
    requires
        0 <= i <= groups.len(),
    ensures
        group_offset(groups, i) <= group_offset(groups, groups.len() as int),
{
    lemma_records_split(groups, i);
    assert(groups.take(groups.len() as int) =~= groups);
}

/// What is written is found: an archive of the groups `groups`, with an
/// index that names where their records start, opens; its index is the
/// one written, with one offset for each group; and each group is found
/// by its number, and all of them in order; going through them yields
/// them in order.
pub proof fn lemma_archive_random_access(groups: Seq<Seq<FrameSpec>>, m: MetadataSpec)
    requires
        groups_wf(groups),
        groups_fit(groups),
        m.message_offsets == offsets_of(groups),
        m.bytes().len() <= u32::MAX,
        archive_bytes(groups, m).len() <= u64::MAX,
    ensures
        open_archive(archive_bytes(groups, m), 0) == Ok::<MetadataSpec, ReaderErrorSpec>(m),
        m.message_offsets.len() == groups.len(),
        forall|i: int|
            0 <= i < groups.len() ==> read_group_at(
                archive_bytes(groups, m),
                #[trigger] m.message_offsets[i],
            ) == Ok::<Seq<FrameSpec>, ReaderErrorSpec>(groups[i]),
        read_groups_at(archive_bytes(groups, m), m.message_offsets) == Ok::<
            Seq<Seq<FrameSpec>>,
            ReaderErrorSpec,
        >(groups),
        iteration(archive_bytes(groups, m), m.message_offsets, 0) == groups,
{
    lemma_archive_opens(groups, m);
    assert(groups.take(groups.len() as int) =~= groups);
    assert(prelude_bytes().len() == PRELUDE_LEN);
    assert forall|i: int| 0 <= i < groups.len() implies read_group_at(
        archive_bytes(groups, m),
        #[trigger] m.message_offsets[i],
    ) == Ok::<Seq<FrameSpec>, ReaderErrorSpec>(groups[i]) by {
        lemma_offsets_grow(groups, i);
        lemma_group_found(groups, m, i);
    }
    lemma_groups_found(groups, m, groups.len() as int);
    assert(offsets_of(groups).take(groups.len() as int) =~= offsets_of(groups));
    lemma_iteration_found(groups, m, 0);
    assert(groups.skip(0) =~= groups);
}

/// Going through a written archive yields its groups from number `from`
/// on, in order.
pub proof fn lemma_iteration_found(groups: Seq<Seq<FrameSpec>>, m: MetadataSpec, from: nat)
    requires
        from <= groups.len(),
        groups_wf(groups),
        groups_fit(groups),
        group_offset(groups, groups.len() as int) <= u64::MAX,
    ensures
        iteration(archive_bytes(groups, m), offsets_of(groups), from) == groups.skip(from as int),
    decreases groups.len() - from,
{
    if from < groups.len() {
        lemma_offsets_grow(groups, from as int);
        lemma_group_found(groups, m, from as int);
        lemma_iteration_found(groups, m, from + 1);
        assert(seq![groups[from as int]] + groups.skip(from as int + 1) =~= groups.skip(from as int));
    } else {
        assert(groups.skip(from as int) =~= Seq::<Seq<FrameSpec>>::empty());
    }
}

/// The camera count of frames: for each vision frame in turn, at least
/// one more than its camera id.
pub open spec fn camera_count(frames: Seq<FrameSpec>) -> u32
    decreases frames.len(),
{
    if frames.len() == 0 {
        0
    } else {
        let before = camera_count(frames.drop_last());
        match frames.last().camera_id() {
            Some(cam) => count_camera(before, cam),
            None => before,
        }
    }
}

/// The camera count of frames is one more than the highest camera id
/// among its vision frames, and 0 where there is none. (One more than the
/// highest id that 32 bits can hold is held as that id.)
pub proof fn lemma_camera_count(frames: Seq<FrameSpec>)
    ensures
        forall|i: int|
            0 <= i < frames.len() && (#[trigger] frames[i]).camera_id() is Some ==> camera_count(
                frames,
            ) >= count_camera(0, frames[i].camera_id()->Some_0),
        camera_count(frames) == 0 || exists|i: int|
            0 <= i < frames.len() && (#[trigger] frames[i]).camera_id() is Some && camera_count(
                frames,
            ) == count_camera(0, frames[i].camera_id()->Some_0),
        (forall|i: int| 0 <= i < frames.len() ==> (#[trigger] frames[i]).camera_id() is None)
            ==> camera_count(frames) == 0,
    decreases frames.len(),
{
    if frames.len() > 0 {
        let before = frames.drop_last();
        lemma_camera_count(before);
        assert forall|i: int|
            0 <= i < frames.len() && (#[trigger] frames[i]).camera_id() is Some implies camera_count(
            frames,
        ) >= count_camera(0, frames[i].camera_id()->Some_0) by {
            if i < before.len() {
                assert(before[i] == frames[i]);
            }
        }
        if camera_count(frames) != 0 {
            if camera_count(frames) == camera_count(before) {
                let i = choose|i: int|
                    0 <= i < before.len() && (#[trigger] before[i]).camera_id() is Some
                        && camera_count(before) == count_camera(0, before[i].camera_id()->Some_0);
                assert(frames[i] == before[i]);
            } else {
                assert(frames[frames.len() - 1].camera_id() is Some);
            }
        }
        if forall|i: int| 0 <= i < frames.len() ==> (#[trigger] frames[i]).camera_id() is None {
            assert forall|i: int| 0 <= i < before.len() implies (#[trigger] before[i]).camera_id()
                is None by {
                assert(frames[i] == before[i]);
            }
            assert(frames[frames.len() - 1].camera_id() is None);
        }
    }
}

impl WriterSpec {
    /// The writer after the messages `ms`, in order.
    pub open spec fn run(self, ms: Seq<MessageSpec>) -> WriterSpec
        decreases ms.len(),
    {
        if ms.len() == 0 {
            self
        } else {
            self.run(ms.drop_last()).add(ms.last())
        }
    }
}

/// Taking messages one by one from the first on is taking them all.
pub proof fn lemma_run_front(w: WriterSpec, ms: Seq<MessageSpec>)
    requires
        ms.len() > 0,
    ensures
        w.run(ms) == w.add(ms[0]).run(ms.skip(1)),
    decreases ms.len(),
{
    if ms.len() == 1 {
        assert(ms.drop_last() =~= Seq::<MessageSpec>::empty());
        assert(ms.skip(1) =~= Seq::<MessageSpec>::empty());
    } else {
        lemma_run_front(w, ms.drop_last());
        assert(ms.drop_last().skip(1) =~= ms.skip(1).drop_last());
        assert(ms.skip(1).last() == ms.last());
        assert(ms.drop_last()[0] == ms[0]);
    }
}

/// Where the writer takes each of the messages `ms`, it ends as the rules
/// say.
pub proof fn lemma_add_all(w: WriterSpec, ms: Seq<MessageSpec>)
    ensures
        w.add_all(ms) matches Some(end) ==> end == w.run(ms),
    decreases ms.len(),
{
    if ms.len() > 0 && w.takes(ms[0]) {
        lemma_add_all(w.add(ms[0]), ms.skip(1));
        lemma_run_front(w, ms);
    }
}

/// After any messages, the camera count is that of the frames taken.
pub proof fn lemma_run_camera_count(ms: Seq<MessageSpec>)
    ensures
        SegmenterSpec::init().run(ms).num_cameras == camera_count(accepted(ms)),
    decreases ms.len(),
{
    if ms.len() > 0 {
        let before = ms.drop_last();
        let m = ms.last();
        let seg = SegmenterSpec::init().run(before);
        lemma_run_camera_count(before);
        lemma_stage_gating(before);
        if seg.accepts(m) {
            let f = frame_of(m)->Some_0;
            assert(accepted(ms) == accepted(before).push(f));
            assert(accepted(ms).drop_last() =~= accepted(before));
            assert(accepted(ms).last() == f);
        }
    }
}

/// After any messages, the writer's bytes and offsets are in step with
/// the groups it has closed, and the groups are those that the rules cut;
/// as long as the length of each closed group can be written.
pub proof fn lemma_writer_run(ms: Seq<MessageSpec>)
    requires
        messages_wf(ms),
        groups_fit(SegmenterSpec::init().run(ms).groups),
        WriterSpec::init().run(ms).sink.len() <= u64::MAX,
    ensures
        WriterSpec::init().run(ms).seg == SegmenterSpec::init().run(ms),
        WriterSpec::init().run(ms).archive_ok(),
        frames_wf(WriterSpec::init().run(ms).seg.pending),
    decreases ms.len(),
{
    let w = WriterSpec::init().run(ms);
    if ms.len() == 0 {
        assert(prelude_bytes() + records_bytes(Seq::<Seq<FrameSpec>>::empty())
            =~= prelude_bytes());
    } else {
        let before = ms.drop_last();
        let m = ms.last();
        let prev = WriterSpec::init().run(before);
        let seg = SegmenterSpec::init().run(before);
        assert(messages_wf(before)) by {
            assert forall|i: int| 0 <= i < before.len() implies (#[trigger] before[i]).wf() by {
                assert(ms[i].wf());
            }
        }
        assert(ms[ms.len() - 1].wf());
        crate::labeler::segmenter::lemma_step_groups(seg, m);
        assert(groups_fit(seg.groups)) by {
            assert forall|k: int| 0 <= k < seg.groups.len() implies group_bytes(
                #[trigger] seg.groups[k],
            ).len() <= u32::MAX by {
                assert(seg.step(m).groups[k] == seg.groups[k]);
            }
        }
        assert(prev.sink.len() <= w.sink.len());
        lemma_writer_run(before);
        lemma_stage_gating(before);
        if seg.flushes(m) && seg.pending.len() > 0 {
            assert(seg.step(m).groups[seg.groups.len() as int] == seg.pending);
            lemma_flush_archive_ok(prev);
        }
    }
}

/// What the writer makes of a log, the reader finds: the archive of the
/// messages `ms` opens; its index has one offset for each group that the
/// rules cut, and names as camera count one more than the highest camera
/// id among the frames taken (0 where no vision frame is taken); and each
/// group is found by its number, and all of them in order; going through
/// them yields them in order. This holds as long as the lengths of the
/// groups and of the index can be written.
pub proof fn lemma_written_archive_is_read(ms: Seq<MessageSpec>)
    requires
        messages_wf(ms),
        groups_fit(segment(ms)),
        WriterSpec::init().run(ms).flush().metadata().bytes().len() <= u32::MAX,
        WriterSpec::init().run(ms).flush().sink.len() + footer_bytes(
            WriterSpec::init().run(ms).flush().metadata(),
        ).len() <= u64::MAX,
    ensures
        ({
            let w = WriterSpec::init().run(ms).flush();
            let m = w.metadata();
            let archive = w.sink + footer_bytes(m);
            &&& archive == archive_bytes(segment(ms), m)
            &&& open_archive(archive, 0) == Ok::<MetadataSpec, ReaderErrorSpec>(m)
            &&& m.message_offsets.len() == segment(ms).len()
            &&& m.num_cameras == camera_count(accepted(ms))
            &&& forall|i: int|
                0 <= i < segment(ms).len() ==> read_group_at(
                    archive,
                    #[trigger] m.message_offsets[i],
                ) == Ok::<Seq<FrameSpec>, ReaderErrorSpec>(segment(ms)[i])
            &&& read_groups_at(archive, m.message_offsets) == Ok::<
                Seq<Seq<FrameSpec>>,
                ReaderErrorSpec,
            >(segment(ms))
            &&& iteration(archive, m.message_offsets, 0) == segment(ms)
        }),
{
    let run = WriterSpec::init().run(ms);
    let seg = SegmenterSpec::init().run(ms);
    let w = run.flush();
    let m = w.metadata();
    let groups = segment(ms);
    assert(groups_fit(seg.groups)) by {
        assert forall|k: int| 0 <= k < seg.groups.len() implies group_bytes(
            #[trigger] seg.groups[k],
        ).len() <= u32::MAX by {
            assert(seg.flush().groups[k] == seg.groups[k]);
        }
    }
    if seg.pending.len() > 0 {
        assert(seg.flush().groups[seg.groups.len() as int] == seg.pending);
    }
    lemma_writer_run(ms);
    lemma_run_camera_count(ms);
    lemma_flush_archive_ok(run);
    assert(w.seg.groups == groups);
    assert(m.message_offsets =~= offsets_of(groups));
    assert(w.sink + footer_bytes(m) =~= archive_bytes(groups, m));
    lemma_archive_random_access(groups, m);
}

} // verus!
