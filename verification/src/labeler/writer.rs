//! Writing an archive: messages of a log go in, frame groups come out as
//! records, and the index is written at the end.

use crate::cursor::extend_bytes;
use crate::endian::i64_as_u64;
use crate::endian::u32_be_bytes;
use crate::endian::write_u32_be;
use crate::labeler::expected_header;
use crate::labeler::segmenter::has_camera;
use crate::labeler::segmenter::is_running;
use crate::labeler::segmenter::SegmenterSpec;
use crate::labeler::LABELER_DATA_HEADER;
use crate::labeler::LABELER_DATA_VERSION;
use crate::labeler::PRELUDE_LEN;
use crate::persistence::message::Message;
use crate::persistence::message::MessageSpec;
use crate::persistence::message::MessageType;
use crate::persistence::reader::lemma_next_message_consumes;
use crate::persistence::reader::messages;
use crate::persistence::reader::next_message;
use crate::persistence::reader::LogReader;
use crate::protos::log_labeler_data::frames_view;
use crate::protos::log_labeler_data::frames_wf;
use crate::protos::log_labeler_data::group_bytes;
use crate::protos::log_labeler_data::FrameSpec;
use crate::protos::log_labeler_data::LabelerFrame;
use crate::protos::log_labeler_data::LabelerFrameGroup;
use crate::protos::log_labeler_data::LabelerMetadata;
use crate::protos::log_labeler_data::MetadataSpec;
use crate::protos::messages_robocup_ssl_referee::SSL_Referee_Stage;
use crate::protos::wire::ProtoError;
use std::collections::HashSet;
use vstd::prelude::*;
use vstd::std_specs::hash::group_hash_axioms;

verus! {

broadcast use group_hash_axioms;

/// Why the writer refused.
#[derive(Clone, Copy, Debug, PartialEq, Eq, Structural)]
pub enum LabelerDataWriterError {
    /// A group, or the index, is too long for its length to be written.
    Protobuf(ProtoError),
}

/// The record of a group: the length of its bytes, then the bytes.
pub open spec fn record_bytes(g: Seq<FrameSpec>) -> Seq<u8> {
    u32_be_bytes(group_bytes(g).len() as u32) + group_bytes(g)
}

/// The records of groups, one after the other.
pub open spec fn records_bytes(groups: Seq<Seq<FrameSpec>>) -> Seq<u8>
    decreases groups.len(),
{
    if groups.len() == 0 {
        Seq::empty()
    } else {
        records_bytes(groups.drop_last()) + record_bytes(groups.last())
    }
}

/// The start of every archive: the header and the version.
pub open spec fn prelude_bytes() -> Seq<u8> {
    expected_header() + u32_be_bytes(LABELER_DATA_VERSION)
}

/// The end of an archive: the index, then the length of its bytes.
pub open spec fn footer_bytes(m: MetadataSpec) -> Seq<u8> {
    m.bytes() + u32_be_bytes(m.bytes().len() as u32)
}

/// Where the record of group `i` starts in an archive of `groups`.
pub open spec fn group_offset(groups: Seq<Seq<FrameSpec>>, i: int) -> int {
    PRELUDE_LEN + records_bytes(groups.take(i)).len()
}

/// Whether the length of every group of `groups` can be written.
pub open spec fn groups_fit(groups: Seq<Seq<FrameSpec>>) -> bool {
    forall|k: int| 0 <= k < groups.len() ==> group_bytes(#[trigger] groups[k]).len() <= u32::MAX
}

/// A whole archive.
pub open spec fn archive_bytes(groups: Seq<Seq<FrameSpec>>, m: MetadataSpec) -> Seq<u8> {
    prelude_bytes() + records_bytes(groups) + footer_bytes(m)
}

/// What a writer is: the state of the cutting, the bytes written so far,
/// and the offsets noted for the index.
pub struct WriterSpec {
    pub seg: SegmenterSpec,
    pub sink: Seq<u8>,
    pub offsets: Seq<u64>,
}

impl WriterSpec {
    /// A writer that has written nothing but the prelude.
    pub open spec fn init() -> WriterSpec {
        WriterSpec { seg: SegmenterSpec::init(), sink: prelude_bytes(), offsets: Seq::empty() }
    }

    /// Whether the group that is being gathered can be written.
    pub open spec fn pending_fits(self) -> bool {
        group_bytes(self.seg.pending).len() <= u32::MAX
    }

    /// The writer after closing the group that is being gathered, if it
    /// holds a frame: the offset of the record is noted, and the record
    /// written.
    pub open spec fn flush(self) -> WriterSpec {
        if self.seg.pending.len() > 0 {
            WriterSpec {
                seg: self.seg.flush(),
                sink: self.sink + record_bytes(self.seg.pending),
                offsets: self.offsets.push(self.sink.len() as u64),
            }
        } else {
            self
        }
    }

    /// The writer after the message `m`.
    pub open spec fn add(self, m: MessageSpec) -> WriterSpec {
        let base = if self.seg.flushes(m) {
            self.flush()
        } else {
            self
        };
        WriterSpec { seg: self.seg.step(m), ..base }
    }

    /// Whether the writer takes the message `m`: it does unless `m` closes
    /// a group whose length cannot be written.
    pub open spec fn takes(self, m: MessageSpec) -> bool {
        !self.seg.flushes(m) || self.pending_fits()
    }

    /// The writer after the messages `ms`, in order, as long as it takes
    /// each of them; nothing where it refuses one.
    pub open spec fn add_all(self, ms: Seq<MessageSpec>) -> Option<WriterSpec>
        decreases ms.len(),
    {
        if ms.len() == 0 {
            Some(self)
        } else if self.takes(ms[0]) {
            self.add(ms[0]).add_all(ms.skip(1))
        } else {
            None
        }
    }

    /// The index of the archive as it stands.
    pub open spec fn metadata(self) -> MetadataSpec {
        MetadataSpec {
            num_cameras: self.seg.num_cameras,
            message_offsets: self.offsets,
            num_passing_events: 0,
            num_goal_shot_events: 0,
        }
    }

    /// The bytes so far are the prelude and the records of the closed
    /// groups, and the offsets noted are where those records start.
    pub open spec fn archive_ok(self) -> bool {
        &&& self.sink == prelude_bytes() + records_bytes(self.seg.groups)
        &&& self.offsets.len() == self.seg.groups.len()
        &&& forall|i: int|
            0 <= i < self.offsets.len() ==> (#[trigger] self.offsets[i]) == group_offset(
                self.seg.groups,
                i,
            )
        &&& groups_fit(self.seg.groups)
        &&& forall|k: int| 0 <= k < self.seg.groups.len() ==> frames_wf(#[trigger] self.seg.groups[k])
    }
}

/// Taking the messages of a log is taking the first that can be read,
/// then those of the rest of the log.
pub proof fn lemma_add_all_front(w: WriterSpec, s: Seq<u8>)
    ensures
        w.add_all(messages(s)) == match next_message(s) {
            Some((m, n)) => if w.takes(m) {
                w.add(m).add_all(messages(s.skip(n as int)))
            } else {
                None
            },
            None => Some(w),
        },
{
    lemma_next_message_consumes(s);
    match next_message(s) {
        Some((m, n)) => {
            let ms = messages(s);
            assert(ms[0] == m);
            assert(ms.skip(1) =~= messages(s.skip(n as int)));
        },
        None => {},
    }
}

/// Closing a group keeps the bytes and the offsets in step with the
/// groups.
pub proof fn lemma_flush_archive_ok(w: WriterSpec)
    requires
        w.archive_ok(),
        w.pending_fits(),
        frames_wf(w.seg.pending),
        w.sink.len() <= u64::MAX,
    ensures
        w.flush().archive_ok(),
{
    if w.seg.pending.len() > 0 {
        let groups = w.seg.groups;
        let next = groups.push(w.seg.pending);
        assert(next.drop_last() =~= groups);
        assert(w.flush().sink =~= prelude_bytes() + records_bytes(next));
        assert(next.take(groups.len() as int) =~= groups);
        assert forall|i: int| 0 <= i < w.flush().offsets.len() implies (
        #[trigger] w.flush().offsets[i]) == group_offset(next, i) by {
            if i < groups.len() {
                assert(next.take(i) =~= groups.take(i));
            }
        }
    }
}

/// Whether game time is active: a stage is known, and it is one of the
/// four halves.
pub fn is_running_stage(stage: Option<SSL_Referee_Stage>) -> (b: bool)
    ensures
        b == is_running(stage),
{
    match stage {
        Some(stage) => match stage {
            SSL_Referee_Stage::NORMAL_FIRST_HALF
            | SSL_Referee_Stage::NORMAL_SECOND_HALF
            | SSL_Referee_Stage::EXTRA_FIRST_HALF
            | SSL_Referee_Stage::EXTRA_SECOND_HALF => true,
            _ => false,
        },
        None => false,
    }
}

/// The timestamp of a message as the archive holds it: the same 64 bits,
/// read as an unsigned number.
pub fn frame_timestamp(timestamp: i64) -> (t: u64)
    ensures
        t == i64_as_u64(timestamp),
{
    if timestamp >= 0 {
        timestamp as u64
    } else {
        (timestamp - i64::MIN) as u64 + 0x8000_0000_0000_0000
    }
}

/// The group that is being gathered: its frames, and the set of the
/// cameras of its vision frames.
struct PendingGroup {
    frames: Vec<LabelerFrame>,
    cam_set: HashSet<u32>,
}

impl PendingGroup {
    /// The set holds the cameras of the frames.
    #[verifier::type_invariant]
    spec fn inv(&self) -> bool {
        forall|cam: u32| self.cam_set@.contains(cam) <==> has_camera(frames_view(self.frames@), cam)
    }

    /// The frames gathered so far.
    closed spec fn frames(&self) -> Seq<FrameSpec> {
        frames_view(self.frames@)
    }

    fn new() -> (r: PendingGroup)
        ensures
            r.frames() == Seq::<FrameSpec>::empty(),
    {
        let frames: Vec<LabelerFrame> = Vec::new();
        assert(frames_view(frames@) =~= Seq::<FrameSpec>::empty());
        PendingGroup { frames, cam_set: HashSet::new() }
    }

    fn is_empty(&self) -> (b: bool)
        ensures
            b == (self.frames().len() == 0),
    {
        self.frames.len() == 0
    }

    /// Whether the group has a vision frame of camera `cam_id`.
    fn contains(&self, cam_id: u32) -> (b: bool)
        ensures
            b == has_camera(self.frames(), cam_id),
    {
        proof {
            use_type_invariant(self);
        }
        self.cam_set.contains(&cam_id)
    }

    /// The group with one more frame.
    fn with_frame(self, frame: LabelerFrame) -> (r: PendingGroup)
        ensures
            r.frames() == self.frames().push(frame@),
    {
        proof {
            use_type_invariant(&self);
        }
        let ghost pending = frames_view(self.frames@);
        let ghost added = pending.push(frame@);
        let cam_id = frame.camera_id();
        let mut frames = self.frames;
        let mut cam_set = self.cam_set;
        proof {
            assert(frames_view(frames@.push(frame)) =~= added);
            assert forall|cam: u32| has_camera(added, cam) implies frame@.camera_id() == Some(cam)
                || has_camera(pending, cam) by {
                let i = choose|i: int|
                    0 <= i < added.len() && (#[trigger] added[i]).camera_id() == Some(cam);
                if i < pending.len() {
                    assert(pending[i].camera_id() == Some(cam));
                }
            }
            assert forall|cam: u32| has_camera(pending, cam) implies has_camera(added, cam) by {
                let i = choose|i: int|
                    0 <= i < pending.len() && (#[trigger] pending[i]).camera_id() == Some(cam);
                assert(added[i].camera_id() == Some(cam));
            }
            assert(added[pending.len() as int] == frame@);
        }
        match cam_id {
            Some(cam_id) => {
                cam_set.insert(cam_id);
            },
            None => {},
        }
        frames.push(frame);
        PendingGroup { frames, cam_set }
    }

    /// The group on the wire.
    fn to_bytes(&self) -> (bytes: Vec<u8>)
        ensures
            bytes@ == group_bytes(self.frames()),
            frames_wf(self.frames()),
    {
        LabelerFrameGroup::write_frames(&self.frames)
    }
}

/// Writes the archive of a log into memory.
pub struct LabelerDataWriter {
    writer: Vec<u8>,
    num_cameras: u32,
    message_offsets: Vec<u64>,
    curr_stage: Option<SSL_Referee_Stage>,
    pending: PendingGroup,
    groups: Ghost<Seq<Seq<FrameSpec>>>,
}

impl View for LabelerDataWriter {
    type V = WriterSpec;

    closed spec fn view(&self) -> WriterSpec {
        WriterSpec {
            seg: SegmenterSpec {
                stage: self.curr_stage,
                pending: self.pending.frames(),
                groups: self.groups@,
                num_cameras: self.num_cameras,
            },
            sink: self.writer@,
            offsets: self.message_offsets@,
        }
    }
}

impl LabelerDataWriter {
    /// Starts an archive: writes the header and the version.
    pub fn new() -> (r: LabelerDataWriter)
        ensures
            r@ == WriterSpec::init(),
            r@.archive_ok(),
    {
        let mut writer: Vec<u8> = Vec::new();
        extend_bytes(&mut writer, LABELER_DATA_HEADER.as_slice());
        write_u32_be(&mut writer, LABELER_DATA_VERSION);
        proof {
            crate::labeler::lemma_header();
            assert(writer@ =~= prelude_bytes());
            assert(prelude_bytes() + records_bytes(Seq::<Seq<FrameSpec>>::empty())
                =~= prelude_bytes());
        }
        LabelerDataWriter {
            writer,
            num_cameras: 0,
            message_offsets: Vec::new(),
            curr_stage: None,
            pending: PendingGroup::new(),
            groups: Ghost(Seq::empty()),
        }
    }

    /// The bytes written so far.
    pub fn inner(&self) -> (sink: &Vec<u8>)
        ensures
            sink@ == self@.sink,
    {
        &self.writer
    }

    /// The bytes written so far, to change. The offsets noted for the
    /// index go by what this writer wrote: whoever changes the bytes
    /// answers for the index.
    pub fn inner_mut(&mut self) -> (sink: &mut Vec<u8>)
        ensures
            sink@ == old(self)@.sink,
            final(self)@ == (WriterSpec { sink: final(sink)@, ..old(self)@ }),
    {
        &mut self.writer
    }

    /// Closes the group that is being gathered, if it holds a frame:
    /// notes where its record starts and writes the record. A group too
    /// long for its length to be written is refused, and the writer left
    /// as it was.
    pub fn write_frame(&mut self) -> (r: Result<(), LabelerDataWriterError>)
        ensures
            old(self)@.pending_fits() ==> r is Ok && final(self)@ == old(self)@.flush(),
            !old(self)@.pending_fits() ==> r == Err::<(), LabelerDataWriterError>(
                LabelerDataWriterError::Protobuf(ProtoError::TooLarge),
            ) && final(self)@ == old(self)@,
            old(self)@.archive_ok() ==> final(self)@.archive_ok(),
    {
        let ghost before = self@;
        if self.pending.is_empty() {
            assert(before.seg.pending =~= Seq::<FrameSpec>::empty());
            assert(group_bytes(Seq::<FrameSpec>::empty()) =~= Seq::<u8>::empty());
            return Ok(());
        }
        let msg_bytes = self.pending.to_bytes();
        if msg_bytes.len() > 0xffff_ffff {
            return Err(LabelerDataWriterError::Protobuf(ProtoError::TooLarge));
        }
        let curr_offset = self.writer.len() as u64;
        self.message_offsets.push(curr_offset);
        write_u32_be(&mut self.writer, msg_bytes.len() as u32);
        extend_bytes(&mut self.writer, msg_bytes.as_slice());
        self.groups = Ghost(self.groups@.push(self.pending.frames()));
        self.pending = PendingGroup::new();
        proof {
            assert(self.writer@ =~= before.sink + record_bytes(before.seg.pending));
            assert(self@ == before.flush());
            if before.archive_ok() {
                lemma_flush_archive_ok(before);
            }
        }
        Ok(())
    }

    /// Takes one message of the log. A referee message that announces
    /// another stage than the one before sets the stage and closes the
    /// group; where the new stage is a running one, its frame opens the
    /// next group. A referee message that repeats the stage is passed
    /// over, so that a group holds at most one referee frame, in front. A
    /// vision packet, while game time is active, closes the group where
    /// the group has its camera already, and its frame joins the group
    /// that is then gathered. Any other message is passed over. Where a group must be closed that is too
    /// long for its length to be written, the message is refused and the
    /// writer left as it was.
    pub fn add_msg(&mut self, message: Message) -> (r: Result<(), LabelerDataWriterError>)
        ensures
            old(self)@.takes(message@) ==> r is Ok && final(self)@ == old(self)@.add(message@),
            !old(self)@.takes(message@) ==> r == Err::<(), LabelerDataWriterError>(
                LabelerDataWriterError::Protobuf(ProtoError::TooLarge),
            ) && final(self)@ == old(self)@,
            old(self)@.archive_ok() ==> final(self)@.archive_ok(),
    {
        let timestamp = frame_timestamp(message.timestamp);
        match message.msg_type {
            MessageType::Refbox2013(ref_msg) => {
                let new_stage = ref_msg.get_stage();
                let changed = match self.curr_stage {
                    Some(stage) => stage != new_stage,
                    None => true,
                };
                if changed {
                    match self.write_frame() {
                        Ok(()) => {},
                        Err(e) => {
                            return Err(e);
                        },
                    }
                    self.curr_stage = Some(new_stage);
                    if is_running_stage(self.curr_stage) {
                        let mut frame = LabelerFrame::new();
                        frame.set_timestamp(timestamp);
                        frame.set_referee_frame(ref_msg);
                        self.push_frame(frame);
                    }
                }
                Ok(())
            },
            MessageType::Vision2014(vision_msg) => {
                if is_running_stage(self.curr_stage) {
                    let cam_id = vision_msg.get_camera_id();
                    if self.pending.contains(cam_id) {
                        match self.write_frame() {
                            Ok(()) => {},
                            Err(e) => {
                                return Err(e);
                            },
                        }
                    }
                    self.num_cameras = if cam_id == u32::MAX {
                        u32::MAX
                    } else if cam_id + 1 > self.num_cameras {
                        cam_id + 1
                    } else {
                        self.num_cameras
                    };
                    let mut frame = LabelerFrame::new();
                    frame.set_timestamp(timestamp);
                    frame.set_vision_frame(vision_msg);
                    self.push_frame(frame);
                }
                Ok(())
            },
            _ => Ok(()),
        }
    }

    /// Takes the next message of a log, passing over what cannot be read,
    /// and says whether there was one.
    fn add_next(&mut self, reader: &mut LogReader) -> (r: Result<bool, LabelerDataWriterError>)
        ensures
            final(reader).source().bytes() == old(reader).source().bytes(),
            match next_message(old(reader).remaining()) {
                Some((m, n)) => final(reader).remaining() == old(reader).remaining().skip(n as int)
                    && 0 < n <= old(reader).remaining().len() && if old(self)@.takes(m) {
                    r == Ok::<bool, LabelerDataWriterError>(true) && final(self)@ == old(self)@.add(
                        m,
                    )
                } else {
                    r == Err::<bool, LabelerDataWriterError>(
                        LabelerDataWriterError::Protobuf(ProtoError::TooLarge),
                    )
                },
                None => r == Ok::<bool, LabelerDataWriterError>(false) && final(self)@ == old(self)@
                    && final(reader).remaining().len() == 0,
            },
            old(self)@.archive_ok() ==> final(self)@.archive_ok(),
    {
        proof {
            lemma_next_message_consumes(reader.remaining());
        }
        match reader.next_message() {
            None => Ok(false),
            Some(message) => match self.add_msg(message) {
                Ok(()) => Ok(true),
                Err(e) => Err(e),
            },
        }
    }

    /// Takes the messages that are left of a log, in order, passing over
    /// what cannot be read. Where a message is refused, those before it
    /// are taken, and the rest of the log is left unread.
    pub fn add_log(&mut self, reader: &mut LogReader) -> (r: Result<(), LabelerDataWriterError>)
        ensures
            final(reader).source().bytes() == old(reader).source().bytes(),
            match old(self)@.add_all(messages(old(reader).remaining())) {
                Some(w) => r is Ok && final(self)@ == w && final(reader).remaining().len() == 0,
                None => r == Err::<(), LabelerDataWriterError>(
                    LabelerDataWriterError::Protobuf(ProtoError::TooLarge),
                ),
            },
            old(self)@.archive_ok() ==> final(self)@.archive_ok(),
    {
        loop
            invariant
                reader.source().bytes() == old(reader).source().bytes(),
                old(self)@.add_all(messages(old(reader).remaining())) == self@.add_all(
                    messages(reader.remaining()),
                ),
                old(self)@.archive_ok() ==> self@.archive_ok(),
            decreases reader.remaining().len(),
        {
            proof {
                lemma_add_all_front(self@, reader.remaining());
            }
            match self.add_next(reader) {
                Ok(true) => {},
                Ok(false) => {
                    return Ok(());
                },
                Err(e) => {
                    return Err(e);
                },
            }
        }
    }

    /// Takes a frame into the group that is being gathered.
    fn push_frame(&mut self, frame: LabelerFrame)
        ensures
            final(self)@ == (WriterSpec {
                seg: SegmenterSpec {
                    pending: old(self)@.seg.pending.push(frame@),
                    ..old(self)@.seg
                },
                ..old(self)@
            }),
    {
        let mut pending = PendingGroup::new();
        std::mem::swap(&mut self.pending, &mut pending);
        self.pending = pending.with_frame(frame);
    }

    /// Ends the archive and hands out its bytes: closes the group that is
    /// being gathered, then writes the index and its length. Where that
    /// group or the index is too long for its length to be written, there
    /// is no archive.
    pub fn finish(self) -> (r: Result<Vec<u8>, LabelerDataWriterError>)
        ensures
            self@.pending_fits() && self@.flush().metadata().bytes().len() <= u32::MAX ==> r is Ok
                && r->Ok_0@ == self@.flush().sink + footer_bytes(self@.flush().metadata()),
            !(self@.pending_fits() && self@.flush().metadata().bytes().len() <= u32::MAX) ==> r
                == Err::<Vec<u8>, LabelerDataWriterError>(
                LabelerDataWriterError::Protobuf(ProtoError::TooLarge),
            ),
    {
        let mut this = self;
        match this.write_frame() {
            Ok(()) => {},
            Err(e) => {
                return Err(e);
            },
        }
        let metadata = LabelerMetadata {
            num_cameras: this.num_cameras,
            message_offsets: this.message_offsets,
            num_passing_events: 0,
            num_goal_shot_events: 0,
        };
        let metadata_bytes = metadata.write_to_bytes();
        if metadata_bytes.len() > 0xffff_ffff {
            return Err(LabelerDataWriterError::Protobuf(ProtoError::TooLarge));
        }
        let mut writer = this.writer;
        extend_bytes(&mut writer, metadata_bytes.as_slice());
        write_u32_be(&mut writer, metadata_bytes.len() as u32);
        assert(writer@ =~= self@.flush().sink + footer_bytes(self@.flush().metadata()));
        Ok(writer)
    }
}

} // verus!
