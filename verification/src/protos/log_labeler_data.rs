//! The messages of the labeler archive: frames, frame groups and the
//! metadata at its end.

use crate::protos::messages_robocup_ssl_referee::parse_referee;
use crate::protos::messages_robocup_ssl_referee::RefereeSpec;
use crate::protos::messages_robocup_ssl_referee::SSL_Referee;
use crate::protos::messages_robocup_ssl_wrapper::parse_wrapper;
use crate::protos::messages_robocup_ssl_wrapper::SSL_WrapperPacket;
use crate::protos::messages_robocup_ssl_wrapper::WrapperSpec;
use crate::protos::wire::fields_bytes;
use crate::protos::wire::fields_view;
use crate::protos::wire::fields_wf;
use crate::protos::wire::lemma_fields_bytes_push;
use crate::protos::wire::lemma_fields_round_trip;
use crate::protos::wire::lemma_varint_len_u32;
use crate::protos::wire::lemma_varint_len_u64;
use crate::protos::wire::parse_fields;
use crate::protos::wire::parse_varints;
use crate::protos::wire::put_bytes_field;
use crate::protos::wire::put_varint_field;
use crate::protos::wire::read_fields;
use crate::protos::wire::read_varints;
use crate::protos::wire::FieldSpec;
use crate::protos::wire::MAX_PAYLOAD_LEN;
use crate::protos::wire::ProtoError;
use crate::protos::wire::ValueSpec;
use crate::protos::wire::WireField;
use crate::protos::wire::WireValue;
use vstd::prelude::*;

verus! {

/// The field number of the timestamp in a frame.
pub const TIMESTAMP_FIELD: u32 = 1;

/// The field number of the vision packet in a frame.
pub const VISION_FRAME_FIELD: u32 = 2;

/// The field number of the referee message in a frame.
pub const REFEREE_FRAME_FIELD: u32 = 3;

/// The field number of the frames in a frame group.
pub const FRAMES_FIELD: u32 = 1;

/// No frame is longer than this on the wire: a key and a timestamp, a key
/// and a length, and a payload that a log record can frame.
pub const MAX_FRAME_LEN: usize = 0x8000_0010;

/// What a frame carries.
#[derive(Clone, Debug, PartialEq)]
pub enum FramePayload {
    Vision(SSL_WrapperPacket),
    Referee(SSL_Referee),
}

/// One timestamped payload of the archive.
#[derive(Clone, Debug, PartialEq)]
pub struct LabelerFrame {
    /// When the payload was received, in nanoseconds.
    pub timestamp: u64,
    /// The payload; a frame read from foreign bytes may have none.
    pub frame: Option<FramePayload>,
}

/// The mathematical value of what a frame carries.
pub enum PayloadSpec {
    Unset,
    Vision(WrapperSpec),
    Referee(RefereeSpec),
}

/// The mathematical value of a `LabelerFrame`.
pub struct FrameSpec {
    pub timestamp: u64,
    pub payload: PayloadSpec,
}

impl View for LabelerFrame {
    type V = FrameSpec;

    open spec fn view(&self) -> FrameSpec {
        FrameSpec {
            timestamp: self.timestamp,
            payload: match self.frame {
                None => PayloadSpec::Unset,
                Some(FramePayload::Vision(m)) => PayloadSpec::Vision(m@),
                Some(FramePayload::Referee(m)) => PayloadSpec::Referee(m@),
            },
        }
    }
}

impl PayloadSpec {
    /// A payload agrees with its bytes.
    pub open spec fn wf(self) -> bool {
        match self {
            PayloadSpec::Unset => true,
            PayloadSpec::Vision(m) => m.wf(),
            PayloadSpec::Referee(m) => m.wf(),
        }
    }

    /// The field that the payload is written as, if there is one.
    pub open spec fn fields(self) -> Seq<FieldSpec> {
        match self {
            PayloadSpec::Unset => Seq::empty(),
            PayloadSpec::Vision(m) => seq![
                FieldSpec {
                    number: VISION_FRAME_FIELD,
                    value: ValueSpec::LengthDelimited(m.bytes),
                },
            ],
            PayloadSpec::Referee(m) => seq![
                FieldSpec {
                    number: REFEREE_FRAME_FIELD,
                    value: ValueSpec::LengthDelimited(m.bytes),
                },
            ],
        }
    }
}

impl FrameSpec {
    /// The payload agrees with its bytes.
    pub open spec fn wf(self) -> bool {
        self.payload.wf()
    }

    /// The fields of the frame: the timestamp, then the payload.
    pub open spec fn fields(self) -> Seq<FieldSpec> {
        seq![FieldSpec { number: TIMESTAMP_FIELD, value: ValueSpec::Varint(self.timestamp) }]
            + self.payload.fields()
    }

    /// The frame on the wire.
    pub open spec fn bytes(self) -> Seq<u8> {
        fields_bytes(self.fields())
    }

    /// The camera of a vision frame.
    pub open spec fn camera_id(self) -> Option<u32> {
        match self.payload {
            PayloadSpec::Vision(m) => Some(m.camera_id),
            _ => None,
        }
    }
}

/// What one field adds to a frame that is being read: the last timestamp
/// counts, and the last payload.
#[verifier::opaque]
pub open spec fn frame_step(acc: FrameSpec, f: FieldSpec) -> Result<FrameSpec, ProtoError> {
    if f.number == TIMESTAMP_FIELD {
        match f.value {
            ValueSpec::Varint(v) => Ok(FrameSpec { timestamp: v, payload: acc.payload }),
            _ => Err(ProtoError::UnexpectedWireType),
        }
    } else if f.number == VISION_FRAME_FIELD {
        match f.value {
            ValueSpec::LengthDelimited(b) => match parse_wrapper(b) {
                Ok(m) => Ok(FrameSpec { timestamp: acc.timestamp, payload: PayloadSpec::Vision(m) }),
                Err(e) => Err(e),
            },
            _ => Err(ProtoError::UnexpectedWireType),
        }
    } else if f.number == REFEREE_FRAME_FIELD {
        match f.value {
            ValueSpec::LengthDelimited(b) => match parse_referee(b) {
                Ok(m) => Ok(
                    FrameSpec { timestamp: acc.timestamp, payload: PayloadSpec::Referee(m) },
                ),
                Err(e) => Err(e),
            },
            _ => Err(ProtoError::UnexpectedWireType),
        }
    } else {
        Ok(acc)
    }
}

/// Goes through the fields of a frame.
pub open spec fn scan_frame(fields: Seq<FieldSpec>, acc: FrameSpec) -> Result<FrameSpec, ProtoError>
    decreases fields.len(),
{
    if fields.len() == 0 {
        Ok(acc)
    } else {
        match frame_step(acc, fields[0]) {
            Ok(next) => scan_frame(fields.skip(1), next),
            Err(e) => Err(e),
        }
    }
}

/// The frame that `bytes` are, or why they are none. Fields that a frame
/// does not have are passed over.
#[verifier::opaque]
pub open spec fn read_frame(bytes: Seq<u8>) -> Result<FrameSpec, ProtoError> {
    match read_fields(bytes) {
        Err(e) => Err(e),
        Ok(fields) => scan_frame(fields, FrameSpec { timestamp: 0, payload: PayloadSpec::Unset }),
    }
}

/// The fields of a frame can be written, and what they come to on the
/// wire: the timestamp field, then the payload field if there is one. No
/// frame is too long to be a field of a group.
pub proof fn lemma_frame_bytes(f: FrameSpec)
    requires
        f.wf(),
    ensures
        fields_wf(f.fields()),
        f.bytes() == f.fields()[0].bytes() + fields_bytes(f.payload.fields()),
        f.payload is Unset ==> fields_bytes(f.payload.fields()) == Seq::<u8>::empty(),
        f.payload !is Unset ==> fields_bytes(f.payload.fields()) == f.payload.fields()[0].bytes(),
        f.bytes().len() <= MAX_FRAME_LEN,
{
    let fs = f.fields();
    let ps = f.payload.fields();
    let e = Seq::<FieldSpec>::empty();
    assert(fields_bytes(e) =~= Seq::<u8>::empty());
    lemma_varint_len_u64(f.timestamp);
    lemma_varint_len_u64(8);
    lemma_fields_bytes_push(e, fs[0]);
    if f.payload is Unset {
        assert(fs =~= e.push(fs[0]));
        assert(ps =~= e);
        assert(f.bytes() =~= fs[0].bytes() + fields_bytes(ps));
    } else {
        assert(fs =~= e.push(fs[0]).push(ps[0]));
        assert(ps =~= e.push(ps[0]));
        lemma_fields_bytes_push(e, ps[0]);
        lemma_fields_bytes_push(e.push(fs[0]), ps[0]);
        assert(f.bytes() =~= fs[0].bytes() + fields_bytes(ps));
        lemma_payload_field_len(f.payload);
    }
}

/// The field of a payload takes at most six bytes more than the payload.
proof fn lemma_payload_field_len(p: PayloadSpec)
    requires
        p.wf(),
        p !is Unset,
    ensures
        p.fields()[0].bytes().len() <= MAX_PAYLOAD_LEN + 6,
{
    lemma_varint_len_u64(18);
    lemma_varint_len_u64(26);
    match p {
        PayloadSpec::Unset => {},
        PayloadSpec::Vision(m) => {
            lemma_varint_len_u32(m.bytes.len() as u32);
        },
        PayloadSpec::Referee(m) => {
            lemma_varint_len_u32(m.bytes.len() as u32);
        },
    }
}

/// Going through the fields of a written frame gives the frame.
proof fn lemma_frame_scan(f: FrameSpec)
    requires
        f.wf(),
    ensures
        scan_frame(f.fields(), FrameSpec { timestamp: 0, payload: PayloadSpec::Unset }) == Ok::<
            FrameSpec,
            ProtoError,
        >(f),
{
    let fs = f.fields();
    let e = Seq::<FieldSpec>::empty();
    let start = FrameSpec { timestamp: 0, payload: PayloadSpec::Unset };
    let timed = FrameSpec { timestamp: f.timestamp, payload: PayloadSpec::Unset };
    reveal(frame_step);
    assert(frame_step(start, fs[0]) == Ok::<FrameSpec, ProtoError>(timed));
    assert(scan_frame(e, f) == Ok::<FrameSpec, ProtoError>(f));
    if f.payload is Unset {
        assert(fs.skip(1) =~= e);
        assert(timed == f);
    } else {
        assert(fs.len() == 2);
        assert(fs.skip(1).skip(1) =~= e);
        assert(fs.skip(1)[0] == fs[1]);
        assert(frame_step(timed, fs[1]) == Ok::<FrameSpec, ProtoError>(f));
        assert(scan_frame(fs.skip(1), timed) == Ok::<FrameSpec, ProtoError>(f));
    }
}

/// Reading a written frame gives the frame back.
pub proof fn lemma_frame_round_trip(f: FrameSpec)
    requires
        f.wf(),
    ensures
        read_frame(f.bytes()) == Ok::<FrameSpec, ProtoError>(f),
{
    reveal(read_frame);
    lemma_frame_bytes(f);
    lemma_frame_scan(f);
    lemma_fields_round_trip(f.fields());
}

impl LabelerFrame {
    /// A frame without payload, at time 0.
    pub fn new() -> (r: LabelerFrame)
        ensures
            r@ == (FrameSpec { timestamp: 0, payload: PayloadSpec::Unset }),
    {
        LabelerFrame { timestamp: 0, frame: None }
    }

    /// When the payload was received, in nanoseconds.
    pub fn get_timestamp(&self) -> (t: u64)
        ensures
            t == self@.timestamp,
    {
        self.timestamp
    }

    /// Sets the time; the payload stays.
    pub fn set_timestamp(&mut self, timestamp: u64)
        ensures
            final(self)@ == (FrameSpec { timestamp, payload: old(self)@.payload }),
    {
        self.timestamp = timestamp;
    }

    /// Makes this a vision frame; the time stays.
    pub fn set_vision_frame(&mut self, vision_msg: SSL_WrapperPacket)
        ensures
            final(self)@ == (FrameSpec {
                timestamp: old(self)@.timestamp,
                payload: PayloadSpec::Vision(vision_msg@),
            }),
    {
        self.frame = Some(FramePayload::Vision(vision_msg));
    }

    /// Makes this a referee frame; the time stays.
    pub fn set_referee_frame(&mut self, ref_msg: SSL_Referee)
        ensures
            final(self)@ == (FrameSpec {
                timestamp: old(self)@.timestamp,
                payload: PayloadSpec::Referee(ref_msg@),
            }),
    {
        self.frame = Some(FramePayload::Referee(ref_msg));
    }

    /// Whether the payload is a vision packet.
    pub fn has_vision_frame(&self) -> (b: bool)
        ensures
            b == (self@.payload is Vision),
    {
        match &self.frame {
            Some(FramePayload::Vision(_)) => true,
            _ => false,
        }
    }

    /// Whether the payload is a referee message.
    pub fn has_referee_frame(&self) -> (b: bool)
        ensures
            b == (self@.payload is Referee),
    {
        match &self.frame {
            Some(FramePayload::Referee(_)) => true,
            _ => false,
        }
    }

    /// The camera of a vision frame.
    pub fn camera_id(&self) -> (id: Option<u32>)
        ensures
            id == self@.camera_id(),
    {
        match &self.frame {
            Some(FramePayload::Vision(m)) => Some(m.get_camera_id()),
            _ => None,
        }
    }

    /// The frame on the wire.
    pub fn write_to_bytes(&self) -> (bytes: Vec<u8>)
        ensures
            bytes@ == self@.bytes(),
            bytes@.len() <= MAX_FRAME_LEN,
            self@.wf(),
    {
        let mut bytes: Vec<u8> = Vec::new();
        put_varint_field(&mut bytes, TIMESTAMP_FIELD, self.timestamp);
        match &self.frame {
            None => {},
            Some(FramePayload::Vision(m)) => {
                put_bytes_field(&mut bytes, VISION_FRAME_FIELD, m.as_bytes().as_slice());
            },
            Some(FramePayload::Referee(m)) => {
                put_bytes_field(&mut bytes, REFEREE_FRAME_FIELD, m.as_bytes().as_slice());
            },
        }
        proof {
            lemma_frame_bytes(self@);
            assert(bytes@ =~= self@.bytes());
        }
        bytes
    }

    /// A frame that is being read, after one more field.
    fn with_field(self, field: &WireField) -> (r: Result<LabelerFrame, ProtoError>)
        requires
            self@.wf(),
        ensures
            match frame_step(self@, field@) {
                Ok(next) => r is Ok && r->Ok_0@ == next && next.wf(),
                Err(e) => r == Err::<LabelerFrame, ProtoError>(e),
            },
    {
        reveal(frame_step);
        if field.number == TIMESTAMP_FIELD {
            match &field.value {
                WireValue::Varint(v) => Ok(LabelerFrame { timestamp: *v, frame: self.frame }),
                _ => Err(ProtoError::UnexpectedWireType),
            }
        } else if field.number == VISION_FRAME_FIELD {
            match &field.value {
                WireValue::LengthDelimited(b) => {
                    let copy = b.clone();
                    assert(copy@ =~= b@);
                    match SSL_WrapperPacket::parse_from_bytes(copy) {
                        Ok(m) => {
                            Ok(
                                LabelerFrame {
                                    timestamp: self.timestamp,
                                    frame: Some(FramePayload::Vision(m)),
                                },
                            )
                        },
                        Err(e) => Err(e),
                    }
                },
                _ => Err(ProtoError::UnexpectedWireType),
            }
        } else if field.number == REFEREE_FRAME_FIELD {
            match &field.value {
                WireValue::LengthDelimited(b) => {
                    let copy = b.clone();
                    assert(copy@ =~= b@);
                    match SSL_Referee::parse_from_bytes(copy) {
                        Ok(m) => {
                            Ok(
                                LabelerFrame {
                                    timestamp: self.timestamp,
                                    frame: Some(FramePayload::Referee(m)),
                                },
                            )
                        },
                        Err(e) => Err(e),
                    }
                },
                _ => Err(ProtoError::UnexpectedWireType),
            }
        } else {
            Ok(self)
        }
    }

    /// Reads a frame from its bytes.
    pub fn parse_from_bytes(bytes: &[u8]) -> (r: Result<LabelerFrame, ProtoError>)
        ensures
            match read_frame(bytes@) {
                Ok(f) => r is Ok && r->Ok_0@ == f && f.wf(),
                Err(e) => r == Err::<LabelerFrame, ProtoError>(e),
            },
    {
        reveal(read_frame);
        let fields = match parse_fields(bytes) {
            Ok(fields) => fields,
            Err(e) => { return Err(e); },
        };
        let ghost all = fields_view(fields@);
        let ghost start = FrameSpec { timestamp: 0, payload: PayloadSpec::Unset };
        let mut frame = LabelerFrame::new();
        let mut i: usize = 0;
        assert(all.skip(0) =~= all);
        while i < fields.len()
            invariant
                i <= fields@.len(),
                all == fields_view(fields@),
                start == (FrameSpec { timestamp: 0, payload: PayloadSpec::Unset }),
                read_fields(bytes@) == Ok::<Seq<FieldSpec>, ProtoError>(all),
                scan_frame(all, start) == scan_frame(all.skip(i as int), frame@),
                frame@.wf(),
            decreases fields@.len() - i,
        {
            let ghost rest = all.skip(i as int);
            let ghost before = frame@;
            reveal(read_frame);
            assert(rest[0] == fields@[i as int]@);
            assert(rest.skip(1) =~= all.skip(i + 1));
            frame = match frame.with_field(&fields[i]) {
                Ok(next) => next,
                Err(e) => {
                    return Err(e);
                },
            };
            i = i + 1;
        }
        Ok(frame)
    }
}

/// Frames that belong together: at most one referee message, and one
/// vision packet of each camera.
#[derive(Clone, Debug, PartialEq)]
pub struct LabelerFrameGroup {
    pub frames: Vec<LabelerFrame>,
}

/// The values of a sequence of frames.
pub open spec fn frames_view(frames: Seq<LabelerFrame>) -> Seq<FrameSpec> {
    frames.map_values(|f: LabelerFrame| f@)
}

impl View for LabelerFrameGroup {
    type V = Seq<FrameSpec>;

    open spec fn view(&self) -> Seq<FrameSpec> {
        frames_view(self.frames@)
    }
}

/// Whether every frame of `frames` is well-formed.
pub open spec fn frames_wf(frames: Seq<FrameSpec>) -> bool {
    forall|i: int| 0 <= i < frames.len() ==> (#[trigger] frames[i]).wf()
}

/// The field that a frame is written as in its group.
pub open spec fn frame_field(f: FrameSpec) -> FieldSpec {
    FieldSpec { number: FRAMES_FIELD, value: ValueSpec::LengthDelimited(f.bytes()) }
}

/// The fields of a group: its frames, in order.
pub open spec fn group_fields(frames: Seq<FrameSpec>) -> Seq<FieldSpec> {
    frames.map_values(|f: FrameSpec| frame_field(f))
}

/// A group on the wire.
pub open spec fn group_bytes(frames: Seq<FrameSpec>) -> Seq<u8> {
    fields_bytes(group_fields(frames))
}

/// What one field adds to a group that is being read: a frame, where it
/// is a frames field.
#[verifier::opaque]
pub open spec fn group_step(acc: Seq<FrameSpec>, f: FieldSpec) -> Result<Seq<FrameSpec>, ProtoError> {
    if f.number == FRAMES_FIELD {
        match f.value {
            ValueSpec::LengthDelimited(b) => match read_frame(b) {
                Ok(frame) => Ok(acc.push(frame)),
                Err(e) => Err(e),
            },
            _ => Err(ProtoError::UnexpectedWireType),
        }
    } else {
        Ok(acc)
    }
}

/// Goes through the fields of a group.
pub open spec fn scan_group(fields: Seq<FieldSpec>, acc: Seq<FrameSpec>) -> Result<
    Seq<FrameSpec>,
    ProtoError,
>
    decreases fields.len(),
{
    if fields.len() == 0 {
        Ok(acc)
    } else {
        match group_step(acc, fields[0]) {
            Ok(next) => scan_group(fields.skip(1), next),
            Err(e) => Err(e),
        }
    }
}

/// The group that `bytes` are, or why they are none. Fields that a group
/// does not have are passed over.
#[verifier::opaque]
pub open spec fn read_group(bytes: Seq<u8>) -> Result<Seq<FrameSpec>, ProtoError> {
    match read_fields(bytes) {
        Err(e) => Err(e),
        Ok(fields) => scan_group(fields, Seq::empty()),
    }
}

/// Going through the fields of written frames adds the frames.
proof fn lemma_group_scan(frames: Seq<FrameSpec>, acc: Seq<FrameSpec>)
    requires
        frames_wf(frames),
    ensures
        scan_group(group_fields(frames), acc) == Ok::<Seq<FrameSpec>, ProtoError>(acc + frames),
        fields_wf(group_fields(frames)),
    decreases frames.len(),
{
    let fs = group_fields(frames);
    if frames.len() == 0 {
        assert(acc + frames =~= acc);
    } else {
        let first = frames[0];
        assert(first.wf());
        lemma_frame_round_trip(first);
        lemma_frame_bytes(first);
        assert(group_step(acc, fs[0]) == Ok::<Seq<FrameSpec>, ProtoError>(acc.push(first))) by {
            reveal(group_step);
        }
        assert(fs.skip(1) =~= group_fields(frames.skip(1)));
        assert(frames_wf(frames.skip(1))) by {
            assert forall|i: int| 0 <= i < frames.skip(1).len() implies (
            #[trigger] frames.skip(1)[i]).wf() by {
                assert(frames[i + 1].wf());
            }
        }
        lemma_group_scan(frames.skip(1), acc.push(first));
        assert(acc.push(first) + frames.skip(1) =~= acc + frames);
        assert forall|i: int| 0 <= i < fs.len() implies (#[trigger] fs[i]).wf() by {
            assert(frames[i].wf());
            lemma_frame_bytes(frames[i]);
        }
    }
}

/// Reading a written group gives the group back.
pub proof fn lemma_group_round_trip(frames: Seq<FrameSpec>)
    requires
        frames_wf(frames),
    ensures
        read_group(group_bytes(frames)) == Ok::<Seq<FrameSpec>, ProtoError>(frames),
{
    reveal(read_group);
    lemma_group_scan(frames, Seq::empty());
    lemma_fields_round_trip(group_fields(frames));
    assert(Seq::<FrameSpec>::empty() + frames =~= frames);
}

impl LabelerFrameGroup {
    /// A group without frames.
    pub fn new() -> (r: LabelerFrameGroup)
        ensures
            r@ == Seq::<FrameSpec>::empty(),
    {
        let r = LabelerFrameGroup { frames: Vec::new() };
        assert(r@ =~= Seq::<FrameSpec>::empty());
        r
    }

    /// The group on the wire.
    pub fn write_to_bytes(&self) -> (bytes: Vec<u8>)
        ensures
            bytes@ == group_bytes(self@),
            frames_wf(self@),
    {
        LabelerFrameGroup::write_frames(&self.frames)
    }

    /// The group of the frames `frames` on the wire.
    pub fn write_frames(frames: &Vec<LabelerFrame>) -> (bytes: Vec<u8>)
        ensures
            bytes@ == group_bytes(frames_view(frames@)),
            frames_wf(frames_view(frames@)),
    {
        let mut bytes: Vec<u8> = Vec::new();
        let ghost all = frames_view(frames@);
        let mut i: usize = 0;
        assert(group_fields(all.take(0)) =~= Seq::<FieldSpec>::empty());
        while i < frames.len()
            invariant
                i <= frames@.len(),
                all == frames_view(frames@),
                bytes@ == group_bytes(all.take(i as int)),
                frames_wf(all.take(i as int)),
            decreases frames@.len() - i,
        {
            let frame_bytes = frames[i].write_to_bytes();
            put_bytes_field(&mut bytes, FRAMES_FIELD, frame_bytes.as_slice());
            proof {
                let done = all.take(i as int);
                let frame = all[i as int];
                assert(frame == frames@[i as int]@);
                assert(all.take(i + 1) =~= done.push(frame));
                assert(group_fields(done.push(frame)) =~= group_fields(done).push(
                    frame_field(frame),
                ));
                lemma_fields_bytes_push(group_fields(done), frame_field(frame));
            }
            i = i + 1;
        }
        assert(all.take(i as int) =~= all);
        bytes
    }

    /// Reads a group from its bytes.
    pub fn parse_from_bytes(bytes: &[u8]) -> (r: Result<LabelerFrameGroup, ProtoError>)
        ensures
            match read_group(bytes@) {
                Ok(g) => r is Ok && r->Ok_0@ == g && frames_wf(g),
                Err(e) => r == Err::<LabelerFrameGroup, ProtoError>(e),
            },
    {
        reveal(read_group);
        let fields = match parse_fields(bytes) {
            Ok(fields) => fields,
            Err(e) => { return Err(e); },
        };
        let ghost all = fields_view(fields@);
        let mut frames: Vec<LabelerFrame> = Vec::new();
        let mut i: usize = 0;
        assert(all.skip(0) =~= all);
        assert(frames_view(frames@) =~= Seq::<FrameSpec>::empty());
        while i < fields.len()
            invariant
                i <= fields@.len(),
                all == fields_view(fields@),
                read_fields(bytes@) == Ok::<Seq<FieldSpec>, ProtoError>(all),
                scan_group(all, Seq::empty()) == scan_group(
                    all.skip(i as int),
                    frames_view(frames@),
                ),
                frames_wf(frames_view(frames@)),
            decreases fields@.len() - i,
        {
            let ghost rest = all.skip(i as int);
            let ghost before = frames_view(frames@);
            assert(rest[0] == fields@[i as int]@);
            assert(rest.skip(1) =~= all.skip(i + 1));
            reveal(group_step);
            reveal(read_group);
            if fields[i].number == FRAMES_FIELD {
                match &fields[i].value {
                    WireValue::LengthDelimited(b) => match LabelerFrame::parse_from_bytes(
                        b.as_slice(),
                    ) {
                        Ok(frame) => {
                            assert(frames_view(frames@.push(frame)) =~= before.push(frame@));
                            frames.push(frame);
                        },
                        Err(e) => {
                            return Err(e);
                        },
                    },
                    _ => {
                        return Err(ProtoError::UnexpectedWireType);
                    },
                }
            }
            i = i + 1;
        }
        Ok(LabelerFrameGroup { frames })
    }
}


/// The field number of the camera count in the metadata.
pub const NUM_CAMERAS_FIELD: u32 = 1;

/// The field number of the group offsets in the metadata.
pub const MESSAGE_OFFSETS_FIELD: u32 = 2;

/// The field number of the count of passing events in the metadata.
pub const NUM_PASSING_EVENTS_FIELD: u32 = 3;

/// The field number of the count of goal-shot events in the metadata.
pub const NUM_GOAL_SHOT_EVENTS_FIELD: u32 = 4;

/// The index of an archive: where each frame group starts, and counts.
#[derive(Clone, Debug, PartialEq, Eq)]
pub struct LabelerMetadata {
    /// The number of cameras: one more than the highest camera id among
    /// the vision frames, 0 where there is none.
    pub num_cameras: u32,
    /// For each frame group, the offset in the archive of the first byte
    /// of its record.
    pub message_offsets: Vec<u64>,
    pub num_passing_events: u32,
    pub num_goal_shot_events: u32,
}

/// The mathematical value of a `LabelerMetadata`.
pub struct MetadataSpec {
    pub num_cameras: u32,
    pub message_offsets: Seq<u64>,
    pub num_passing_events: u32,
    pub num_goal_shot_events: u32,
}

impl View for LabelerMetadata {
    type V = MetadataSpec;

    open spec fn view(&self) -> MetadataSpec {
        MetadataSpec {
            num_cameras: self.num_cameras,
            message_offsets: self.message_offsets@,
            num_passing_events: self.num_passing_events,
            num_goal_shot_events: self.num_goal_shot_events,
        }
    }
}

/// The field that an offset is written as.
pub open spec fn offset_field(offset: u64) -> FieldSpec {
    FieldSpec { number: MESSAGE_OFFSETS_FIELD, value: ValueSpec::Varint(offset) }
}

/// The fields that offsets are written as, in order.
pub open spec fn offset_fields(offsets: Seq<u64>) -> Seq<FieldSpec> {
    offsets.map_values(|o: u64| offset_field(o))
}

impl MetadataSpec {
    /// The metadata of an archive without groups.
    pub open spec fn empty() -> MetadataSpec {
        MetadataSpec {
            num_cameras: 0,
            message_offsets: Seq::empty(),
            num_passing_events: 0,
            num_goal_shot_events: 0,
        }
    }

    /// The fields before the offsets.
    pub open spec fn head_fields(self) -> Seq<FieldSpec> {
        seq![
            FieldSpec { number: NUM_CAMERAS_FIELD, value: ValueSpec::Varint(self.num_cameras as u64) },
        ]
    }

    /// The fields after the offsets.
    pub open spec fn tail_fields(self) -> Seq<FieldSpec> {
        seq![
            FieldSpec {
                number: NUM_PASSING_EVENTS_FIELD,
                value: ValueSpec::Varint(self.num_passing_events as u64),
            },
            FieldSpec {
                number: NUM_GOAL_SHOT_EVENTS_FIELD,
                value: ValueSpec::Varint(self.num_goal_shot_events as u64),
            },
        ]
    }

    /// The fields of the metadata: the camera count, the offsets in order,
    /// the two event counts.
    pub open spec fn fields(self) -> Seq<FieldSpec> {
        self.head_fields() + offset_fields(self.message_offsets) + self.tail_fields()
    }

    /// The metadata on the wire.
    pub open spec fn bytes(self) -> Seq<u8> {
        fields_bytes(self.fields())
    }
}

/// What one field adds to metadata that is being read: an offset, or the
/// low 32 bits of a count, of which the last one counts. Offsets come one
/// by one, each as a varint, or packed, as a run of varints under one
/// length.
#[verifier::opaque]
pub open spec fn metadata_step(acc: MetadataSpec, f: FieldSpec) -> Result<MetadataSpec, ProtoError> {
    if f.number == NUM_CAMERAS_FIELD || f.number == MESSAGE_OFFSETS_FIELD || f.number
        == NUM_PASSING_EVENTS_FIELD || f.number == NUM_GOAL_SHOT_EVENTS_FIELD {
        match f.value {
            ValueSpec::Varint(v) => {
                let low = (v as nat % 0x1_0000_0000) as u32;
                if f.number == NUM_CAMERAS_FIELD {
                    Ok(MetadataSpec { num_cameras: low, ..acc })
                } else if f.number == MESSAGE_OFFSETS_FIELD {
                    Ok(MetadataSpec { message_offsets: acc.message_offsets.push(v), ..acc })
                } else if f.number == NUM_PASSING_EVENTS_FIELD {
                    Ok(MetadataSpec { num_passing_events: low, ..acc })
                } else {
                    Ok(MetadataSpec { num_goal_shot_events: low, ..acc })
                }
            },
            ValueSpec::LengthDelimited(b) => if f.number == MESSAGE_OFFSETS_FIELD {
                match read_varints(b) {
                    Ok(offsets) => Ok(
                        MetadataSpec { message_offsets: acc.message_offsets + offsets, ..acc },
                    ),
                    Err(e) => Err(e),
                }
            } else {
                Err(ProtoError::UnexpectedWireType)
            },
            _ => Err(ProtoError::UnexpectedWireType),
        }
    } else {
        Ok(acc)
    }
}

/// Goes through the fields of the metadata.
pub open spec fn scan_metadata(fields: Seq<FieldSpec>, acc: MetadataSpec) -> Result<
    MetadataSpec,
    ProtoError,
>
    decreases fields.len(),
{
    if fields.len() == 0 {
        Ok(acc)
    } else {
        match metadata_step(acc, fields[0]) {
            Ok(next) => scan_metadata(fields.skip(1), next),
            Err(e) => Err(e),
        }
    }
}

/// The metadata that `bytes` are, or why they are none. What is not
/// written is 0 or empty; fields that the metadata do not have are passed
/// over.
#[verifier::opaque]
pub open spec fn read_metadata(bytes: Seq<u8>) -> Result<MetadataSpec, ProtoError> {
    match read_fields(bytes) {
        Err(e) => Err(e),
        Ok(fields) => scan_metadata(fields, MetadataSpec::empty()),
    }
}

/// Going through fields one run after the other.
proof fn lemma_scan_metadata_append(a: Seq<FieldSpec>, b: Seq<FieldSpec>, acc: MetadataSpec)
    ensures
        scan_metadata(a + b, acc) == match scan_metadata(a, acc) {
            Ok(next) => scan_metadata(b, next),
            Err(e) => Err(e),
        },
    decreases a.len(),
{
    if a.len() == 0 {
        assert(a + b =~= b);
    } else {
        assert((a + b)[0] == a[0]);
        assert((a + b).skip(1) =~= a.skip(1) + b);
        if let Ok(next) = metadata_step(acc, a[0]) {
            lemma_scan_metadata_append(a.skip(1), b, next);
        }
    }
}

/// Going through the fields of written offsets adds the offsets.
proof fn lemma_scan_offsets(offsets: Seq<u64>, acc: MetadataSpec)
    ensures
        scan_metadata(offset_fields(offsets), acc) == Ok::<MetadataSpec, ProtoError>(
            MetadataSpec { message_offsets: acc.message_offsets + offsets, ..acc },
        ),
        fields_wf(offset_fields(offsets)),
    decreases offsets.len(),
{
    let fs = offset_fields(offsets);
    if offsets.len() == 0 {
        assert(acc.message_offsets + offsets =~= acc.message_offsets);
    } else {
        let next = MetadataSpec { message_offsets: acc.message_offsets.push(offsets[0]), ..acc };
        assert(metadata_step(acc, fs[0]) == Ok::<MetadataSpec, ProtoError>(next)) by {
            reveal(metadata_step);
        }
        assert(fs.skip(1) =~= offset_fields(offsets.skip(1)));
        lemma_scan_offsets(offsets.skip(1), next);
        assert(acc.message_offsets.push(offsets[0]) + offsets.skip(1) =~= acc.message_offsets
            + offsets);
    }
}

/// Reading written metadata gives the metadata back.
pub proof fn lemma_metadata_round_trip(m: MetadataSpec)
    ensures
        read_metadata(m.bytes()) == Ok::<MetadataSpec, ProtoError>(m),
        fields_wf(m.fields()),
{
    reveal(read_metadata);
    let head = m.head_fields();
    let offs = offset_fields(m.message_offsets);
    let tail = m.tail_fields();
    let e = Seq::<FieldSpec>::empty();
    let start = MetadataSpec::empty();
    let counted = MetadataSpec { num_cameras: m.num_cameras, ..start };
    let indexed = MetadataSpec { message_offsets: m.message_offsets, ..counted };
    let passed = MetadataSpec { num_passing_events: m.num_passing_events, ..indexed };
    assert(scan_metadata(head, start) == Ok::<MetadataSpec, ProtoError>(counted)) by {
        reveal(metadata_step);
        assert(head.skip(1) =~= e);
        reveal_with_fuel(scan_metadata, 2);
    }
    lemma_scan_offsets(m.message_offsets, counted);
    assert(counted.message_offsets + m.message_offsets =~= m.message_offsets);
    assert(scan_metadata(tail, indexed) == Ok::<MetadataSpec, ProtoError>(m)) by {
        reveal(metadata_step);
        assert(metadata_step(indexed, tail[0]) == Ok::<MetadataSpec, ProtoError>(passed));
        assert(tail.skip(1)[0] == tail[1]);
        assert(metadata_step(passed, tail[1]) == Ok::<MetadataSpec, ProtoError>(m));
        assert(tail.skip(1).skip(1) =~= e);
        reveal_with_fuel(scan_metadata, 3);
    }
    lemma_scan_metadata_append(head, offs, start);
    lemma_scan_metadata_append(head + offs, tail, start);
    assert forall|i: int| 0 <= i < m.fields().len() implies (#[trigger] m.fields()[i]).wf() by {
        if i >= head.len() && i < head.len() + offs.len() {
            assert(m.fields()[i] == offs[i - head.len()]);
        }
    }
    lemma_fields_round_trip(m.fields());
}

impl LabelerMetadata {
    /// The index of an archive without groups.
    pub fn new() -> (r: LabelerMetadata)
        ensures
            r@ == MetadataSpec::empty(),
    {
        LabelerMetadata {
            num_cameras: 0,
            message_offsets: Vec::new(),
            num_passing_events: 0,
            num_goal_shot_events: 0,
        }
    }

    /// The metadata on the wire.
    pub fn write_to_bytes(&self) -> (bytes: Vec<u8>)
        ensures
            bytes@ == self@.bytes(),
    {
        let mut bytes: Vec<u8> = Vec::new();
        let ghost m = self@;
        let ghost head = m.head_fields();
        put_varint_field(&mut bytes, NUM_CAMERAS_FIELD, self.num_cameras as u64);
        proof {
            let e = Seq::<FieldSpec>::empty();
            assert(fields_bytes(e) =~= Seq::<u8>::empty());
            assert(head =~= e.push(head[0]));
            lemma_fields_bytes_push(e, head[0]);
            assert(head + offset_fields(m.message_offsets.take(0)) =~= head);
        }
        let mut i: usize = 0;
        while i < self.message_offsets.len()
            invariant
                i <= self.message_offsets@.len(),
                m == self@,
                head == m.head_fields(),
                bytes@ == fields_bytes(head + offset_fields(m.message_offsets.take(i as int))),
            decreases self.message_offsets@.len() - i,
        {
            put_varint_field(&mut bytes, MESSAGE_OFFSETS_FIELD, self.message_offsets[i]);
            proof {
                let done = m.message_offsets.take(i as int);
                let offset = m.message_offsets[i as int];
                assert(m.message_offsets.take(i + 1) =~= done.push(offset));
                assert(head + offset_fields(done.push(offset)) =~= (head + offset_fields(
                    done,
                )).push(offset_field(offset)));
                lemma_fields_bytes_push(head + offset_fields(done), offset_field(offset));
            }
            i = i + 1;
        }
        put_varint_field(&mut bytes, NUM_PASSING_EVENTS_FIELD, self.num_passing_events as u64);
        put_varint_field(&mut bytes, NUM_GOAL_SHOT_EVENTS_FIELD, self.num_goal_shot_events as u64);
        proof {
            let tail = m.tail_fields();
            let body = head + offset_fields(m.message_offsets);
            assert(m.message_offsets.take(i as int) =~= m.message_offsets);
            assert(m.fields() =~= body.push(tail[0]).push(tail[1]));
            lemma_fields_bytes_push(body, tail[0]);
            lemma_fields_bytes_push(body.push(tail[0]), tail[1]);
        }
        bytes
    }

    /// Reads metadata from their bytes.
    pub fn parse_from_bytes(bytes: &[u8]) -> (r: Result<LabelerMetadata, ProtoError>)
        ensures
            match read_metadata(bytes@) {
                Ok(m) => r is Ok && r->Ok_0@ == m,
                Err(e) => r == Err::<LabelerMetadata, ProtoError>(e),
            },
    {
        reveal(read_metadata);
        let fields = match parse_fields(bytes) {
            Ok(fields) => fields,
            Err(e) => { return Err(e); },
        };
        let ghost all = fields_view(fields@);
        let mut metadata = LabelerMetadata::new();
        let mut i: usize = 0;
        assert(all.skip(0) =~= all);
        while i < fields.len()
            invariant
                i <= fields@.len(),
                all == fields_view(fields@),
                read_fields(bytes@) == Ok::<Seq<FieldSpec>, ProtoError>(all),
                scan_metadata(all, MetadataSpec::empty()) == scan_metadata(
                    all.skip(i as int),
                    metadata@,
                ),
            decreases fields@.len() - i,
        {
            let ghost rest = all.skip(i as int);
            let ghost before = metadata@;
            assert(rest[0] == fields@[i as int]@);
            assert(rest.skip(1) =~= all.skip(i + 1));
            reveal(metadata_step);
            reveal(read_metadata);
            let number = fields[i].number;
            if number == NUM_CAMERAS_FIELD || number == MESSAGE_OFFSETS_FIELD || number
                == NUM_PASSING_EVENTS_FIELD || number == NUM_GOAL_SHOT_EVENTS_FIELD {
                match &fields[i].value {
                    WireValue::Varint(v) => {
                        let low: u32 = (*v % 0x1_0000_0000) as u32;
                        if number == NUM_CAMERAS_FIELD {
                            metadata.num_cameras = low;
                        } else if number == MESSAGE_OFFSETS_FIELD {
                            metadata.message_offsets.push(*v);
                        } else if number == NUM_PASSING_EVENTS_FIELD {
                            metadata.num_passing_events = low;
                        } else {
                            metadata.num_goal_shot_events = low;
                        }
                    },
                    WireValue::LengthDelimited(b) => {
                        if number != MESSAGE_OFFSETS_FIELD {
                            return Err(ProtoError::UnexpectedWireType);
                        }
                        match parse_varints(b.as_slice()) {
                            Ok(offsets) => {
                                append_offsets(&mut metadata.message_offsets, &offsets);
                            },
                            Err(e) => {
                                return Err(e);
                            },
                        }
                    },
                    _ => {
                        return Err(ProtoError::UnexpectedWireType);
                    },
                }
            }
            i = i + 1;
        }
        Ok(metadata)
    }
}

/// Appends `more` to `out`.
fn append_offsets(out: &mut Vec<u64>, more: &Vec<u64>)
    ensures
        final(out)@ == old(out)@ + more@,
{
    let mut i: usize = 0;
    assert(more@.take(0) =~= Seq::<u64>::empty());
    assert(out@ + Seq::<u64>::empty() =~= out@);
    while i < more.len()
        invariant
            i <= more@.len(),
            out@ == old(out)@ + more@.take(i as int),
        decreases more@.len() - i,
    {
        assert(more@.take(i + 1) =~= more@.take(i as int).push(more@[i as int]));
        assert((old(out)@ + more@.take(i as int)).push(more@[i as int]) =~= old(out)@ + more@.take(
            i + 1,
        ));
        out.push(more[i]);
        i = i + 1;
    }
    assert(more@.take(more@.len() as int) =~= more@);
}


} // verus!
