//! The vision wrapper packet. The tools read the camera of its detection
//! frame; the rest of it is held to its schema and kept as bytes.

use crate::protos::schema::check_conforms;
use crate::protos::schema::field_check;
use crate::protos::schema::fields_conform;
use crate::protos::schema::initialized;
use crate::protos::schema::join_field;
use crate::protos::schema::joined;
use crate::protos::schema::known_number;
use crate::protos::schema::lemma_fields_check;
use crate::protos::schema::lemma_fields_check_refuses;
use crate::protos::schema::lemma_joined_single;
use crate::protos::schema::lemma_required_missing;
use crate::protos::schema::low32;
use crate::protos::schema::low_bits;
use crate::protos::schema::number_ok;
use crate::protos::schema::occurs;
use crate::protos::schema::rule_of;
use crate::protos::schema::sets;
use crate::protos::schema::MessageKind;
use crate::protos::wire::fields_bytes;
use crate::protos::wire::fields_view;
use crate::protos::wire::fields_wf;
use crate::protos::wire::lemma_field_bytes_len;
use crate::protos::wire::lemma_fields_bytes_len;
use crate::protos::wire::lemma_fields_round_trip;
use crate::protos::wire::parse_fields;
use crate::protos::wire::read_fields;
use crate::protos::wire::write_fields;
use crate::protos::wire::FieldSpec;
use crate::protos::wire::MAX_PAYLOAD_LEN;
use crate::protos::wire::ProtoError;
use crate::protos::wire::ValueSpec;
use crate::protos::wire::WireField;
use crate::protos::wire::WireValue;
use vstd::prelude::*;

verus! {

/// The field number of the detection frame in a wrapper packet.
pub const DETECTION_FIELD: u32 = 1;

/// The field number of the frame number in a detection frame.
pub const FRAME_NUMBER_FIELD: u32 = 1;

/// The field number of the capture time in a detection frame.
pub const T_CAPTURE_FIELD: u32 = 2;

/// The field number of the sending time in a detection frame.
pub const T_SENT_FIELD: u32 = 3;

/// The field number of the camera id in a detection frame.
pub const CAMERA_ID_FIELD: u32 = 4;

/// The camera id after one more field of a detection frame: a camera-id
/// field gives the low 32 bits of its varint, any other field leaves what
/// was found.
pub open spec fn camera_after(found: u32, f: FieldSpec) -> u32 {
    if f.number == CAMERA_ID_FIELD {
        match f.value {
            ValueSpec::Varint(v) => low32(v) as u32,
            _ => found,
        }
    } else {
        found
    }
}

/// Goes through the fields of a detection frame for its camera id: the
/// last camera-id field counts.
pub open spec fn scan_camera_id(fields: Seq<FieldSpec>, found: u32) -> u32
    decreases fields.len(),
{
    if fields.len() == 0 {
        found
    } else {
        scan_camera_id(fields.skip(1), camera_after(found, fields[0]))
    }
}

/// The camera of the detection frame among the fields of a wrapper
/// packet; 0 where there is none. A detection frame that comes in
/// several parts is one frame, of the fields of its parts in their order.
pub open spec fn camera_of(fields: Seq<FieldSpec>) -> u32 {
    scan_camera_id(joined(fields, DETECTION_FIELD), 0)
}

/// The camera that the bytes of a wrapper packet come from, or why they
/// are no wrapper packet; 0 where the packet holds no detection frame.
/// The bytes split into fields. Each field that the schema knows is
/// written as the schema has it, in the packet, in its detection frame
/// and its geometry, and in the messages inside these; where one is not,
/// the error is `UnexpectedWireType`, or that of the text inside it. And
/// no required field is missing in any of these messages: of a detection
/// frame its frame number, capture time, sending time and camera id;
/// where one is, the error is `MessageNotInitialized`. Fields with other
/// numbers are passed over.
#[verifier::opaque]
pub open spec fn wrapper_camera_id(bytes: Seq<u8>) -> Result<u32, ProtoError> {
    match read_fields(bytes) {
        Err(e) => Err(e),
        Ok(fields) => match fields_conform(MessageKind::WrapperPacket, fields) {
            Err(e) => Err(e),
            Ok(_) => Ok(camera_of(fields)),
        },
    }
}

/// What a wrapper packet is to the tools: its bytes, and the camera that
/// they come from.
pub struct WrapperSpec {
    pub bytes: Seq<u8>,
    pub camera_id: u32,
}

impl WrapperSpec {
    /// The bytes are a wrapper packet of this camera, short enough for a
    /// log record.
    pub open spec fn wf(self) -> bool {
        self.bytes.len() <= MAX_PAYLOAD_LEN && wrapper_camera_id(self.bytes) == Ok::<
            u32,
            ProtoError,
        >(self.camera_id)
    }
}

/// What `parse_from_bytes` makes of `bytes`: a wrapper packet, where they
/// are no longer than a log record can frame and are a message of the
/// wrapper packet's schema with all that it requires.
pub open spec fn parse_wrapper(bytes: Seq<u8>) -> Result<WrapperSpec, ProtoError> {
    if bytes.len() > MAX_PAYLOAD_LEN {
        Err(ProtoError::TooLarge)
    } else {
        match wrapper_camera_id(bytes) {
            Err(e) => Err(e),
            Ok(camera_id) => Ok(WrapperSpec { bytes, camera_id }),
        }
    }
}

/// The eight bytes of a time of zero seconds.
pub open spec fn zero_time() -> Seq<u8> {
    seq![0u8, 0u8, 0u8, 0u8, 0u8, 0u8, 0u8, 0u8]
}

/// The fields of the detection frame that `with_detection` writes: the
/// frame number and the camera, and both times at zero.
pub open spec fn detection_fields(frame_number: u32, camera_id: u32) -> Seq<FieldSpec> {
    seq![
        FieldSpec { number: FRAME_NUMBER_FIELD, value: ValueSpec::Varint(frame_number as u64) },
        FieldSpec { number: T_CAPTURE_FIELD, value: ValueSpec::Fixed64(zero_time()) },
        FieldSpec { number: T_SENT_FIELD, value: ValueSpec::Fixed64(zero_time()) },
        FieldSpec { number: CAMERA_ID_FIELD, value: ValueSpec::Varint(camera_id as u64) },
    ]
}

/// The fields of the wrapper packet that `with_detection` writes.
pub open spec fn wrapper_fields(frame_number: u32, camera_id: u32) -> Seq<FieldSpec> {
    seq![
        FieldSpec {
            number: DETECTION_FIELD,
            value: ValueSpec::LengthDelimited(
                fields_bytes(detection_fields(frame_number, camera_id)),
            ),
        },
    ]
}

/// A vision wrapper packet. It keeps the bytes it was read from, so that
/// it is sent on exactly as it was recorded.
#[allow(non_camel_case_types)]
#[derive(Debug, PartialEq, Eq)]
pub struct SSL_WrapperPacket {
    bytes: Vec<u8>,
    camera_id: u32,
}

impl View for SSL_WrapperPacket {
    type V = WrapperSpec;

    closed spec fn view(&self) -> WrapperSpec {
        WrapperSpec { bytes: self.bytes@, camera_id: self.camera_id }
    }
}

impl Clone for SSL_WrapperPacket {
    fn clone(&self) -> (r: SSL_WrapperPacket)
        ensures
            r@ == self@,
    {
        proof {
            use_type_invariant(self);
        }
        let bytes = self.bytes.clone();
        assert(bytes@ =~= self.bytes@);
        SSL_WrapperPacket { bytes, camera_id: self.camera_id }
    }
}

/// The camera id that the fields of a detection frame name.
pub fn find_camera_id(fields: &Vec<WireField>) -> (r: u32)
    ensures
        r == scan_camera_id(fields_view(fields@), 0),
{
    let ghost all = fields_view(fields@);
    let mut found: u32 = 0;
    let mut i: usize = 0;
    assert(all.skip(0) =~= all);
    while i < fields.len()
        invariant
            i <= fields@.len(),
            all == fields_view(fields@),
            scan_camera_id(all, 0) == scan_camera_id(all.skip(i as int), found),
        decreases fields@.len() - i,
    {
        let ghost rest = all.skip(i as int);
        assert(rest[0] == fields@[i as int]@);
        assert(rest.skip(1) =~= all.skip(i + 1));
        if fields[i].number == CAMERA_ID_FIELD {
            match &fields[i].value {
                WireValue::Varint(v) => {
                    found = low_bits(*v) as u32;
                },
                _ => {},
            }
        }
        i = i + 1;
    }
    found
}

/// The eight bytes of a time of zero seconds.
fn zero_time_bytes() -> (r: Vec<u8>)
    ensures
        r@ == zero_time(),
{
    let mut out: Vec<u8> = Vec::new();
    out.push(0);
    out.push(0);
    out.push(0);
    out.push(0);
    out.push(0);
    out.push(0);
    out.push(0);
    out.push(0);
    assert(out@ =~= zero_time());
    out
}

impl SSL_WrapperPacket {
    #[verifier::type_invariant]
    spec fn inv(&self) -> bool {
        self@.wf()
    }

    /// Reads a wrapper packet from its bytes. They are held to the schema
    /// of the wrapper packet, required fields and all; the camera id of
    /// the detection frame is read, and the bytes are kept whole.
    pub fn parse_from_bytes(bytes: Vec<u8>) -> (r: Result<SSL_WrapperPacket, ProtoError>)
        ensures
            match parse_wrapper(bytes@) {
                Ok(m) => r is Ok && r->Ok_0@ == m && m.wf(),
                Err(e) => r == Err::<SSL_WrapperPacket, ProtoError>(e),
            },
    {
        reveal(wrapper_camera_id);
        if bytes.len() > MAX_PAYLOAD_LEN {
            return Err(ProtoError::TooLarge);
        }
        let fields = match parse_fields(bytes.as_slice()) {
            Ok(fields) => fields,
            Err(e) => { return Err(e); },
        };
        match check_conforms(MessageKind::WrapperPacket, &fields) {
            Ok(_) => {},
            Err(e) => { return Err(e); },
        }
        let inner = join_field(&fields, DETECTION_FIELD);
        let camera_id = find_camera_id(&inner);
        Ok(SSL_WrapperPacket { bytes, camera_id })
    }

    /// Makes a wrapper packet that holds a detection frame with the given
    /// frame number and camera id. The two times, which a detection frame
    /// cannot be without, are written as zero.
    pub fn with_detection(frame_number: u32, camera_id: u32) -> (r: SSL_WrapperPacket)
        ensures
            r@.camera_id == camera_id,
            r@.bytes == fields_bytes(wrapper_fields(frame_number, camera_id)),
            r@.wf(),
    {
        let mut inner: Vec<WireField> = Vec::new();
        inner.push(
            WireField { number: FRAME_NUMBER_FIELD, value: WireValue::Varint(frame_number as u64) },
        );
        inner.push(
            WireField { number: T_CAPTURE_FIELD, value: WireValue::Fixed64(zero_time_bytes()) },
        );
        inner.push(WireField { number: T_SENT_FIELD, value: WireValue::Fixed64(zero_time_bytes()) });
        inner.push(
            WireField { number: CAMERA_ID_FIELD, value: WireValue::Varint(camera_id as u64) },
        );
        proof {
            assert(fields_view(inner@) =~= detection_fields(frame_number, camera_id));
            lemma_detection_fields(frame_number, camera_id);
        }
        let detection = write_fields(&inner);
        let mut fields: Vec<WireField> = Vec::new();
        fields.push(
            WireField { number: DETECTION_FIELD, value: WireValue::LengthDelimited(detection) },
        );
        proof {
            assert(fields_view(fields@) =~= wrapper_fields(frame_number, camera_id));
            lemma_wrapper_fields(frame_number, camera_id);
        }
        let bytes = write_fields(&fields);
        SSL_WrapperPacket { bytes, camera_id }
    }

    /// The camera that the packet comes from; 0 where it holds no
    /// detection frame.
    pub fn get_camera_id(&self) -> (id: u32)
        ensures
            id == self@.camera_id,
            self@.wf(),
    {
        proof {
            use_type_invariant(self);
        }
        self.camera_id
    }

    /// The bytes of the packet, as they are written and sent.
    pub fn as_bytes(&self) -> (bytes: &Vec<u8>)
        ensures
            bytes@ == self@.bytes,
            self@.wf(),
    {
        proof {
            use_type_invariant(self);
        }
        &self.bytes
    }
}

/// The detection frame that `with_detection` writes is one as the schema
/// has it, of the camera given, and is read back as it was written.
pub proof fn lemma_detection_fields(frame_number: u32, camera_id: u32)
    ensures
        ({
            let fs = detection_fields(frame_number, camera_id);
            &&& fields_wf(fs)
            &&& fields_bytes(fs).len() <= 80
            &&& read_fields(fields_bytes(fs)) == Ok::<Seq<FieldSpec>, ProtoError>(fs)
            &&& fields_conform(MessageKind::DetectionFrame, fs) == Ok::<(), ProtoError>(())
            &&& scan_camera_id(fs, 0) == camera_id
        }),
{
    let fs = detection_fields(frame_number, camera_id);
    let kind = MessageKind::DetectionFrame;
    assert(fields_wf(fs));
    lemma_fields_round_trip(fs);
    assert forall|i: int| 0 <= i < fs.len() implies (#[trigger] fs[i]).bytes().len() <= 20 by {
        lemma_field_bytes_len(fs[i]);
    }
    lemma_fields_bytes_len(fs, 20);
    assert forall|i: int| 0 <= i < fs.len() implies field_check(kind, #[trigger] fs[i]) is Ok by {
        assert(rule_of(kind, fs[i].number) is Some);
    }
    lemma_fields_check(kind, fs);
    assert forall|n: u32| #[trigger] known_number(n) implies number_ok(kind, fs, n) by {
        if n == 1 {
            assert(sets(rule_of(kind, n)->Some_0, n, fs[0]));
        } else if n == 2 {
            assert(sets(rule_of(kind, n)->Some_0, n, fs[1]));
        } else if n == 3 {
            assert(sets(rule_of(kind, n)->Some_0, n, fs[2]));
        } else if n == 4 {
            assert(sets(rule_of(kind, n)->Some_0, n, fs[3]));
        }
    }
    assert(initialized(kind, fs));
    assert(low32(camera_id as u64) == camera_id);
    assert(fs.skip(1).skip(1).skip(1).skip(1) =~= Seq::<FieldSpec>::empty());
    reveal_with_fuel(scan_camera_id, 5);
}

/// The packet that `with_detection` writes is a wrapper packet of the
/// camera given, and short.
pub proof fn lemma_wrapper_fields(frame_number: u32, camera_id: u32)
    ensures
        ({
            let ws = wrapper_fields(frame_number, camera_id);
            &&& fields_wf(ws)
            &&& fields_bytes(ws).len() <= 100
            &&& wrapper_camera_id(fields_bytes(ws)) == Ok::<u32, ProtoError>(camera_id)
        }),
{
    reveal(wrapper_camera_id);
    let fs = detection_fields(frame_number, camera_id);
    let ws = wrapper_fields(frame_number, camera_id);
    let kind = MessageKind::WrapperPacket;
    lemma_detection_fields(frame_number, camera_id);
    assert(fields_wf(ws));
    lemma_fields_round_trip(ws);
    assert forall|i: int| 0 <= i < ws.len() implies (#[trigger] ws[i]).bytes().len() <= 100 by {
        lemma_field_bytes_len(ws[i]);
    }
    lemma_fields_bytes_len(ws, 100);
    assert forall|i: int| 0 <= i < ws.len() implies field_check(kind, #[trigger] ws[i]) is Ok by {
        assert(rule_of(kind, ws[i].number) is Some);
    }
    lemma_fields_check(kind, ws);
    lemma_joined_single(ws, DETECTION_FIELD, 0);
    assert(joined(ws, DETECTION_FIELD) == fs);
    assert forall|n: u32| #[trigger] known_number(n) implies number_ok(kind, ws, n) by {
        if n == 1 {
            assert(sets(rule_of(kind, n)->Some_0, n, ws[0]));
        } else if n == 2 {
            assert forall|i: int| 0 <= i < ws.len() implies !sets(
                rule_of(kind, n)->Some_0,
                n,
                #[trigger] ws[i],
            ) by {}
        }
    }
    assert(initialized(kind, ws));
}

/// Bytes whose detection frame lacks a field that its schema requires are
/// no wrapper packet.
pub proof fn lemma_wrapper_needs_required(bytes: Seq<u8>, number: u32)
    requires
        read_fields(bytes) is Ok,
        occurs(
            rule_of(MessageKind::WrapperPacket, DETECTION_FIELD)->Some_0,
            read_fields(bytes)->Ok_0,
            DETECTION_FIELD,
        ),
        rule_of(MessageKind::DetectionFrame, number) matches Some(rule) && rule.required
            && !occurs(rule, joined(read_fields(bytes)->Ok_0, DETECTION_FIELD), number),
    ensures
        parse_wrapper(bytes) is Err,
{
    reveal(wrapper_camera_id);
    let fs = read_fields(bytes)->Ok_0;
    lemma_required_missing(MessageKind::DetectionFrame, joined(fs, DETECTION_FIELD), number);
    assert(known_number(DETECTION_FIELD));
    assert(!number_ok(MessageKind::WrapperPacket, fs, DETECTION_FIELD));
}

/// Bytes with a field that is not written as the schema of the wrapper
/// packet has it are no wrapper packet.
pub proof fn lemma_wrapper_needs_wire_types(bytes: Seq<u8>, at: int)
    requires
        read_fields(bytes) is Ok,
        0 <= at < read_fields(bytes)->Ok_0.len(),
        field_check(MessageKind::WrapperPacket, read_fields(bytes)->Ok_0[at]) is Err,
    ensures
        parse_wrapper(bytes) is Err,
{
    reveal(wrapper_camera_id);
    lemma_fields_check_refuses(MessageKind::WrapperPacket, read_fields(bytes)->Ok_0, at);
}

} // verus!
