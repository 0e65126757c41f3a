//! The schemas of the referee and vision messages: which fields a message
//! has, how each is written, and which of them it cannot be without.
//!
//! A message is read in two passes. The first holds each field that the
//! schema knows to the wire type the schema gives it, and reads the
//! messages inside it in the same way; a field that the schema does not
//! know is passed over. The second asks whether every required field is
//! there, in the message and in each message inside it. A message field
//! that comes more than once is one message, whose fields are those of all
//! its occurrences in their order; a repeated one is a message each time.

use crate::protos::wire::fields_view;
use crate::protos::wire::parse_fields;
use crate::protos::wire::parse_varints;
use crate::protos::wire::read_fields;
use crate::protos::wire::read_varints;
use crate::protos::wire::FieldSpec;
use crate::protos::wire::ProtoError;
use crate::protos::wire::ValueSpec;
use crate::protos::wire::WireField;
use crate::protos::wire::WireValue;
use vstd::prelude::*;
use vstd::utf8::valid_utf8;

verus! {

/// The messages whose fields the library knows.
#[derive(Clone, Copy, Debug, PartialEq, Eq, Structural)]
pub enum MessageKind {
    /// The referee message.
    Referee,
    /// What a referee message says of one team.
    TeamInfo,
    /// The vision wrapper packet.
    WrapperPacket,
    /// What one camera saw at one time.
    DetectionFrame,
    /// A ball that a camera saw.
    DetectionBall,
    /// A robot that a camera saw.
    DetectionRobot,
    /// The geometry of the field and the cameras.
    GeometryData,
    /// The sizes of the field.
    GeometryFieldSize,
    /// A straight line of the field.
    FieldLineSegment,
    /// An arc of the field.
    FieldCircularArc,
    /// A point of the plane.
    Vector2f,
    /// The calibration of one camera.
    CameraCalibration,
}

/// What a field of a message holds.
#[derive(Clone, Copy, Debug, PartialEq, Eq, Structural)]
pub enum FieldKind {
    /// A number written as a varint.
    Varint,
    /// One of the variants of an enum, which are numbered from 0 up to
    /// the number given, written as a varint.
    Enum(u64),
    /// Four bytes.
    Fixed32,
    /// Eight bytes.
    Fixed64,
    /// A text in UTF-8.
    Text,
    /// Numbers, written one by one as varints or packed, as a run of
    /// varints under one length.
    PackedVarint,
    /// A message.
    Message(MessageKind),
}

/// What the schema of a message says of one of its fields.
#[derive(Clone, Copy, Debug, PartialEq, Eq, Structural)]
pub struct FieldRule {
    pub kind: FieldKind,
    /// The message is not whole without the field.
    pub required: bool,
    /// The field may come any number of times, each time as a value of
    /// its own.
    pub repeated: bool,
}

/// The numbers of the fields that the library knows are below this.
pub const FIELD_NUMBERS: u32 = 16;

/// How deep the messages inside a message of this kind can be nested.
pub open spec fn rank(kind: MessageKind) -> nat {
    match kind {
        MessageKind::Referee => 1,
        MessageKind::TeamInfo => 0,
        MessageKind::WrapperPacket => 4,
        MessageKind::DetectionFrame => 1,
        MessageKind::DetectionBall => 0,
        MessageKind::DetectionRobot => 0,
        MessageKind::GeometryData => 3,
        MessageKind::GeometryFieldSize => 2,
        MessageKind::FieldLineSegment => 1,
        MessageKind::FieldCircularArc => 1,
        MessageKind::Vector2f => 0,
        MessageKind::CameraCalibration => 0,
    }
}

/// What the schema of `kind` says of the field of number `number`;
/// nothing of a field that it does not have.
pub open spec fn rule_of(kind: MessageKind, number: u32) -> Option<FieldRule> {
    match kind {
        MessageKind::Referee => {
            if number == 1 {
                Some(FieldRule { kind: FieldKind::Varint, required: true, repeated: false })
            } else if number == 2 {
                Some(FieldRule { kind: FieldKind::Enum(13), required: true, repeated: false })
            } else if number == 3 {
                Some(FieldRule { kind: FieldKind::Varint, required: false, repeated: false })
            } else if number == 4 {
                Some(FieldRule { kind: FieldKind::Enum(17), required: true, repeated: false })
            } else if 5 <= number && number <= 6 {
                Some(FieldRule { kind: FieldKind::Varint, required: true, repeated: false })
            } else if 7 <= number && number <= 8 {
                Some(FieldRule { kind: FieldKind::Message(MessageKind::TeamInfo), required: true, repeated: false })
            } else {
                None
            }
        },
        MessageKind::TeamInfo => {
            if number == 1 {
                Some(FieldRule { kind: FieldKind::Text, required: true, repeated: false })
            } else if 2 <= number && number <= 3 {
                Some(FieldRule { kind: FieldKind::Varint, required: true, repeated: false })
            } else if number == 4 {
                Some(FieldRule { kind: FieldKind::PackedVarint, required: false, repeated: true })
            } else if 5 <= number && number <= 8 {
                Some(FieldRule { kind: FieldKind::Varint, required: true, repeated: false })
            } else {
                None
            }
        },
        MessageKind::WrapperPacket => {
            if number == 1 {
                Some(FieldRule { kind: FieldKind::Message(MessageKind::DetectionFrame), required: false, repeated: false })
            } else if number == 2 {
                Some(FieldRule { kind: FieldKind::Message(MessageKind::GeometryData), required: false, repeated: false })
            } else {
                None
            }
        },
        MessageKind::DetectionFrame => {
            if number == 1 {
                Some(FieldRule { kind: FieldKind::Varint, required: true, repeated: false })
            } else if 2 <= number && number <= 3 {
                Some(FieldRule { kind: FieldKind::Fixed64, required: true, repeated: false })
            } else if number == 4 {
                Some(FieldRule { kind: FieldKind::Varint, required: true, repeated: false })
            } else if number == 5 {
                Some(FieldRule { kind: FieldKind::Message(MessageKind::DetectionBall), required: false, repeated: true })
            } else if 6 <= number && number <= 7 {
                Some(FieldRule { kind: FieldKind::Message(MessageKind::DetectionRobot), required: false, repeated: true })
            } else {
                None
            }
        },
        MessageKind::DetectionBall => {
            if number == 1 {
                Some(FieldRule { kind: FieldKind::Fixed32, required: true, repeated: false })
            } else if number == 2 {
                Some(FieldRule { kind: FieldKind::Varint, required: false, repeated: false })
            } else if 3 <= number && number <= 4 {
                Some(FieldRule { kind: FieldKind::Fixed32, required: true, repeated: false })
            } else if number == 5 {
                Some(FieldRule { kind: FieldKind::Fixed32, required: false, repeated: false })
            } else if 6 <= number && number <= 7 {
                Some(FieldRule { kind: FieldKind::Fixed32, required: true, repeated: false })
            } else {
                None
            }
        },
        MessageKind::DetectionRobot => {
            if number == 1 {
                Some(FieldRule { kind: FieldKind::Fixed32, required: true, repeated: false })
            } else if number == 2 {
                Some(FieldRule { kind: FieldKind::Varint, required: false, repeated: false })
            } else if 3 <= number && number <= 4 {
                Some(FieldRule { kind: FieldKind::Fixed32, required: true, repeated: false })
            } else if number == 5 {
                Some(FieldRule { kind: FieldKind::Fixed32, required: false, repeated: false })
            } else if 6 <= number && number <= 7 {
                Some(FieldRule { kind: FieldKind::Fixed32, required: true, repeated: false })
            } else if number == 8 {
                Some(FieldRule { kind: FieldKind::Fixed32, required: false, repeated: false })
            } else {
                None
            }
        },
        MessageKind::GeometryData => {
            if number == 1 {
                Some(FieldRule { kind: FieldKind::Message(MessageKind::GeometryFieldSize), required: true, repeated: false })
            } else if number == 2 {
                Some(FieldRule { kind: FieldKind::Message(MessageKind::CameraCalibration), required: false, repeated: true })
            } else {
                None
            }
        },
        MessageKind::GeometryFieldSize => {
            if 1 <= number && number <= 5 {
                Some(FieldRule { kind: FieldKind::Varint, required: true, repeated: false })
            } else if number == 6 {
                Some(FieldRule { kind: FieldKind::Message(MessageKind::FieldLineSegment), required: false, repeated: true })
            } else if number == 7 {
                Some(FieldRule { kind: FieldKind::Message(MessageKind::FieldCircularArc), required: false, repeated: true })
            } else {
                None
            }
        },
        MessageKind::FieldLineSegment => {
            if number == 1 {
                Some(FieldRule { kind: FieldKind::Text, required: true, repeated: false })
            } else if 2 <= number && number <= 3 {
                Some(FieldRule { kind: FieldKind::Message(MessageKind::Vector2f), required: true, repeated: false })
            } else if number == 4 {
                Some(FieldRule { kind: FieldKind::Fixed32, required: true, repeated: false })
            } else {
                None
            }
        },
        MessageKind::FieldCircularArc => {
            if number == 1 {
                Some(FieldRule { kind: FieldKind::Text, required: true, repeated: false })
            } else if number == 2 {
                Some(FieldRule { kind: FieldKind::Message(MessageKind::Vector2f), required: true, repeated: false })
            } else if 3 <= number && number <= 6 {
                Some(FieldRule { kind: FieldKind::Fixed32, required: true, repeated: false })
            } else {
                None
            }
        },
        MessageKind::Vector2f => {
            if 1 <= number && number <= 2 {
                Some(FieldRule { kind: FieldKind::Fixed32, required: true, repeated: false })
            } else {
                None
            }
        },
        MessageKind::CameraCalibration => {
            if number == 1 {
                Some(FieldRule { kind: FieldKind::Varint, required: true, repeated: false })
            } else if 2 <= number && number <= 12 {
                Some(FieldRule { kind: FieldKind::Fixed32, required: true, repeated: false })
            } else if 13 <= number && number <= 15 {
                Some(FieldRule { kind: FieldKind::Fixed32, required: false, repeated: false })
            } else {
                None
            }
        },
    }
}

/// What the schema of `kind` says of the field of number `number`.
pub fn get_rule(kind: MessageKind, number: u32) -> (r: Option<FieldRule>)
    ensures
        r == rule_of(kind, number),
        r is Some ==> 1 <= number < FIELD_NUMBERS,
        r matches Some(rule) ==> (rule.kind matches FieldKind::Message(inner) ==> rank(inner) < rank(
            kind,
        )),
{
    match kind {
        MessageKind::Referee => {
            if number == 1 {
                Some(FieldRule { kind: FieldKind::Varint, required: true, repeated: false })
            } else if number == 2 {
                Some(FieldRule { kind: FieldKind::Enum(13), required: true, repeated: false })
            } else if number == 3 {
                Some(FieldRule { kind: FieldKind::Varint, required: false, repeated: false })
            } else if number == 4 {
                Some(FieldRule { kind: FieldKind::Enum(17), required: true, repeated: false })
            } else if 5 <= number && number <= 6 {
                Some(FieldRule { kind: FieldKind::Varint, required: true, repeated: false })
            } else if 7 <= number && number <= 8 {
                Some(FieldRule { kind: FieldKind::Message(MessageKind::TeamInfo), required: true, repeated: false })
            } else {
                None
            }
        },
        MessageKind::TeamInfo => {
            if number == 1 {
                Some(FieldRule { kind: FieldKind::Text, required: true, repeated: false })
            } else if 2 <= number && number <= 3 {
                Some(FieldRule { kind: FieldKind::Varint, required: true, repeated: false })
            } else if number == 4 {
                Some(FieldRule { kind: FieldKind::PackedVarint, required: false, repeated: true })
            } else if 5 <= number && number <= 8 {
                Some(FieldRule { kind: FieldKind::Varint, required: true, repeated: false })
            } else {
                None
            }
        },
        MessageKind::WrapperPacket => {
            if number == 1 {
                Some(FieldRule { kind: FieldKind::Message(MessageKind::DetectionFrame), required: false, repeated: false })
            } else if number == 2 {
                Some(FieldRule { kind: FieldKind::Message(MessageKind::GeometryData), required: false, repeated: false })
            } else {
                None
            }
        },
        MessageKind::DetectionFrame => {
            if number == 1 {
                Some(FieldRule { kind: FieldKind::Varint, required: true, repeated: false })
            } else if 2 <= number && number <= 3 {
                Some(FieldRule { kind: FieldKind::Fixed64, required: true, repeated: false })
            } else if number == 4 {
                Some(FieldRule { kind: FieldKind::Varint, required: true, repeated: false })
            } else if number == 5 {
                Some(FieldRule { kind: FieldKind::Message(MessageKind::DetectionBall), required: false, repeated: true })
            } else if 6 <= number && number <= 7 {
                Some(FieldRule { kind: FieldKind::Message(MessageKind::DetectionRobot), required: false, repeated: true })
            } else {
                None
            }
        },
        MessageKind::DetectionBall => {
            if number == 1 {
                Some(FieldRule { kind: FieldKind::Fixed32, required: true, repeated: false })
            } else if number == 2 {
                Some(FieldRule { kind: FieldKind::Varint, required: false, repeated: false })
            } else if 3 <= number && number <= 4 {
                Some(FieldRule { kind: FieldKind::Fixed32, required: true, repeated: false })
            } else if number == 5 {
                Some(FieldRule { kind: FieldKind::Fixed32, required: false, repeated: false })
            } else if 6 <= number && number <= 7 {
                Some(FieldRule { kind: FieldKind::Fixed32, required: true, repeated: false })
            } else {
                None
            }
        },
        MessageKind::DetectionRobot => {
            if number == 1 {
                Some(FieldRule { kind: FieldKind::Fixed32, required: true, repeated: false })
            } else if number == 2 {
                Some(FieldRule { kind: FieldKind::Varint, required: false, repeated: false })
            } else if 3 <= number && number <= 4 {
                Some(FieldRule { kind: FieldKind::Fixed32, required: true, repeated: false })
            } else if number == 5 {
                Some(FieldRule { kind: FieldKind::Fixed32, required: false, repeated: false })
            } else if 6 <= number && number <= 7 {
                Some(FieldRule { kind: FieldKind::Fixed32, required: true, repeated: false })
            } else if number == 8 {
                Some(FieldRule { kind: FieldKind::Fixed32, required: false, repeated: false })
            } else {
                None
            }
        },
        MessageKind::GeometryData => {
            if number == 1 {
                Some(FieldRule { kind: FieldKind::Message(MessageKind::GeometryFieldSize), required: true, repeated: false })
            } else if number == 2 {
                Some(FieldRule { kind: FieldKind::Message(MessageKind::CameraCalibration), required: false, repeated: true })
            } else {
                None
            }
        },
        MessageKind::GeometryFieldSize => {
            if 1 <= number && number <= 5 {
                Some(FieldRule { kind: FieldKind::Varint, required: true, repeated: false })
            } else if number == 6 {
                Some(FieldRule { kind: FieldKind::Message(MessageKind::FieldLineSegment), required: false, repeated: true })
            } else if number == 7 {
                Some(FieldRule { kind: FieldKind::Message(MessageKind::FieldCircularArc), required: false, repeated: true })
            } else {
                None
            }
        },
        MessageKind::FieldLineSegment => {
            if number == 1 {
                Some(FieldRule { kind: FieldKind::Text, required: true, repeated: false })
            } else if 2 <= number && number <= 3 {
                Some(FieldRule { kind: FieldKind::Message(MessageKind::Vector2f), required: true, repeated: false })
            } else if number == 4 {
                Some(FieldRule { kind: FieldKind::Fixed32, required: true, repeated: false })
            } else {
                None
            }
        },
        MessageKind::FieldCircularArc => {
            if number == 1 {
                Some(FieldRule { kind: FieldKind::Text, required: true, repeated: false })
            } else if number == 2 {
                Some(FieldRule { kind: FieldKind::Message(MessageKind::Vector2f), required: true, repeated: false })
            } else if 3 <= number && number <= 6 {
                Some(FieldRule { kind: FieldKind::Fixed32, required: true, repeated: false })
            } else {
                None
            }
        },
        MessageKind::Vector2f => {
            if 1 <= number && number <= 2 {
                Some(FieldRule { kind: FieldKind::Fixed32, required: true, repeated: false })
            } else {
                None
            }
        },
        MessageKind::CameraCalibration => {
            if number == 1 {
                Some(FieldRule { kind: FieldKind::Varint, required: true, repeated: false })
            } else if 2 <= number && number <= 12 {
                Some(FieldRule { kind: FieldKind::Fixed32, required: true, repeated: false })
            } else if 13 <= number && number <= 15 {
                Some(FieldRule { kind: FieldKind::Fixed32, required: false, repeated: false })
            } else {
                None
            }
        },
    }
}

/// The low 32 bits of a varint: what a field of 32 bits keeps of it.
pub open spec fn low32(v: u64) -> u64 {
    (v % 0x1_0000_0000) as u64
}

/// The low 32 bits of a varint.
pub fn low_bits(v: u64) -> (r: u64)
    ensures
        r == low32(v),
        r <= u32::MAX,
{
    v % 0x1_0000_0000
}

/// Whether `bytes` is a run of whole varints.
pub open spec fn varints_check(bytes: Seq<u8>) -> Result<(), ProtoError> {
    match read_varints(bytes) {
        Ok(_) => Ok(()),
        Err(e) => Err(e),
    }
}

/// Whether the field is written as the schema of `kind` has it. A text is
/// UTF-8, packed numbers are whole varints, and a message inside is held
/// to its own schema.
pub open spec fn field_check(kind: MessageKind, f: FieldSpec) -> Result<(), ProtoError>
    decreases rank(kind), 0nat, 0nat,
{
    match rule_of(kind, f.number) {
        None => Ok(()),
        Some(rule) => match (rule.kind, f.value) {
            (FieldKind::Varint, ValueSpec::Varint(_)) => Ok(()),
            (FieldKind::Enum(_), ValueSpec::Varint(_)) => Ok(()),
            (FieldKind::Fixed32, ValueSpec::Fixed32(_)) => Ok(()),
            (FieldKind::Fixed64, ValueSpec::Fixed64(_)) => Ok(()),
            (FieldKind::Text, ValueSpec::LengthDelimited(b)) => if valid_utf8(b) {
                Ok(())
            } else {
                Err(ProtoError::InvalidText)
            },
            (FieldKind::PackedVarint, ValueSpec::Varint(_)) => Ok(()),
            (FieldKind::PackedVarint, ValueSpec::LengthDelimited(b)) => varints_check(b),
            (FieldKind::Message(inner), ValueSpec::LengthDelimited(b)) => if rank(inner) < rank(
                kind,
            ) {
                message_check(inner, b)
            } else {
                Err(ProtoError::UnexpectedWireType)
            },
            _ => Err(ProtoError::UnexpectedWireType),
        },
    }
}

/// Whether the fields are written as the schema of `kind` has them: the
/// error of the first that is not.
pub open spec fn fields_check(kind: MessageKind, fs: Seq<FieldSpec>) -> Result<(), ProtoError>
    decreases rank(kind), 1nat, fs.len(),
{
    if fs.len() == 0 {
        Ok(())
    } else {
        match field_check(kind, fs[0]) {
            Err(e) => Err(e),
            Ok(_) => fields_check(kind, fs.skip(1)),
        }
    }
}

/// Whether `bytes` splits into fields that are written as the schema of
/// `kind` has them.
pub open spec fn message_check(kind: MessageKind, bytes: Seq<u8>) -> Result<(), ProtoError>
    decreases rank(kind), 2nat, 0nat,
{
    match read_fields(bytes) {
        Err(e) => Err(e),
        Ok(fs) => fields_check(kind, fs),
    }
}

/// Whether the field gives the field of number `n` a value. A number that
/// names no variant of an enum gives none.
pub open spec fn sets(rule: FieldRule, n: u32, f: FieldSpec) -> bool {
    f.number == n && match rule.kind {
        FieldKind::Enum(max) => match f.value {
            ValueSpec::Varint(v) => low32(v) <= max,
            _ => false,
        },
        _ => true,
    }
}

/// Whether some field gives the field of number `n` a value.
pub open spec fn occurs(rule: FieldRule, fs: Seq<FieldSpec>, n: u32) -> bool {
    exists|i: int| 0 <= i < fs.len() && sets(rule, n, #[trigger] fs[i])
}

/// What the field holds of the message of number `n`.
pub open spec fn payload_of(f: FieldSpec, n: u32) -> Seq<u8> {
    if f.number == n {
        match f.value {
            ValueSpec::LengthDelimited(b) => b,
            _ => Seq::empty(),
        }
    } else {
        Seq::empty()
    }
}

/// The fields that a field holds of the message of number `n`: those
/// that its bytes split into, where it has that number and holds bytes.
pub open spec fn part_fields(f: FieldSpec, n: u32) -> Seq<FieldSpec> {
    match read_fields(payload_of(f, n)) {
        Ok(inner) => inner,
        Err(_) => Seq::empty(),
    }
}

/// The fields of the message of number `n`: those of its occurrences, one
/// after the other.
pub open spec fn joined(fs: Seq<FieldSpec>, n: u32) -> Seq<FieldSpec>
    decreases fs.len(),
{
    if fs.len() == 0 {
        Seq::empty()
    } else {
        joined(fs.drop_last(), n) + part_fields(fs.last(), n)
    }
}

/// Whether the field, where it is an occurrence of the repeated message
/// of number `n`, has every field that the schema of `inner` requires.
pub open spec fn part_ok(outer: MessageKind, inner: MessageKind, f: FieldSpec, n: u32) -> bool
    decreases rank(outer), 0nat,
{
    f.number == n && f.value is LengthDelimited ==> if rank(inner) < rank(outer) {
        initialized(inner, part_fields(f, n))
    } else {
        false
    }
}

/// Whether a field of a schema can have the number `n`.
pub open spec fn known_number(n: u32) -> bool {
    1 <= n < FIELD_NUMBERS
}

/// Whether the field of number `n` is as the schema of `kind` requires: it
/// is there if it is required, and a message is whole.
pub open spec fn number_ok(kind: MessageKind, fs: Seq<FieldSpec>, n: u32) -> bool
    decreases rank(kind), 1nat,
{
    match rule_of(kind, n) {
        None => true,
        Some(rule) => (rule.required ==> occurs(rule, fs, n)) && match rule.kind {
            FieldKind::Message(inner) => if rule.repeated {
                forall|i: int| 0 <= i < fs.len() ==> part_ok(kind, inner, #[trigger] fs[i], n)
            } else if occurs(rule, fs, n) {
                if rank(inner) < rank(kind) {
                    initialized(inner, joined(fs, n))
                } else {
                    false
                }
            } else {
                true
            },
            _ => true,
        },
    }
}

/// Whether the fields hold every field that the schema of `kind`
/// requires, in the message and in each message inside it.
pub open spec fn initialized(kind: MessageKind, fs: Seq<FieldSpec>) -> bool
    decreases rank(kind), 2nat,
{
    forall|n: u32| #[trigger] known_number(n) ==> number_ok(kind, fs, n)
}

/// Whether the fields are a message of `kind`: the error with which it is
/// refused, if they are not.
pub open spec fn fields_conform(kind: MessageKind, fs: Seq<FieldSpec>) -> Result<(), ProtoError> {
    match fields_check(kind, fs) {
        Err(e) => Err(e),
        Ok(_) => if initialized(kind, fs) {
            Ok(())
        } else {
            Err(ProtoError::MessageNotInitialized)
        },
    }
}

/// Fields of which one is not written as the schema has it do not pass
/// the first pass.
pub proof fn lemma_fields_check_refuses(kind: MessageKind, fs: Seq<FieldSpec>, at: int)
    requires
        0 <= at < fs.len(),
        field_check(kind, fs[at]) is Err,
    ensures
        fields_check(kind, fs) is Err,
        fields_conform(kind, fs) is Err,
    decreases at,
{
    if at > 0 {
        assert(fs.skip(1)[at - 1] == fs[at]);
        lemma_fields_check_refuses(kind, fs.skip(1), at - 1);
    }
}

/// Fields without one that the schema requires are no message of the
/// kind: where they pass the first pass, the error says that the message
/// is not whole.
pub proof fn lemma_required_missing(kind: MessageKind, fs: Seq<FieldSpec>, number: u32)
    requires
        rule_of(kind, number) matches Some(rule) && rule.required && !occurs(rule, fs, number),
    ensures
        !initialized(kind, fs),
        fields_conform(kind, fs) is Err,
        fields_check(kind, fs) is Ok ==> fields_conform(kind, fs) == Err::<(), ProtoError>(
            ProtoError::MessageNotInitialized,
        ),
{
    assert(known_number(number));
    assert(!number_ok(kind, fs, number));
}

/// Fields that are each written as the schema has them pass the first
/// pass.
pub proof fn lemma_fields_check(kind: MessageKind, fs: Seq<FieldSpec>)
    requires
        forall|i: int| 0 <= i < fs.len() ==> field_check(kind, #[trigger] fs[i]) is Ok,
    ensures
        fields_check(kind, fs) == Ok::<(), ProtoError>(()),
    decreases fs.len(),
{
    if fs.len() > 0 {
        assert(field_check(kind, fs[0]) is Ok);
        assert forall|i: int| 0 <= i < fs.skip(1).len() implies field_check(
            kind,
            #[trigger] fs.skip(1)[i],
        ) is Ok by {
            assert(fs.skip(1)[i] == fs[i + 1]);
        }
        lemma_fields_check(kind, fs.skip(1));
    }
}

/// Fields that pass the first pass are each written as the schema has
/// them.
pub proof fn lemma_fields_check_each(kind: MessageKind, fs: Seq<FieldSpec>, at: int)
    requires
        fields_check(kind, fs) is Ok,
        0 <= at < fs.len(),
    ensures
        field_check(kind, fs[at]) is Ok,
{
    if field_check(kind, fs[at]) is Err {
        lemma_fields_check_refuses(kind, fs, at);
    }
}

/// In fields that pass the first pass, each occurrence of a message of
/// the schema splits into fields: what `part_fields` makes of it is what
/// it holds.
pub proof fn lemma_checked_part_reads(kind: MessageKind, fs: Seq<FieldSpec>, at: int)
    requires
        fields_check(kind, fs) is Ok,
        0 <= at < fs.len(),
        rule_of(kind, fs[at].number) matches Some(rule) && rule.kind is Message,
    ensures
        read_fields(payload_of(fs[at], fs[at].number)) == Ok::<Seq<FieldSpec>, ProtoError>(
            part_fields(fs[at], fs[at].number),
        ),
        fs[at].value is LengthDelimited,
{
    lemma_fields_check_each(kind, fs, at);
}

/// Fields of which none has the number `n` hold nothing of that message.
pub proof fn lemma_joined_none(fs: Seq<FieldSpec>, n: u32)
    requires
        forall|i: int| 0 <= i < fs.len() ==> (#[trigger] fs[i]).number != n,
    ensures
        joined(fs, n) == Seq::<FieldSpec>::empty(),
    decreases fs.len(),
{
    if fs.len() > 0 {
        assert(fs.last().number != n);
        assert forall|i: int| 0 <= i < fs.drop_last().len() implies (#[trigger] fs.drop_last()[i]).number
            != n by {
            assert(fs.drop_last()[i] == fs[i]);
        }
        lemma_joined_none(fs.drop_last(), n);
        assert(joined(fs, n) =~= Seq::<FieldSpec>::empty());
    }
}

/// A message that comes once has the fields that this one field holds.
pub proof fn lemma_joined_single(fs: Seq<FieldSpec>, n: u32, at: int)
    requires
        0 <= at < fs.len(),
        fs[at].number == n,
        forall|i: int| 0 <= i < fs.len() && i != at ==> (#[trigger] fs[i]).number != n,
    ensures
        joined(fs, n) == part_fields(fs[at], n),
    decreases fs.len(),
{
    let front = fs.drop_last();
    if at == fs.len() - 1 {
        assert forall|i: int| 0 <= i < front.len() implies (#[trigger] front[i]).number != n by {
            assert(front[i] == fs[i]);
        }
        lemma_joined_none(front, n);
        assert(joined(fs, n) =~= part_fields(fs[at], n));
    } else {
        assert(fs.last().number != n);
        assert(front[at] == fs[at]);
        assert forall|i: int| 0 <= i < front.len() && i != at implies (#[trigger] front[i]).number
            != n by {
            assert(front[i] == fs[i]);
        }
        lemma_joined_single(front, n, at);
        assert(joined(fs, n) =~= part_fields(fs[at], n));
    }
}

/// `std::str::from_utf8` on `bytes`: whether it takes them, which it does
/// where they are a text in UTF-8 and nowhere else.
#[verifier::external_body]
fn is_utf8(bytes: &[u8]) -> (r: bool)
    ensures
        r == valid_utf8(bytes@),
{
    match std::str::from_utf8(bytes) {
        Ok(_) => true,
        Err(_) => false,
    }
}

/// Whether `bytes` is a run of whole varints.
fn check_varints(bytes: &[u8]) -> (r: Result<(), ProtoError>)
    ensures
        r == varints_check(bytes@),
{
    match parse_varints(bytes) {
        Ok(_) => Ok(()),
        Err(e) => Err(e),
    }
}

/// Whether the field is written as the schema of `kind` has it.
pub fn check_field(kind: MessageKind, field: &WireField) -> (r: Result<(), ProtoError>)
    ensures
        r == field_check(kind, field@),
    decreases rank(kind), 0nat, 0nat,
{
    match get_rule(kind, field.number) {
        None => Ok(()),
        Some(rule) => match (rule.kind, &field.value) {
            (FieldKind::Varint, WireValue::Varint(_)) => Ok(()),
            (FieldKind::Enum(_), WireValue::Varint(_)) => Ok(()),
            (FieldKind::Fixed32, WireValue::Fixed32(_)) => Ok(()),
            (FieldKind::Fixed64, WireValue::Fixed64(_)) => Ok(()),
            (FieldKind::Text, WireValue::LengthDelimited(b)) => if is_utf8(b.as_slice()) {
                Ok(())
            } else {
                Err(ProtoError::InvalidText)
            },
            (FieldKind::PackedVarint, WireValue::Varint(_)) => Ok(()),
            (FieldKind::PackedVarint, WireValue::LengthDelimited(b)) => check_varints(
                b.as_slice(),
            ),
            (FieldKind::Message(inner), WireValue::LengthDelimited(b)) => check_message(
                inner,
                b.as_slice(),
            ),
            _ => Err(ProtoError::UnexpectedWireType),
        },
    }
}

/// Whether the fields are written as the schema of `kind` has them.
pub fn check_fields(kind: MessageKind, fields: &Vec<WireField>) -> (r: Result<(), ProtoError>)
    ensures
        r == fields_check(kind, fields_view(fields@)),
    decreases rank(kind), 1nat, 0nat,
{
    let ghost all = fields_view(fields@);
    let mut i: usize = 0;
    assert(all.skip(0) =~= all);
    while i < fields.len()
        invariant
            i <= fields@.len(),
            all == fields_view(fields@),
            fields_check(kind, all) == fields_check(kind, all.skip(i as int)),
        decreases fields@.len() - i,
    {
        let ghost rest = all.skip(i as int);
        assert(rest[0] == fields@[i as int]@);
        assert(rest.skip(1) =~= all.skip(i + 1));
        match check_field(kind, &fields[i]) {
            Ok(_) => {},
            Err(e) => {
                return Err(e);
            },
        }
        i = i + 1;
    }
    Ok(())
}

/// Whether `bytes` splits into fields that are written as the schema of
/// `kind` has them.
pub fn check_message(kind: MessageKind, bytes: &[u8]) -> (r: Result<(), ProtoError>)
    ensures
        r == message_check(kind, bytes@),
    decreases rank(kind), 2nat, 0nat,
{
    match parse_fields(bytes) {
        Err(e) => Err(e),
        Ok(fields) => check_fields(kind, &fields),
    }
}

/// Whether the field gives the field of number `n` a value.
fn field_sets(rule: FieldRule, n: u32, field: &WireField) -> (r: bool)
    ensures
        r == sets(rule, n, field@),
{
    field.number == n && match rule.kind {
        FieldKind::Enum(max) => match &field.value {
            WireValue::Varint(v) => low_bits(*v) <= max,
            _ => false,
        },
        _ => true,
    }
}

/// Whether some field gives the field of number `n` a value.
pub fn has_field(rule: FieldRule, fields: &Vec<WireField>, n: u32) -> (r: bool)
    ensures
        r == occurs(rule, fields_view(fields@), n),
{
    let ghost all = fields_view(fields@);
    let mut i: usize = 0;
    while i < fields.len()
        invariant
            i <= fields@.len(),
            all == fields_view(fields@),
            forall|j: int| 0 <= j < i ==> !sets(rule, n, #[trigger] all[j]),
        decreases fields@.len() - i,
    {
        assert(all[i as int] == fields@[i as int]@);
        if field_sets(rule, n, &fields[i]) {
            return true;
        }
        i = i + 1;
    }
    false
}

/// The fields that a field holds of the message of number `n`.
pub fn part_of(field: &WireField, n: u32) -> (r: Vec<WireField>)
    ensures
        fields_view(r@) == part_fields(field@, n),
{
    let empty: Vec<WireField> = Vec::new();
    assert(fields_view(empty@) =~= Seq::<FieldSpec>::empty());
    if field.number == n {
        match &field.value {
            WireValue::LengthDelimited(b) => match parse_fields(b.as_slice()) {
                Ok(inner) => inner,
                Err(_) => empty,
            },
            _ => empty,
        }
    } else {
        empty
    }
}

/// The fields of the message of number `n`: those of its occurrences, one
/// after the other.
pub fn join_field(fields: &Vec<WireField>, n: u32) -> (r: Vec<WireField>)
    ensures
        fields_view(r@) == joined(fields_view(fields@), n),
{
    let ghost all = fields_view(fields@);
    let mut out: Vec<WireField> = Vec::new();
    let mut i: usize = 0;
    assert(all.take(0) =~= Seq::<FieldSpec>::empty());
    assert(fields_view(out@) =~= Seq::<FieldSpec>::empty());
    while i < fields.len()
        invariant
            i <= fields@.len(),
            all == fields_view(fields@),
            fields_view(out@) == joined(all.take(i as int), n),
        decreases fields@.len() - i,
    {
        let ghost front = all.take(i + 1);
        let ghost before = out@;
        assert(front.drop_last() =~= all.take(i as int));
        assert(front.last() == fields@[i as int]@);
        let mut part = part_of(&fields[i], n);
        let ghost added = part@;
        out.append(&mut part);
        assert(fields_view(before + added) =~= fields_view(before) + fields_view(added));
        i = i + 1;
    }
    assert(all.take(fields@.len() as int) =~= all);
    out
}

/// Whether each occurrence of the repeated message of number `n` has
/// every field that the schema of `inner` requires.
fn parts_whole(outer: MessageKind, inner: MessageKind, fields: &Vec<WireField>, n: u32) -> (r:
    bool)
    requires
        rank(inner) < rank(outer),
    ensures
        r == (forall|i: int|
            0 <= i < fields@.len() ==> part_ok(outer, inner, #[trigger] fields_view(fields@)[i], n)),
    decreases rank(outer), 0nat,
{
    let ghost all = fields_view(fields@);
    let mut i: usize = 0;
    while i < fields.len()
        invariant
            i <= fields@.len(),
            all == fields_view(fields@),
            rank(inner) < rank(outer),
            forall|j: int| 0 <= j < i ==> part_ok(outer, inner, #[trigger] all[j], n),
        decreases fields@.len() - i,
    {
        assert(all[i as int] == fields@[i as int]@);
        if fields[i].number == n {
            match &fields[i].value {
                WireValue::LengthDelimited(_) => {
                    let part = part_of(&fields[i], n);
                    if !is_initialized(inner, &part) {
                        assert(!part_ok(outer, inner, all[i as int], n));
                        return false;
                    }
                },
                _ => {},
            }
        }
        i = i + 1;
    }
    true
}

/// Whether the field of number `n` is as the schema of `kind` requires.
pub fn is_number_ok(kind: MessageKind, fields: &Vec<WireField>, n: u32) -> (r: bool)
    ensures
        r == number_ok(kind, fields_view(fields@), n),
    decreases rank(kind), 1nat,
{
    match get_rule(kind, n) {
        None => true,
        Some(rule) => {
            let present = has_field(rule, fields, n);
            if rule.required && !present {
                return false;
            }
            match rule.kind {
                FieldKind::Message(inner) => if rule.repeated {
                    parts_whole(kind, inner, fields, n)
                } else if present {
                    let all = join_field(fields, n);
                    is_initialized(inner, &all)
                } else {
                    true
                },
                _ => true,
            }
        },
    }
}

/// Whether the fields hold every field that the schema of `kind`
/// requires, in the message and in each message inside it.
pub fn is_initialized(kind: MessageKind, fields: &Vec<WireField>) -> (r: bool)
    ensures
        r == initialized(kind, fields_view(fields@)),
    decreases rank(kind), 2nat,
{
    let ghost all = fields_view(fields@);
    let mut n: u32 = 1;
    while n < FIELD_NUMBERS
        invariant
            1 <= n <= FIELD_NUMBERS,
            all == fields_view(fields@),
            forall|m: u32| #[trigger] known_number(m) && m < n ==> number_ok(kind, all, m),
        decreases FIELD_NUMBERS - n,
    {
        if !is_number_ok(kind, fields, n) {
            assert(known_number(n));
            return false;
        }
        n = n + 1;
    }
    true
}

/// Whether the fields are a message of `kind`.
pub fn check_conforms(kind: MessageKind, fields: &Vec<WireField>) -> (r: Result<(), ProtoError>)
    ensures
        r == fields_conform(kind, fields_view(fields@)),
{
    match check_fields(kind, fields) {
        Err(e) => Err(e),
        Ok(_) => if is_initialized(kind, fields) {
            Ok(())
        } else {
            Err(ProtoError::MessageNotInitialized)
        },
    }
}

} // verus!
