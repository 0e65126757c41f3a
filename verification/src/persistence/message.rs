//! One framed message of a log: a timestamp, a type tag, a length, and a
//! payload of that length.

use crate::cursor::extend_bytes;
use crate::cursor::ByteReader;
use crate::cursor::IoErrorKind;
use crate::endian::be_i32;
use crate::endian::be_i64;
use crate::endian::i32_be_bytes;
use crate::endian::i64_be_bytes;
use crate::endian::lemma_i32_round_trip;
use crate::endian::lemma_i64_round_trip;
use crate::endian::write_i32_be;
use crate::endian::write_i64_be;
use crate::protos::messages_robocup_ssl_referee::lemma_referee_needs_required;
use crate::protos::messages_robocup_ssl_referee::parse_referee;
use crate::protos::messages_robocup_ssl_referee::RefereeSpec;
use crate::protos::messages_robocup_ssl_referee::SSL_Referee;
use crate::protos::messages_robocup_ssl_wrapper::parse_wrapper;
use crate::protos::messages_robocup_ssl_wrapper::SSL_WrapperPacket;
use crate::protos::messages_robocup_ssl_wrapper::WrapperSpec;
use crate::protos::schema::fields_check;
use crate::protos::schema::occurs;
use crate::protos::schema::rule_of;
use crate::protos::schema::MessageKind;
use crate::protos::wire::read_fields;
use crate::protos::wire::MAX_PAYLOAD_LEN;
use crate::protos::wire::ProtoError;
use vstd::prelude::*;

verus! {

/// Why a message could not be read or written.
#[derive(Clone, Copy, Debug, PartialEq, Eq, Structural)]
pub enum MessageError {
    /// The length of the payload is below zero.
    InvalidMessageSize { msg_size: i32 },
    /// The payload is no message of the kind that its tag names.
    Protobuf(ProtoError),
    /// The source ended inside the message.
    Io(IoErrorKind),
    /// A blank message with a payload.
    NonZeroSizeBlankMsg { msg_size: i32 },
    /// The payload is too long for its length to be written.
    PayloadTooLarge { len: usize },
}

/// The tag of a blank message.
pub const BLANK_TYPE: i32 = 0;

/// The tag that an unknown payload is written under.
pub const UNKNOWN_TYPE: i32 = 1;

/// The tag of a vision packet of the old format.
pub const VISION2010_TYPE: i32 = 2;

/// The tag of a referee message.
pub const REFBOX2013_TYPE: i32 = 3;

/// The tag of a vision wrapper packet.
pub const VISION2014_TYPE: i32 = 4;

/// The bytes of a message before its payload: timestamp, tag and length.
pub const PREFIX_LEN: usize = 16;

/// What a message holds.
#[derive(Clone, Debug, PartialEq)]
pub enum MessageType {
    /// Nothing.
    Blank,
    /// A vision packet of the old format: kept as bytes.
    Vision2010(Vec<u8>),
    /// A referee message.
    Refbox2013(SSL_Referee),
    /// A vision wrapper packet.
    Vision2014(SSL_WrapperPacket),
    /// A payload of a kind that this version does not know, possibly a
    /// later one: kept as bytes.
    Unknown(Vec<u8>),
}

/// One message of a log.
#[derive(Clone, Debug, PartialEq)]
pub struct Message {
    /// When the message was received, in nanoseconds.
    pub timestamp: i64,
    pub msg_type: MessageType,
}

/// The mathematical value of a `MessageType`.
pub enum MessageTypeSpec {
    Blank,
    Vision2010(Seq<u8>),
    Refbox2013(RefereeSpec),
    Vision2014(WrapperSpec),
    Unknown(Seq<u8>),
}

/// The mathematical value of a `Message`.
pub struct MessageSpec {
    pub timestamp: i64,
    pub msg_type: MessageTypeSpec,
}

impl View for MessageType {
    type V = MessageTypeSpec;

    open spec fn view(&self) -> MessageTypeSpec {
        match self {
            MessageType::Blank => MessageTypeSpec::Blank,
            MessageType::Vision2010(b) => MessageTypeSpec::Vision2010(b@),
            MessageType::Refbox2013(m) => MessageTypeSpec::Refbox2013(m@),
            MessageType::Vision2014(m) => MessageTypeSpec::Vision2014(m@),
            MessageType::Unknown(b) => MessageTypeSpec::Unknown(b@),
        }
    }
}

impl View for Message {
    type V = MessageSpec;

    open spec fn view(&self) -> MessageSpec {
        MessageSpec { timestamp: self.timestamp, msg_type: self.msg_type@ }
    }
}

impl MessageTypeSpec {
    /// The tag that the payload is written under. Every unknown payload is
    /// written under the same tag, whatever tag it was read under.
    pub open spec fn type_tag(self) -> i32 {
        match self {
            MessageTypeSpec::Blank => BLANK_TYPE,
            MessageTypeSpec::Vision2010(_) => VISION2010_TYPE,
            MessageTypeSpec::Refbox2013(_) => REFBOX2013_TYPE,
            MessageTypeSpec::Vision2014(_) => VISION2014_TYPE,
            MessageTypeSpec::Unknown(_) => UNKNOWN_TYPE,
        }
    }

    /// The bytes of the payload.
    pub open spec fn payload(self) -> Seq<u8> {
        match self {
            MessageTypeSpec::Blank => Seq::empty(),
            MessageTypeSpec::Vision2010(b) => b,
            MessageTypeSpec::Refbox2013(m) => m.bytes,
            MessageTypeSpec::Vision2014(m) => m.bytes,
            MessageTypeSpec::Unknown(b) => b,
        }
    }

    /// The payload can be framed, and a parsed payload agrees with its
    /// bytes.
    pub open spec fn wf(self) -> bool {
        match self {
            MessageTypeSpec::Blank => true,
            MessageTypeSpec::Vision2010(b) => b.len() <= MAX_PAYLOAD_LEN,
            MessageTypeSpec::Refbox2013(m) => m.wf(),
            MessageTypeSpec::Vision2014(m) => m.wf(),
            MessageTypeSpec::Unknown(b) => b.len() <= MAX_PAYLOAD_LEN,
        }
    }
}

impl MessageSpec {
    /// The payload can be framed, and a parsed payload agrees with its
    /// bytes.
    pub open spec fn wf(self) -> bool {
        self.msg_type.wf()
    }

    /// The message on disk.
    pub open spec fn bytes(self) -> Seq<u8> {
        i64_be_bytes(self.timestamp) + i32_be_bytes(self.msg_type.type_tag()) + i32_be_bytes(
            self.msg_type.payload().len() as i32,
        ) + self.msg_type.payload()
    }
}

/// What a payload read under the tag `msg_type` is. Tag 0 has no payload
/// and is not asked about here.
pub open spec fn read_payload(msg_type: i32, payload: Seq<u8>) -> Result<
    MessageTypeSpec,
    MessageError,
> {
    if msg_type == VISION2010_TYPE {
        Ok(MessageTypeSpec::Vision2010(payload))
    } else if msg_type == REFBOX2013_TYPE {
        match parse_referee(payload) {
            Ok(m) => Ok(MessageTypeSpec::Refbox2013(m)),
            Err(e) => Err(MessageError::Protobuf(e)),
        }
    } else if msg_type == VISION2014_TYPE {
        match parse_wrapper(payload) {
            Ok(m) => Ok(MessageTypeSpec::Vision2014(m)),
            Err(e) => Err(MessageError::Protobuf(e)),
        }
    } else {
        Ok(MessageTypeSpec::Unknown(payload))
    }
}

/// The message at the start of `s`, or why there is none, and the number
/// of bytes that reading it consumes. A source that ends inside the
/// message is consumed to its end.
pub open spec fn read_record(s: Seq<u8>) -> (Result<MessageSpec, MessageError>, nat) {
    if s.len() < PREFIX_LEN {
        (Err(MessageError::Io(IoErrorKind::UnexpectedEof)), s.len())
    } else {
        let timestamp = be_i64(s);
        let msg_type = be_i32(s.skip(8));
        let msg_size = be_i32(s.skip(12));
        if msg_size < 0 {
            (Err(MessageError::InvalidMessageSize { msg_size }), PREFIX_LEN as nat)
        } else if msg_type == BLANK_TYPE {
            if msg_size == 0 {
                (Ok(MessageSpec { timestamp, msg_type: MessageTypeSpec::Blank }), PREFIX_LEN as nat)
            } else {
                (Err(MessageError::NonZeroSizeBlankMsg { msg_size }), PREFIX_LEN as nat)
            }
        } else if s.len() - PREFIX_LEN < msg_size {
            (Err(MessageError::Io(IoErrorKind::UnexpectedEof)), s.len())
        } else {
            let payload = s.subrange(PREFIX_LEN as int, PREFIX_LEN + msg_size);
            (
                match read_payload(msg_type, payload) {
                    Ok(msg_type) => Ok(MessageSpec { timestamp, msg_type }),
                    Err(e) => Err(e),
                },
                (PREFIX_LEN + msg_size) as nat,
            )
        }
    }
}

/// A message that is read can be written: its payload is no longer than
/// its length could say, and a parsed payload agrees with its bytes.
pub proof fn lemma_read_record_wf(s: Seq<u8>)
    ensures
        read_record(s).0 matches Ok(m) ==> m.wf(),
        s.len() > 0 ==> 0 < read_record(s).1 <= s.len(),
{
}

/// Reading a written message gives the message back and stops where it
/// ends, whatever follows.
pub proof fn lemma_record_round_trip(m: MessageSpec, rest: Seq<u8>)
    requires
        m.wf(),
    ensures
        m.bytes().len() == PREFIX_LEN + m.msg_type.payload().len(),
        read_record(m.bytes() + rest) == (Ok::<MessageSpec, MessageError>(m), m.bytes().len()),
{
    let payload = m.msg_type.payload();
    let size = payload.len() as i32;
    let tag = m.msg_type.type_tag();
    let s = m.bytes() + rest;
    lemma_i64_round_trip(m.timestamp, i32_be_bytes(tag) + i32_be_bytes(size) + payload + rest);
    lemma_i32_round_trip(tag, i32_be_bytes(size) + payload + rest);
    lemma_i32_round_trip(size, payload + rest);
    assert(s =~= i64_be_bytes(m.timestamp) + (i32_be_bytes(tag) + i32_be_bytes(size) + payload
        + rest));
    assert(s.skip(8) =~= i32_be_bytes(tag) + (i32_be_bytes(size) + payload + rest));
    assert(s.skip(12) =~= i32_be_bytes(size) + (payload + rest));
    assert(s.subrange(PREFIX_LEN as int, PREFIX_LEN + size) =~= payload);
}

/// The bytes before the payload of a message: the timestamp, the tag and
/// the length.
pub open spec fn prefix_bytes(timestamp: i64, msg_type: i32, msg_size: i32) -> Seq<u8> {
    i64_be_bytes(timestamp) + i32_be_bytes(msg_type) + i32_be_bytes(msg_size)
}

/// What is read of bytes that start with the prefix of a message: the
/// timestamp, the tag and the length that were written.
pub proof fn lemma_prefix_read(timestamp: i64, msg_type: i32, msg_size: i32, rest: Seq<u8>)
    ensures
        ({
            let s = prefix_bytes(timestamp, msg_type, msg_size) + rest;
            &&& s.len() == PREFIX_LEN + rest.len()
            &&& be_i64(s) == timestamp
            &&& be_i32(s.skip(8)) == msg_type
            &&& be_i32(s.skip(12)) == msg_size
            &&& s.skip(PREFIX_LEN as int) == rest
        }),
{
    let s = prefix_bytes(timestamp, msg_type, msg_size) + rest;
    lemma_i64_round_trip(timestamp, i32_be_bytes(msg_type) + i32_be_bytes(msg_size) + rest);
    lemma_i32_round_trip(msg_type, i32_be_bytes(msg_size) + rest);
    lemma_i32_round_trip(msg_size, rest);
    assert(s =~= i64_be_bytes(timestamp) + (i32_be_bytes(msg_type) + i32_be_bytes(msg_size)
        + rest));
    assert(s.skip(8) =~= i32_be_bytes(msg_type) + (i32_be_bytes(msg_size) + rest));
    assert(s.skip(12) =~= i32_be_bytes(msg_size) + rest);
    assert(s.skip(PREFIX_LEN as int) =~= rest);
}

/// A length below zero is refused as such, whatever the tag is and
/// whatever follows.
pub proof fn lemma_bad_size_rejected(timestamp: i64, msg_type: i32, msg_size: i32, rest: Seq<u8>)
    requires
        msg_size < 0,
    ensures
        read_record(prefix_bytes(timestamp, msg_type, msg_size) + rest).0 == Err::<
            MessageSpec,
            MessageError,
        >(MessageError::InvalidMessageSize { msg_size }),
{
    lemma_prefix_read(timestamp, msg_type, msg_size, rest);
}

/// A blank message with a length above zero is refused as such, whatever
/// follows.
pub proof fn lemma_blank_size_rejected(timestamp: i64, msg_size: i32, rest: Seq<u8>)
    requires
        msg_size > 0,
    ensures
        read_record(prefix_bytes(timestamp, BLANK_TYPE, msg_size) + rest).0 == Err::<
            MessageSpec,
            MessageError,
        >(MessageError::NonZeroSizeBlankMsg { msg_size }),
{
    lemma_prefix_read(timestamp, BLANK_TYPE, msg_size, rest);
}

/// A payload under a tag that is none of the five known ones is kept as
/// an unknown payload, byte for byte.
pub proof fn lemma_unknown_tag_kept(timestamp: i64, msg_type: i32, payload: Seq<u8>, rest: Seq<u8>)
    requires
        msg_type < 0 || msg_type > 4,
        payload.len() <= MAX_PAYLOAD_LEN,
    ensures
        read_record(prefix_bytes(timestamp, msg_type, payload.len() as i32) + payload + rest)
            == (
            Ok::<MessageSpec, MessageError>(
                MessageSpec { timestamp, msg_type: MessageTypeSpec::Unknown(payload) },
            ),
            (PREFIX_LEN + payload.len()) as nat,
        ),
{
    let size = payload.len() as i32;
    let s = prefix_bytes(timestamp, msg_type, size) + payload + rest;
    lemma_prefix_read(timestamp, msg_type, size, payload + rest);
    assert(s =~= prefix_bytes(timestamp, msg_type, size) + (payload + rest));
    assert(s.subrange(PREFIX_LEN as int, PREFIX_LEN + size) =~= payload);
}

/// A message whose payload is none of the kind that its tag names is
/// refused with what is wrong with the payload, and read over to the end
/// of the payload.
pub proof fn lemma_bad_payload_rejected(
    timestamp: i64,
    msg_type: i32,
    payload: Seq<u8>,
    rest: Seq<u8>,
)
    requires
        msg_type != BLANK_TYPE,
        payload.len() <= MAX_PAYLOAD_LEN,
        read_payload(msg_type, payload) is Err,
    ensures
        read_record(prefix_bytes(timestamp, msg_type, payload.len() as i32) + payload + rest)
            == (
            Err::<MessageSpec, MessageError>(read_payload(msg_type, payload)->Err_0),
            (PREFIX_LEN + payload.len()) as nat,
        ),
{
    let size = payload.len() as i32;
    let s = prefix_bytes(timestamp, msg_type, size) + payload + rest;
    lemma_prefix_read(timestamp, msg_type, size, payload + rest);
    assert(s =~= prefix_bytes(timestamp, msg_type, size) + (payload + rest));
    assert(s.subrange(PREFIX_LEN as int, PREFIX_LEN + size) =~= payload);
}

/// A referee message without a field that its schema requires is refused,
/// whatever else it holds: a payload that splits into fields of which
/// none gives the required field of number `number` a value.
pub proof fn lemma_referee_without_required_rejected(
    timestamp: i64,
    payload: Seq<u8>,
    rest: Seq<u8>,
    number: u32,
)
    requires
        payload.len() <= MAX_PAYLOAD_LEN,
        read_fields(payload) is Ok,
        rule_of(MessageKind::Referee, number) matches Some(rule) && rule.required && !occurs(
            rule,
            read_fields(payload)->Ok_0,
            number,
        ),
    ensures
        read_record(
            prefix_bytes(timestamp, REFBOX2013_TYPE, payload.len() as i32) + payload + rest,
        ).0 matches Err(MessageError::Protobuf(_)),
        fields_check(MessageKind::Referee, read_fields(payload)->Ok_0) is Ok ==> read_record(
            prefix_bytes(timestamp, REFBOX2013_TYPE, payload.len() as i32) + payload + rest,
        ).0 == Err::<MessageSpec, MessageError>(
            MessageError::Protobuf(ProtoError::MessageNotInitialized),
        ),
{
    lemma_referee_needs_required(payload, number);
    lemma_bad_payload_rejected(timestamp, REFBOX2013_TYPE, payload, rest);
}

/// Bytes that end before the sixteenth are refused as ending too early,
/// whatever they are.
pub proof fn lemma_truncated_prefix_rejected(s: Seq<u8>)
    requires
        s.len() < PREFIX_LEN,
    ensures
        read_record(s) == (
            Err::<MessageSpec, MessageError>(MessageError::Io(IoErrorKind::UnexpectedEof)),
            s.len(),
        ),
{
}

/// A message that ends inside its payload is refused as ending too
/// early.
pub proof fn lemma_truncated_payload_rejected(
    timestamp: i64,
    msg_type: i32,
    msg_size: i32,
    part: Seq<u8>,
)
    requires
        msg_type != BLANK_TYPE,
        0 <= part.len() < msg_size,
    ensures
        read_record(prefix_bytes(timestamp, msg_type, msg_size) + part).0 == Err::<
            MessageSpec,
            MessageError,
        >(MessageError::Io(IoErrorKind::UnexpectedEof)),
{
    lemma_prefix_read(timestamp, msg_type, msg_size, part);
}

impl Message {
    /// Reads one message from `reader`.
    pub fn parse_from_reader(reader: &mut ByteReader) -> (r: Result<Message, MessageError>)
        ensures
            final(reader).bytes() == old(reader).bytes(),
            final(reader).pos() == old(reader).pos() + read_record(old(reader).remaining()).1,
            match read_record(old(reader).remaining()).0 {
                Ok(m) => r is Ok && r->Ok_0@ == m && m.wf(),
                Err(e) => r == Err::<Message, MessageError>(e),
            },
    {
        let ghost s = reader.remaining();
        let timestamp = match reader.read_i64() {
            Ok(v) => v,
            Err(e) => { return Err(MessageError::Io(e)); },
        };
        assert(reader.remaining() =~= s.skip(8));
        let msg_type = match reader.read_i32() {
            Ok(v) => v,
            Err(e) => { return Err(MessageError::Io(e)); },
        };
        assert(reader.remaining() =~= s.skip(12));
        let msg_size = match reader.read_i32() {
            Ok(v) => v,
            Err(e) => { return Err(MessageError::Io(e)); },
        };
        assert(reader.remaining() =~= s.skip(16));
        if msg_size < 0 {
            return Err(MessageError::InvalidMessageSize { msg_size });
        }
        proof {
            if s.len() - PREFIX_LEN >= msg_size {
                assert(s.skip(16).take(msg_size as int) =~= s.subrange(
                    PREFIX_LEN as int,
                    PREFIX_LEN + msg_size,
                ));
            }
        }
        if msg_type == BLANK_TYPE {
            Message::parse_blank_msg_from_reader(reader, timestamp, msg_size)
        } else if msg_type == VISION2010_TYPE {
            Message::parse_vision_2010_msg_from_reader(reader, timestamp, msg_size)
        } else if msg_type == REFBOX2013_TYPE {
            Message::parse_refbox_2013_msg_from_reader(reader, timestamp, msg_size)
        } else if msg_type == VISION2014_TYPE {
            Message::parse_vision_2014_msg_from_reader(reader, timestamp, msg_size)
        } else {
            Message::parse_unknown_msg_from_reader(reader, timestamp, msg_size)
        }
    }

    /// A blank message, which must have no payload. Nothing is read.
    pub fn parse_blank_msg_from_reader(
        reader: &mut ByteReader,
        timestamp: i64,
        msg_size: i32,
    ) -> (r: Result<Message, MessageError>)
        ensures
            final(reader).bytes() == old(reader).bytes(),
            final(reader).pos() == old(reader).pos(),
            msg_size == 0 ==> r is Ok && r->Ok_0@ == (MessageSpec {
                timestamp,
                msg_type: MessageTypeSpec::Blank,
            }),
            msg_size != 0 ==> r == Err::<Message, MessageError>(
                MessageError::NonZeroSizeBlankMsg { msg_size },
            ),
    {
        if msg_size == 0 {
            Ok(Message { timestamp, msg_type: MessageType::Blank })
        } else {
            Err(MessageError::NonZeroSizeBlankMsg { msg_size })
        }
    }

    /// Reads a payload of `msg_size` bytes and keeps it as an unknown one.
    /// A length below zero is refused, and nothing read.
    pub fn parse_unknown_msg_from_reader(
        reader: &mut ByteReader,
        timestamp: i64,
        msg_size: i32,
    ) -> (r: Result<Message, MessageError>)
        ensures
            final(reader).bytes() == old(reader).bytes(),
            msg_size < 0 ==> final(reader).pos() == old(reader).pos() && r == Err::<
                Message,
                MessageError,
            >(MessageError::InvalidMessageSize { msg_size }),
            0 <= msg_size <= old(reader).remaining().len() ==> final(reader).pos() == old(reader).pos()
                + msg_size && r is Ok && r->Ok_0@ == (MessageSpec {
                timestamp,
                msg_type: MessageTypeSpec::Unknown(old(reader).remaining().take(msg_size as int)),
            }),
            msg_size > old(reader).remaining().len() ==> final(reader).pos() == old(reader).pos()
                + old(reader).remaining().len() && r == Err::<Message, MessageError>(
                MessageError::Io(IoErrorKind::UnexpectedEof),
            ),
    {
        if msg_size < 0 {
            return Err(MessageError::InvalidMessageSize { msg_size });
        }
        match reader.read_exact(msg_size as usize) {
            Ok(msg_bytes) => Ok(Message { timestamp, msg_type: MessageType::Unknown(msg_bytes) }),
            Err(e) => Err(MessageError::Io(e)),
        }
    }

    /// Reads a payload of `msg_size` bytes and keeps it as a vision packet
    /// of the old format. A length below zero is refused, and nothing
    /// read.
    pub fn parse_vision_2010_msg_from_reader(
        reader: &mut ByteReader,
        timestamp: i64,
        msg_size: i32,
    ) -> (r: Result<Message, MessageError>)
        ensures
            final(reader).bytes() == old(reader).bytes(),
            msg_size < 0 ==> final(reader).pos() == old(reader).pos() && r == Err::<
                Message,
                MessageError,
            >(MessageError::InvalidMessageSize { msg_size }),
            0 <= msg_size <= old(reader).remaining().len() ==> final(reader).pos() == old(reader).pos()
                + msg_size && r is Ok && r->Ok_0@ == (MessageSpec {
                timestamp,
                msg_type: MessageTypeSpec::Vision2010(
                    old(reader).remaining().take(msg_size as int),
                ),
            }),
            msg_size > old(reader).remaining().len() ==> final(reader).pos() == old(reader).pos()
                + old(reader).remaining().len() && r == Err::<Message, MessageError>(
                MessageError::Io(IoErrorKind::UnexpectedEof),
            ),
    {
        if msg_size < 0 {
            return Err(MessageError::InvalidMessageSize { msg_size });
        }
        match reader.read_exact(msg_size as usize) {
            Ok(msg_bytes) => Ok(
                Message { timestamp, msg_type: MessageType::Vision2010(msg_bytes) },
            ),
            Err(e) => Err(MessageError::Io(e)),
        }
    }

    /// Reads a payload of `msg_size` bytes as a referee message. A length
    /// below zero is refused, and nothing read.
    pub fn parse_refbox_2013_msg_from_reader(
        reader: &mut ByteReader,
        timestamp: i64,
        msg_size: i32,
    ) -> (r: Result<Message, MessageError>)
        ensures
            final(reader).bytes() == old(reader).bytes(),
            msg_size < 0 ==> final(reader).pos() == old(reader).pos() && r == Err::<
                Message,
                MessageError,
            >(MessageError::InvalidMessageSize { msg_size }),
            0 <= msg_size <= old(reader).remaining().len() ==> final(reader).pos() == old(reader).pos()
                + msg_size && match parse_referee(old(reader).remaining().take(msg_size as int)) {
                Ok(m) => r is Ok && r->Ok_0@ == (MessageSpec {
                    timestamp,
                    msg_type: MessageTypeSpec::Refbox2013(m),
                }),
                Err(e) => r == Err::<Message, MessageError>(MessageError::Protobuf(e)),
            },
            msg_size > old(reader).remaining().len() ==> final(reader).pos() == old(reader).pos()
                + old(reader).remaining().len() && r == Err::<Message, MessageError>(
                MessageError::Io(IoErrorKind::UnexpectedEof),
            ),
    {
        if msg_size < 0 {
            return Err(MessageError::InvalidMessageSize { msg_size });
        }
        let msg_bytes = match reader.read_exact(msg_size as usize) {
            Ok(msg_bytes) => msg_bytes,
            Err(e) => { return Err(MessageError::Io(e)); },
        };
        match SSL_Referee::parse_from_bytes(msg_bytes) {
            Ok(refbox_msg) => Ok(
                Message { timestamp, msg_type: MessageType::Refbox2013(refbox_msg) },
            ),
            Err(e) => Err(MessageError::Protobuf(e)),
        }
    }

    /// Reads a payload of `msg_size` bytes as a vision wrapper packet. A
    /// length below zero is refused, and nothing read.
    pub fn parse_vision_2014_msg_from_reader(
        reader: &mut ByteReader,
        timestamp: i64,
        msg_size: i32,
    ) -> (r: Result<Message, MessageError>)
        ensures
            final(reader).bytes() == old(reader).bytes(),
            msg_size < 0 ==> final(reader).pos() == old(reader).pos() && r == Err::<
                Message,
                MessageError,
            >(MessageError::InvalidMessageSize { msg_size }),
            0 <= msg_size <= old(reader).remaining().len() ==> final(reader).pos() == old(reader).pos()
                + msg_size && match parse_wrapper(old(reader).remaining().take(msg_size as int)) {
                Ok(m) => r is Ok && r->Ok_0@ == (MessageSpec {
                    timestamp,
                    msg_type: MessageTypeSpec::Vision2014(m),
                }),
                Err(e) => r == Err::<Message, MessageError>(MessageError::Protobuf(e)),
            },
            msg_size > old(reader).remaining().len() ==> final(reader).pos() == old(reader).pos()
                + old(reader).remaining().len() && r == Err::<Message, MessageError>(
                MessageError::Io(IoErrorKind::UnexpectedEof),
            ),
    {
        if msg_size < 0 {
            return Err(MessageError::InvalidMessageSize { msg_size });
        }
        let msg_bytes = match reader.read_exact(msg_size as usize) {
            Ok(msg_bytes) => msg_bytes,
            Err(e) => { return Err(MessageError::Io(e)); },
        };
        match SSL_WrapperPacket::parse_from_bytes(msg_bytes) {
            Ok(vision_msg) => Ok(
                Message { timestamp, msg_type: MessageType::Vision2014(vision_msg) },
            ),
            Err(e) => Err(MessageError::Protobuf(e)),
        }
    }

    /// The bytes of the payload.
    pub fn payload(&self) -> (bytes: &[u8])
        ensures
            bytes@ == self@.msg_type.payload(),
            self@.msg_type is Refbox2013 || self@.msg_type is Vision2014 ==> self@.wf(),
    {
        match &self.msg_type {
            MessageType::Blank => {
                let empty: &[u8] = &[];
                assert(empty@ =~= Seq::<u8>::empty());
                empty
            },
            MessageType::Unknown(msg_bytes) => msg_bytes.as_slice(),
            MessageType::Vision2010(msg_bytes) => msg_bytes.as_slice(),
            MessageType::Refbox2013(msg) => msg.as_bytes().as_slice(),
            MessageType::Vision2014(msg) => msg.as_bytes().as_slice(),
        }
    }

    /// The tag that the message is written under.
    pub fn type_tag(&self) -> (tag: i32)
        ensures
            tag == self@.msg_type.type_tag(),
    {
        match &self.msg_type {
            MessageType::Blank => BLANK_TYPE,
            MessageType::Unknown(_) => UNKNOWN_TYPE,
            MessageType::Vision2010(_) => VISION2010_TYPE,
            MessageType::Refbox2013(_) => REFBOX2013_TYPE,
            MessageType::Vision2014(_) => VISION2014_TYPE,
        }
    }

    /// Appends the message to `v`. A payload too long for its length to be
    /// written is refused, and `v` left as it was.
    pub fn write_to_vec(&self, v: &mut Vec<u8>) -> (r: Result<(), MessageError>)
        ensures
            self@.msg_type.payload().len() <= MAX_PAYLOAD_LEN ==> r is Ok && final(v)@ == old(v)@
                + self@.bytes() && self@.wf(),
            self@.msg_type.payload().len() > MAX_PAYLOAD_LEN ==> r == Err::<(), MessageError>(
                MessageError::PayloadTooLarge { len: self@.msg_type.payload().len() as usize },
            ) && final(v)@ == old(v)@,
    {
        let msg_type = self.type_tag();
        let msg_bytes = self.payload();
        if msg_bytes.len() > MAX_PAYLOAD_LEN {
            return Err(MessageError::PayloadTooLarge { len: msg_bytes.len() });
        }
        write_i64_be(v, self.timestamp);
        write_i32_be(v, msg_type);
        write_i32_be(v, msg_bytes.len() as i32);
        extend_bytes(v, msg_bytes);
        assert(v@ =~= old(v)@ + self@.bytes());
        Ok(())
    }

    /// The message on disk. A payload too long for its length to be
    /// written is refused.
    pub fn write_to_bytes(&self) -> (r: Result<Vec<u8>, MessageError>)
        ensures
            self@.msg_type.payload().len() <= MAX_PAYLOAD_LEN ==> r is Ok && r->Ok_0@
                == self@.bytes() && self@.wf(),
            self@.msg_type.payload().len() > MAX_PAYLOAD_LEN ==> r == Err::<
                Vec<u8>,
                MessageError,
            >(MessageError::PayloadTooLarge { len: self@.msg_type.payload().len() as usize }),
    {
        let mut bytes: Vec<u8> = Vec::new();
        match self.write_to_vec(&mut bytes) {
            Ok(()) => {
                assert(bytes@ =~= self@.bytes());
                Ok(bytes)
            },
            Err(e) => Err(e),
        }
    }
}

} // verus!
