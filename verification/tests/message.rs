use ssl_log_tools::cursor::ByteReader;
use ssl_log_tools::cursor::IoErrorKind;
use ssl_log_tools::persistence::message::Message;
use ssl_log_tools::persistence::message::MessageError;
use ssl_log_tools::persistence::message::MessageType;
use ssl_log_tools::protos::messages_robocup_ssl_referee::SSL_Referee;
use ssl_log_tools::protos::messages_robocup_ssl_referee::SSL_Referee_Command;
use ssl_log_tools::protos::messages_robocup_ssl_referee::SSL_Referee_Stage;
use ssl_log_tools::protos::messages_robocup_ssl_wrapper::SSL_WrapperPacket;
use ssl_log_tools::protos::wire::ProtoError;

fn write_msg(timestamp: i64, msg_type: i32, msg_size: i32, msg_bytes: &[u8]) -> Vec<u8> {
    let mut bytes = Vec::new();
    bytes.extend_from_slice(&timestamp.to_be_bytes());
    bytes.extend_from_slice(&msg_type.to_be_bytes());
    bytes.extend_from_slice(&msg_size.to_be_bytes());
    bytes.extend_from_slice(msg_bytes);
    bytes
}

fn parse(bytes: Vec<u8>) -> Result<Message, MessageError> {
    let mut reader = ByteReader::new(bytes);
    Message::parse_from_reader(&mut reader)
}

fn referee() -> SSL_Referee {
    SSL_Referee::new(
        1,
        SSL_Referee_Stage::NORMAL_FIRST_HALF,
        SSL_Referee_Command::NORMAL_START,
        3,
        4,
    )
}

fn round_trip_vec(message: &Message) -> Message {
    let mut bytes = Vec::<u8>::new();
    message.write_to_vec(&mut bytes).unwrap();
    parse(bytes).unwrap()
}

fn round_trip_bytes(message: &Message) -> Message {
    parse(message.write_to_bytes().unwrap()).unwrap()
}

#[test]
fn parse_bad_size() {
    for msg_type in 0..5i32 {
        for bad_size in [-1i32, -2, -1000, i32::MIN] {
            assert_eq!(
                parse(write_msg(17, msg_type, bad_size, &[])),
                Err(MessageError::InvalidMessageSize { msg_size: bad_size })
            );
        }
    }
}

#[test]
fn parse_eof() {
    let whole = write_msg(5, 2, 3, &[1, 2, 3]);
    for len in 0..16 {
        assert_eq!(
            parse(whole[..len].to_vec()),
            Err(MessageError::Io(IoErrorKind::UnexpectedEof))
        );
    }
}

#[test]
fn parse_eof_consumes_what_is_left() {
    let mut reader = ByteReader::new(vec![0u8; 10]);
    assert!(Message::parse_from_reader(&mut reader).is_err());
    assert_eq!(reader.position(), 10);
    assert_eq!(reader.remaining_len(), 0);
}

#[test]
fn parse_blank_bad_size() {
    for bad_size in [1i32, 5, 1000, i32::MAX] {
        assert_eq!(
            parse(write_msg(0, 0, bad_size, &[])),
            Err(MessageError::NonZeroSizeBlankMsg { msg_size: bad_size })
        );
    }
}

#[test]
fn parse_blank() {
    for timestamp in [0i64, 1, 1_554_000_000_000_000_000, i64::MAX] {
        let message = parse(write_msg(timestamp, 0, 0, &[])).unwrap();
        assert_eq!(message.timestamp, timestamp);
        assert_eq!(message.msg_type, MessageType::Blank);
    }
}

#[test]
fn parse_negative_timestamp() {
    let message = parse(write_msg(-2, 0, 0, &[])).unwrap();
    assert_eq!(message.timestamp, -2);
}

#[test]
fn parse_unknown_eof() {
    for len in 0..99usize {
        let msg_bytes = vec![7u8; len];
        assert_eq!(
            parse(write_msg(9, 1, 100, &msg_bytes)),
            Err(MessageError::Io(IoErrorKind::UnexpectedEof))
        );
    }
}

#[test]
fn parse_unknown() {
    for len in [0usize, 1, 2, 50, 99] {
        let msg_bytes: Vec<u8> = (0..len).map(|i| (i * 3) as u8).collect();
        let message = parse(write_msg(11, 1, len as i32, &msg_bytes)).unwrap();
        assert_eq!(message.timestamp, 11);
        assert_eq!(message.msg_type, MessageType::Unknown(msg_bytes));
    }
}

#[test]
fn parse_unexpected_msg_type() {
    for msg_type in [5i32, 6, 99, 1000, i32::MAX, -1, -99, i32::MIN] {
        let message = parse(write_msg(7, msg_type, 3, &[0xAA, 0xBB, 0xCC])).unwrap();
        assert_eq!(message.timestamp, 7);
        assert_eq!(message.msg_type, MessageType::Unknown(vec![0xAA, 0xBB, 0xCC]));
    }
}

#[test]
fn parse_reads_only_the_record() {
    let mut bytes = write_msg(7, 99, 3, &[0xAA, 0xBB, 0xCC]);
    bytes.extend_from_slice(&[1, 2, 3, 4, 5]);
    let mut reader = ByteReader::new(bytes);
    Message::parse_from_reader(&mut reader).unwrap();
    assert_eq!(reader.position(), 19);
    assert_eq!(reader.remaining_len(), 5);
}

#[test]
fn parse_vision2010_eof() {
    assert_eq!(
        parse(write_msg(9, 2, 100, &[1, 2, 3])),
        Err(MessageError::Io(IoErrorKind::UnexpectedEof))
    );
}

#[test]
fn parse_vision2010() {
    let msg_bytes = vec![9u8, 8, 7, 6];
    let message = parse(write_msg(12, 2, 4, &msg_bytes)).unwrap();
    assert_eq!(message.timestamp, 12);
    assert_eq!(message.msg_type, MessageType::Vision2010(msg_bytes));
}

#[test]
fn parse_refbox2013_eof() {
    assert_eq!(
        parse(write_msg(9, 3, 100, &[8, 1])),
        Err(MessageError::Io(IoErrorKind::UnexpectedEof))
    );
}

#[test]
fn parse_refbox2013_bad_proto() {
    // a field key, and then nothing
    assert_eq!(
        parse(write_msg(9, 3, 1, &[0x08])),
        Err(MessageError::Protobuf(ProtoError::IncorrectVarint))
    );
    // no field at all
    assert_eq!(
        parse(write_msg(9, 3, 0, &[])),
        Err(MessageError::Protobuf(ProtoError::MessageNotInitialized))
    );
    // a stage, and none of the other fields that a referee message must have
    assert_eq!(
        parse(write_msg(9, 3, 2, &[0x10, 0x01])),
        Err(MessageError::Protobuf(ProtoError::MessageNotInitialized))
    );
    // a stage that is none
    assert_eq!(
        parse(write_msg(9, 3, 2, &[0x10, 14])),
        Err(MessageError::Protobuf(ProtoError::MessageNotInitialized))
    );
    // all but the blue team
    let whole = referee().as_bytes().clone();
    let cut = &whole[..whole.len() - 16];
    assert_eq!(
        parse(write_msg(9, 3, cut.len() as i32, cut)),
        Err(MessageError::Protobuf(ProtoError::MessageNotInitialized))
    );
    // a stage that is a string
    assert_eq!(
        parse(write_msg(9, 3, 3, &[0x12, 1, 0])),
        Err(MessageError::Protobuf(ProtoError::UnexpectedWireType))
    );
}

#[test]
fn parse_refbox2013() {
    let refbox_msg = referee();
    let refbox_msg_bytes = refbox_msg.as_bytes().clone();
    let message =
        parse(write_msg(13, 3, refbox_msg_bytes.len() as i32, &refbox_msg_bytes)).unwrap();
    assert_eq!(message.timestamp, 13);
    assert_eq!(message.msg_type, MessageType::Refbox2013(refbox_msg));
}

#[test]
fn parse_vision2014_eof() {
    assert_eq!(
        parse(write_msg(9, 4, 100, &[8, 1])),
        Err(MessageError::Io(IoErrorKind::UnexpectedEof))
    );
}

#[test]
fn parse_vision2014_bad_proto() {
    // a detection frame of three bytes, of which two are there
    assert_eq!(
        parse(write_msg(9, 4, 4, &[0x0A, 3, 8, 1])),
        Err(MessageError::Protobuf(ProtoError::UnexpectedEof))
    );
    // a detection frame that is a number
    assert_eq!(
        parse(write_msg(9, 4, 2, &[0x08, 1])),
        Err(MessageError::Protobuf(ProtoError::UnexpectedWireType))
    );
    // a detection frame without its two times
    assert_eq!(
        parse(write_msg(9, 4, 6, &[0x0A, 4, 0x08, 7, 0x20, 2])),
        Err(MessageError::Protobuf(ProtoError::MessageNotInitialized))
    );
}

#[test]
fn parse_vision2014_empty() {
    let message = parse(write_msg(9, 4, 0, &[])).unwrap();
    match message.msg_type {
        MessageType::Vision2014(vision_msg) => {
            assert_eq!(vision_msg.get_camera_id(), 0);
            assert!(vision_msg.as_bytes().is_empty());
        }
        other => panic!("Mismatched message type. Got {:?}", other),
    }
}

#[test]
fn parse_vision2014() {
    let vision_msg = SSL_WrapperPacket::with_detection(77, 2);
    let vision_msg_bytes = vision_msg.as_bytes().clone();
    let message =
        parse(write_msg(14, 4, vision_msg_bytes.len() as i32, &vision_msg_bytes)).unwrap();
    assert_eq!(message.timestamp, 14);
    assert_eq!(message.msg_type, MessageType::Vision2014(vision_msg));
}

#[test]
fn write_blank_to_vec() {
    let blank_msg = Message { timestamp: 21, msg_type: MessageType::Blank };
    assert_eq!(round_trip_vec(&blank_msg), blank_msg);
}

#[test]
fn write_blank_to_bytes() {
    let blank_msg = Message { timestamp: 22, msg_type: MessageType::Blank };
    assert_eq!(round_trip_bytes(&blank_msg), blank_msg);
    assert_eq!(
        blank_msg.write_to_bytes().unwrap(),
        vec![0, 0, 0, 0, 0, 0, 0, 22, 0, 0, 0, 0, 0, 0, 0, 0]
    );
}

#[test]
fn write_unknown_to_vec() {
    let unknown_msg = Message { timestamp: 23, msg_type: MessageType::Unknown(vec![1, 2, 3]) };
    assert_eq!(round_trip_vec(&unknown_msg), unknown_msg);
}

#[test]
fn write_unknown_to_bytes() {
    let unknown_msg = Message { timestamp: 24, msg_type: MessageType::Unknown(vec![]) };
    assert_eq!(round_trip_bytes(&unknown_msg), unknown_msg);
}

#[test]
fn write_unknown_collapses_the_tag() {
    let read = parse(write_msg(7, 99, 3, &[0xAA, 0xBB, 0xCC])).unwrap();
    assert_eq!(
        read.write_to_bytes().unwrap(),
        write_msg(7, 1, 3, &[0xAA, 0xBB, 0xCC])
    );
}

#[test]
fn write_vision2010_to_vec() {
    let vision2010_msg = Message { timestamp: 25, msg_type: MessageType::Vision2010(vec![4; 99]) };
    assert_eq!(round_trip_vec(&vision2010_msg), vision2010_msg);
}

#[test]
fn write_vision2010_to_bytes() {
    let vision2010_msg = Message { timestamp: 26, msg_type: MessageType::Vision2010(vec![5]) };
    assert_eq!(round_trip_bytes(&vision2010_msg), vision2010_msg);
    assert_eq!(
        vision2010_msg.write_to_bytes().unwrap(),
        vec![0, 0, 0, 0, 0, 0, 0, 26, 0, 0, 0, 2, 0, 0, 0, 1, 5]
    );
}

#[test]
fn write_refbox2013_to_vec() {
    let refbox2013_msg = Message { timestamp: 27, msg_type: MessageType::Refbox2013(referee()) };
    assert_eq!(round_trip_vec(&refbox2013_msg), refbox2013_msg);
}

#[test]
fn write_refbox2013_to_bytes() {
    let refbox2013_msg = Message { timestamp: 28, msg_type: MessageType::Refbox2013(referee()) };
    assert_eq!(round_trip_bytes(&refbox2013_msg), refbox2013_msg);
    assert_eq!(
        refbox2013_msg.write_to_bytes().unwrap(),
        vec![
            0, 0, 0, 0, 0, 0, 0, 28, 0, 0, 0, 3, 0, 0, 0, 42, 0x08, 1, 0x10, 1, 0x20, 2, 0x28,
            3, 0x30, 4, 0x3A, 14, 0x0A, 0, 0x10, 0, 0x18, 0, 0x28, 0, 0x30, 0, 0x38, 0, 0x40, 0,
            0x42, 14, 0x0A, 0, 0x10, 0, 0x18, 0, 0x28, 0, 0x30, 0, 0x38, 0, 0x40, 0
        ]
    );
}

#[test]
fn write_vision2014_to_vec() {
    let vision2014_msg = Message {
        timestamp: 29,
        msg_type: MessageType::Vision2014(SSL_WrapperPacket::with_detection(1, 3)),
    };
    assert_eq!(round_trip_vec(&vision2014_msg), vision2014_msg);
}

#[test]
fn write_vision2014_to_bytes() {
    let vision2014_msg = Message {
        timestamp: 30,
        msg_type: MessageType::Vision2014(SSL_WrapperPacket::with_detection(7, 2)),
    };
    assert_eq!(round_trip_bytes(&vision2014_msg), vision2014_msg);
    assert_eq!(
        vision2014_msg.write_to_bytes().unwrap(),
        vec![
            0, 0, 0, 0, 0, 0, 0, 30, 0, 0, 0, 4, 0, 0, 0, 24, 0x0A, 22, 0x08, 7, 0x11, 0, 0, 0,
            0, 0, 0, 0, 0, 0x19, 0, 0, 0, 0, 0, 0, 0, 0, 0x20, 2
        ]
    );
}

#[test]
fn write_negative_timestamp() {
    let message = Message { timestamp: -2, msg_type: MessageType::Blank };
    assert_eq!(
        message.write_to_bytes().unwrap(),
        vec![0xff, 0xff, 0xff, 0xff, 0xff, 0xff, 0xff, 0xfe, 0, 0, 0, 0, 0, 0, 0, 0]
    );
    assert_eq!(round_trip_bytes(&message), message);
}

#[test]
fn write_to_vec_appends() {
    let message = Message { timestamp: 1, msg_type: MessageType::Unknown(vec![9]) };
    let mut bytes = vec![42u8];
    message.write_to_vec(&mut bytes).unwrap();
    assert_eq!(bytes[0], 42);
    assert_eq!(&bytes[1..], &message.write_to_bytes().unwrap()[..]);
}

#[test]
fn round_trip_large_payload() {
    let payload: Vec<u8> = (0..200_000usize).map(|i| (i % 251) as u8).collect();
    let message = Message { timestamp: 31, msg_type: MessageType::Vision2010(payload) };
    assert_eq!(round_trip_bytes(&message), message);
}

#[test]
fn write_payload_too_large() {
    let len = (1usize << 31) + 5;
    let message = Message { timestamp: 1, msg_type: MessageType::Unknown(vec![0u8; len]) };
    let mut bytes = vec![1u8, 2, 3];
    assert_eq!(message.write_to_vec(&mut bytes), Err(MessageError::PayloadTooLarge { len }));
    assert_eq!(bytes, vec![1, 2, 3]);
    assert_eq!(message.write_to_bytes(), Err(MessageError::PayloadTooLarge { len }));
    let payload = match message.msg_type {
        MessageType::Unknown(payload) => payload,
        _ => unreachable!(),
    };
    assert_eq!(SSL_Referee::parse_from_bytes(payload), Err(ProtoError::TooLarge));
}
