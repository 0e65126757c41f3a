use ssl_log_tools::cursor::ByteReader;
use ssl_log_tools::cursor::IoErrorKind;
use ssl_log_tools::persistence::message::Message;
use ssl_log_tools::persistence::message::MessageError;
use ssl_log_tools::persistence::message::MessageType;
use ssl_log_tools::persistence::reader::LogReader;
use ssl_log_tools::persistence::reader::LogReaderError;
use ssl_log_tools::persistence::reader::EXPECTED_HEADER;
use ssl_log_tools::persistence::reader::SUPPORTED_VERSION;
use ssl_log_tools::persistence::writer::LogWriter;
use ssl_log_tools::protos::messages_robocup_ssl_referee::SSL_Referee;
use ssl_log_tools::protos::messages_robocup_ssl_referee::SSL_Referee_Command;
use ssl_log_tools::protos::messages_robocup_ssl_referee::SSL_Referee_Stage;
use ssl_log_tools::protos::messages_robocup_ssl_wrapper::SSL_WrapperPacket;
use ssl_log_tools::protos::wire::ProtoError;

fn write_random_log(messages: &[Message]) -> Result<Vec<u8>, MessageError> {
    let mut output = Vec::<u8>::new();
    output.extend(EXPECTED_HEADER.iter().cloned());
    output.extend_from_slice(&SUPPORTED_VERSION.to_be_bytes());
    for message in messages {
        message.write_to_vec(&mut output)?;
    }
    Ok(output)
}

fn prelude(header: &[u8], version: i32) -> Vec<u8> {
    let mut bytes = header.to_vec();
    bytes.extend_from_slice(&version.to_be_bytes());
    bytes
}

fn messages() -> Vec<Message> {
    vec![
        Message { timestamp: 1, msg_type: MessageType::Blank },
        Message { timestamp: 2, msg_type: MessageType::Vision2010(vec![1, 2, 3]) },
        Message { timestamp: 3, msg_type: MessageType::Unknown(vec![]) },
        Message {
            timestamp: 4,
            msg_type: MessageType::Refbox2013(SSL_Referee::new(
                9,
                SSL_Referee_Stage::EXTRA_HALF_TIME,
                SSL_Referee_Command::GOAL_BLUE,
                300,
                u64::MAX,
            )),
        },
        Message {
            timestamp: 5,
            msg_type: MessageType::Vision2014(SSL_WrapperPacket::with_detection(1000, 7)),
        },
        Message { timestamp: 6, msg_type: MessageType::Unknown(vec![0; 99]) },
    ]
}

#[test]
fn expected_header_is_the_name_of_the_format() {
    assert_eq!(&EXPECTED_HEADER, b"SSL_LOG_FILE");
    assert_eq!(SUPPORTED_VERSION, 1);
}

#[test]
fn new_bad_header() {
    let bad_headers: [[u8; 12]; 3] = [*b"SSL_LOG_FILF", *b"ssl_log_file", [0; 12]];
    for bad_header in bad_headers {
        let reader = ByteReader::new(prelude(&bad_header, SUPPORTED_VERSION));
        match LogReader::new(reader).unwrap_err() {
            LogReaderError::InvalidHeader { header } => assert_eq!(header, bad_header),
            e => panic!("Unexpected error type. {:?}", e),
        }
    }
}

#[test]
fn new_bad_version() {
    for bad_version in [0i32, 2, -1, i32::MAX, i32::MIN, 256, 0x0100_0000] {
        let reader = ByteReader::new(prelude(&EXPECTED_HEADER, bad_version));
        match LogReader::new(reader).unwrap_err() {
            LogReaderError::UnsupportedVersion { version } => assert_eq!(version, bad_version),
            e => panic!("Unexpected error type. {:?}", e),
        }
    }
}

#[test]
fn new_short_header() {
    for len in 0..12 {
        let reader = ByteReader::new(EXPECTED_HEADER[..len].to_vec());
        assert_eq!(
            LogReader::new(reader).unwrap_err(),
            LogReaderError::Io(IoErrorKind::UnexpectedEof)
        );
    }
}

#[test]
fn new_short_version() {
    for len in 0..4 {
        let mut bytes = EXPECTED_HEADER.to_vec();
        bytes.extend_from_slice(&[0, 0, 0, 1][..len]);
        assert_eq!(
            LogReader::new(ByteReader::new(bytes)).unwrap_err(),
            LogReaderError::Io(IoErrorKind::UnexpectedEof)
        );
    }
}

#[test]
fn new_checks_the_header_before_the_version() {
    let reader = ByteReader::new(prelude(b"SSL_LOG_FILF", 2));
    match LogReader::new(reader).unwrap_err() {
        LogReaderError::InvalidHeader { header } => assert_eq!(&header, b"SSL_LOG_FILF"),
        e => panic!("Unexpected error type. {:?}", e),
    }
}

#[test]
fn read_messages() {
    let messages = messages();
    let log_bytes = write_random_log(&messages).unwrap();
    let mut reader = LogReader::new(ByteReader::new(log_bytes)).unwrap();
    for expected_msg in &messages {
        let message = reader.read_message().unwrap();
        assert_eq!(&message, expected_msg);
    }
}

#[test]
fn iterate_messages() {
    let messages = messages();
    let log_bytes = write_random_log(&messages).unwrap();
    let mut reader = LogReader::new(ByteReader::new(log_bytes)).unwrap();
    let mut read = Vec::new();
    while let Some(message) = reader.next() {
        read.push(message.unwrap());
    }
    assert_eq!(read, messages);
    assert!(reader.next().is_none());
}

#[test]
fn read_all_messages() {
    let messages = messages();
    let log_bytes = write_random_log(&messages).unwrap();
    let mut reader = LogReader::new(ByteReader::new(log_bytes)).unwrap();
    let read: Vec<Message> = reader.read_all().into_iter().map(|item| item.unwrap()).collect();
    assert_eq!(read, messages);
}

#[test]
fn read_messages_empty() {
    let messages = Vec::<Message>::new();
    let log_bytes = write_random_log(&messages).unwrap();

    let mut reader = LogReader::new(ByteReader::new(log_bytes)).unwrap();

    match reader.read_message().unwrap_err() {
        LogReaderError::Io(e) => match e {
            IoErrorKind::UnexpectedEof => {}
            _ => panic!("Unexpected io error kind {:?}", e),
        },
        e => panic!("Unexpectged error type {:?}", e),
    };
}

#[test]
fn iterate_empty_log() {
    let mut reader = LogReader::new(ByteReader::new(write_random_log(&[]).unwrap())).unwrap();
    assert!(reader.next().is_none());
    assert!(reader.read_all().is_empty());
}

#[test]
fn iterate_truncated_log() {
    let messages = messages();
    let mut log_bytes = write_random_log(&messages[..2]).unwrap();
    log_bytes.truncate(log_bytes.len() - 1);
    let mut reader = LogReader::new(ByteReader::new(log_bytes)).unwrap();
    assert_eq!(reader.next(), Some(Ok(messages[0].clone())));
    assert_eq!(reader.next(), Some(Err(LogReaderError::Io(IoErrorKind::UnexpectedEof))));
    assert_eq!(reader.next(), None);
}

#[test]
fn iterate_goes_on_after_a_refused_message() {
    let mut log_bytes = write_random_log(&[]).unwrap();
    // a referee message without a stage
    log_bytes.extend_from_slice(&[0, 0, 0, 0, 0, 0, 0, 1, 0, 0, 0, 3, 0, 0, 0, 0]);
    // a blank message with a size
    log_bytes.extend_from_slice(&[0, 0, 0, 0, 0, 0, 0, 2, 0, 0, 0, 0, 0, 0, 0, 5]);
    Message { timestamp: 3, msg_type: MessageType::Blank }.write_to_vec(&mut log_bytes).unwrap();
    let mut reader = LogReader::new(ByteReader::new(log_bytes)).unwrap();
    assert_eq!(
        reader.next(),
        Some(Err(LogReaderError::Message(MessageError::Protobuf(
            ProtoError::MessageNotInitialized
        ))))
    );
    assert_eq!(
        reader.next(),
        Some(Err(LogReaderError::Message(MessageError::NonZeroSizeBlankMsg { msg_size: 5 })))
    );
    assert_eq!(reader.next(), Some(Ok(Message { timestamp: 3, msg_type: MessageType::Blank })));
    assert_eq!(reader.next(), None);
}

#[test]
fn from_message_error() {
    assert_eq!(
        LogReaderError::from_message(MessageError::Io(IoErrorKind::UnexpectedEof)),
        LogReaderError::Io(IoErrorKind::UnexpectedEof)
    );
    assert_eq!(
        LogReaderError::from_message(MessageError::InvalidMessageSize { msg_size: -3 }),
        LogReaderError::Message(MessageError::InvalidMessageSize { msg_size: -3 })
    );
}

#[test]
fn write_empty_log() {
    let writer = LogWriter::new();
    assert_eq!(writer.inner().as_slice(), b"SSL_LOG_FILE\x00\x00\x00\x01");
    let mut reader = LogReader::new(ByteReader::new(writer.into_inner())).unwrap();
    assert!(reader.next().is_none());
}

#[test]
fn write_log_and_read_it_back() {
    let messages = messages();
    let mut writer = LogWriter::new();
    for message in &messages {
        writer.write_message(message).unwrap();
    }
    let log_bytes = writer.into_inner();
    assert_eq!(log_bytes, write_random_log(&messages).unwrap());
    let mut reader = LogReader::new(ByteReader::new(log_bytes)).unwrap();
    let read: Vec<Message> = reader.read_all().into_iter().map(|item| item.unwrap()).collect();
    assert_eq!(read, messages);
}

#[test]
fn inner_shows_the_source() {
    let log_bytes = write_random_log(&messages()).unwrap();
    let mut reader = LogReader::new(ByteReader::new(log_bytes.clone())).unwrap();
    assert_eq!(reader.inner().position(), 16);
    assert_eq!(reader.inner().get_ref(), &log_bytes);
    reader.read_message().unwrap();
    assert_eq!(reader.inner().position(), 32);
    reader.inner_mut().seek(16);
    assert_eq!(reader.read_message().unwrap(), messages()[0]);
}

#[test]
fn next_message_passes_over_what_cannot_be_read() {
    let mut log_bytes = write_random_log(&[]).unwrap();
    log_bytes.extend_from_slice(&[0, 0, 0, 0, 0, 0, 0, 1, 0, 0, 0, 3, 0, 0, 0, 0]);
    Message { timestamp: 3, msg_type: MessageType::Blank }.write_to_vec(&mut log_bytes).unwrap();
    log_bytes.extend_from_slice(&[0, 0, 0, 0, 0, 0, 0, 2, 0, 0, 0, 0, 0, 0, 0, 5]);
    log_bytes.extend_from_slice(&[1, 2, 3]);
    let mut reader = LogReader::new(ByteReader::new(log_bytes)).unwrap();
    assert_eq!(
        reader.next_message(),
        Some(Message { timestamp: 3, msg_type: MessageType::Blank })
    );
    assert_eq!(reader.next_message(), None);
    assert_eq!(reader.inner().remaining_len(), 0);
}
