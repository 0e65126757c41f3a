use ssl_log_tools::cursor::ByteReader;
use ssl_log_tools::cursor::IoErrorKind;
use ssl_log_tools::labeler::events::set_event_counts;
use ssl_log_tools::labeler::reader::LabelerDataReader;
use ssl_log_tools::labeler::reader::LabelerDataReaderError;
use ssl_log_tools::labeler::writer::LabelerDataWriter;
use ssl_log_tools::labeler::LABELER_DATA_HEADER;
use ssl_log_tools::labeler::LABELER_DATA_VERSION;
use ssl_log_tools::persistence::message::Message;
use ssl_log_tools::persistence::message::MessageType;
use ssl_log_tools::protos::log_labeler_data::FramePayload;
use ssl_log_tools::protos::log_labeler_data::LabelerFrame;
use ssl_log_tools::protos::log_labeler_data::LabelerFrameGroup;
use ssl_log_tools::protos::log_labeler_data::LabelerMetadata;
use ssl_log_tools::protos::messages_robocup_ssl_referee::SSL_Referee;
use ssl_log_tools::protos::messages_robocup_ssl_referee::SSL_Referee_Command;
use ssl_log_tools::protos::messages_robocup_ssl_referee::SSL_Referee_Stage;
use ssl_log_tools::protos::messages_robocup_ssl_wrapper::SSL_WrapperPacket;
use ssl_log_tools::protos::wire::ProtoError;

fn write_header(writer: &mut Vec<u8>, header: &[u8], version: u32) {
    writer.extend_from_slice(header);
    writer.extend_from_slice(&version.to_be_bytes());
}

fn write_metadata(writer: &mut Vec<u8>, metadata: &LabelerMetadata) {
    let metadata_bytes = metadata.write_to_bytes();
    writer.extend_from_slice(&metadata_bytes);
    writer.extend_from_slice(&(metadata_bytes.len() as u32).to_be_bytes());
}

fn write_msgs(writer: &mut Vec<u8>, frame_group_msgs: &[LabelerFrameGroup]) -> LabelerMetadata {
    let mut num_cameras = 0u32;
    let mut message_offsets = Vec::<u64>::new();

    for frame_group_msg in frame_group_msgs {
        for frame in &frame_group_msg.frames {
            if let Some(camera_id) = frame.camera_id() {
                num_cameras = std::cmp::max(num_cameras, camera_id + 1);
            }
        }

        message_offsets.push(writer.len() as u64);

        let frame_msg_bytes = frame_group_msg.write_to_bytes();
        writer.extend_from_slice(&(frame_msg_bytes.len() as u32).to_be_bytes());
        writer.extend_from_slice(&frame_msg_bytes);
    }

    let mut labeler_metadata = LabelerMetadata::new();
    labeler_metadata.num_cameras = num_cameras;
    labeler_metadata.message_offsets = message_offsets;
    write_metadata(writer, &labeler_metadata);

    labeler_metadata
}

fn no_ref_frame_group(num_cameras: u32, seed: u64) -> LabelerFrameGroup {
    let mut frame_group_msg = LabelerFrameGroup::new();
    for camera_id in 0..num_cameras {
        let mut frame_msg = LabelerFrame::new();
        frame_msg.set_timestamp(seed * 1000 + camera_id as u64);
        frame_msg.set_vision_frame(SSL_WrapperPacket::with_detection(seed as u32, camera_id));
        frame_group_msg.frames.push(frame_msg);
    }
    frame_group_msg
}

fn random_frame_groups() -> Vec<LabelerFrameGroup> {
    vec![
        no_ref_frame_group(3, 1),
        no_ref_frame_group(1, 2),
        no_ref_frame_group(9, 3),
        no_ref_frame_group(2, 400),
        no_ref_frame_group(5, 5),
    ]
}

fn archive_of(frame_group_msgs: &[LabelerFrameGroup]) -> (Vec<u8>, LabelerMetadata) {
    let mut buffer = Vec::<u8>::new();
    write_header(&mut buffer, &LABELER_DATA_HEADER, LABELER_DATA_VERSION);
    let metadata = write_msgs(&mut buffer, frame_group_msgs);
    (buffer, metadata)
}

fn open(buffer: Vec<u8>) -> Result<LabelerDataReader, LabelerDataReaderError> {
    LabelerDataReader::new(ByteReader::new(buffer))
}

#[test]
fn labeler_new_bad_header() {
    let bad_headers: [&[u8; 16]; 3] = [b"SSL_LABELER_FILF", b"ssl_labeler_file", &[0; 16]];
    for bad_header in bad_headers {
        let mut buffer = Vec::<u8>::new();
        write_header(&mut buffer, bad_header, LABELER_DATA_VERSION);
        write_metadata(&mut buffer, &LabelerMetadata::new());
        match open(buffer) {
            Err(error) => match error {
                LabelerDataReaderError::InvalidHeader { header } => {
                    assert_eq!(header, bad_header.to_vec())
                }
                _ => panic!("Unexpected error: {:?}", error),
            },
            Ok(_) => panic!("Constructed data reader when it should have failed."),
        };
    }
}

#[test]
fn labeler_new_bad_version() {
    for bad_version in [0u32, 2, 256, u32::MAX, 0x0100_0000] {
        let mut buffer = Vec::<u8>::new();
        write_header(&mut buffer, &LABELER_DATA_HEADER, bad_version);
        write_metadata(&mut buffer, &LabelerMetadata::new());
        match open(buffer) {
            Err(error) => match error {
                LabelerDataReaderError::UnsupportedVersion { version } => {
                    assert_eq!(version, bad_version)
                }
                _ => panic!("Unexpected error: {:?}", error),
            },
            Ok(_) => panic!("Constructed data reader when it should have failed."),
        };
    }
}

#[test]
fn new_bad_metadata_size() {
    for bad_metadata_size in [1u32, 2, 17, 1000, u32::MAX - 4, u32::MAX] {
        let mut buffer = Vec::<u8>::new();
        write_header(&mut buffer, &LABELER_DATA_HEADER, LABELER_DATA_VERSION);
        buffer.extend_from_slice(&bad_metadata_size.to_be_bytes());
        match open(buffer) {
            Err(error) => match error {
                LabelerDataReaderError::Io(_) | LabelerDataReaderError::Protobuf(_) => {}
                _ => panic!("Unexpected error: {:?}", error),
            },
            Ok(_) => panic!("Constructed data reader when it should have failed."),
        };
    }
}

#[test]
fn new_metadata_size_beyond_the_start() {
    let mut buffer = Vec::<u8>::new();
    write_header(&mut buffer, &LABELER_DATA_HEADER, LABELER_DATA_VERSION);
    buffer.extend_from_slice(&1000u32.to_be_bytes());
    assert_eq!(open(buffer).unwrap_err(), LabelerDataReaderError::Io(IoErrorKind::InvalidSeek));
}

#[test]
fn new_metadata_that_is_none() {
    let mut buffer = Vec::<u8>::new();
    write_header(&mut buffer, &LABELER_DATA_HEADER, LABELER_DATA_VERSION);
    // the camera count as a string
    buffer.extend_from_slice(&[0x0A, 1, 0]);
    buffer.extend_from_slice(&3u32.to_be_bytes());
    assert_eq!(
        open(buffer).unwrap_err(),
        LabelerDataReaderError::Protobuf(ProtoError::UnexpectedWireType)
    );
}

#[test]
fn new_short_source() {
    for len in 0..20 {
        let mut buffer = Vec::<u8>::new();
        write_header(&mut buffer, &LABELER_DATA_HEADER, LABELER_DATA_VERSION);
        buffer.truncate(len);
        assert_eq!(
            open(buffer).unwrap_err(),
            LabelerDataReaderError::Io(IoErrorKind::UnexpectedEof)
        );
    }
}

#[test]
fn new_random_frames() {
    let random_frame_group_msgs = random_frame_groups();
    let (buffer, metadata) = archive_of(&random_frame_group_msgs);
    let reader = open(buffer).unwrap();
    assert_eq!(reader.num_cameras(), metadata.num_cameras);
    assert_eq!(reader.num_cameras(), 9);
    assert_eq!(reader.len(), metadata.message_offsets.len());
    assert_eq!(reader.len(), 5);
    assert_eq!(reader.num_passing_events(), 0);
    assert_eq!(reader.num_goal_shot_events(), 0);
}

#[test]
fn get_random_frames() {
    let random_frame_group_msgs = random_frame_groups();
    let (buffer, _) = archive_of(&random_frame_group_msgs);
    let reader = open(buffer).unwrap();
    for index in [3usize, 0, 4, 4, 1, 2, 0, 3] {
        match reader.get(index) {
            Some(ref frame_group) => assert_eq!(frame_group, &random_frame_group_msgs[index]),
            None => panic!("Failed to get message at index {}", index),
        }
    }
}

#[test]
fn get_out_of_range() {
    let (buffer, _) = archive_of(&random_frame_groups());
    let reader = open(buffer).unwrap();
    assert_eq!(reader.get(5), None);
    assert_eq!(reader.get(6), None);
    assert_eq!(reader.get(usize::MAX), None);
}

#[test]
fn get_where_the_record_cannot_be_read() {
    let mut buffer = Vec::<u8>::new();
    write_header(&mut buffer, &LABELER_DATA_HEADER, LABELER_DATA_VERSION);
    let mut metadata = LabelerMetadata::new();
    metadata.message_offsets = vec![1_000_000, 18, u64::MAX];
    write_metadata(&mut buffer, &metadata);
    let reader = open(buffer).unwrap();
    assert_eq!(reader.len(), 3);
    assert_eq!(reader.get(0), None);
    assert_eq!(reader.get(1), None);
    assert_eq!(reader.get(2), None);
    assert_eq!(
        reader.read_message_at(1_000_000).unwrap_err(),
        LabelerDataReaderError::Io(IoErrorKind::UnexpectedEof)
    );
    assert_eq!(reader.get_range(0, 1), None);
    assert_eq!(reader.get_range_from(0), None);
    assert_eq!(reader.get_range(1, 1), Some(vec![]));
}

#[test]
fn get_range() {
    let random_frame_group_msgs = random_frame_groups();
    let (buffer, _) = archive_of(&random_frame_group_msgs);
    let reader = open(buffer).unwrap();
    for range_index in [(0usize, 5usize), (0, 1), (1, 4), (4, 5), (2, 3), (3, 3), (5, 5)] {
        match reader.get_range(range_index.0, range_index.1) {
            Some(frame_groups) => {
                assert_eq!(frame_groups.len(), range_index.1 - range_index.0);
                assert_eq!(
                    &frame_groups[..],
                    &random_frame_group_msgs[range_index.0..range_index.1]
                );
            }
            None => panic!("Failed to get message with range {:?}", range_index),
        }
    }
}

#[test]
fn get_range_out_of_range() {
    let (buffer, _) = archive_of(&random_frame_groups());
    let reader = open(buffer).unwrap();
    assert_eq!(reader.get_range(0, 6), None);
    assert_eq!(reader.get_range(3, 2), None);
    assert_eq!(reader.get_range(6, 6), None);
    assert_eq!(reader.get_range_from(6), None);
}

#[test]
fn get_range_from() {
    let random_frame_group_msgs = random_frame_groups();
    let (buffer, _) = archive_of(&random_frame_group_msgs);
    let reader = open(buffer).unwrap();
    for start in 0..=5usize {
        match reader.get_range_from(start) {
            Some(frame_groups) => {
                assert_eq!(frame_groups.len(), reader.len() - start);
                assert_eq!(&frame_groups[..], &random_frame_group_msgs[start..]);
            }
            None => panic!("Failed to get message with range from {:?}", start),
        }
    }
}

#[test]
fn into_iterate_random_frames() {
    let random_frame_group_msgs = random_frame_groups();
    let (buffer, _) = archive_of(&random_frame_group_msgs);
    let reader = open(buffer).unwrap();
    let mut iterator = reader.into_iter();
    let mut read = Vec::new();
    while let Some(frame_msg) = iterator.next() {
        read.push(frame_msg);
    }
    assert_eq!(read, random_frame_group_msgs);
    assert_eq!(iterator.next(), None);
}

#[test]
fn iterate_random_frames() {
    let random_frame_group_msgs = random_frame_groups();
    let (buffer, _) = archive_of(&random_frame_group_msgs);
    let reader = open(buffer).unwrap();
    assert!(!reader.is_empty());

    for _ in 0..2 {
        let mut iterator = reader.iter();
        let mut read = Vec::new();
        while let Some(frame_msg) = iterator.next() {
            read.push(frame_msg);
        }
        assert_eq!(read, random_frame_group_msgs);
    }
}

#[test]
fn new_blank() {
    let mut buffer = Vec::<u8>::new();
    write_header(&mut buffer, &LABELER_DATA_HEADER, LABELER_DATA_VERSION);
    write_metadata(&mut buffer, &LabelerMetadata::new());

    let reader = open(buffer).unwrap();

    assert_eq!(reader.len(), 0);
    assert!(reader.is_empty());
    assert_eq!(reader.num_cameras(), 0);
}

#[test]
fn new_blank_without_index_bytes() {
    let mut buffer = Vec::<u8>::new();
    write_header(&mut buffer, &LABELER_DATA_HEADER, LABELER_DATA_VERSION);
    buffer.extend_from_slice(&0u32.to_be_bytes());
    let reader = open(buffer).unwrap();
    assert_eq!(reader.len(), 0);
    assert!(reader.is_empty());
    assert_eq!(reader.num_cameras(), 0);
}

#[test]
fn new_at_a_read_position() {
    let (archive, _) = archive_of(&random_frame_groups());
    let mut source = ByteReader::new(archive);
    source.seek(3);
    assert!(matches!(
        LabelerDataReader::new(source),
        Err(LabelerDataReaderError::InvalidHeader { .. })
    ));
}

fn ref_msg(stage: SSL_Referee_Stage, timestamp: i64) -> Message {
    Message {
        timestamp,
        msg_type: MessageType::Refbox2013(SSL_Referee::new(
            0,
            stage,
            SSL_Referee_Command::FORCE_START,
            0,
            0,
        )),
    }
}

fn vision_msg(camera_id: u32, timestamp: i64) -> Message {
    Message {
        timestamp,
        msg_type: MessageType::Vision2014(SSL_WrapperPacket::with_detection(0, camera_id)),
    }
}

#[test]
fn written_archive_is_read() {
    let messages = vec![
        vision_msg(9, 1),
        ref_msg(SSL_Referee_Stage::NORMAL_FIRST_HALF, 100),
        vision_msg(0, 101),
        vision_msg(1, 102),
        vision_msg(0, 103),
        vision_msg(2, 104),
        ref_msg(SSL_Referee_Stage::NORMAL_HALF_TIME, 105),
        vision_msg(7, 106),
        ref_msg(SSL_Referee_Stage::NORMAL_SECOND_HALF, 107),
        vision_msg(4, 108),
    ];
    let mut writer = LabelerDataWriter::new();
    for message in &messages {
        writer.add_msg(message.clone()).unwrap();
    }
    let reader = open(writer.finish().unwrap()).unwrap();
    assert_eq!(reader.len(), 3);
    assert_eq!(reader.num_cameras(), 5);
    let groups = reader.get_range_from(0).unwrap();
    let sizes: Vec<usize> = groups.iter().map(|g| g.frames.len()).collect();
    assert_eq!(sizes, vec![3, 2, 2]);
    let timestamps: Vec<u64> =
        groups.iter().flat_map(|g| g.frames.iter().map(|f| f.timestamp)).collect();
    assert_eq!(timestamps, vec![100, 101, 102, 103, 104, 107, 108]);
    assert!(matches!(groups[0].frames[0].frame, Some(FramePayload::Referee(_))));
    assert!(matches!(groups[2].frames[0].frame, Some(FramePayload::Referee(_))));
    for index in 0..3 {
        assert_eq!(reader.get(index).as_ref(), Some(&groups[index]));
    }
}

#[test]
fn empty_written_archive_is_read() {
    let reader = open(LabelerDataWriter::new().finish().unwrap()).unwrap();
    assert_eq!(reader.len(), 0);
    assert_eq!(reader.num_cameras(), 0);
    assert_eq!(reader.get(0), None);
    assert_eq!(reader.get_range_from(0), Some(vec![]));
}

#[test]
fn set_event_counts_of_a_written_archive() {
    let groups = random_frame_groups();
    let (mut archive, _) = archive_of(&groups);
    let before = archive.len();
    set_event_counts(&mut archive, 300, 70_000).unwrap();
    assert_eq!(archive.len(), before + 3);
    let reader = open(archive).unwrap();
    assert_eq!(reader.num_passing_events(), 300);
    assert_eq!(reader.num_goal_shot_events(), 70_000);
    assert_eq!(reader.num_cameras(), 9);
    assert_eq!(reader.get_range_from(0).unwrap(), groups);
}

#[test]
fn set_event_counts_leaves_what_lies_beyond() {
    let (mut archive, _) = archive_of(&random_frame_groups());
    set_event_counts(&mut archive, 70_000, 70_000).unwrap();
    let longer = archive.clone();
    set_event_counts(&mut archive, 1, 1).unwrap();
    assert_eq!(archive.len(), longer.len());
    let start = longer.len() - 4 - u32::from_be_bytes([
        longer[longer.len() - 4],
        longer[longer.len() - 3],
        longer[longer.len() - 2],
        longer[longer.len() - 1],
    ]) as usize;
    assert_eq!(&archive[..start], &longer[..start]);
    let mut changed = LabelerMetadata::parse_from_bytes(&longer[start..longer.len() - 4]).unwrap();
    changed.num_passing_events = 1;
    changed.num_goal_shot_events = 1;
    let changed_bytes = changed.write_to_bytes();
    let end = start + changed_bytes.len();
    assert_eq!(&archive[start..end], &changed_bytes[..]);
    assert_eq!(&archive[end..end + 4], &(changed_bytes.len() as u32).to_be_bytes()[..]);
    assert_eq!(&archive[end + 4..], &longer[end + 4..]);
}

#[test]
fn set_event_counts_of_what_is_no_archive() {
    let mut bytes = b"SSL_LABELER_FILF\x00\x00\x00\x01\x00\x00\x00\x00".to_vec();
    let before = bytes.clone();
    assert!(matches!(
        set_event_counts(&mut bytes, 1, 2),
        Err(LabelerDataReaderError::InvalidHeader { .. })
    ));
    assert_eq!(bytes, before);
}
