use protobuf::CodedInputStream;
use protobuf::CodedOutputStream;
use ssl_log_tools::protos::log_labeler_data::LabelerFrame;
use ssl_log_tools::protos::log_labeler_data::LabelerFrameGroup;
use ssl_log_tools::protos::log_labeler_data::LabelerMetadata;
use ssl_log_tools::protos::log_labels::BallPossessionLabel;
use ssl_log_tools::protos::log_labels::BallPossessionLabel_State;
use ssl_log_tools::protos::log_labels::DribblingLabel;
use ssl_log_tools::protos::log_labels::GoalShotLabel;
use ssl_log_tools::protos::log_labels::Labels;
use ssl_log_tools::protos::log_labels::PassingLabel;
use ssl_log_tools::protos::log_labels::Team;
use ssl_log_tools::protos::messages_robocup_ssl_referee::SSL_Referee;
use ssl_log_tools::protos::messages_robocup_ssl_referee::SSL_Referee_Command;
use ssl_log_tools::protos::messages_robocup_ssl_referee::SSL_Referee_Stage;
use ssl_log_tools::protos::messages_robocup_ssl_wrapper::SSL_WrapperPacket;
use ssl_log_tools::protos::wire::parse_fields;
use ssl_log_tools::protos::wire::put_bytes_field;
use ssl_log_tools::protos::wire::put_varint_field;
use ssl_log_tools::protos::wire::ProtoError;
use ssl_log_tools::protos::wire::WireField;
use ssl_log_tools::protos::wire::WireValue;

/// A referee message of packet timestamp 1, stage 1, command 2, command
/// counter 3, command timestamp 4, and two teams without a name and with
/// nothing counted.
const REFEREE_BYTES: [u8; 42] = [
    0x08, 1, 0x10, 1, 0x20, 2, 0x28, 3, 0x30, 4, 0x3A, 14, 0x0A, 0, 0x10, 0, 0x18, 0, 0x28, 0,
    0x30, 0, 0x38, 0, 0x40, 0, 0x42, 14, 0x0A, 0, 0x10, 0, 0x18, 0, 0x28, 0, 0x30, 0, 0x38, 0,
    0x40, 0,
];

/// A wrapper packet with a detection frame of frame number 7 and camera 2,
/// both times zero.
const WRAPPER_BYTES: [u8; 24] = [
    0x0A, 22, 0x08, 7, 0x11, 0, 0, 0, 0, 0, 0, 0, 0, 0x19, 0, 0, 0, 0, 0, 0, 0, 0, 0x20, 2,
];

/// A team as a referee message holds it.
fn team_info(name: &[u8], card_times: &[u32], packed: bool) -> Vec<u8> {
    let mut bytes = Vec::new();
    {
        let mut output = CodedOutputStream::vec(&mut bytes);
        output.write_bytes(1, name).unwrap();
        output.write_uint32(2, 3).unwrap();
        output.write_uint32(3, 1).unwrap();
        if packed {
            let mut run = Vec::new();
            {
                let mut inner = CodedOutputStream::vec(&mut run);
                for time in card_times {
                    inner.write_uint32_no_tag(*time).unwrap();
                }
                inner.flush().unwrap();
            }
            output.write_bytes(4, &run).unwrap();
        } else {
            for time in card_times {
                output.write_uint32(4, *time).unwrap();
            }
        }
        output.write_uint32(5, 2).unwrap();
        output.write_uint32(6, 4).unwrap();
        output.write_uint32(7, 100).unwrap();
        output.write_uint32(8, 11).unwrap();
        output.flush().unwrap();
    }
    bytes
}

/// The fields of a whole referee message of stage 7, each as it is
/// written, with its number.
fn referee_parts() -> Vec<(u32, Vec<u8>)> {
    let mut parts = Vec::new();
    for number in [1u32, 2, 3, 4, 5, 6, 7, 8, 99] {
        let mut bytes = Vec::new();
        {
            let mut output = CodedOutputStream::vec(&mut bytes);
            match number {
                1 => output.write_uint64(1, 5).unwrap(),
                2 => output.write_int32(2, 7).unwrap(),
                3 => output.write_sint32(3, -7).unwrap(),
                4 => output.write_int32(4, 2).unwrap(),
                5 => output.write_uint32(5, 6).unwrap(),
                6 => output.write_uint64(6, 1_000).unwrap(),
                7 => output.write_bytes(7, &team_info(b"yellow", &[1, 70_000], true)).unwrap(),
                8 => output.write_bytes(8, &team_info(b"blue", &[9], false)).unwrap(),
                _ => output.write_double(99, 1.5).unwrap(),
            }
            output.flush().unwrap();
        }
        parts.push((number, bytes));
    }
    parts
}

/// The referee message of the given fields, but the one of number `without`.
fn referee_without(without: u32) -> Vec<u8> {
    let mut bytes = Vec::new();
    for (number, part) in referee_parts() {
        if number != without {
            bytes.extend_from_slice(&part);
        }
    }
    bytes
}

/// A detection frame as a wrapper packet holds it.
fn detection(camera_id: u64, balls: &[Vec<u8>]) -> Vec<u8> {
    let mut bytes = Vec::new();
    {
        let mut output = CodedOutputStream::vec(&mut bytes);
        output.write_uint32(1, 1234).unwrap();
        output.write_double(2, 0.25).unwrap();
        output.write_double(3, 0.5).unwrap();
        output.write_uint64(4, camera_id).unwrap();
        for ball in balls {
            output.write_bytes(5, ball).unwrap();
        }
        output.flush().unwrap();
    }
    bytes
}

/// A ball or a robot of a detection frame, of the fields whose numbers
/// are given.
fn seen(numbers: &[u32]) -> Vec<u8> {
    let mut bytes = Vec::new();
    {
        let mut output = CodedOutputStream::vec(&mut bytes);
        for number in numbers {
            if *number == 2 {
                output.write_uint32(2, 40).unwrap();
            } else {
                output.write_float(*number, 0.5).unwrap();
            }
        }
        output.flush().unwrap();
    }
    bytes
}

/// A message with one field that holds `payload`.
fn inside(number: u32, payload: &[u8]) -> Vec<u8> {
    let mut bytes = Vec::new();
    put_bytes_field(&mut bytes, number, payload);
    bytes
}

/// The sizes of a field, of the numbers given.
fn field_size(numbers: &[u32]) -> Vec<u8> {
    let mut bytes = Vec::new();
    {
        let mut output = CodedOutputStream::vec(&mut bytes);
        for number in numbers {
            output.write_int32(*number, 9000).unwrap();
        }
        output.flush().unwrap();
    }
    bytes
}

const STAGES: [SSL_Referee_Stage; 14] = [
    SSL_Referee_Stage::NORMAL_FIRST_HALF_PRE,
    SSL_Referee_Stage::NORMAL_FIRST_HALF,
    SSL_Referee_Stage::NORMAL_HALF_TIME,
    SSL_Referee_Stage::NORMAL_SECOND_HALF_PRE,
    SSL_Referee_Stage::NORMAL_SECOND_HALF,
    SSL_Referee_Stage::EXTRA_TIME_BREAK,
    SSL_Referee_Stage::EXTRA_FIRST_HALF_PRE,
    SSL_Referee_Stage::EXTRA_FIRST_HALF,
    SSL_Referee_Stage::EXTRA_HALF_TIME,
    SSL_Referee_Stage::EXTRA_SECOND_HALF_PRE,
    SSL_Referee_Stage::EXTRA_SECOND_HALF,
    SSL_Referee_Stage::PENALTY_SHOOTOUT_BREAK,
    SSL_Referee_Stage::PENALTY_SHOOTOUT,
    SSL_Referee_Stage::POST_GAME,
];

fn varint(value: u64) -> Vec<u8> {
    let mut out = Vec::new();
    put_varint_field(&mut out, 1, value);
    assert_eq!(out[0], 0x08);
    out[1..].to_vec()
}

#[test]
fn varints_are_written_seven_bits_to_a_byte() {
    assert_eq!(varint(0), vec![0]);
    assert_eq!(varint(1), vec![1]);
    assert_eq!(varint(127), vec![0x7f]);
    assert_eq!(varint(128), vec![0x80, 0x01]);
    assert_eq!(varint(300), vec![0xAC, 0x02]);
    assert_eq!(varint(16_383), vec![0xff, 0x7f]);
    assert_eq!(varint(16_384), vec![0x80, 0x80, 0x01]);
    assert_eq!(
        varint(u64::MAX),
        vec![0xff, 0xff, 0xff, 0xff, 0xff, 0xff, 0xff, 0xff, 0xff, 0x01]
    );
}

#[test]
fn varints_are_read_back() {
    for value in [0u64, 1, 127, 128, 300, 16_383, 16_384, 1 << 32, 1 << 56, 1 << 63, u64::MAX] {
        let mut bytes = Vec::new();
        put_varint_field(&mut bytes, 5, value);
        assert_eq!(
            parse_fields(&bytes),
            Ok(vec![WireField { number: 5, value: WireValue::Varint(value) }])
        );
    }
}

#[test]
fn varints_of_ten_bytes_keep_the_low_64_bits() {
    let mut bytes = vec![0x08];
    bytes.extend_from_slice(&[0x80, 0x80, 0x80, 0x80, 0x80, 0x80, 0x80, 0x80, 0x80, 0x7f]);
    assert_eq!(
        parse_fields(&bytes),
        Ok(vec![WireField { number: 1, value: WireValue::Varint(1 << 63) }])
    );
    // a varint need not be the shortest one
    assert_eq!(
        parse_fields(&[0x08, 0x81, 0x80, 0x00]),
        Ok(vec![WireField { number: 1, value: WireValue::Varint(1) }])
    );
}

#[test]
fn varints_that_do_not_end() {
    assert_eq!(parse_fields(&[0x08]), Err(ProtoError::IncorrectVarint));
    assert_eq!(parse_fields(&[0x08, 0x80]), Err(ProtoError::IncorrectVarint));
    assert_eq!(parse_fields(&[0x80]), Err(ProtoError::IncorrectVarint));
    let mut bytes = vec![0x08];
    bytes.extend_from_slice(&[0x80; 10]);
    bytes.push(0);
    assert_eq!(parse_fields(&bytes), Err(ProtoError::IncorrectVarint));
}

#[test]
fn fields_of_every_wire_type() {
    let bytes = [
        0x08, 0x96, 0x01, // 1: varint 150
        0x11, 1, 2, 3, 4, 5, 6, 7, 8, // 2: fixed64
        0x1A, 3, 9, 9, 9, // 3: three bytes
        0x25, 1, 2, 3, 4, // 4: fixed32
        0xF8, 0xFF, 0xFF, 0xFF, 0x0F, 0x00, // the largest field number
    ];
    assert_eq!(
        parse_fields(&bytes),
        Ok(vec![
            WireField { number: 1, value: WireValue::Varint(150) },
            WireField { number: 2, value: WireValue::Fixed64(vec![1, 2, 3, 4, 5, 6, 7, 8]) },
            WireField { number: 3, value: WireValue::LengthDelimited(vec![9, 9, 9]) },
            WireField { number: 4, value: WireValue::Fixed32(vec![1, 2, 3, 4]) },
            WireField { number: 0x1fff_ffff, value: WireValue::Varint(0) },
        ])
    );
    assert_eq!(parse_fields(&[]), Ok(vec![]));
}

#[test]
fn fields_that_are_refused() {
    // field number zero
    assert_eq!(parse_fields(&[0x00, 0x00]), Err(ProtoError::IncorrectTag));
    assert_eq!(parse_fields(&[0x03]), Err(ProtoError::IncorrectTag));
    assert_eq!(parse_fields(&[0x04]), Err(ProtoError::IncorrectTag));
    // the wire types that are none
    assert_eq!(parse_fields(&[0x0E]), Err(ProtoError::IncorrectTag));
    assert_eq!(parse_fields(&[0x0F]), Err(ProtoError::IncorrectTag));
    // a group that ends without having started
    assert_eq!(parse_fields(&[0x0C]), Err(ProtoError::UnexpectedWireType));
    assert_eq!(parse_fields(&[0x08, 1, 0x0C, 0x08, 1]), Err(ProtoError::UnexpectedWireType));
    // values that are cut off
    assert_eq!(parse_fields(&[0x09, 1, 2, 3, 4, 5, 6, 7]), Err(ProtoError::UnexpectedEof));
    assert_eq!(parse_fields(&[0x0D, 1, 2, 3]), Err(ProtoError::UnexpectedEof));
    assert_eq!(parse_fields(&[0x0A, 2, 1]), Err(ProtoError::UnexpectedEof));
    assert_eq!(parse_fields(&[0x0A]), Err(ProtoError::IncorrectVarint));
    // the first error counts
    assert_eq!(parse_fields(&[0x08, 1, 0x0E, 0x08]), Err(ProtoError::IncorrectTag));
}

#[test]
fn groups_are_passed_over() {
    // an empty group
    assert_eq!(
        parse_fields(&[0x0B, 0x0C]),
        Ok(vec![WireField { number: 1, value: WireValue::Group }])
    );
    // a group with a field of each wire type, between two fields
    let bytes = [
        0x08, 1, // 1: varint 1
        0x13, // 2: a group starts
        0x08, 0x96, 0x01, // varint
        0x11, 1, 2, 3, 4, 5, 6, 7, 8, // fixed64
        0x1A, 2, 0x0B, 0x0C, // two bytes, which are no group
        0x25, 1, 2, 3, 4, // fixed32
        0x14, // the group ends
        0x18, 7, // 3: varint 7
    ];
    assert_eq!(
        parse_fields(&bytes),
        Ok(vec![
            WireField { number: 1, value: WireValue::Varint(1) },
            WireField { number: 2, value: WireValue::Group },
            WireField { number: 3, value: WireValue::Varint(7) },
        ])
    );
    // the key that ends a group need not have the number of the key that
    // started it
    assert_eq!(
        parse_fields(&[0x0B, 0x08, 5, 0x7C]),
        Ok(vec![WireField { number: 1, value: WireValue::Group }])
    );
}

#[test]
fn groups_that_are_refused() {
    // a group that does not end
    assert_eq!(parse_fields(&[0x0B]), Err(ProtoError::IncorrectVarint));
    assert_eq!(parse_fields(&[0x0B, 0x08, 1]), Err(ProtoError::IncorrectVarint));
    assert_eq!(parse_fields(&[0x08, 1, 0x0B, 0x08]), Err(ProtoError::IncorrectVarint));
    // a group inside a group
    assert_eq!(parse_fields(&[0x0B, 0x13, 0x14, 0x0C]), Err(ProtoError::UnexpectedWireType));
    // what a group holds must be fields
    assert_eq!(parse_fields(&[0x0B, 0x00, 0x0C]), Err(ProtoError::IncorrectTag));
    assert_eq!(parse_fields(&[0x0B, 0x0A, 3, 1, 0x0C]), Err(ProtoError::UnexpectedEof));
    // a group is no value of a field that the library knows
    assert_eq!(
        SSL_Referee::parse_from_bytes(vec![0x13, 0x14, 0x10, 1]),
        Err(ProtoError::UnexpectedWireType)
    );
    assert_eq!(
        LabelerMetadata::parse_from_bytes(&[0x0B, 0x0C]),
        Err(ProtoError::UnexpectedWireType)
    );
    // and is passed over in a field that it does not know
    let mut bytes =
        SSL_Referee::new(0, SSL_Referee_Stage::NORMAL_FIRST_HALF, SSL_Referee_Command::HALT, 0, 0)
            .as_bytes()
            .clone();
    bytes.extend_from_slice(&[0xFB, 0x06, 0x08, 9, 0xFC, 0x06]);
    let message = SSL_Referee::parse_from_bytes(bytes.clone()).unwrap();
    assert_eq!(message.get_stage(), SSL_Referee_Stage::NORMAL_FIRST_HALF);
    assert_eq!(message.as_bytes(), &bytes);
    assert_eq!(LabelerMetadata::parse_from_bytes(&[0x2B, 0x2C, 0x08, 4]).unwrap().num_cameras, 4);
}

#[test]
fn groups_are_passed_over_as_the_protobuf_crate_does() {
    let cases: [&[u8]; 9] = [
        &[0x0B, 0x0C, 0x08, 1],
        &[0x13, 0x08, 0x96, 0x01, 0x1A, 2, 0x0B, 0x0C, 0x25, 1, 2, 3, 4, 0x14, 0x18, 7],
        &[0x0B, 0x08, 5, 0x7C],
        &[0x0B],
        &[0x0B, 0x08, 1],
        &[0x0B, 0x13, 0x14, 0x0C],
        &[0x0B, 0x00, 0x0C],
        &[0x0B, 0x0A, 3, 1, 0x0C],
        &[0x0B, 0x0E, 0x0C],
    ];
    for bytes in cases {
        let mut input = CodedInputStream::from_bytes(bytes);
        let (field_number, wire_type) = input.read_tag_unpack().unwrap();
        let mut unknown_fields = protobuf::UnknownFields::new();
        let theirs = protobuf::rt::read_unknown_or_skip_group(
            field_number,
            wire_type,
            &mut input,
            &mut unknown_fields,
        );
        let ours = parse_fields(bytes);
        match theirs {
            Ok(()) => {
                // the crate has passed over the group and kept nothing
                assert_eq!(unknown_fields.iter().count(), 0);
                let fields = ours.unwrap();
                assert_eq!(fields[0], WireField { number: field_number, value: WireValue::Group });
                // and stands where the library goes on reading
                let rest = &bytes[input.pos() as usize..];
                assert_eq!(parse_fields(rest).unwrap(), fields[1..].to_vec());
            }
            Err(_) => assert!(ours.is_err()),
        }
    }
}

#[test]
fn written_fields_are_what_the_protobuf_crate_writes() {
    let mut ours = Vec::new();
    put_varint_field(&mut ours, 1, 150);
    put_varint_field(&mut ours, 0x1fff_ffff, u64::MAX);
    put_bytes_field(&mut ours, 2, b"testing");
    put_bytes_field(&mut ours, 3, &[7u8; 300]);
    put_bytes_field(&mut ours, 4, &[]);

    let mut theirs = Vec::new();
    {
        let mut output = CodedOutputStream::vec(&mut theirs);
        output.write_uint64(1, 150).unwrap();
        output.write_uint64(0x1fff_ffff, u64::MAX).unwrap();
        output.write_bytes(2, b"testing").unwrap();
        output.write_bytes(3, &[7u8; 300]).unwrap();
        output.write_bytes(4, &[]).unwrap();
        output.flush().unwrap();
    }
    assert_eq!(ours, theirs);
    assert_eq!(&ours[..3], &[0x08, 0x96, 0x01]);
}

#[test]
fn written_fields_append() {
    let mut out = vec![1u8, 2, 3];
    put_varint_field(&mut out, 1, 1);
    put_bytes_field(&mut out, 2, &[5]);
    assert_eq!(out, vec![1, 2, 3, 0x08, 1, 0x12, 1, 5]);
}

#[test]
fn referee_is_what_the_protobuf_crate_reads() {
    let message = SSL_Referee::new(
        1_500_000_000_000_000,
        SSL_Referee_Stage::EXTRA_SECOND_HALF,
        SSL_Referee_Command::BALL_PLACEMENT_BLUE,
        70_000,
        u64::MAX,
    );
    let mut input = CodedInputStream::from_bytes(message.as_bytes());
    assert_eq!(input.read_tag_unpack().unwrap().0, 1);
    assert_eq!(input.read_uint64().unwrap(), 1_500_000_000_000_000);
    assert_eq!(input.read_tag_unpack().unwrap().0, 2);
    assert_eq!(input.read_int32().unwrap(), 10);
    assert_eq!(input.read_tag_unpack().unwrap().0, 4);
    assert_eq!(input.read_int32().unwrap(), 17);
    assert_eq!(input.read_tag_unpack().unwrap().0, 5);
    assert_eq!(input.read_uint32().unwrap(), 70_000);
    assert_eq!(input.read_tag_unpack().unwrap().0, 6);
    assert_eq!(input.read_uint64().unwrap(), u64::MAX);
    for team_field in [7, 8] {
        assert_eq!(input.read_tag_unpack().unwrap().0, team_field);
        let team = input.read_bytes().unwrap();
        let mut inner = CodedInputStream::from_bytes(&team);
        assert_eq!(inner.read_tag_unpack().unwrap().0, 1);
        assert_eq!(inner.read_string().unwrap(), "");
        for number in [2, 3, 5, 6, 7, 8] {
            assert_eq!(inner.read_tag_unpack().unwrap().0, number);
            assert_eq!(inner.read_uint32().unwrap(), 0);
        }
        assert!(inner.eof().unwrap());
    }
    assert!(input.eof().unwrap());
}

#[test]
fn referee_new_writes_these_bytes() {
    let message = SSL_Referee::new(
        1,
        SSL_Referee_Stage::NORMAL_FIRST_HALF,
        SSL_Referee_Command::NORMAL_START,
        3,
        4,
    );
    assert_eq!(message.as_bytes().as_slice(), &REFEREE_BYTES);
    assert_eq!(SSL_Referee::parse_from_bytes(REFEREE_BYTES.to_vec()), Ok(message));
}

#[test]
fn referee_stages() {
    for (value, stage) in STAGES.iter().enumerate() {
        assert_eq!(stage.value(), value as u64);
        assert_eq!(SSL_Referee_Stage::from_value(value as u64), Some(*stage));
        let message = SSL_Referee::new(0, *stage, SSL_Referee_Command::HALT, 0, 0);
        assert_eq!(message.get_stage(), *stage);
        assert_eq!(
            message.as_bytes()[..10],
            [0x08, 0, 0x10, value as u8, 0x20, 0, 0x28, 0, 0x30, 0]
        );
        assert_eq!(message.as_bytes()[10..], REFEREE_BYTES[10..]);
        let read = SSL_Referee::parse_from_bytes(message.as_bytes().clone()).unwrap();
        assert_eq!(read, message);
    }
    assert_eq!(SSL_Referee_Stage::from_value(14), None);
    assert_eq!(SSL_Referee_Stage::from_value(u64::MAX), None);
}

#[test]
fn referee_commands() {
    assert_eq!(SSL_Referee_Command::HALT.value(), 0);
    assert_eq!(SSL_Referee_Command::STOP.value(), 1);
    assert_eq!(SSL_Referee_Command::NORMAL_START.value(), 2);
    assert_eq!(SSL_Referee_Command::FORCE_START.value(), 3);
    assert_eq!(SSL_Referee_Command::PREPARE_KICKOFF_YELLOW.value(), 4);
    assert_eq!(SSL_Referee_Command::PREPARE_KICKOFF_BLUE.value(), 5);
    assert_eq!(SSL_Referee_Command::PREPARE_PENALTY_YELLOW.value(), 6);
    assert_eq!(SSL_Referee_Command::PREPARE_PENALTY_BLUE.value(), 7);
    assert_eq!(SSL_Referee_Command::DIRECT_FREE_YELLOW.value(), 8);
    assert_eq!(SSL_Referee_Command::DIRECT_FREE_BLUE.value(), 9);
    assert_eq!(SSL_Referee_Command::INDIRECT_FREE_YELLOW.value(), 10);
    assert_eq!(SSL_Referee_Command::INDIRECT_FREE_BLUE.value(), 11);
    assert_eq!(SSL_Referee_Command::TIMEOUT_YELLOW.value(), 12);
    assert_eq!(SSL_Referee_Command::TIMEOUT_BLUE.value(), 13);
    assert_eq!(SSL_Referee_Command::GOAL_YELLOW.value(), 14);
    assert_eq!(SSL_Referee_Command::GOAL_BLUE.value(), 15);
    assert_eq!(SSL_Referee_Command::BALL_PLACEMENT_YELLOW.value(), 16);
    assert_eq!(SSL_Referee_Command::BALL_PLACEMENT_BLUE.value(), 17);
}

#[test]
fn referee_read_from_foreign_bytes() {
    // the teams and the other fields are kept as they are
    let bytes = referee_without(0);
    let message = SSL_Referee::parse_from_bytes(bytes.clone()).unwrap();
    assert_eq!(message.get_stage(), SSL_Referee_Stage::EXTRA_FIRST_HALF);
    assert_eq!(message.as_bytes(), &bytes);
    // the last stage counts
    let mut bytes = referee_without(0);
    bytes.extend_from_slice(&[0x10, 12]);
    let message = SSL_Referee::parse_from_bytes(bytes.clone()).unwrap();
    assert_eq!(message.get_stage(), SSL_Referee_Stage::PENALTY_SHOOTOUT);
    // a stage that is none is passed over
    bytes.extend_from_slice(&[0x10, 99]);
    let message = SSL_Referee::parse_from_bytes(bytes.clone()).unwrap();
    assert_eq!(message.get_stage(), SSL_Referee_Stage::PENALTY_SHOOTOUT);
    // of a stage the low 32 bits count
    bytes.extend_from_slice(&[0x10, 0x83, 0x80, 0x80, 0x80, 0x10]);
    let message = SSL_Referee::parse_from_bytes(bytes.clone()).unwrap();
    assert_eq!(message.get_stage(), SSL_Referee_Stage::NORMAL_SECOND_HALF_PRE);
    // a team that comes in two parts is one team
    let team = team_info(b"blue", &[], false);
    let mut bytes = referee_without(8);
    bytes.extend_from_slice(&inside(8, &team[..8]));
    bytes.extend_from_slice(&inside(8, &team[8..]));
    assert_eq!(team[..8], [0x0A, 4, b'b', b'l', b'u', b'e', 0x10, 3]);
    let message = SSL_Referee::parse_from_bytes(bytes.clone()).unwrap();
    assert_eq!(message.as_bytes(), &bytes);
}

#[test]
fn referee_without_a_required_field_is_refused() {
    assert_eq!(SSL_Referee::parse_from_bytes(vec![0x10, 0x01]), Err(ProtoError::MessageNotInitialized));
    for number in [1, 2, 4, 5, 6, 7, 8] {
        assert_eq!(
            SSL_Referee::parse_from_bytes(referee_without(number)),
            Err(ProtoError::MessageNotInitialized)
        );
    }
    // the time left in the stage and what the schema does not know may be missing
    assert!(SSL_Referee::parse_from_bytes(referee_without(3)).is_ok());
    assert!(SSL_Referee::parse_from_bytes(referee_without(99)).is_ok());
    // a team without one of its own required fields
    let team = team_info(b"blue", &[], false);
    assert_eq!(team.len(), 18);
    for cut in [0usize, 6, 8, 10, 12, 14, 16] {
        let mut short = team[..cut].to_vec();
        short.extend_from_slice(&team[cut + if cut == 0 { 6 } else { 2 }..]);
        let mut bytes = referee_without(8);
        bytes.extend_from_slice(&inside(8, &short));
        assert_eq!(SSL_Referee::parse_from_bytes(bytes), Err(ProtoError::MessageNotInitialized));
    }
    let mut bytes = referee_without(7);
    bytes.extend_from_slice(&inside(7, &[]));
    assert_eq!(SSL_Referee::parse_from_bytes(bytes), Err(ProtoError::MessageNotInitialized));
    // a stage or a command that is none does not count
    let mut bytes = referee_without(2);
    bytes.extend_from_slice(&[0x10, 14]);
    assert_eq!(SSL_Referee::parse_from_bytes(bytes), Err(ProtoError::MessageNotInitialized));
    let mut bytes = referee_without(4);
    bytes.extend_from_slice(&[0x20, 18]);
    assert_eq!(SSL_Referee::parse_from_bytes(bytes), Err(ProtoError::MessageNotInitialized));
}

#[test]
fn referee_field_of_another_wire_type_is_refused() {
    for (number, field) in [
        (1u32, vec![0x0D, 0, 0, 0, 0]),
        (2, vec![0x12, 1, 0]),
        (3, vec![0x1A, 0]),
        (4, vec![0x21, 0, 0, 0, 0, 0, 0, 0, 0]),
        (5, vec![0x2A, 1, 0]),
        (6, vec![0x35, 0, 0, 0, 0]),
        (7, vec![0x38, 1]),
        (8, vec![0x45, 0, 0, 0, 0]),
    ] {
        let mut bytes = referee_without(number);
        bytes.extend_from_slice(&field);
        assert_eq!(SSL_Referee::parse_from_bytes(bytes), Err(ProtoError::UnexpectedWireType));
        // also where the field is there as it should be
        let mut bytes = referee_without(0);
        bytes.extend_from_slice(&field);
        assert_eq!(SSL_Referee::parse_from_bytes(bytes), Err(ProtoError::UnexpectedWireType));
    }
    // inside a team
    let mut team = team_info(b"blue", &[], false);
    team.extend_from_slice(&[0x15, 0, 0, 0, 0]);
    let mut bytes = referee_without(8);
    bytes.extend_from_slice(&inside(8, &team));
    assert_eq!(SSL_Referee::parse_from_bytes(bytes), Err(ProtoError::UnexpectedWireType));
    // a name that is no text
    let mut bytes = referee_without(8);
    bytes.extend_from_slice(&inside(8, &team_info(&[0xC3, 0x28], &[], false)));
    assert_eq!(SSL_Referee::parse_from_bytes(bytes), Err(ProtoError::InvalidText));
    // card times that end inside a number
    let mut team = team_info(b"blue", &[], false);
    team.extend_from_slice(&[0x22, 2, 1, 0x80]);
    let mut bytes = referee_without(8);
    bytes.extend_from_slice(&inside(8, &team));
    assert_eq!(SSL_Referee::parse_from_bytes(bytes), Err(ProtoError::IncorrectVarint));
}

#[test]
fn referee_that_is_refused() {
    assert_eq!(SSL_Referee::parse_from_bytes(vec![]), Err(ProtoError::MessageNotInitialized));
    assert_eq!(
        SSL_Referee::parse_from_bytes(vec![0x08, 1]),
        Err(ProtoError::MessageNotInitialized)
    );
    assert_eq!(
        SSL_Referee::parse_from_bytes(vec![0x10, 14]),
        Err(ProtoError::MessageNotInitialized)
    );
    assert_eq!(
        SSL_Referee::parse_from_bytes(vec![0x10, 1, 0x10, 99]),
        Err(ProtoError::MessageNotInitialized)
    );
    assert_eq!(
        SSL_Referee::parse_from_bytes(vec![0x15, 1, 0, 0, 0]),
        Err(ProtoError::UnexpectedWireType)
    );
    assert_eq!(SSL_Referee::parse_from_bytes(vec![0x10]), Err(ProtoError::IncorrectVarint));
    assert_eq!(SSL_Referee::parse_from_bytes(vec![0x10, 1, 0x03]), Err(ProtoError::IncorrectTag));
    assert_eq!(
        SSL_Referee::parse_from_bytes(vec![0x10, 1, 0x3A, 5, 1]),
        Err(ProtoError::UnexpectedEof)
    );
}

#[test]
fn wrapper_with_detection() {
    let packet = SSL_WrapperPacket::with_detection(7, 2);
    assert_eq!(packet.get_camera_id(), 2);
    assert_eq!(packet.as_bytes().as_slice(), &WRAPPER_BYTES);
    let packet = SSL_WrapperPacket::with_detection(u32::MAX, u32::MAX);
    assert_eq!(packet.get_camera_id(), u32::MAX);
    assert_eq!(packet.as_bytes().len(), 32);
    assert_eq!(SSL_WrapperPacket::parse_from_bytes(packet.as_bytes().clone()), Ok(packet));
}

#[test]
fn wrapper_read_from_foreign_bytes() {
    let ball = seen(&[1, 2, 3, 4, 6, 7]);
    let field = field_size(&[1, 2, 3, 4, 5]);
    let mut bytes = inside(1, &detection(3, &[ball.clone(), ball.clone()]));
    bytes.extend_from_slice(&inside(2, &inside(1, &field)));
    let packet = SSL_WrapperPacket::parse_from_bytes(bytes.clone()).unwrap();
    assert_eq!(packet.get_camera_id(), 3);
    assert_eq!(packet.as_bytes(), &bytes);
    // a packet of geometry alone counts as one of camera 0
    let packet = SSL_WrapperPacket::parse_from_bytes(inside(2, &inside(1, &field))).unwrap();
    assert_eq!(packet.get_camera_id(), 0);
    // and so does an empty packet
    assert_eq!(SSL_WrapperPacket::parse_from_bytes(vec![]).unwrap().get_camera_id(), 0);
    // the low 32 bits of the camera id are kept
    let packet =
        SSL_WrapperPacket::parse_from_bytes(inside(1, &detection(0x10_0000_0005, &[]))).unwrap();
    assert_eq!(packet.get_camera_id(), 5);
    // a detection frame that comes in two parts is one frame; the last camera counts
    let whole = detection(3, &[]);
    let mut bytes = inside(1, &whole[..3]);
    bytes.extend_from_slice(&inside(1, &whole[3..]));
    bytes.extend_from_slice(&inside(1, &[0x20, 6]));
    let packet = SSL_WrapperPacket::parse_from_bytes(bytes.clone()).unwrap();
    assert_eq!(packet.get_camera_id(), 6);
    assert_eq!(packet.as_bytes(), &bytes);
}

#[test]
fn wrapper_that_is_refused() {
    assert_eq!(
        SSL_WrapperPacket::parse_from_bytes(vec![0x08, 1]),
        Err(ProtoError::UnexpectedWireType)
    );
    assert_eq!(
        SSL_WrapperPacket::parse_from_bytes(vec![0x0A, 5, 0x25, 0, 0, 0, 0]),
        Err(ProtoError::UnexpectedWireType)
    );
    assert_eq!(
        SSL_WrapperPacket::parse_from_bytes(vec![0x0A, 1, 0x20]),
        Err(ProtoError::IncorrectVarint)
    );
    assert_eq!(
        SSL_WrapperPacket::parse_from_bytes(vec![0x0A, 2, 0x00, 0x00]),
        Err(ProtoError::IncorrectTag)
    );
    // a time that is a number
    assert_eq!(
        SSL_WrapperPacket::parse_from_bytes(inside(1, &[0x08, 7, 0x10, 0, 0x18, 0, 0x20, 2])),
        Err(ProtoError::UnexpectedWireType)
    );
    // a ball whose area is four bytes
    assert_eq!(
        SSL_WrapperPacket::parse_from_bytes(inside(1, &detection(3, &[vec![0x15, 0, 0, 0, 0]]))),
        Err(ProtoError::UnexpectedWireType)
    );
}

#[test]
fn wrapper_without_a_required_field_is_refused() {
    // a detection frame without its two times
    assert_eq!(
        SSL_WrapperPacket::parse_from_bytes(vec![0x0A, 4, 0x08, 7, 0x20, 2]),
        Err(ProtoError::MessageNotInitialized)
    );
    assert_eq!(
        SSL_WrapperPacket::parse_from_bytes(vec![0x0A, 0]),
        Err(ProtoError::MessageNotInitialized)
    );
    // without one of its four required fields
    let whole = detection(3, &[]);
    assert_eq!(whole.len(), 23);
    for (from, to) in [(0usize, 3usize), (3, 12), (12, 21), (21, 23)] {
        let mut short = whole[..from].to_vec();
        short.extend_from_slice(&whole[to..]);
        assert_eq!(
            SSL_WrapperPacket::parse_from_bytes(inside(1, &short)),
            Err(ProtoError::MessageNotInitialized)
        );
    }
    // a ball without one of its required fields; its area and height may be missing
    for missing in [1u32, 3, 4, 6, 7] {
        let numbers: Vec<u32> = (1..8).filter(|n| *n != missing).collect();
        assert_eq!(
            SSL_WrapperPacket::parse_from_bytes(inside(1, &detection(3, &[seen(&numbers)]))),
            Err(ProtoError::MessageNotInitialized)
        );
    }
    assert!(
        SSL_WrapperPacket::parse_from_bytes(inside(1, &detection(3, &[seen(&[1, 3, 4, 6, 7])])))
            .is_ok()
    );
    // the second ball counts as the first does
    assert_eq!(
        SSL_WrapperPacket::parse_from_bytes(inside(
            1,
            &detection(3, &[seen(&[1, 3, 4, 6, 7]), seen(&[1, 3, 4, 6])])
        )),
        Err(ProtoError::MessageNotInitialized)
    );
    // a geometry without the field, and a field without one of its sizes
    assert_eq!(
        SSL_WrapperPacket::parse_from_bytes(vec![0x12, 0]),
        Err(ProtoError::MessageNotInitialized)
    );
    assert_eq!(
        SSL_WrapperPacket::parse_from_bytes(inside(2, &inside(1, &field_size(&[1, 2, 3, 4])))),
        Err(ProtoError::MessageNotInitialized)
    );
}

#[test]
fn frame_round_trip() {
    let mut frame = LabelerFrame::new();
    assert_eq!(frame.write_to_bytes(), vec![0x08, 0]);
    assert_eq!(LabelerFrame::parse_from_bytes(&[0x08, 0]), Ok(frame.clone()));
    assert_eq!(LabelerFrame::parse_from_bytes(&[]), Ok(frame.clone()));
    frame.set_timestamp(100);
    frame.set_referee_frame(SSL_Referee::new(
        1,
        SSL_Referee_Stage::NORMAL_FIRST_HALF,
        SSL_Referee_Command::NORMAL_START,
        3,
        4,
    ));
    assert!(frame.has_referee_frame());
    assert!(!frame.has_vision_frame());
    assert_eq!(frame.camera_id(), None);
    assert_eq!(
        frame.write_to_bytes(),
        [&[0x08, 100, 0x1A, 42], &REFEREE_BYTES[..]].concat()
    );
    assert_eq!(LabelerFrame::parse_from_bytes(&frame.write_to_bytes()), Ok(frame.clone()));
    frame.set_timestamp(u64::MAX);
    frame.set_vision_frame(SSL_WrapperPacket::with_detection(7, 2));
    assert!(frame.has_vision_frame());
    assert!(!frame.has_referee_frame());
    assert_eq!(frame.camera_id(), Some(2));
    assert_eq!(frame.get_timestamp(), u64::MAX);
    assert_eq!(
        frame.write_to_bytes(),
        [
            &[0x08, 0xff, 0xff, 0xff, 0xff, 0xff, 0xff, 0xff, 0xff, 0xff, 0x01, 0x12, 24],
            &WRAPPER_BYTES[..]
        ]
        .concat()
    );
    assert_eq!(LabelerFrame::parse_from_bytes(&frame.write_to_bytes()), Ok(frame));
}

#[test]
fn frame_that_is_refused() {
    assert_eq!(LabelerFrame::parse_from_bytes(&[0x0D, 0, 0, 0, 0]), Err(ProtoError::UnexpectedWireType));
    assert_eq!(LabelerFrame::parse_from_bytes(&[0x10, 0]), Err(ProtoError::UnexpectedWireType));
    assert_eq!(LabelerFrame::parse_from_bytes(&[0x18, 0]), Err(ProtoError::UnexpectedWireType));
    assert_eq!(LabelerFrame::parse_from_bytes(&[0x1A, 0]), Err(ProtoError::MessageNotInitialized));
    assert_eq!(LabelerFrame::parse_from_bytes(&[0x12, 2, 0x08, 0]), Err(ProtoError::UnexpectedWireType));
    // fields that a frame does not have are passed over
    let frame = LabelerFrame::parse_from_bytes(&[0x20, 5, 0x08, 9]).unwrap();
    assert_eq!(frame.get_timestamp(), 9);
    assert_eq!(frame.frame, None);
}

#[test]
fn group_round_trip() {
    let mut group = LabelerFrameGroup::new();
    assert_eq!(group.write_to_bytes(), vec![]);
    assert_eq!(LabelerFrameGroup::parse_from_bytes(&[]), Ok(group.clone()));
    for camera_id in 0..4 {
        let mut frame = LabelerFrame::new();
        frame.set_timestamp(1000 + camera_id as u64);
        frame.set_vision_frame(SSL_WrapperPacket::with_detection(9, camera_id));
        group.frames.push(frame);
    }
    group.frames.push(LabelerFrame::new());
    let bytes = group.write_to_bytes();
    assert_eq!(&bytes[..13], &[0x0A, 29, 0x08, 0xE8, 0x07, 0x12, 24, 0x0A, 22, 0x08, 9, 0x11, 0]);
    assert_eq!(&bytes[bytes.len() - 4..], &[0x0A, 2, 0x08, 0]);
    assert_eq!(LabelerFrameGroup::write_frames(&group.frames), bytes);
    assert_eq!(LabelerFrameGroup::parse_from_bytes(&bytes), Ok(group));
}

#[test]
fn group_that_is_refused() {
    assert_eq!(LabelerFrameGroup::parse_from_bytes(&[0x08, 0]), Err(ProtoError::UnexpectedWireType));
    assert_eq!(
        LabelerFrameGroup::parse_from_bytes(&[0x0A, 2, 0x10, 0]),
        Err(ProtoError::UnexpectedWireType)
    );
    assert_eq!(LabelerFrameGroup::parse_from_bytes(&[0x0A, 2, 0x08]), Err(ProtoError::UnexpectedEof));
    assert_eq!(
        LabelerFrameGroup::parse_from_bytes(&[0x12, 1, 0]).unwrap().frames.len(),
        0
    );
}

#[test]
fn metadata_round_trip() {
    let mut metadata = LabelerMetadata::new();
    assert_eq!(metadata.write_to_bytes(), vec![0x08, 0, 0x18, 0, 0x20, 0]);
    assert_eq!(LabelerMetadata::parse_from_bytes(&[]), Ok(metadata.clone()));
    metadata.num_cameras = 3;
    metadata.message_offsets = vec![20, 300, u64::MAX];
    metadata.num_passing_events = 128;
    metadata.num_goal_shot_events = u32::MAX;
    let bytes = metadata.write_to_bytes();
    assert_eq!(
        bytes,
        vec![
            0x08, 3, 0x10, 20, 0x10, 0xAC, 0x02, 0x10, 0xff, 0xff, 0xff, 0xff, 0xff, 0xff, 0xff,
            0xff, 0xff, 0x01, 0x18, 0x80, 0x01, 0x20, 0xff, 0xff, 0xff, 0xff, 0x0f
        ]
    );
    assert_eq!(LabelerMetadata::parse_from_bytes(&bytes), Ok(metadata));
}

#[test]
fn metadata_is_what_the_protobuf_crate_reads() {
    let mut metadata = LabelerMetadata::new();
    metadata.num_cameras = 4;
    metadata.message_offsets = vec![20, 70_000];
    let bytes = metadata.write_to_bytes();
    let mut input = CodedInputStream::from_bytes(&bytes);
    assert_eq!(input.read_tag_unpack().unwrap().0, 1);
    assert_eq!(input.read_uint32().unwrap(), 4);
    assert_eq!(input.read_tag_unpack().unwrap().0, 2);
    assert_eq!(input.read_uint64().unwrap(), 20);
    assert_eq!(input.read_tag_unpack().unwrap().0, 2);
    assert_eq!(input.read_uint64().unwrap(), 70_000);
    assert_eq!(input.read_tag_unpack().unwrap().0, 3);
    assert_eq!(input.read_uint32().unwrap(), 0);
    assert_eq!(input.read_tag_unpack().unwrap().0, 4);
    assert_eq!(input.read_uint32().unwrap(), 0);
    assert!(input.eof().unwrap());
}

#[test]
fn metadata_read_from_foreign_bytes() {
    // the last count counts, offsets add up, other fields are passed over
    let bytes = [0x10, 5, 0x08, 1, 0x28, 9, 0x08, 2, 0x10, 6, 0x20, 0x81, 0x80, 0x80, 0x80, 0x10];
    let metadata = LabelerMetadata::parse_from_bytes(&bytes).unwrap();
    assert_eq!(metadata.num_cameras, 2);
    assert_eq!(metadata.message_offsets, vec![5, 6]);
    assert_eq!(metadata.num_passing_events, 0);
    assert_eq!(metadata.num_goal_shot_events, 1);
}

#[test]
fn metadata_with_packed_offsets() {
    // the offsets under one length, as a run of varints
    let metadata =
        LabelerMetadata::parse_from_bytes(&[0x08, 2, 0x12, 4, 20, 0xAC, 0x02, 0, 0x18, 1]).unwrap();
    assert_eq!(metadata.num_cameras, 2);
    assert_eq!(metadata.message_offsets, vec![20, 300, 0]);
    assert_eq!(metadata.num_passing_events, 1);
    // packed and one by one in one index, in the order in which they come
    let metadata =
        LabelerMetadata::parse_from_bytes(&[0x10, 7, 0x12, 2, 8, 9, 0x12, 0, 0x10, 10]).unwrap();
    assert_eq!(metadata.message_offsets, vec![7, 8, 9, 10]);
    // what the protobuf crate writes as packed is read
    let mut bytes = Vec::new();
    {
        let mut run = Vec::new();
        {
            let mut inner = CodedOutputStream::vec(&mut run);
            inner.write_uint64_no_tag(20).unwrap();
            inner.write_uint64_no_tag(u64::MAX).unwrap();
            inner.flush().unwrap();
        }
        let mut output = CodedOutputStream::vec(&mut bytes);
        output.write_bytes(2, &run).unwrap();
        output.flush().unwrap();
    }
    assert_eq!(LabelerMetadata::parse_from_bytes(&bytes).unwrap().message_offsets, vec![20, u64::MAX]);
}

#[test]
fn metadata_that_is_refused() {
    assert_eq!(LabelerMetadata::parse_from_bytes(&[0x0A, 0]), Err(ProtoError::UnexpectedWireType));
    assert_eq!(LabelerMetadata::parse_from_bytes(&[0x12, 1, 0x80]), Err(ProtoError::IncorrectVarint));
    assert_eq!(
        LabelerMetadata::parse_from_bytes(&[0x1A, 1, 5]),
        Err(ProtoError::UnexpectedWireType)
    );
    assert_eq!(
        LabelerMetadata::parse_from_bytes(&[0x1D, 0, 0, 0, 0]),
        Err(ProtoError::UnexpectedWireType)
    );
    assert_eq!(
        LabelerMetadata::parse_from_bytes(&[0x21, 0, 0, 0, 0, 0, 0, 0, 0]),
        Err(ProtoError::UnexpectedWireType)
    );
    assert_eq!(LabelerMetadata::parse_from_bytes(&[0x08]), Err(ProtoError::IncorrectVarint));
}

#[test]
fn labels_read_from_bytes() {
    let mut dribbling = Vec::new();
    put_varint_field(&mut dribbling, 1, 1);
    put_varint_field(&mut dribbling, 2, 7);
    put_varint_field(&mut dribbling, 3, 1);
    let mut possession = Vec::new();
    put_varint_field(&mut possession, 1, 2);
    put_varint_field(&mut possession, 2, 3);
    let mut passing = Vec::new();
    put_varint_field(&mut passing, 1, 100);
    put_varint_field(&mut passing, 2, 250);
    put_varint_field(&mut passing, 3, 1);
    put_varint_field(&mut passing, 4, 4);
    put_varint_field(&mut passing, 5, 0);
    put_varint_field(&mut passing, 6, 5);
    let mut goal_shot = Vec::new();
    put_varint_field(&mut goal_shot, 1, 300);
    put_varint_field(&mut goal_shot, 2, u64::MAX);
    put_varint_field(&mut goal_shot, 4, 9);
    put_varint_field(&mut goal_shot, 5, 1);
    let mut bytes = Vec::new();
    put_bytes_field(&mut bytes, 3, &passing);
    put_bytes_field(&mut bytes, 1, &dribbling);
    put_bytes_field(&mut bytes, 1, &[]);
    put_bytes_field(&mut bytes, 4, &goal_shot);
    put_bytes_field(&mut bytes, 2, &possession);
    put_varint_field(&mut bytes, 9, 1);

    let labels = Labels::parse_from_bytes(&bytes).unwrap();
    assert_eq!(
        labels.dribbling_labels,
        vec![
            DribblingLabel { is_dribbling: true, robot_id: 7, team: Team::Blue },
            DribblingLabel { is_dribbling: false, robot_id: 0, team: Team::Yellow },
        ]
    );
    assert_eq!(
        labels.ball_possession_labels,
        vec![BallPossessionLabel { state: BallPossessionLabel_State::BLUE_POSSES, robot_id: 3 }]
    );
    assert_eq!(
        labels.passing_labels,
        vec![PassingLabel {
            start_frame: 100,
            end_frame: 250,
            successful: true,
            passer_id: 4,
            passer_team: Team::Yellow,
            receiver_id: 5,
        }]
    );
    assert_eq!(
        labels.goal_shot_labels,
        vec![GoalShotLabel {
            start_frame: 300,
            end_frame: u64::MAX,
            successful: false,
            shooter_id: 9,
            shooter_team: Team::Blue,
        }]
    );
    assert_eq!(Labels::parse_from_bytes(&[]), Ok(Labels::new()));
    assert_eq!(DribblingLabel::parse_from_bytes(&dribbling), Ok(labels.dribbling_labels[0]));
    assert_eq!(PassingLabel::parse_from_bytes(&passing), Ok(labels.passing_labels[0]));
    assert_eq!(GoalShotLabel::parse_from_bytes(&goal_shot), Ok(labels.goal_shot_labels[0]));
    assert_eq!(
        BallPossessionLabel::parse_from_bytes(&possession),
        Ok(labels.ball_possession_labels[0])
    );
}

#[test]
fn labels_pass_over_a_team_or_state_that_is_none() {
    // a team of number 2: the label keeps the team it had
    let labels = Labels::parse_from_bytes(&[0x0A, 4, 0x10, 7, 0x18, 2]).unwrap();
    assert_eq!(
        labels.dribbling_labels,
        vec![DribblingLabel { is_dribbling: false, robot_id: 7, team: Team::Yellow }]
    );
    let label = DribblingLabel::parse_from_bytes(&[0x18, 1, 0x18, 2]).unwrap();
    assert_eq!(label.team, Team::Blue);
    // a state of number 3
    let label = BallPossessionLabel::parse_from_bytes(&[0x08, 2, 0x08, 3, 0x10, 4]).unwrap();
    assert_eq!(label.state, BallPossessionLabel_State::BLUE_POSSES);
    assert_eq!(label.robot_id, 4);
    let label = PassingLabel::parse_from_bytes(&[0x28, 9]).unwrap();
    assert_eq!(label.passer_team, Team::Yellow);
    let label = GoalShotLabel::parse_from_bytes(&[0x28, 1, 0x28, 9]).unwrap();
    assert_eq!(label.shooter_team, Team::Blue);
    // the low 32 bits count
    let label = DribblingLabel::parse_from_bytes(&[0x18, 0x81, 0x80, 0x80, 0x80, 0x10]).unwrap();
    assert_eq!(label.team, Team::Blue);
}

#[test]
fn labels_that_are_refused() {
    assert_eq!(Labels::parse_from_bytes(&[0x08, 1]), Err(ProtoError::UnexpectedWireType));
    assert_eq!(
        Labels::parse_from_bytes(&[0x1A, 3, 0x0A, 1, 0]),
        Err(ProtoError::UnexpectedWireType)
    );
    assert_eq!(Labels::parse_from_bytes(&[0x22, 2, 0x08]), Err(ProtoError::UnexpectedEof));
    assert_eq!(Labels::parse_from_bytes(&[0x22, 1, 0x08]), Err(ProtoError::IncorrectVarint));
}
