//! The referee message. The tools read its stage; the rest of it is held
//! to its schema and kept as bytes.

use crate::protos::schema::check_conforms;
use crate::protos::schema::field_check;
use crate::protos::schema::fields_check;
use crate::protos::schema::fields_conform;
use crate::protos::schema::initialized;
use crate::protos::schema::joined;
use crate::protos::schema::known_number;
use crate::protos::schema::lemma_fields_check;
use crate::protos::schema::lemma_fields_check_refuses;
use crate::protos::schema::lemma_joined_single;
use crate::protos::schema::lemma_required_missing;
use crate::protos::schema::low32;
use crate::protos::schema::low_bits;
use crate::protos::schema::number_ok;
use crate::protos::schema::occurs;
use crate::protos::schema::rule_of;
use crate::protos::schema::sets;
use crate::protos::schema::MessageKind;
use crate::protos::wire::fields_bytes;
use crate::protos::wire::fields_view;
use crate::protos::wire::fields_wf;
use crate::protos::wire::lemma_field_bytes_len;
use crate::protos::wire::lemma_fields_bytes_len;
use crate::protos::wire::lemma_fields_round_trip;
use crate::protos::wire::parse_fields;
use crate::protos::wire::read_fields;
use crate::protos::wire::write_fields;
use crate::protos::wire::FieldSpec;
use crate::protos::wire::MAX_PAYLOAD_LEN;
use crate::protos::wire::ProtoError;
use crate::protos::wire::ValueSpec;
use crate::protos::wire::WireField;
use crate::protos::wire::WireValue;
use vstd::prelude::*;
use vstd::utf8::valid_utf8;

verus! {

/// The stage of the match that a referee message announces.
#[allow(non_camel_case_types)]
#[derive(Clone, Copy, Debug, PartialEq, Eq, Structural)]
pub enum SSL_Referee_Stage {
    NORMAL_FIRST_HALF_PRE,
    NORMAL_FIRST_HALF,
    NORMAL_HALF_TIME,
    NORMAL_SECOND_HALF_PRE,
    NORMAL_SECOND_HALF,
    EXTRA_TIME_BREAK,
    EXTRA_FIRST_HALF_PRE,
    EXTRA_FIRST_HALF,
    EXTRA_HALF_TIME,
    EXTRA_SECOND_HALF_PRE,
    EXTRA_SECOND_HALF,
    PENALTY_SHOOTOUT_BREAK,
    PENALTY_SHOOTOUT,
    POST_GAME,
}

impl SSL_Referee_Stage {
    /// Whether game time is active in this stage: the two halves of normal
    /// time and the two halves of extra time.
    pub open spec fn is_running(self) -> bool {
        self == SSL_Referee_Stage::NORMAL_FIRST_HALF
            || self == SSL_Referee_Stage::NORMAL_SECOND_HALF
            || self == SSL_Referee_Stage::EXTRA_FIRST_HALF
            || self == SSL_Referee_Stage::EXTRA_SECOND_HALF
    }

    /// The number that stands for this stage on the wire.
    pub open spec fn spec_value(self) -> u64 {
        match self {
            SSL_Referee_Stage::NORMAL_FIRST_HALF_PRE => 0,
            SSL_Referee_Stage::NORMAL_FIRST_HALF => 1,
            SSL_Referee_Stage::NORMAL_HALF_TIME => 2,
            SSL_Referee_Stage::NORMAL_SECOND_HALF_PRE => 3,
            SSL_Referee_Stage::NORMAL_SECOND_HALF => 4,
            SSL_Referee_Stage::EXTRA_TIME_BREAK => 5,
            SSL_Referee_Stage::EXTRA_FIRST_HALF_PRE => 6,
            SSL_Referee_Stage::EXTRA_FIRST_HALF => 7,
            SSL_Referee_Stage::EXTRA_HALF_TIME => 8,
            SSL_Referee_Stage::EXTRA_SECOND_HALF_PRE => 9,
            SSL_Referee_Stage::EXTRA_SECOND_HALF => 10,
            SSL_Referee_Stage::PENALTY_SHOOTOUT_BREAK => 11,
            SSL_Referee_Stage::PENALTY_SHOOTOUT => 12,
            SSL_Referee_Stage::POST_GAME => 13,
        }
    }

    /// The stage that a wire number stands for, if any.
    pub open spec fn spec_from_value(v: u64) -> Option<SSL_Referee_Stage> {
        if v == 0 {
            Some(SSL_Referee_Stage::NORMAL_FIRST_HALF_PRE)
        } else if v == 1 {
            Some(SSL_Referee_Stage::NORMAL_FIRST_HALF)
        } else if v == 2 {
            Some(SSL_Referee_Stage::NORMAL_HALF_TIME)
        } else if v == 3 {
            Some(SSL_Referee_Stage::NORMAL_SECOND_HALF_PRE)
        } else if v == 4 {
            Some(SSL_Referee_Stage::NORMAL_SECOND_HALF)
        } else if v == 5 {
            Some(SSL_Referee_Stage::EXTRA_TIME_BREAK)
        } else if v == 6 {
            Some(SSL_Referee_Stage::EXTRA_FIRST_HALF_PRE)
        } else if v == 7 {
            Some(SSL_Referee_Stage::EXTRA_FIRST_HALF)
        } else if v == 8 {
            Some(SSL_Referee_Stage::EXTRA_HALF_TIME)
        } else if v == 9 {
            Some(SSL_Referee_Stage::EXTRA_SECOND_HALF_PRE)
        } else if v == 10 {
            Some(SSL_Referee_Stage::EXTRA_SECOND_HALF)
        } else if v == 11 {
            Some(SSL_Referee_Stage::PENALTY_SHOOTOUT_BREAK)
        } else if v == 12 {
            Some(SSL_Referee_Stage::PENALTY_SHOOTOUT)
        } else if v == 13 {
            Some(SSL_Referee_Stage::POST_GAME)
        } else {
            None
        }
    }

    /// The number that stands for this stage on the wire.
    pub fn value(self) -> (v: u64)
        ensures
            v == self.spec_value(),
            SSL_Referee_Stage::spec_from_value(v) == Some(self),
    {
        match self {
            SSL_Referee_Stage::NORMAL_FIRST_HALF_PRE => 0,
            SSL_Referee_Stage::NORMAL_FIRST_HALF => 1,
            SSL_Referee_Stage::NORMAL_HALF_TIME => 2,
            SSL_Referee_Stage::NORMAL_SECOND_HALF_PRE => 3,
            SSL_Referee_Stage::NORMAL_SECOND_HALF => 4,
            SSL_Referee_Stage::EXTRA_TIME_BREAK => 5,
            SSL_Referee_Stage::EXTRA_FIRST_HALF_PRE => 6,
            SSL_Referee_Stage::EXTRA_FIRST_HALF => 7,
            SSL_Referee_Stage::EXTRA_HALF_TIME => 8,
            SSL_Referee_Stage::EXTRA_SECOND_HALF_PRE => 9,
            SSL_Referee_Stage::EXTRA_SECOND_HALF => 10,
            SSL_Referee_Stage::PENALTY_SHOOTOUT_BREAK => 11,
            SSL_Referee_Stage::PENALTY_SHOOTOUT => 12,
            SSL_Referee_Stage::POST_GAME => 13,
        }
    }

    /// The stage that a wire number stands for, if any.
    pub fn from_value(v: u64) -> (r: Option<SSL_Referee_Stage>)
        ensures
            r == SSL_Referee_Stage::spec_from_value(v),
    {
        if v == 0 {
            Some(SSL_Referee_Stage::NORMAL_FIRST_HALF_PRE)
        } else if v == 1 {
            Some(SSL_Referee_Stage::NORMAL_FIRST_HALF)
        } else if v == 2 {
            Some(SSL_Referee_Stage::NORMAL_HALF_TIME)
        } else if v == 3 {
            Some(SSL_Referee_Stage::NORMAL_SECOND_HALF_PRE)
        } else if v == 4 {
            Some(SSL_Referee_Stage::NORMAL_SECOND_HALF)
        } else if v == 5 {
            Some(SSL_Referee_Stage::EXTRA_TIME_BREAK)
        } else if v == 6 {
            Some(SSL_Referee_Stage::EXTRA_FIRST_HALF_PRE)
        } else if v == 7 {
            Some(SSL_Referee_Stage::EXTRA_FIRST_HALF)
        } else if v == 8 {
            Some(SSL_Referee_Stage::EXTRA_HALF_TIME)
        } else if v == 9 {
            Some(SSL_Referee_Stage::EXTRA_SECOND_HALF_PRE)
        } else if v == 10 {
            Some(SSL_Referee_Stage::EXTRA_SECOND_HALF)
        } else if v == 11 {
            Some(SSL_Referee_Stage::PENALTY_SHOOTOUT_BREAK)
        } else if v == 12 {
            Some(SSL_Referee_Stage::PENALTY_SHOOTOUT)
        } else if v == 13 {
            Some(SSL_Referee_Stage::POST_GAME)
        } else {
            None
        }
    }
}

/// The command that a referee message gives.
#[allow(non_camel_case_types)]
#[derive(Clone, Copy, Debug, PartialEq, Eq, Structural)]
pub enum SSL_Referee_Command {
    HALT,
    STOP,
    NORMAL_START,
    FORCE_START,
    PREPARE_KICKOFF_YELLOW,
    PREPARE_KICKOFF_BLUE,
    PREPARE_PENALTY_YELLOW,
    PREPARE_PENALTY_BLUE,
    DIRECT_FREE_YELLOW,
    DIRECT_FREE_BLUE,
    INDIRECT_FREE_YELLOW,
    INDIRECT_FREE_BLUE,
    TIMEOUT_YELLOW,
    TIMEOUT_BLUE,
    GOAL_YELLOW,
    GOAL_BLUE,
    BALL_PLACEMENT_YELLOW,
    BALL_PLACEMENT_BLUE,
}

impl SSL_Referee_Command {
    /// The number that stands for this command on the wire.
    pub open spec fn spec_value(self) -> u64 {
        match self {
            SSL_Referee_Command::HALT => 0,
            SSL_Referee_Command::STOP => 1,
            SSL_Referee_Command::NORMAL_START => 2,
            SSL_Referee_Command::FORCE_START => 3,
            SSL_Referee_Command::PREPARE_KICKOFF_YELLOW => 4,
            SSL_Referee_Command::PREPARE_KICKOFF_BLUE => 5,
            SSL_Referee_Command::PREPARE_PENALTY_YELLOW => 6,
            SSL_Referee_Command::PREPARE_PENALTY_BLUE => 7,
            SSL_Referee_Command::DIRECT_FREE_YELLOW => 8,
            SSL_Referee_Command::DIRECT_FREE_BLUE => 9,
            SSL_Referee_Command::INDIRECT_FREE_YELLOW => 10,
            SSL_Referee_Command::INDIRECT_FREE_BLUE => 11,
            SSL_Referee_Command::TIMEOUT_YELLOW => 12,
            SSL_Referee_Command::TIMEOUT_BLUE => 13,
            SSL_Referee_Command::GOAL_YELLOW => 14,
            SSL_Referee_Command::GOAL_BLUE => 15,
            SSL_Referee_Command::BALL_PLACEMENT_YELLOW => 16,
            SSL_Referee_Command::BALL_PLACEMENT_BLUE => 17,
        }
    }

    /// The number that stands for this command on the wire.
    pub fn value(self) -> (v: u64)
        ensures
            v == self.spec_value(),
    {
        match self {
            SSL_Referee_Command::HALT => 0,
            SSL_Referee_Command::STOP => 1,
            SSL_Referee_Command::NORMAL_START => 2,
            SSL_Referee_Command::FORCE_START => 3,
            SSL_Referee_Command::PREPARE_KICKOFF_YELLOW => 4,
            SSL_Referee_Command::PREPARE_KICKOFF_BLUE => 5,
            SSL_Referee_Command::PREPARE_PENALTY_YELLOW => 6,
            SSL_Referee_Command::PREPARE_PENALTY_BLUE => 7,
            SSL_Referee_Command::DIRECT_FREE_YELLOW => 8,
            SSL_Referee_Command::DIRECT_FREE_BLUE => 9,
            SSL_Referee_Command::INDIRECT_FREE_YELLOW => 10,
            SSL_Referee_Command::INDIRECT_FREE_BLUE => 11,
            SSL_Referee_Command::TIMEOUT_YELLOW => 12,
            SSL_Referee_Command::TIMEOUT_BLUE => 13,
            SSL_Referee_Command::GOAL_YELLOW => 14,
            SSL_Referee_Command::GOAL_BLUE => 15,
            SSL_Referee_Command::BALL_PLACEMENT_YELLOW => 16,
            SSL_Referee_Command::BALL_PLACEMENT_BLUE => 17,
        }
    }
}

/// The field number of the packet timestamp in a referee message.
pub const PACKET_TIMESTAMP_FIELD: u32 = 1;

/// The field number of the stage in a referee message.
pub const STAGE_FIELD: u32 = 2;

/// The field number of the command in a referee message.
pub const COMMAND_FIELD: u32 = 4;

/// The field number of the command counter in a referee message.
pub const COMMAND_COUNTER_FIELD: u32 = 5;

/// The field number of the command timestamp in a referee message.
pub const COMMAND_TIMESTAMP_FIELD: u32 = 6;

/// The field number of the yellow team in a referee message.
pub const YELLOW_FIELD: u32 = 7;

/// The field number of the blue team in a referee message.
pub const BLUE_FIELD: u32 = 8;

/// The field number of the name of a team.
pub const TEAM_NAME_FIELD: u32 = 1;

/// The field number of the goals of a team.
pub const TEAM_SCORE_FIELD: u32 = 2;

/// The field number of the red cards of a team.
pub const TEAM_RED_CARDS_FIELD: u32 = 3;

/// The field number of the yellow cards of a team.
pub const TEAM_YELLOW_CARDS_FIELD: u32 = 5;

/// The field number of the timeouts that a team has left.
pub const TEAM_TIMEOUTS_FIELD: u32 = 6;

/// The field number of the timeout time that a team has left.
pub const TEAM_TIMEOUT_TIME_FIELD: u32 = 7;

/// The field number of the goalkeeper of a team.
pub const TEAM_GOALIE_FIELD: u32 = 8;

/// The stage after one more field: a stage field that names a stage
/// gives it, any other field leaves what was found.
pub open spec fn stage_after(found: Option<SSL_Referee_Stage>, f: FieldSpec) -> Option<
    SSL_Referee_Stage,
> {
    if f.number == STAGE_FIELD {
        match f.value {
            ValueSpec::Varint(v) => match SSL_Referee_Stage::spec_from_value(low32(v)) {
                Some(stage) => Some(stage),
                None => found,
            },
            _ => found,
        }
    } else {
        found
    }
}

/// Goes through the fields of a referee message for its stage: the last
/// stage field that names a stage counts.
pub open spec fn scan_stage(fields: Seq<FieldSpec>, found: Option<SSL_Referee_Stage>) -> Option<
    SSL_Referee_Stage,
>
    decreases fields.len(),
{
    if fields.len() == 0 {
        found
    } else {
        scan_stage(fields.skip(1), stage_after(found, fields[0]))
    }
}

/// The stage that the bytes of a referee message announce, or why they are
/// no referee message. The bytes split into fields. Each field that the
/// schema knows is written as the schema has it, in the message and in
/// the two teams; where one is not, the error is `UnexpectedWireType`, or
/// that of the text or the varints inside it. And no required field is
/// missing: packet timestamp, stage, command, command counter, command
/// timestamp and the two teams, and of each team its name, score, red
/// cards, yellow cards, timeouts, timeout time and goalkeeper; where one
/// is, the error is `MessageNotInitialized`. A stage or command whose
/// number names no variant counts as missing. Fields with other numbers
/// are passed over.
#[verifier::opaque]
pub open spec fn referee_stage(bytes: Seq<u8>) -> Result<SSL_Referee_Stage, ProtoError> {
    match read_fields(bytes) {
        Err(e) => Err(e),
        Ok(fields) => match fields_conform(MessageKind::Referee, fields) {
            Err(e) => Err(e),
            Ok(_) => match scan_stage(fields, None) {
                None => Err(ProtoError::MessageNotInitialized),
                Some(stage) => Ok(stage),
            },
        },
    }
}

/// What a referee message is to the tools: its bytes, and the stage that
/// they announce. The stage is the one field that the tools read.
pub struct RefereeSpec {
    pub bytes: Seq<u8>,
    pub stage: SSL_Referee_Stage,
}

impl RefereeSpec {
    /// The bytes are a referee message of this stage, short enough for a
    /// log record.
    pub open spec fn wf(self) -> bool {
        self.bytes.len() <= MAX_PAYLOAD_LEN && referee_stage(self.bytes) == Ok::<
            SSL_Referee_Stage,
            ProtoError,
        >(self.stage)
    }
}

/// What `parse_from_bytes` makes of `bytes`: a referee message, where
/// they are no longer than a log record can frame and are a message of
/// the referee's schema with all that it requires.
pub open spec fn parse_referee(bytes: Seq<u8>) -> Result<RefereeSpec, ProtoError> {
    if bytes.len() > MAX_PAYLOAD_LEN {
        Err(ProtoError::TooLarge)
    } else {
        match referee_stage(bytes) {
            Err(e) => Err(e),
            Ok(stage) => Ok(RefereeSpec { bytes, stage }),
        }
    }
}

/// The fields of a team of which nothing is known: no name, and nothing
/// counted.
pub open spec fn team_fields() -> Seq<FieldSpec> {
    seq![
        FieldSpec { number: TEAM_NAME_FIELD, value: ValueSpec::LengthDelimited(Seq::empty()) },
        FieldSpec { number: TEAM_SCORE_FIELD, value: ValueSpec::Varint(0) },
        FieldSpec { number: TEAM_RED_CARDS_FIELD, value: ValueSpec::Varint(0) },
        FieldSpec { number: TEAM_YELLOW_CARDS_FIELD, value: ValueSpec::Varint(0) },
        FieldSpec { number: TEAM_TIMEOUTS_FIELD, value: ValueSpec::Varint(0) },
        FieldSpec { number: TEAM_TIMEOUT_TIME_FIELD, value: ValueSpec::Varint(0) },
        FieldSpec { number: TEAM_GOALIE_FIELD, value: ValueSpec::Varint(0) },
    ]
}

/// The fields that `SSL_Referee::new` writes: the five that it is given,
/// and the two teams with nothing known of them.
pub open spec fn referee_fields(
    packet_timestamp: u64,
    stage: SSL_Referee_Stage,
    command: SSL_Referee_Command,
    command_counter: u32,
    command_timestamp: u64,
) -> Seq<FieldSpec> {
    seq![
        FieldSpec { number: PACKET_TIMESTAMP_FIELD, value: ValueSpec::Varint(packet_timestamp) },
        FieldSpec { number: STAGE_FIELD, value: ValueSpec::Varint(stage.spec_value()) },
        FieldSpec { number: COMMAND_FIELD, value: ValueSpec::Varint(command.spec_value()) },
        FieldSpec {
            number: COMMAND_COUNTER_FIELD,
            value: ValueSpec::Varint(command_counter as u64),
        },
        FieldSpec { number: COMMAND_TIMESTAMP_FIELD, value: ValueSpec::Varint(command_timestamp) },
        FieldSpec {
            number: YELLOW_FIELD,
            value: ValueSpec::LengthDelimited(fields_bytes(team_fields())),
        },
        FieldSpec {
            number: BLUE_FIELD,
            value: ValueSpec::LengthDelimited(fields_bytes(team_fields())),
        },
    ]
}

/// A referee message. It keeps the bytes it was read from, so that it is
/// sent on exactly as it was recorded.
#[allow(non_camel_case_types)]
#[derive(Debug, PartialEq, Eq)]
pub struct SSL_Referee {
    bytes: Vec<u8>,
    stage: SSL_Referee_Stage,
}

impl View for SSL_Referee {
    type V = RefereeSpec;

    closed spec fn view(&self) -> RefereeSpec {
        RefereeSpec { bytes: self.bytes@, stage: self.stage }
    }
}

impl Clone for SSL_Referee {
    fn clone(&self) -> (r: SSL_Referee)
        ensures
            r@ == self@,
    {
        proof {
            use_type_invariant(self);
        }
        let bytes = self.bytes.clone();
        assert(bytes@ =~= self.bytes@);
        SSL_Referee { bytes, stage: self.stage }
    }
}

/// The stage that the fields of a referee message announce.
pub fn find_stage(fields: &Vec<WireField>) -> (r: Option<SSL_Referee_Stage>)
    ensures
        r == scan_stage(fields_view(fields@), None),
{
    let ghost all = fields_view(fields@);
    let mut found: Option<SSL_Referee_Stage> = None;
    let mut i: usize = 0;
    assert(all.skip(0) =~= all);
    while i < fields.len()
        invariant
            i <= fields@.len(),
            all == fields_view(fields@),
            scan_stage(all, None) == scan_stage(all.skip(i as int), found),
        decreases fields@.len() - i,
    {
        let ghost rest = all.skip(i as int);
        assert(rest[0] == fields@[i as int]@);
        assert(rest.skip(1) =~= all.skip(i + 1));
        if fields[i].number == STAGE_FIELD {
            match &fields[i].value {
                WireValue::Varint(v) => match SSL_Referee_Stage::from_value(low_bits(*v)) {
                    Some(stage) => {
                        found = Some(stage);
                    },
                    None => {},
                },
                _ => {},
            }
        }
        i = i + 1;
    }
    found
}

/// The bytes of a team of which nothing is known.
fn default_team() -> (r: Vec<u8>)
    ensures
        r@ == fields_bytes(team_fields()),
{
    let mut fields: Vec<WireField> = Vec::new();
    fields.push(
        WireField { number: TEAM_NAME_FIELD, value: WireValue::LengthDelimited(Vec::new()) },
    );
    fields.push(WireField { number: TEAM_SCORE_FIELD, value: WireValue::Varint(0) });
    fields.push(WireField { number: TEAM_RED_CARDS_FIELD, value: WireValue::Varint(0) });
    fields.push(WireField { number: TEAM_YELLOW_CARDS_FIELD, value: WireValue::Varint(0) });
    fields.push(WireField { number: TEAM_TIMEOUTS_FIELD, value: WireValue::Varint(0) });
    fields.push(WireField { number: TEAM_TIMEOUT_TIME_FIELD, value: WireValue::Varint(0) });
    fields.push(WireField { number: TEAM_GOALIE_FIELD, value: WireValue::Varint(0) });
    proof {
        assert(fields@[0]@.value =~= ValueSpec::LengthDelimited(Seq::empty()));
        assert(fields_view(fields@) =~= team_fields());
        lemma_team_fields();
    }
    write_fields(&fields)
}

impl SSL_Referee {
    #[verifier::type_invariant]
    spec fn inv(&self) -> bool {
        self@.wf()
    }

    /// Reads a referee message from its bytes. They are held to the
    /// schema of the referee message, required fields and all; the stage
    /// is read, and the bytes are kept whole.
    pub fn parse_from_bytes(bytes: Vec<u8>) -> (r: Result<SSL_Referee, ProtoError>)
        ensures
            match parse_referee(bytes@) {
                Ok(m) => r is Ok && r->Ok_0@ == m && m.wf(),
                Err(e) => r == Err::<SSL_Referee, ProtoError>(e),
            },
    {
        reveal(referee_stage);
        if bytes.len() > MAX_PAYLOAD_LEN {
            return Err(ProtoError::TooLarge);
        }
        let fields = match parse_fields(bytes.as_slice()) {
            Ok(fields) => fields,
            Err(e) => { return Err(e); },
        };
        match check_conforms(MessageKind::Referee, &fields) {
            Ok(_) => {},
            Err(e) => { return Err(e); },
        }
        match find_stage(&fields) {
            Some(stage) => Ok(SSL_Referee { bytes, stage }),
            None => Err(ProtoError::MessageNotInitialized),
        }
    }

    /// Makes a referee message of the given stage, command and counters.
    /// The two teams, which a referee message cannot be without, are
    /// written with no name and nothing counted.
    pub fn new(
        packet_timestamp: u64,
        stage: SSL_Referee_Stage,
        command: SSL_Referee_Command,
        command_counter: u32,
        command_timestamp: u64,
    ) -> (r: SSL_Referee)
        ensures
            r@.stage == stage,
            r@.bytes == fields_bytes(
                referee_fields(
                    packet_timestamp,
                    stage,
                    command,
                    command_counter,
                    command_timestamp,
                ),
            ),
            r@.wf(),
    {
        let ghost fs = referee_fields(
            packet_timestamp,
            stage,
            command,
            command_counter,
            command_timestamp,
        );
        let yellow = default_team();
        let blue = default_team();
        let mut fields: Vec<WireField> = Vec::new();
        fields.push(
            WireField { number: PACKET_TIMESTAMP_FIELD, value: WireValue::Varint(packet_timestamp) },
        );
        fields.push(WireField { number: STAGE_FIELD, value: WireValue::Varint(stage.value()) });
        fields.push(WireField { number: COMMAND_FIELD, value: WireValue::Varint(command.value()) });
        fields.push(
            WireField {
                number: COMMAND_COUNTER_FIELD,
                value: WireValue::Varint(command_counter as u64),
            },
        );
        fields.push(
            WireField {
                number: COMMAND_TIMESTAMP_FIELD,
                value: WireValue::Varint(command_timestamp),
            },
        );
        fields.push(WireField { number: YELLOW_FIELD, value: WireValue::LengthDelimited(yellow) });
        fields.push(WireField { number: BLUE_FIELD, value: WireValue::LengthDelimited(blue) });
        proof {
            assert(fields_view(fields@) =~= fs);
            lemma_referee_fields(
                packet_timestamp,
                stage,
                command,
                command_counter,
                command_timestamp,
            );
        }
        let bytes = write_fields(&fields);
        SSL_Referee { bytes, stage }
    }

    /// The stage that the message announces.
    pub fn get_stage(&self) -> (stage: SSL_Referee_Stage)
        ensures
            stage == self@.stage,
            self@.wf(),
    {
        proof {
            use_type_invariant(self);
        }
        self.stage
    }

    /// The bytes of the message, as they are written and sent.
    pub fn as_bytes(&self) -> (bytes: &Vec<u8>)
        ensures
            bytes@ == self@.bytes,
            self@.wf(),
    {
        proof {
            use_type_invariant(self);
        }
        &self.bytes
    }
}

/// A team of which nothing is known is a team as the schema has it, and
/// is read back as it was written.
pub proof fn lemma_team_fields()
    ensures
        fields_wf(team_fields()),
        fields_bytes(team_fields()).len() <= 140,
        read_fields(fields_bytes(team_fields())) == Ok::<Seq<FieldSpec>, ProtoError>(
            team_fields(),
        ),
        fields_conform(MessageKind::TeamInfo, team_fields()) == Ok::<(), ProtoError>(()),
{
    let tf = team_fields();
    let kind = MessageKind::TeamInfo;
    assert(fields_wf(tf));
    lemma_fields_round_trip(tf);
    assert forall|i: int| 0 <= i < tf.len() implies (#[trigger] tf[i]).bytes().len() <= 20 by {
        lemma_field_bytes_len(tf[i]);
    }
    lemma_fields_bytes_len(tf, 20);
    assert(valid_utf8(Seq::<u8>::empty()));
    assert forall|i: int| 0 <= i < tf.len() implies field_check(kind, #[trigger] tf[i]) is Ok by {
        assert(rule_of(kind, tf[i].number) is Some);
    }
    lemma_fields_check(kind, tf);
    assert forall|n: u32| #[trigger] known_number(n) implies number_ok(kind, tf, n) by {
        if n == 1 {
            assert(sets(rule_of(kind, n)->Some_0, n, tf[0]));
        } else if n == 2 {
            assert(sets(rule_of(kind, n)->Some_0, n, tf[1]));
        } else if n == 3 {
            assert(sets(rule_of(kind, n)->Some_0, n, tf[2]));
        } else if n == 5 {
            assert(sets(rule_of(kind, n)->Some_0, n, tf[3]));
        } else if n == 6 {
            assert(sets(rule_of(kind, n)->Some_0, n, tf[4]));
        } else if n == 7 {
            assert(sets(rule_of(kind, n)->Some_0, n, tf[5]));
        } else if n == 8 {
            assert(sets(rule_of(kind, n)->Some_0, n, tf[6]));
        }
    }
    assert(initialized(kind, tf));
}

/// Each field that `SSL_Referee::new` writes is written as the schema of
/// the referee message has it.
proof fn lemma_referee_check(
    packet_timestamp: u64,
    stage: SSL_Referee_Stage,
    command: SSL_Referee_Command,
    command_counter: u32,
    command_timestamp: u64,
)
    ensures
        fields_check(
            MessageKind::Referee,
            referee_fields(packet_timestamp, stage, command, command_counter, command_timestamp),
        ) == Ok::<(), ProtoError>(()),
{
    let fs = referee_fields(packet_timestamp, stage, command, command_counter, command_timestamp);
    let kind = MessageKind::Referee;
    lemma_team_fields();
    assert forall|i: int| 0 <= i < fs.len() implies field_check(kind, #[trigger] fs[i]) is Ok by {
        assert(rule_of(kind, fs[i].number) is Some);
    }
    lemma_fields_check(kind, fs);
}

/// The message that `SSL_Referee::new` writes lacks no required field.
proof fn lemma_referee_initialized(
    packet_timestamp: u64,
    stage: SSL_Referee_Stage,
    command: SSL_Referee_Command,
    command_counter: u32,
    command_timestamp: u64,
)
    ensures
        initialized(
            MessageKind::Referee,
            referee_fields(packet_timestamp, stage, command, command_counter, command_timestamp),
        ),
{
    let fs = referee_fields(packet_timestamp, stage, command, command_counter, command_timestamp);
    let kind = MessageKind::Referee;
    lemma_team_fields();
    assert(low32(stage.spec_value()) == stage.spec_value());
    assert(low32(command.spec_value()) == command.spec_value());
    assert forall|n: u32| #[trigger] known_number(n) implies number_ok(kind, fs, n) by {
        if n == 1 {
            assert(sets(rule_of(kind, n)->Some_0, n, fs[0]));
        } else if n == 2 {
            assert(sets(rule_of(kind, n)->Some_0, n, fs[1]));
        } else if n == 4 {
            assert(sets(rule_of(kind, n)->Some_0, n, fs[2]));
        } else if n == 5 {
            assert(sets(rule_of(kind, n)->Some_0, n, fs[3]));
        } else if n == 6 {
            assert(sets(rule_of(kind, n)->Some_0, n, fs[4]));
        } else if n == 7 {
            assert(sets(rule_of(kind, n)->Some_0, n, fs[5]));
            lemma_joined_single(fs, n, 5);
            assert(joined(fs, n) == team_fields());
        } else if n == 8 {
            assert(sets(rule_of(kind, n)->Some_0, n, fs[6]));
            lemma_joined_single(fs, n, 6);
            assert(joined(fs, n) == team_fields());
        }
    }
}

/// The message that `SSL_Referee::new` writes announces the stage given.
proof fn lemma_referee_scan(
    packet_timestamp: u64,
    stage: SSL_Referee_Stage,
    command: SSL_Referee_Command,
    command_counter: u32,
    command_timestamp: u64,
)
    ensures
        scan_stage(
            referee_fields(packet_timestamp, stage, command, command_counter, command_timestamp),
            None,
        ) == Some(stage),
{
    let fs = referee_fields(packet_timestamp, stage, command, command_counter, command_timestamp);
    assert(low32(stage.spec_value()) == stage.spec_value());
    assert(SSL_Referee_Stage::spec_from_value(stage.spec_value()) == Some(stage));
    assert(fs.skip(1).skip(1).skip(1).skip(1).skip(1).skip(1).skip(1) =~= Seq::<FieldSpec>::empty());
    reveal_with_fuel(scan_stage, 8);
}

/// The message that `SSL_Referee::new` writes is a referee message of the
/// stage given, and short.
pub proof fn lemma_referee_fields(
    packet_timestamp: u64,
    stage: SSL_Referee_Stage,
    command: SSL_Referee_Command,
    command_counter: u32,
    command_timestamp: u64,
)
    ensures
        ({
            let fs = referee_fields(
                packet_timestamp,
                stage,
                command,
                command_counter,
                command_timestamp,
            );
            &&& fields_wf(fs)
            &&& fields_bytes(fs).len() <= 1120
            &&& referee_stage(fields_bytes(fs)) == Ok::<SSL_Referee_Stage, ProtoError>(stage)
        }),
{
    reveal(referee_stage);
    let fs = referee_fields(packet_timestamp, stage, command, command_counter, command_timestamp);
    lemma_team_fields();
    assert(fields_wf(fs));
    lemma_fields_round_trip(fs);
    assert forall|i: int| 0 <= i < fs.len() implies (#[trigger] fs[i]).bytes().len() <= 160 by {
        lemma_field_bytes_len(fs[i]);
    }
    lemma_fields_bytes_len(fs, 160);
    lemma_referee_check(packet_timestamp, stage, command, command_counter, command_timestamp);
    lemma_referee_initialized(packet_timestamp, stage, command, command_counter, command_timestamp);
    lemma_referee_scan(packet_timestamp, stage, command, command_counter, command_timestamp);
}

/// Bytes without a field that the schema of the referee message requires
/// are no referee message: where nothing else is wrong with them, the
/// error says that the message is not whole.
pub proof fn lemma_referee_needs_required(bytes: Seq<u8>, number: u32)
    requires
        read_fields(bytes) is Ok,
        rule_of(MessageKind::Referee, number) matches Some(rule) && rule.required && !occurs(
            rule,
            read_fields(bytes)->Ok_0,
            number,
        ),
    ensures
        parse_referee(bytes) is Err,
        bytes.len() <= MAX_PAYLOAD_LEN && fields_check(
            MessageKind::Referee,
            read_fields(bytes)->Ok_0,
        ) is Ok ==> parse_referee(bytes) == Err::<RefereeSpec, ProtoError>(
            ProtoError::MessageNotInitialized,
        ),
{
    reveal(referee_stage);
    lemma_required_missing(MessageKind::Referee, read_fields(bytes)->Ok_0, number);
}

/// Bytes with a field that is not written as the schema of the referee
/// message has it are no referee message.
pub proof fn lemma_referee_needs_wire_types(bytes: Seq<u8>, at: int)
    requires
        read_fields(bytes) is Ok,
        0 <= at < read_fields(bytes)->Ok_0.len(),
        field_check(MessageKind::Referee, read_fields(bytes)->Ok_0[at]) is Err,
    ensures
        parse_referee(bytes) is Err,
{
    reveal(referee_stage);
    lemma_fields_check_refuses(MessageKind::Referee, read_fields(bytes)->Ok_0, at);
}

} // verus!
