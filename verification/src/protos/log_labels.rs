//! The labels of a label file: for each frame, who dribbles and who has
//! the ball; for each pass and each shot at goal, its span of frames and
//! who made it.

use crate::protos::wire::fields_view;
use crate::protos::wire::parse_fields;
use crate::protos::wire::read_fields;
use crate::protos::wire::FieldSpec;
use crate::protos::wire::ProtoError;
use crate::protos::wire::ValueSpec;
use crate::protos::wire::WireField;
use crate::protos::wire::WireValue;
use vstd::prelude::*;

verus! {

/// One of the two teams.
#[derive(Clone, Copy, Debug, PartialEq, Eq, Structural)]
pub enum Team {
    Yellow,
    Blue,
}

/// Which team has the ball, if any.
#[allow(non_camel_case_types)]
#[derive(Clone, Copy, Debug, PartialEq, Eq, Structural)]
pub enum BallPossessionLabel_State {
    NONE,
    YELLOW_POSSES,
    BLUE_POSSES,
}

/// Whether a robot dribbles in a frame, and which.
#[derive(Clone, Copy, Debug, PartialEq, Eq, Structural)]
pub struct DribblingLabel {
    pub is_dribbling: bool,
    pub robot_id: u32,
    pub team: Team,
}

/// Who has the ball in a frame.
#[derive(Clone, Copy, Debug, PartialEq, Eq, Structural)]
pub struct BallPossessionLabel {
    pub state: BallPossessionLabel_State,
    pub robot_id: u32,
}

/// A pass: its span of frames, whether it arrived, and who played it to
/// whom.
#[derive(Clone, Copy, Debug, PartialEq, Eq, Structural)]
pub struct PassingLabel {
    pub start_frame: u64,
    pub end_frame: u64,
    pub successful: bool,
    pub passer_id: u32,
    pub passer_team: Team,
    pub receiver_id: u32,
}

/// A shot at goal: its span of frames, whether it went in, and who shot.
#[derive(Clone, Copy, Debug, PartialEq, Eq, Structural)]
pub struct GoalShotLabel {
    pub start_frame: u64,
    pub end_frame: u64,
    pub successful: bool,
    pub shooter_id: u32,
    pub shooter_team: Team,
}

/// The labels of a log.
#[derive(Clone, Debug, PartialEq, Eq)]
pub struct Labels {
    pub dribbling_labels: Vec<DribblingLabel>,
    pub ball_possession_labels: Vec<BallPossessionLabel>,
    pub passing_labels: Vec<PassingLabel>,
    pub goal_shot_labels: Vec<GoalShotLabel>,
}

/// The mathematical value of `Labels`.
pub struct LabelsSpec {
    pub dribbling_labels: Seq<DribblingLabel>,
    pub ball_possession_labels: Seq<BallPossessionLabel>,
    pub passing_labels: Seq<PassingLabel>,
    pub goal_shot_labels: Seq<GoalShotLabel>,
}

impl View for Labels {
    type V = LabelsSpec;

    open spec fn view(&self) -> LabelsSpec {
        LabelsSpec {
            dribbling_labels: self.dribbling_labels@,
            ball_possession_labels: self.ball_possession_labels@,
            passing_labels: self.passing_labels@,
            goal_shot_labels: self.goal_shot_labels@,
        }
    }
}

/// The low 32 bits of a number.
pub open spec fn low_u32(v: u64) -> u32 {
    (v as nat % 0x1_0000_0000) as u32
}

/// The team that a number stands for.
pub open spec fn team_of(v: u64) -> Option<Team> {
    if v == 0 {
        Some(Team::Yellow)
    } else if v == 1 {
        Some(Team::Blue)
    } else {
        None
    }
}

/// The state of possession that a number stands for.
pub open spec fn state_of(v: u64) -> Option<BallPossessionLabel_State> {
    if v == 0 {
        Some(BallPossessionLabel_State::NONE)
    } else if v == 1 {
        Some(BallPossessionLabel_State::YELLOW_POSSES)
    } else if v == 2 {
        Some(BallPossessionLabel_State::BLUE_POSSES)
    } else {
        None
    }
}

/// The number of a varint field; any other field is refused.
pub open spec fn varint_of(f: FieldSpec) -> Result<u64, ProtoError> {
    match f.value {
        ValueSpec::Varint(v) => Ok(v),
        _ => Err(ProtoError::UnexpectedWireType),
    }
}

/// The bytes of a length-delimited field; any other field is refused.
pub open spec fn bytes_of(f: FieldSpec) -> Result<Seq<u8>, ProtoError> {
    match f.value {
        ValueSpec::LengthDelimited(b) => Ok(b),
        _ => Err(ProtoError::UnexpectedWireType),
    }
}

/// The number of a varint field; any other field is refused.
fn number(field: &WireField) -> (r: Result<u64, ProtoError>)
    ensures
        r == varint_of(field@),
{
    match &field.value {
        WireValue::Varint(v) => Ok(*v),
        _ => Err(ProtoError::UnexpectedWireType),
    }
}

/// The team that a number stands for.
fn team(v: u64) -> (r: Option<Team>)
    ensures
        r == team_of(v),
{
    if v == 0 {
        Some(Team::Yellow)
    } else if v == 1 {
        Some(Team::Blue)
    } else {
        None
    }
}

/// The state of possession that a number stands for.
fn state(v: u64) -> (r: Option<BallPossessionLabel_State>)
    ensures
        r == state_of(v),
{
    if v == 0 {
        Some(BallPossessionLabel_State::NONE)
    } else if v == 1 {
        Some(BallPossessionLabel_State::YELLOW_POSSES)
    } else if v == 2 {
        Some(BallPossessionLabel_State::BLUE_POSSES)
    } else {
        None
    }
}

/// What a dribbling label holds where nothing is written.
pub open spec fn empty_dribbling_label() -> DribblingLabel {
    DribblingLabel { is_dribbling: false, robot_id: 0, team: Team::Yellow }
}

/// What one field adds to a dribbling label that is being read. The fields
/// are numbers: `is_dribbling` = 1, `robot_id` = 2, `team` = 3; of each,
/// the last one counts, and other fields are passed over. So is a team
/// whose number, in its low 32 bits, names none.
#[verifier::opaque]
pub open spec fn dribbling_step(acc: DribblingLabel, f: FieldSpec) -> Result<
    DribblingLabel,
    ProtoError,
> {
    if f.number == 1 {
        match varint_of(f) {
            Ok(v) => Ok(DribblingLabel { is_dribbling: v != 0, ..acc }),
            Err(e) => Err(e),
        }
    } else if f.number == 2 {
        match varint_of(f) {
            Ok(v) => Ok(DribblingLabel { robot_id: low_u32(v), ..acc }),
            Err(e) => Err(e),
        }
    } else if f.number == 3 {
        match varint_of(f) {
            Ok(v) => match team_of(low_u32(v) as u64) {
                Some(team) => Ok(DribblingLabel { team, ..acc }),
                None => Ok(acc),
            },
            Err(e) => Err(e),
        }
    } else {
        Ok(acc)
    }
}

/// Goes through the fields of a dribbling label.
pub open spec fn scan_dribbling(fields: Seq<FieldSpec>, acc: DribblingLabel) -> Result<
    DribblingLabel,
    ProtoError,
>
    decreases fields.len(),
{
    if fields.len() == 0 {
        Ok(acc)
    } else {
        match dribbling_step(acc, fields[0]) {
            Ok(next) => scan_dribbling(fields.skip(1), next),
            Err(e) => Err(e),
        }
    }
}

/// The label that `bytes` are, or why they are none.
#[verifier::opaque]
pub open spec fn read_dribbling_label(bytes: Seq<u8>) -> Result<DribblingLabel, ProtoError> {
    match read_fields(bytes) {
        Err(e) => Err(e),
        Ok(fields) => scan_dribbling(fields, empty_dribbling_label()),
    }
}

/// A dribbling label that is being read, after one more field.
fn dribbling_with_field(acc: DribblingLabel, field: &WireField) -> (r: Result<
    DribblingLabel,
    ProtoError,
>)
    ensures
        r == dribbling_step(acc, field@),
{
    reveal(dribbling_step);
    if field.number == 1 {
        match number(field) {
            Ok(v) => Ok(DribblingLabel { is_dribbling: v != 0, ..acc }),
            Err(e) => Err(e),
        }
    } else if field.number == 2 {
        match number(field) {
            Ok(v) => Ok(DribblingLabel { robot_id: (v % 0x1_0000_0000) as u32, ..acc }),
            Err(e) => Err(e),
        }
    } else if field.number == 3 {
        match number(field) {
            Ok(v) => match team(v % 0x1_0000_0000) {
                Some(team) => Ok(DribblingLabel { team, ..acc }),
                None => Ok(acc),
            },
            Err(e) => Err(e),
        }
    } else {
        Ok(acc)
    }
}

impl DribblingLabel {
    /// Reads a dribbling label from its bytes.
    pub fn parse_from_bytes(bytes: &[u8]) -> (r: Result<DribblingLabel, ProtoError>)
        ensures
            r == read_dribbling_label(bytes@),
    {
        reveal(read_dribbling_label);
        let fields = match parse_fields(bytes) {
            Ok(fields) => fields,
            Err(e) => { return Err(e); },
        };
        let ghost all = fields_view(fields@);
        let mut label = DribblingLabel { is_dribbling: false, robot_id: 0, team: Team::Yellow };
        let mut i: usize = 0;
        assert(all.skip(0) =~= all);
        while i < fields.len()
            invariant
                i <= fields@.len(),
                all == fields_view(fields@),
                read_fields(bytes@) == Ok::<Seq<FieldSpec>, ProtoError>(all),
                scan_dribbling(all, empty_dribbling_label()) == scan_dribbling(
                    all.skip(i as int),
                    label,
                ),
            decreases fields@.len() - i,
        {
            let ghost rest = all.skip(i as int);
            reveal(read_dribbling_label);
            assert(rest[0] == fields@[i as int]@);
            assert(rest.skip(1) =~= all.skip(i + 1));
            label = match dribbling_with_field(label, &fields[i]) {
                Ok(next) => next,
                Err(e) => {
                    return Err(e);
                },
            };
            i = i + 1;
        }
        Ok(label)
    }
}

/// What a ball-possession label holds where nothing is written.
pub open spec fn empty_ball_possession_label() -> BallPossessionLabel {
    BallPossessionLabel { state: BallPossessionLabel_State::NONE, robot_id: 0 }
}

/// What one field adds to a ball-possession label that is being read. The
/// fields are numbers: `state` = 1, `robot_id` = 2; of each, the last one
/// counts, and other fields are passed over. So is a state whose number,
/// in its low 32 bits, names none.
#[verifier::opaque]
pub open spec fn ball_possession_step(acc: BallPossessionLabel, f: FieldSpec) -> Result<
    BallPossessionLabel,
    ProtoError,
> {
    if f.number == 1 {
        match varint_of(f) {
            Ok(v) => match state_of(low_u32(v) as u64) {
                Some(state) => Ok(BallPossessionLabel { state, ..acc }),
                None => Ok(acc),
            },
            Err(e) => Err(e),
        }
    } else if f.number == 2 {
        match varint_of(f) {
            Ok(v) => Ok(BallPossessionLabel { robot_id: low_u32(v), ..acc }),
            Err(e) => Err(e),
        }
    } else {
        Ok(acc)
    }
}

/// Goes through the fields of a ball-possession label.
pub open spec fn scan_ball_possession(fields: Seq<FieldSpec>, acc: BallPossessionLabel) -> Result<
    BallPossessionLabel,
    ProtoError,
>
    decreases fields.len(),
{
    if fields.len() == 0 {
        Ok(acc)
    } else {
        match ball_possession_step(acc, fields[0]) {
            Ok(next) => scan_ball_possession(fields.skip(1), next),
            Err(e) => Err(e),
        }
    }
}

/// The label that `bytes` are, or why they are none.
#[verifier::opaque]
pub open spec fn read_ball_possession_label(bytes: Seq<u8>) -> Result<
    BallPossessionLabel,
    ProtoError,
> {
    match read_fields(bytes) {
        Err(e) => Err(e),
        Ok(fields) => scan_ball_possession(fields, empty_ball_possession_label()),
    }
}

/// A ball-possession label that is being read, after one more field.
fn ball_possession_with_field(acc: BallPossessionLabel, field: &WireField) -> (r: Result<
    BallPossessionLabel,
    ProtoError,
>)
    ensures
        r == ball_possession_step(acc, field@),
{
    reveal(ball_possession_step);
    if field.number == 1 {
        match number(field) {
            Ok(v) => match state(v % 0x1_0000_0000) {
                Some(state) => Ok(BallPossessionLabel { state, ..acc }),
                None => Ok(acc),
            },
            Err(e) => Err(e),
        }
    } else if field.number == 2 {
        match number(field) {
            Ok(v) => Ok(BallPossessionLabel { robot_id: (v % 0x1_0000_0000) as u32, ..acc }),
            Err(e) => Err(e),
        }
    } else {
        Ok(acc)
    }
}

impl BallPossessionLabel {
    /// Reads a ball-possession label from its bytes.
    pub fn parse_from_bytes(bytes: &[u8]) -> (r: Result<BallPossessionLabel, ProtoError>)
        ensures
            r == read_ball_possession_label(bytes@),
    {
        reveal(read_ball_possession_label);
        let fields = match parse_fields(bytes) {
            Ok(fields) => fields,
            Err(e) => { return Err(e); },
        };
        let ghost all = fields_view(fields@);
        let mut label = BallPossessionLabel { state: BallPossessionLabel_State::NONE, robot_id: 0 };
        let mut i: usize = 0;
        assert(all.skip(0) =~= all);
        while i < fields.len()
            invariant
                i <= fields@.len(),
                all == fields_view(fields@),
                read_fields(bytes@) == Ok::<Seq<FieldSpec>, ProtoError>(all),
                scan_ball_possession(all, empty_ball_possession_label()) == scan_ball_possession(
                    all.skip(i as int),
                    label,
                ),
            decreases fields@.len() - i,
        {
            let ghost rest = all.skip(i as int);
            reveal(read_ball_possession_label);
            assert(rest[0] == fields@[i as int]@);
            assert(rest.skip(1) =~= all.skip(i + 1));
            label = match ball_possession_with_field(label, &fields[i]) {
                Ok(next) => next,
                Err(e) => {
                    return Err(e);
                },
            };
            i = i + 1;
        }
        Ok(label)
    }
}

/// What a passing label holds where nothing is written.
pub open spec fn empty_passing_label() -> PassingLabel {
    PassingLabel {
        start_frame: 0,
        end_frame: 0,
        successful: false,
        passer_id: 0,
        passer_team: Team::Yellow,
        receiver_id: 0,
    }
}

/// What one field adds to a passing label that is being read. The fields
/// are numbers: `start_frame` = 1, `end_frame` = 2, `successful` = 3,
/// `passer_id` = 4, `passer_team` = 5, `receiver_id` = 6; of each, the last
/// one counts, and other fields are passed over. So is a team whose
/// number, in its low 32 bits, names none.
#[verifier::opaque]
pub open spec fn passing_step(acc: PassingLabel, f: FieldSpec) -> Result<PassingLabel, ProtoError> {
    if f.number == 1 {
        match varint_of(f) {
            Ok(v) => Ok(PassingLabel { start_frame: v, ..acc }),
            Err(e) => Err(e),
        }
    } else if f.number == 2 {
        match varint_of(f) {
            Ok(v) => Ok(PassingLabel { end_frame: v, ..acc }),
            Err(e) => Err(e),
        }
    } else if f.number == 3 {
        match varint_of(f) {
            Ok(v) => Ok(PassingLabel { successful: v != 0, ..acc }),
            Err(e) => Err(e),
        }
    } else if f.number == 4 {
        match varint_of(f) {
            Ok(v) => Ok(PassingLabel { passer_id: low_u32(v), ..acc }),
            Err(e) => Err(e),
        }
    } else if f.number == 5 {
        match varint_of(f) {
            Ok(v) => match team_of(low_u32(v) as u64) {
                Some(passer_team) => Ok(PassingLabel { passer_team, ..acc }),
                None => Ok(acc),
            },
            Err(e) => Err(e),
        }
    } else if f.number == 6 {
        match varint_of(f) {
            Ok(v) => Ok(PassingLabel { receiver_id: low_u32(v), ..acc }),
            Err(e) => Err(e),
        }
    } else {
        Ok(acc)
    }
}

/// Goes through the fields of a passing label.
pub open spec fn scan_passing(fields: Seq<FieldSpec>, acc: PassingLabel) -> Result<
    PassingLabel,
    ProtoError,
>
    decreases fields.len(),
{
    if fields.len() == 0 {
        Ok(acc)
    } else {
        match passing_step(acc, fields[0]) {
            Ok(next) => scan_passing(fields.skip(1), next),
            Err(e) => Err(e),
        }
    }
}

/// The label that `bytes` are, or why they are none.
#[verifier::opaque]
pub open spec fn read_passing_label(bytes: Seq<u8>) -> Result<PassingLabel, ProtoError> {
    match read_fields(bytes) {
        Err(e) => Err(e),
        Ok(fields) => scan_passing(fields, empty_passing_label()),
    }
}

/// A passing label that is being read, after one more field.
fn passing_with_field(acc: PassingLabel, field: &WireField) -> (r: Result<PassingLabel, ProtoError>)
    ensures
        r == passing_step(acc, field@),
{
    reveal(passing_step);
    if field.number == 1 {
        match number(field) {
            Ok(v) => Ok(PassingLabel { start_frame: v, ..acc }),
            Err(e) => Err(e),
        }
    } else if field.number == 2 {
        match number(field) {
            Ok(v) => Ok(PassingLabel { end_frame: v, ..acc }),
            Err(e) => Err(e),
        }
    } else if field.number == 3 {
        match number(field) {
            Ok(v) => Ok(PassingLabel { successful: v != 0, ..acc }),
            Err(e) => Err(e),
        }
    } else if field.number == 4 {
        match number(field) {
            Ok(v) => Ok(PassingLabel { passer_id: (v % 0x1_0000_0000) as u32, ..acc }),
            Err(e) => Err(e),
        }
    } else if field.number == 5 {
        match number(field) {
            Ok(v) => match team(v % 0x1_0000_0000) {
                Some(passer_team) => Ok(PassingLabel { passer_team, ..acc }),
                None => Ok(acc),
            },
            Err(e) => Err(e),
        }
    } else if field.number == 6 {
        match number(field) {
            Ok(v) => Ok(PassingLabel { receiver_id: (v % 0x1_0000_0000) as u32, ..acc }),
            Err(e) => Err(e),
        }
    } else {
        Ok(acc)
    }
}

impl PassingLabel {
    /// Reads a passing label from its bytes.
    pub fn parse_from_bytes(bytes: &[u8]) -> (r: Result<PassingLabel, ProtoError>)
        ensures
            r == read_passing_label(bytes@),
    {
        reveal(read_passing_label);
        let fields = match parse_fields(bytes) {
            Ok(fields) => fields,
            Err(e) => { return Err(e); },
        };
        let ghost all = fields_view(fields@);
        let mut label = PassingLabel {
            start_frame: 0,
            end_frame: 0,
            successful: false,
            passer_id: 0,
            passer_team: Team::Yellow,
            receiver_id: 0,
        };
        let mut i: usize = 0;
        assert(all.skip(0) =~= all);
        while i < fields.len()
            invariant
                i <= fields@.len(),
                all == fields_view(fields@),
                read_fields(bytes@) == Ok::<Seq<FieldSpec>, ProtoError>(all),
                scan_passing(all, empty_passing_label()) == scan_passing(all.skip(i as int), label),
            decreases fields@.len() - i,
        {
            let ghost rest = all.skip(i as int);
            reveal(read_passing_label);
            assert(rest[0] == fields@[i as int]@);
            assert(rest.skip(1) =~= all.skip(i + 1));
            label = match passing_with_field(label, &fields[i]) {
                Ok(next) => next,
                Err(e) => {
                    return Err(e);
                },
            };
            i = i + 1;
        }
        Ok(label)
    }
}

/// What a goal-shot label holds where nothing is written.
pub open spec fn empty_goal_shot_label() -> GoalShotLabel {
    GoalShotLabel {
        start_frame: 0,
        end_frame: 0,
        successful: false,
        shooter_id: 0,
        shooter_team: Team::Yellow,
    }
}

/// What one field adds to a goal-shot label that is being read. The fields
/// are numbers: `start_frame` = 1, `end_frame` = 2, `successful` = 3,
/// `shooter_id` = 4, `shooter_team` = 5; of each, the last one counts, and
/// other fields are passed over. So is a team whose number, in its low 32
/// bits, names none.
#[verifier::opaque]
pub open spec fn goal_shot_step(acc: GoalShotLabel, f: FieldSpec) -> Result<
    GoalShotLabel,
    ProtoError,
> {
    if f.number == 1 {
        match varint_of(f) {
            Ok(v) => Ok(GoalShotLabel { start_frame: v, ..acc }),
            Err(e) => Err(e),
        }
    } else if f.number == 2 {
        match varint_of(f) {
            Ok(v) => Ok(GoalShotLabel { end_frame: v, ..acc }),
            Err(e) => Err(e),
        }
    } else if f.number == 3 {
        match varint_of(f) {
            Ok(v) => Ok(GoalShotLabel { successful: v != 0, ..acc }),
            Err(e) => Err(e),
        }
    } else if f.number == 4 {
        match varint_of(f) {
            Ok(v) => Ok(GoalShotLabel { shooter_id: low_u32(v), ..acc }),
            Err(e) => Err(e),
        }
    } else if f.number == 5 {
        match varint_of(f) {
            Ok(v) => match team_of(low_u32(v) as u64) {
                Some(shooter_team) => Ok(GoalShotLabel { shooter_team, ..acc }),
                None => Ok(acc),
            },
            Err(e) => Err(e),
        }
    } else {
        Ok(acc)
    }
}

/// Goes through the fields of a goal-shot label.
pub open spec fn scan_goal_shot(fields: Seq<FieldSpec>, acc: GoalShotLabel) -> Result<
    GoalShotLabel,
    ProtoError,
>
    decreases fields.len(),
{
    if fields.len() == 0 {
        Ok(acc)
    } else {
        match goal_shot_step(acc, fields[0]) {
            Ok(next) => scan_goal_shot(fields.skip(1), next),
            Err(e) => Err(e),
        }
    }
}

/// The label that `bytes` are, or why they are none.
#[verifier::opaque]
pub open spec fn read_goal_shot_label(bytes: Seq<u8>) -> Result<GoalShotLabel, ProtoError> {
    match read_fields(bytes) {
        Err(e) => Err(e),
        Ok(fields) => scan_goal_shot(fields, empty_goal_shot_label()),
    }
}

/// A goal-shot label that is being read, after one more field.
fn goal_shot_with_field(acc: GoalShotLabel, field: &WireField) -> (r: Result<
    GoalShotLabel,
    ProtoError,
>)
    ensures
        r == goal_shot_step(acc, field@),
{
    reveal(goal_shot_step);
    if field.number == 1 {
        match number(field) {
            Ok(v) => Ok(GoalShotLabel { start_frame: v, ..acc }),
            Err(e) => Err(e),
        }
    } else if field.number == 2 {
        match number(field) {
            Ok(v) => Ok(GoalShotLabel { end_frame: v, ..acc }),
            Err(e) => Err(e),
        }
    } else if field.number == 3 {
        match number(field) {
            Ok(v) => Ok(GoalShotLabel { successful: v != 0, ..acc }),
            Err(e) => Err(e),
        }
    } else if field.number == 4 {
        match number(field) {
            Ok(v) => Ok(GoalShotLabel { shooter_id: (v % 0x1_0000_0000) as u32, ..acc }),
            Err(e) => Err(e),
        }
    } else if field.number == 5 {
        match number(field) {
            Ok(v) => match team(v % 0x1_0000_0000) {
                Some(shooter_team) => Ok(GoalShotLabel { shooter_team, ..acc }),
                None => Ok(acc),
            },
            Err(e) => Err(e),
        }
    } else {
        Ok(acc)
    }
}

impl GoalShotLabel {
    /// Reads a goal-shot label from its bytes.
    pub fn parse_from_bytes(bytes: &[u8]) -> (r: Result<GoalShotLabel, ProtoError>)
        ensures
            r == read_goal_shot_label(bytes@),
    {
        reveal(read_goal_shot_label);
        let fields = match parse_fields(bytes) {
            Ok(fields) => fields,
            Err(e) => { return Err(e); },
        };
        let ghost all = fields_view(fields@);
        let mut label = GoalShotLabel {
            start_frame: 0,
            end_frame: 0,
            successful: false,
            shooter_id: 0,
            shooter_team: Team::Yellow,
        };
        let mut i: usize = 0;
        assert(all.skip(0) =~= all);
        while i < fields.len()
            invariant
                i <= fields@.len(),
                all == fields_view(fields@),
                read_fields(bytes@) == Ok::<Seq<FieldSpec>, ProtoError>(all),
                scan_goal_shot(all, empty_goal_shot_label()) == scan_goal_shot(
                    all.skip(i as int),
                    label,
                ),
            decreases fields@.len() - i,
        {
            let ghost rest = all.skip(i as int);
            reveal(read_goal_shot_label);
            assert(rest[0] == fields@[i as int]@);
            assert(rest.skip(1) =~= all.skip(i + 1));
            label = match goal_shot_with_field(label, &fields[i]) {
                Ok(next) => next,
                Err(e) => {
                    return Err(e);
                },
            };
            i = i + 1;
        }
        Ok(label)
    }
}

impl LabelsSpec {
    /// No labels.
    pub open spec fn empty() -> LabelsSpec {
        LabelsSpec {
            dribbling_labels: Seq::empty(),
            ball_possession_labels: Seq::empty(),
            passing_labels: Seq::empty(),
            goal_shot_labels: Seq::empty(),
        }
    }
}

/// What one field adds to labels that are being read: a label of the kind
/// that its number names (dribbling = 1, ball possession = 2, passing = 3,
/// goal shot = 4), which must be length-delimited and hold such a label.
/// Other fields are passed over.
#[verifier::opaque]
pub open spec fn labels_step(acc: LabelsSpec, f: FieldSpec) -> Result<LabelsSpec, ProtoError> {
    if f.number == 1 {
        match bytes_of(f) {
            Ok(b) => match read_dribbling_label(b) {
                Ok(label) => Ok(
                    LabelsSpec { dribbling_labels: acc.dribbling_labels.push(label), ..acc },
                ),
                Err(e) => Err(e),
            },
            Err(e) => Err(e),
        }
    } else if f.number == 2 {
        match bytes_of(f) {
            Ok(b) => match read_ball_possession_label(b) {
                Ok(label) => Ok(
                    LabelsSpec {
                        ball_possession_labels: acc.ball_possession_labels.push(label),
                        ..acc
                    },
                ),
                Err(e) => Err(e),
            },
            Err(e) => Err(e),
        }
    } else if f.number == 3 {
        match bytes_of(f) {
            Ok(b) => match read_passing_label(b) {
                Ok(label) => Ok(LabelsSpec { passing_labels: acc.passing_labels.push(label), ..acc }),
                Err(e) => Err(e),
            },
            Err(e) => Err(e),
        }
    } else if f.number == 4 {
        match bytes_of(f) {
            Ok(b) => match read_goal_shot_label(b) {
                Ok(label) => Ok(
                    LabelsSpec { goal_shot_labels: acc.goal_shot_labels.push(label), ..acc },
                ),
                Err(e) => Err(e),
            },
            Err(e) => Err(e),
        }
    } else {
        Ok(acc)
    }
}

/// Goes through the fields of labels.
pub open spec fn scan_labels(fields: Seq<FieldSpec>, acc: LabelsSpec) -> Result<
    LabelsSpec,
    ProtoError,
>
    decreases fields.len(),
{
    if fields.len() == 0 {
        Ok(acc)
    } else {
        match labels_step(acc, fields[0]) {
            Ok(next) => scan_labels(fields.skip(1), next),
            Err(e) => Err(e),
        }
    }
}

/// The labels that `bytes` are, in the order they are written in, or why
/// they are none.
#[verifier::opaque]
pub open spec fn read_labels(bytes: Seq<u8>) -> Result<LabelsSpec, ProtoError> {
    match read_fields(bytes) {
        Err(e) => Err(e),
        Ok(fields) => scan_labels(fields, LabelsSpec::empty()),
    }
}

impl Labels {
    /// No labels.
    pub fn new() -> (r: Labels)
        ensures
            r@ == LabelsSpec::empty(),
    {
        Labels {
            dribbling_labels: Vec::new(),
            ball_possession_labels: Vec::new(),
            passing_labels: Vec::new(),
            goal_shot_labels: Vec::new(),
        }
    }

    /// Takes one field into labels that are being read.
    fn read_field(&mut self, field: &WireField) -> (r: Result<(), ProtoError>)
        ensures
            match labels_step(old(self)@, field@) {
                Ok(next) => r is Ok && final(self)@ == next,
                Err(e) => r == Err::<(), ProtoError>(e) && final(self)@ == old(self)@,
            },
    {
        reveal(labels_step);
        if field.number >= 1 && field.number <= 4 {
            match &field.value {
                WireValue::LengthDelimited(b) => {
                    if field.number == 1 {
                        match DribblingLabel::parse_from_bytes(b.as_slice()) {
                            Ok(label) => {
                                self.dribbling_labels.push(label);
                                Ok(())
                            },
                            Err(e) => Err(e),
                        }
                    } else if field.number == 2 {
                        match BallPossessionLabel::parse_from_bytes(b.as_slice()) {
                            Ok(label) => {
                                self.ball_possession_labels.push(label);
                                Ok(())
                            },
                            Err(e) => Err(e),
                        }
                    } else if field.number == 3 {
                        match PassingLabel::parse_from_bytes(b.as_slice()) {
                            Ok(label) => {
                                self.passing_labels.push(label);
                                Ok(())
                            },
                            Err(e) => Err(e),
                        }
                    } else {
                        match GoalShotLabel::parse_from_bytes(b.as_slice()) {
                            Ok(label) => {
                                self.goal_shot_labels.push(label);
                                Ok(())
                            },
                            Err(e) => Err(e),
                        }
                    }
                },
                _ => Err(ProtoError::UnexpectedWireType),
            }
        } else {
            Ok(())
        }
    }

    /// Reads the labels of a label file from its bytes.
    pub fn parse_from_bytes(bytes: &[u8]) -> (r: Result<Labels, ProtoError>)
        ensures
            match read_labels(bytes@) {
                Ok(labels) => r is Ok && r->Ok_0@ == labels,
                Err(e) => r == Err::<Labels, ProtoError>(e),
            },
    {
        reveal(read_labels);
        let fields = match parse_fields(bytes) {
            Ok(fields) => fields,
            Err(e) => { return Err(e); },
        };
        let ghost all = fields_view(fields@);
        let mut labels = Labels::new();
        let mut i: usize = 0;
        assert(all.skip(0) =~= all);
        while i < fields.len()
            invariant
                i <= fields@.len(),
                all == fields_view(fields@),
                read_fields(bytes@) == Ok::<Seq<FieldSpec>, ProtoError>(all),
                scan_labels(all, LabelsSpec::empty()) == scan_labels(all.skip(i as int), labels@),
            decreases fields@.len() - i,
        {
            let ghost rest = all.skip(i as int);
            reveal(read_labels);
            assert(rest[0] == fields@[i as int]@);
            assert(rest.skip(1) =~= all.skip(i + 1));
            match labels.read_field(&fields[i]) {
                Ok(()) => {},
                Err(e) => {
                    return Err(e);
                },
            }
            i = i + 1;
        }
        Ok(labels)
    }
}

} // verus!
