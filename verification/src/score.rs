//! Scoring predicted labels against the ground truth, as far as it is
//! counting: points are counted in halves, and the overlap of two spans of
//! frames is given as two lengths. Dividing is the caller's part.

use crate::protos::log_labels::BallPossessionLabel;
use crate::protos::log_labels::BallPossessionLabel_State;
use crate::protos::log_labels::DribblingLabel;
use crate::protos::log_labels::GoalShotLabel;
use crate::protos::log_labels::PassingLabel;
use vstd::prelude::*;

verus! {

/// The half points that a predicted dribbling label earns: two where it
/// says as the truth does whether a robot dribbles; and where one does,
/// one more for the robot and one more for the team.
pub open spec fn dribbling_points(truth: DribblingLabel, predicted: DribblingLabel) -> nat {
    if truth.is_dribbling == predicted.is_dribbling {
        if truth.is_dribbling {
            (2 + (if truth.robot_id == predicted.robot_id {
                1nat
            } else {
                0nat
            }) + (if truth.team == predicted.team {
                1nat
            } else {
                0nat
            })) as nat
        } else {
            2
        }
    } else {
        0
    }
}

/// The half points that a predicted ball-possession label earns: two
/// where it names the state that the truth names; and where a team has the
/// ball, one more for the robot.
pub open spec fn ball_possession_points(truth: BallPossessionLabel, predicted: BallPossessionLabel)
    -> nat {
    if truth.state == predicted.state {
        if truth.state != BallPossessionLabel_State::NONE && truth.robot_id == predicted.robot_id {
            3
        } else {
            2
        }
    } else {
        0
    }
}

/// The half points that a predicted passing label earns beside the
/// overlap of its span: one each for the outcome, the passer, the
/// passer's team and the receiver.
pub open spec fn passing_points(truth: PassingLabel, predicted: PassingLabel) -> nat {
    ((if truth.successful == predicted.successful {
        1nat
    } else {
        0nat
    }) + (if truth.passer_id == predicted.passer_id {
        1nat
    } else {
        0nat
    }) + (if truth.passer_team == predicted.passer_team {
        1nat
    } else {
        0nat
    }) + (if truth.receiver_id == predicted.receiver_id {
        1nat
    } else {
        0nat
    })) as nat
}

/// The half points that a predicted goal-shot label earns beside the
/// overlap of its span: one each for the outcome, the shooter and the
/// shooter's team.
pub open spec fn goal_shot_points(truth: GoalShotLabel, predicted: GoalShotLabel) -> nat {
    ((if truth.successful == predicted.successful {
        1nat
    } else {
        0nat
    }) + (if truth.shooter_id == predicted.shooter_id {
        1nat
    } else {
        0nat
    }) + (if truth.shooter_team == predicted.shooter_team {
        1nat
    } else {
        0nat
    })) as nat
}

/// The half points of the first `n` predicted dribbling labels, each held
/// against the true label of the same frame.
pub open spec fn dribbling_score(truth: Seq<DribblingLabel>, predicted: Seq<DribblingLabel>, n: nat)
    -> nat
    decreases n,
{
    if n == 0 {
        0
    } else {
        dribbling_score(truth, predicted, (n - 1) as nat) + dribbling_points(
            truth[n - 1],
            predicted[n - 1],
        )
    }
}

/// The half points of the first `n` predicted ball-possession labels,
/// each held against the true label of the same frame.
pub open spec fn ball_possession_score(
    truth: Seq<BallPossessionLabel>,
    predicted: Seq<BallPossessionLabel>,
    n: nat,
) -> nat
    decreases n,
{
    if n == 0 {
        0
    } else {
        ball_possession_score(truth, predicted, (n - 1) as nat) + ball_possession_points(
            truth[n - 1],
            predicted[n - 1],
        )
    }
}

/// The smaller of two lengths.
pub open spec fn shorter(a: nat, b: nat) -> nat {
    if a <= b {
        a
    } else {
        b
    }
}

/// The half points that a predicted dribbling label earns.
pub fn score_dribbling_label(truth: &DribblingLabel, predicted: &DribblingLabel) -> (points: u8)
    ensures
        points == dribbling_points(*truth, *predicted),
{
    let mut points: u8 = 0;
    if truth.is_dribbling == predicted.is_dribbling {
        points = 2;
        // only score sub-fields if labeled as dribbling in ground truth
        if truth.is_dribbling {
            if truth.robot_id == predicted.robot_id {
                points = points + 1;
            }
            if truth.team == predicted.team {
                points = points + 1;
            }
        }
    }
    points
}

/// The half points that a predicted ball-possession label earns.
pub fn score_ball_possession_label(truth: &BallPossessionLabel, predicted: &BallPossessionLabel)
    -> (points: u8)
    ensures
        points == ball_possession_points(*truth, *predicted),
{
    let mut points: u8 = 0;
    if truth.state == predicted.state {
        points = 2;
        // only score if yellow/blue in possession
        if truth.state != BallPossessionLabel_State::NONE && truth.robot_id == predicted.robot_id {
            points = points + 1;
        }
    }
    points
}

/// The half points that a predicted passing label earns beside the
/// overlap of its span.
pub fn score_passing_label(truth: &PassingLabel, predicted: &PassingLabel) -> (points: u8)
    ensures
        points == passing_points(*truth, *predicted),
{
    let mut points: u8 = 0;
    if truth.successful == predicted.successful {
        points = points + 1;
    }
    if truth.passer_id == predicted.passer_id {
        points = points + 1;
    }
    if truth.passer_team == predicted.passer_team {
        points = points + 1;
    }
    if truth.receiver_id == predicted.receiver_id {
        points = points + 1;
    }
    points
}

/// The half points that a predicted goal-shot label earns beside the
/// overlap of its span.
pub fn score_goal_shot_label(truth: &GoalShotLabel, predicted: &GoalShotLabel) -> (points: u8)
    ensures
        points == goal_shot_points(*truth, *predicted),
{
    let mut points: u8 = 0;
    if truth.successful == predicted.successful {
        points = points + 1;
    }
    if truth.shooter_id == predicted.shooter_id {
        points = points + 1;
    }
    if truth.shooter_team == predicted.shooter_team {
        points = points + 1;
    }
    points
}

/// The half points of predicted dribbling labels: each is held against
/// the true label of the same frame, as far as both lists go.
pub fn score_dribbling(ground_truth_labels: &[DribblingLabel], predicted_labels: &[DribblingLabel])
    -> (score: u128)
    ensures
        score == dribbling_score(
            ground_truth_labels@,
            predicted_labels@,
            shorter(ground_truth_labels@.len(), predicted_labels@.len()),
        ),
{
    let n = if ground_truth_labels.len() <= predicted_labels.len() {
        ground_truth_labels.len()
    } else {
        predicted_labels.len()
    };
    let mut score: u128 = 0;
    let mut i: usize = 0;
    while i < n
        invariant
            i <= n,
            n <= ground_truth_labels@.len(),
            n <= predicted_labels@.len(),
            score == dribbling_score(ground_truth_labels@, predicted_labels@, i as nat),
            score <= 4 * i,
        decreases n - i,
    {
        let points = score_dribbling_label(&ground_truth_labels[i], &predicted_labels[i]);
        score = score + points as u128;
        i = i + 1;
    }
    score
}

/// The half points of predicted ball-possession labels: each is held
/// against the true label of the same frame, as far as both lists go.
pub fn score_ball_possession(
    ground_truth_labels: &[BallPossessionLabel],
    predicted_labels: &[BallPossessionLabel],
) -> (score: u128)
    ensures
        score == ball_possession_score(
            ground_truth_labels@,
            predicted_labels@,
            shorter(ground_truth_labels@.len(), predicted_labels@.len()),
        ),
{
    let n = if ground_truth_labels.len() <= predicted_labels.len() {
        ground_truth_labels.len()
    } else {
        predicted_labels.len()
    };
    let mut score: u128 = 0;
    let mut i: usize = 0;
    while i < n
        invariant
            i <= n,
            n <= ground_truth_labels@.len(),
            n <= predicted_labels@.len(),
            score == ball_possession_score(ground_truth_labels@, predicted_labels@, i as nat),
            score <= 3 * i,
        decreases n - i,
    {
        let points = score_ball_possession_label(&ground_truth_labels[i], &predicted_labels[i]);
        score = score + points as u128;
        i = i + 1;
    }
    score
}

/// The earlier of two frames.
pub open spec fn earlier(a: u64, b: u64) -> u64 {
    if a <= b {
        a
    } else {
        b
    }
}

/// The later of two frames.
pub open spec fn later(a: u64, b: u64) -> u64 {
    if a >= b {
        a
    } else {
        b
    }
}

/// How far two spans of frames overlap, as two lengths: what they share,
/// from the later start to the earlier end, or nothing where one span
/// starts after the other ends; and what they cover, from the earlier
/// start to the later end. There are no such lengths where a span that
/// ends before it starts turns one of them below zero.
pub open spec fn overlap(span_a: (u64, u64), span_b: (u64, u64)) -> Option<(u64, u64)> {
    let union_start = earlier(span_a.0, span_b.0);
    let union_end = later(span_a.1, span_b.1);
    let intersect_start = later(span_a.0, span_b.0);
    let intersect_end = earlier(span_a.1, span_b.1);
    if union_end < union_start {
        None
    } else if span_a.0 > span_b.1 || span_b.0 > span_a.1 {
        Some((0u64, (union_end - union_start) as u64))
    } else if intersect_end < intersect_start {
        None
    } else {
        Some(((intersect_end - intersect_start) as u64, (union_end - union_start) as u64))
    }
}

/// Two spans that each start no later than they end overlap by lengths,
/// and share no more than they cover.
pub proof fn lemma_overlap(span_a: (u64, u64), span_b: (u64, u64))
    requires
        span_a.0 <= span_a.1,
        span_b.0 <= span_b.1,
    ensures
        overlap(span_a, span_b) is Some,
        overlap(span_a, span_b)->Some_0.0 <= overlap(span_a, span_b)->Some_0.1,
        overlap(span_a, span_b) == overlap(span_b, span_a),
{
}

/// How far two spans of frames overlap, as two lengths: what they share,
/// and what they cover.
pub fn span_overlap(span_a: (u64, u64), span_b: (u64, u64)) -> (r: Option<(u64, u64)>)
    ensures
        r == overlap(span_a, span_b),
{
    let union_start = if span_a.0 <= span_b.0 {
        span_a.0
    } else {
        span_b.0
    };
    let union_end = if span_a.1 >= span_b.1 {
        span_a.1
    } else {
        span_b.1
    };
    if union_end < union_start {
        return None;
    }
    let union = union_end - union_start;
    if span_a.0 > span_b.1 || span_b.0 > span_a.1 {
        return Some((0, union));
    }
    let intersect_start = if span_a.0 >= span_b.0 {
        span_a.0
    } else {
        span_b.0
    };
    let intersect_end = if span_a.1 <= span_b.1 {
        span_a.1
    } else {
        span_b.1
    };
    if intersect_end < intersect_start {
        return None;
    }
    Some((intersect_end - intersect_start, union))
}

} // verus!
