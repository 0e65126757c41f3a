use ssl_log_tools::protos::log_labels::BallPossessionLabel;
use ssl_log_tools::protos::log_labels::BallPossessionLabel_State;
use ssl_log_tools::protos::log_labels::DribblingLabel;
use ssl_log_tools::protos::log_labels::GoalShotLabel;
use ssl_log_tools::protos::log_labels::PassingLabel;
use ssl_log_tools::protos::log_labels::Team;
use ssl_log_tools::score::score_ball_possession;
use ssl_log_tools::score::score_ball_possession_label;
use ssl_log_tools::score::score_dribbling;
use ssl_log_tools::score::score_dribbling_label;
use ssl_log_tools::score::score_goal_shot_label;
use ssl_log_tools::score::score_passing_label;
use ssl_log_tools::score::span_overlap;

fn dribbling(is_dribbling: bool, robot_id: u32, team: Team) -> DribblingLabel {
    DribblingLabel { is_dribbling, robot_id, team }
}

fn possession(state: BallPossessionLabel_State, robot_id: u32) -> BallPossessionLabel {
    BallPossessionLabel { state, robot_id }
}

#[test]
fn dribbling_points() {
    let truth = dribbling(true, 3, Team::Blue);
    assert_eq!(score_dribbling_label(&truth, &dribbling(true, 3, Team::Blue)), 4);
    assert_eq!(score_dribbling_label(&truth, &dribbling(true, 4, Team::Blue)), 3);
    assert_eq!(score_dribbling_label(&truth, &dribbling(true, 3, Team::Yellow)), 3);
    assert_eq!(score_dribbling_label(&truth, &dribbling(true, 4, Team::Yellow)), 2);
    assert_eq!(score_dribbling_label(&truth, &dribbling(false, 3, Team::Blue)), 0);
    let truth = dribbling(false, 3, Team::Blue);
    assert_eq!(score_dribbling_label(&truth, &dribbling(false, 9, Team::Yellow)), 2);
    assert_eq!(score_dribbling_label(&truth, &dribbling(false, 3, Team::Blue)), 2);
    assert_eq!(score_dribbling_label(&truth, &dribbling(true, 3, Team::Blue)), 0);
}

#[test]
fn dribbling_score_goes_as_far_as_both_lists() {
    let truth = vec![
        dribbling(true, 1, Team::Yellow),
        dribbling(false, 0, Team::Yellow),
        dribbling(true, 2, Team::Blue),
    ];
    let predicted = vec![
        dribbling(true, 1, Team::Blue),
        dribbling(false, 7, Team::Blue),
        dribbling(false, 2, Team::Blue),
        dribbling(true, 2, Team::Blue),
    ];
    assert_eq!(score_dribbling(&truth, &predicted), 5);
    assert_eq!(score_dribbling(&predicted, &truth), 5);
    assert_eq!(score_dribbling(&truth, &truth), 10);
    assert_eq!(score_dribbling(&truth, &predicted[..1]), 3);
    assert_eq!(score_dribbling(&truth, &[]), 0);
    assert_eq!(score_dribbling(&[], &[]), 0);
}

#[test]
fn ball_possession_points() {
    let truth = possession(BallPossessionLabel_State::YELLOW_POSSES, 3);
    assert_eq!(
        score_ball_possession_label(&truth, &possession(BallPossessionLabel_State::YELLOW_POSSES, 3)),
        3
    );
    assert_eq!(
        score_ball_possession_label(&truth, &possession(BallPossessionLabel_State::YELLOW_POSSES, 4)),
        2
    );
    assert_eq!(
        score_ball_possession_label(&truth, &possession(BallPossessionLabel_State::BLUE_POSSES, 3)),
        0
    );
    let truth = possession(BallPossessionLabel_State::NONE, 3);
    assert_eq!(score_ball_possession_label(&truth, &possession(BallPossessionLabel_State::NONE, 3)), 2);
    assert_eq!(score_ball_possession_label(&truth, &possession(BallPossessionLabel_State::NONE, 4)), 2);
    assert_eq!(
        score_ball_possession(
            &[truth, possession(BallPossessionLabel_State::BLUE_POSSES, 1)],
            &[truth, possession(BallPossessionLabel_State::BLUE_POSSES, 1), truth]
        ),
        5
    );
}

#[test]
fn passing_points() {
    let truth = PassingLabel {
        start_frame: 1,
        end_frame: 2,
        successful: true,
        passer_id: 3,
        passer_team: Team::Blue,
        receiver_id: 4,
    };
    assert_eq!(score_passing_label(&truth, &truth), 4);
    assert_eq!(score_passing_label(&truth, &PassingLabel { start_frame: 9, ..truth }), 4);
    assert_eq!(score_passing_label(&truth, &PassingLabel { successful: false, ..truth }), 3);
    assert_eq!(
        score_passing_label(&truth, &PassingLabel { passer_id: 0, receiver_id: 0, ..truth }),
        2
    );
    assert_eq!(
        score_passing_label(
            &truth,
            &PassingLabel {
                start_frame: 1,
                end_frame: 2,
                successful: false,
                passer_id: 0,
                passer_team: Team::Yellow,
                receiver_id: 0
            }
        ),
        0
    );
}

#[test]
fn goal_shot_points() {
    let truth = GoalShotLabel {
        start_frame: 1,
        end_frame: 2,
        successful: false,
        shooter_id: 3,
        shooter_team: Team::Yellow,
    };
    assert_eq!(score_goal_shot_label(&truth, &truth), 3);
    assert_eq!(score_goal_shot_label(&truth, &GoalShotLabel { end_frame: 9, ..truth }), 3);
    assert_eq!(score_goal_shot_label(&truth, &GoalShotLabel { shooter_id: 9, ..truth }), 2);
    assert_eq!(
        score_goal_shot_label(
            &truth,
            &GoalShotLabel { successful: true, shooter_team: Team::Blue, ..truth }
        ),
        1
    );
}

#[test]
fn span_overlaps() {
    assert_eq!(span_overlap((0, 10), (5, 15)), Some((5, 15)));
    assert_eq!(span_overlap((5, 15), (0, 10)), Some((5, 15)));
    assert_eq!(span_overlap((0, 10), (0, 10)), Some((10, 10)));
    assert_eq!(span_overlap((0, 10), (2, 3)), Some((1, 10)));
    assert_eq!(span_overlap((0, 10), (10, 20)), Some((0, 20)));
    assert_eq!(span_overlap((0, 10), (11, 20)), Some((0, 20)));
    assert_eq!(span_overlap((7, 7), (7, 7)), Some((0, 0)));
    assert_eq!(span_overlap((0, u64::MAX), (1, 2)), Some((1, u64::MAX)));
    // a span that ends before it starts
    assert_eq!(span_overlap((5, 3), (10, 20)), Some((0, 15)));
    assert_eq!(span_overlap((5, 3), (1, 10)), None);
    assert_eq!(span_overlap((5, 3), (7, 2)), None);
}
