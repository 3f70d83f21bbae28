use wakamore::events::{JudgementKind, KeyName, PlayBinding, PlayingInputEvent, TitleInputEvent};
use wakamore::game::{
    judgement_text, lane_center_half_px, lane_is_pressed, lane_width, update_playing_input,
    update_result_input, update_title_input, AppState, LaneInputState, ResultInputEvent,
    ScoreSummary, LANE_COUNT, LANE_GAP, LANE_TOTAL_WIDTH, SCORE_GR, SCORE_PG,
};

#[test]
fn title_confirm_starts_play() {
    assert_eq!(update_title_input(&vec![]), None);
    assert_eq!(update_title_input(&vec![TitleInputEvent::Cancel]), None);
    assert_eq!(
        update_title_input(&vec![TitleInputEvent::Cancel, TitleInputEvent::Confirm]),
        Some(AppState::Playing)
    );
}

#[test]
fn playing_abort_shows_result() {
    let keys = vec![
        PlayingInputEvent::PlayKeyDown(PlayBinding::Key1),
        PlayingInputEvent::PlayKeyUp(PlayBinding::Key1),
    ];
    assert_eq!(update_playing_input(&keys), None);
    let mut with_abort = keys.clone();
    with_abort.push(PlayingInputEvent::Abort);
    assert_eq!(update_playing_input(&with_abort), Some(AppState::Result));
}

#[test]
fn result_first_deciding_event_wins() {
    assert_eq!(update_result_input(&vec![ResultInputEvent::Cancel]), None);
    assert_eq!(update_result_input(&vec![ResultInputEvent::ScratchUp]), None);
    assert_eq!(
        update_result_input(&vec![ResultInputEvent::Confirm, ResultInputEvent::ScratchDown]),
        Some(AppState::Title)
    );
    assert_eq!(
        update_result_input(&vec![
            ResultInputEvent::Cancel,
            ResultInputEvent::ScratchDown,
            ResultInputEvent::Confirm
        ]),
        Some(AppState::Playing)
    );
}

#[test]
fn app_starts_on_title() {
    assert_eq!(AppState::default(), AppState::Title);
}

#[test]
fn score_counts_judgements() {
    let mut s = ScoreSummary::new();
    assert_eq!(s, ScoreSummary::default());
    s.record(JudgementKind::Pg);
    s.record(JudgementKind::Gr);
    s.record(JudgementKind::Pg);
    s.record(JudgementKind::Miss);
    assert_eq!(s.pg, 2);
    assert_eq!(s.gr, 1);
    assert_eq!(s.miss, 1);
    assert_eq!(s.score, 2500);
    assert_eq!(s.score, SCORE_PG * s.pg + SCORE_GR * s.gr);
    assert_eq!((s.score(), s.pg(), s.gr(), s.miss()), (2500, 2, 1, 1));
    s.reset();
    assert_eq!(s, ScoreSummary { pg: 0, gr: 0, miss: 0, score: 0 });
}

#[test]
fn judgement_texts() {
    assert_eq!(judgement_text(JudgementKind::Pg), "PG");
    assert_eq!(judgement_text(JudgementKind::Gr), "GR");
    assert_eq!(judgement_text(JudgementKind::Miss), "MISS");
}

#[test]
fn lanes_follow_the_held_keys() {
    let held = vec![KeyName::KeyS, KeyName::Space, KeyName::ShiftRight];
    let pressed: Vec<bool> = (0..LANE_COUNT).map(|i| lane_is_pressed(&held, i)).collect();
    assert_eq!(pressed, vec![true, false, false, true, false, false, false, true]);
    assert!(!lane_is_pressed(&held, 8));
    assert!(lane_is_pressed(&vec![KeyName::ShiftLeft], 7));
    assert!(lane_is_pressed(&vec![KeyName::KeyL], 6));
    assert!(!lane_is_pressed(&vec![KeyName::KeyA], 0));
}

#[test]
fn lane_input_state_and_events() {
    let mut st = LaneInputState::new();
    assert_eq!(st.pressed, [false; 8]);
    st.collect(&vec![KeyName::KeyD, KeyName::KeyK], &vec![KeyName::KeyK]);
    assert_eq!(st.pressed, [false, true, false, false, false, true, false, false]);
    assert_eq!(st.just_pressed, [false, false, false, false, false, true, false, false]);
    let events = st.lane_events();
    assert_eq!(events.len(), 8);
    for (i, e) in events.iter().enumerate() {
        assert_eq!(e.lane_index, i);
        assert_eq!(e.pressed, i == 1 || i == 5);
        assert!(e.raw.is_none());
    }
}

#[test]
fn lane_layout_values() {
    assert_eq!(lane_width(0), 60);
    assert_eq!(lane_width(1), 48);
    assert_eq!(lane_width(6), 60);
    assert_eq!(lane_width(7), 108);
    let total: u32 = (0..8).map(lane_width).sum::<u32>() + 7 * LANE_GAP;
    assert_eq!(total, LANE_TOTAL_WIDTH);
    assert_eq!(lane_center_half_px(0), -453);
    assert_eq!(lane_center_half_px(1), -339);
    assert_eq!(lane_center_half_px(7), 405);
    assert_eq!(lane_center_half_px(8), 0);
    assert_eq!(lane_center_half_px(100), 0);
}

#[test]
fn lanes_are_centred_on_values() {
    // left edge of lane 0 and right edge of lane 7, in half pixels
    let left0 = lane_center_half_px(0) - lane_width(0) as i32;
    let right7 = lane_center_half_px(7) + lane_width(7) as i32;
    assert_eq!(left0, -(LANE_TOTAL_WIDTH as i32));
    assert_eq!(right7, LANE_TOTAL_WIDTH as i32);
}
