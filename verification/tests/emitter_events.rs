use wakamore::emitter::{
    gamepad_button_lane_events, input_events_to_lane_events, pad_button_order, play_key_to_lane,
    record_lane_raw_events, PadButtonState,
};
use wakamore::events::{KeyName, LaneInputEvent, LastRawByLane, PadButton, PlayBinding, PlayingInputEvent, RawInput};

#[test]
fn input_events_convert_to_lane_events() {
    let input = vec![
        PlayingInputEvent::PlayKeyDown(PlayBinding::Key1),
        PlayingInputEvent::PlayKeyUp(PlayBinding::Key1),
    ];
    let out = input_events_to_lane_events(&input);
    assert_eq!(out.len(), 2);
    assert_eq!(out[0].lane_index, 0);
    assert!(out[0].pressed);
    assert_eq!(out[1].lane_index, 0);
    assert!(!out[1].pressed);
}

#[test]
fn abort_is_not_a_lane_event() {
    let input = vec![
        PlayingInputEvent::Abort,
        PlayingInputEvent::PlayKeyDown(PlayBinding::ScratchDown),
    ];
    let out = input_events_to_lane_events(&input);
    assert_eq!(out, vec![LaneInputEvent { lane_index: 7, pressed: true, raw: None }]);
}

#[test]
fn play_keys_map_to_lanes() {
    assert_eq!(play_key_to_lane(PlayBinding::Key1), 0);
    assert_eq!(play_key_to_lane(PlayBinding::Key4), 3);
    assert_eq!(play_key_to_lane(PlayBinding::Key7), 6);
    assert_eq!(play_key_to_lane(PlayBinding::ScratchUp), 7);
    assert_eq!(play_key_to_lane(PlayBinding::ScratchDown), 7);
}

#[test]
fn gamepad_buttons_give_lane_events() {
    let order = pad_button_order();
    assert_eq!(order.len(), 8);
    let states: Vec<PadButtonState> = order
        .iter()
        .map(|b| PadButtonState {
            button: *b,
            just_pressed: *b == PadButton::South,
            just_released: *b == PadButton::South || *b == PadButton::RightThumb,
        })
        .collect();
    let out = gamepad_button_lane_events(&states);
    assert_eq!(
        out,
        vec![
            LaneInputEvent { lane_index: 3, pressed: true, raw: Some(RawInput::Gamepad(PadButton::South)) },
            LaneInputEvent { lane_index: 3, pressed: false, raw: Some(RawInput::Gamepad(PadButton::South)) },
            LaneInputEvent { lane_index: 7, pressed: false, raw: Some(RawInput::Gamepad(PadButton::RightThumb)) },
        ]
    );
}

#[test]
fn last_raw_input_per_lane() {
    let mut last = LastRawByLane::new();
    let events = vec![
        LaneInputEvent { lane_index: 2, pressed: true, raw: Some(RawInput::Key(KeyName::KeyF)) },
        LaneInputEvent { lane_index: 2, pressed: false, raw: None },
        LaneInputEvent { lane_index: 5, pressed: true, raw: Some(RawInput::Gamepad(PadButton::RightTrigger)) },
        LaneInputEvent { lane_index: 2, pressed: true, raw: Some(RawInput::Gamepad(PadButton::LeftThumb)) },
    ];
    record_lane_raw_events(&mut last, &events);
    assert_eq!(last.0.len(), 2);
    assert_eq!(last.0.get(&2), Some(&RawInput::Gamepad(PadButton::LeftThumb)));
    assert_eq!(last.0.get(&5), Some(&RawInput::Gamepad(PadButton::RightTrigger)));
}
