use wakamore::events::{KeyName, PlayBinding, PlayingInputEvent, ResultInputEvent, TitleInputEvent};
use wakamore::input::{
    parse_input_action, parse_keycode, parse_play_key, parse_playing_action, playing_event,
    poll_playing_key_events, poll_result_key_events, poll_title_key_events, result_event,
    title_event, ActionBinding, Bindings, BindingsError, KeyBinding, KeyState,
    PlayingActionBinding, StateBindings,
};

#[test]
fn parse_keycode_accepts_single_letters_and_known_names() {
    assert_eq!(parse_keycode("A"), Some(KeyName::KeyA));
    assert_eq!(parse_keycode("a"), None);
    assert_eq!(parse_keycode("Space"), Some(KeyName::Space));
    assert_eq!(parse_keycode(" "), None);
    assert_eq!(parse_keycode("Enter"), Some(KeyName::Enter));
    assert_eq!(parse_keycode("KeyS"), None);
    assert_eq!(parse_keycode("Shift"), None);
    assert_eq!(parse_keycode("LShift"), Some(KeyName::ShiftLeft));
    assert_eq!(parse_keycode("RShift"), Some(KeyName::ShiftRight));
    assert_eq!(parse_keycode("Esc"), None);
    assert_eq!(parse_keycode("UnknownKey"), None);
}

#[test]
fn key_names_are_trimmed() {
    assert_eq!(parse_keycode(" Z\t"), Some(KeyName::KeyZ));
    assert_eq!(parse_keycode("Tab"), Some(KeyName::Tab));
    assert_eq!(parse_keycode("Escape"), Some(KeyName::Escape));
}

#[test]
fn event_names() {
    assert_eq!(parse_play_key("Key1"), Some(PlayBinding::Key1));
    assert_eq!(parse_play_key("7"), Some(PlayBinding::Key7));
    assert_eq!(parse_play_key("scratch_up"), Some(PlayBinding::ScratchUp));
    assert_eq!(parse_play_key("ScratchDown"), Some(PlayBinding::ScratchDown));
    assert_eq!(parse_play_key("key1"), None);
    assert_eq!(parse_play_key("8"), None);
    assert_eq!(parse_input_action("confirm"), Some(ActionBinding::Confirm));
    assert_eq!(parse_input_action("Cancel"), Some(ActionBinding::Cancel));
    assert_eq!(parse_input_action("CONFIRM"), None);
    assert_eq!(parse_playing_action("Abort"), Some(PlayingActionBinding::Abort));
    assert_eq!(parse_playing_action("abort"), None);
}

#[test]
fn bindings_from_file_parses_valid_bindings() {
    let toml = r#"
[title.actions]
    Confirm = "Enter"
    Cancel = "Escape"

[playing.play_keys]
    Key1 = "S"
    Key4 = "J"
    ScratchUp = "Space"
    ScratchDown = "RShift"

[playing.actions]
    Abort = "R"

[result.actions]
    Confirm = "Enter"
    Cancel = "Escape"
"#;
    let b = Bindings::from_toml_str(toml).unwrap();
    let title_enter = b.title_bindings().pressed_bindings(KeyName::Enter);
    assert_eq!(title_enter, vec![KeyBinding::Action(ActionBinding::Confirm)]);

    let playing_s_pressed = b.playing_bindings().pressed_bindings(KeyName::KeyS);
    assert_eq!(playing_s_pressed, vec![KeyBinding::Play(PlayBinding::Key1)]);

    let playing_force_result_pressed = b.playing_bindings().pressed_bindings(KeyName::KeyR);
    assert_eq!(
        playing_force_result_pressed,
        vec![KeyBinding::PlayingAction(PlayingActionBinding::Abort)]
    );

    let playing_s_released = b.playing_bindings().released_bindings(KeyName::KeyS);
    assert_eq!(playing_s_released, vec![KeyBinding::Play(PlayBinding::Key1)]);

    let result_space_pressed = b.result_bindings().pressed_bindings(KeyName::Enter);
    assert_eq!(result_space_pressed, vec![KeyBinding::Action(ActionBinding::Confirm)]);

    let result_space_released = b.result_bindings().released_bindings(KeyName::Enter);
    assert_eq!(result_space_released, vec![KeyBinding::Action(ActionBinding::Confirm)]);
}

#[test]
fn defaults_bind_the_usual_keys() {
    let b = Bindings::with_defaults().unwrap();
    let p = b.playing_bindings();
    assert_eq!(p.pressed_bindings(KeyName::KeyS), vec![KeyBinding::Play(PlayBinding::Key1)]);
    assert_eq!(p.pressed_bindings(KeyName::Space), vec![KeyBinding::Play(PlayBinding::Key4)]);
    assert_eq!(p.pressed_bindings(KeyName::ShiftRight), vec![KeyBinding::Play(PlayBinding::ScratchUp)]);
    assert_eq!(p.pressed_bindings(KeyName::ShiftLeft), vec![KeyBinding::Play(PlayBinding::ScratchDown)]);
    assert_eq!(p.pressed_bindings(KeyName::KeyR), vec![KeyBinding::PlayingAction(PlayingActionBinding::Abort)]);
    assert_eq!(p.keys().len(), 10);
    assert_eq!(b.title_bindings().pressed_bindings(KeyName::Escape), vec![KeyBinding::Action(ActionBinding::Cancel)]);
    assert_eq!(b.result_bindings().keys().len(), 2);
}

#[test]
fn bad_entries_are_skipped() {
    let toml = r#"
[title.actions]
Confirm = 3
Cancel = "Nope"
Jump = "J"
confirm = "Tab"

[playing]
actions = "R"
"#;
    let b = Bindings::from_toml_str(toml).unwrap();
    assert_eq!(b.title_bindings().keys(), vec![KeyName::Tab]);
    assert_eq!(b.title_bindings().pressed_bindings(KeyName::Tab), vec![KeyBinding::Action(ActionBinding::Confirm)]);
    assert!(b.playing_bindings().keys().is_empty());
    assert!(b.result_bindings().keys().is_empty());
}

#[test]
fn invalid_toml_is_an_error() {
    match Bindings::from_toml_str("[title.actions\nConfirm = ") {
        Err(BindingsError::Toml(_)) => {}
        Ok(_) => panic!("accepted invalid TOML"),
    }
}

#[test]
fn several_bindings_on_one_key_keep_their_order() {
    let mut sb = StateBindings::new();
    sb.bind(KeyName::KeyA, KeyBinding::Play(PlayBinding::Key2));
    sb.bind(KeyName::KeyB, KeyBinding::Play(PlayBinding::Key3));
    sb.bind(KeyName::KeyA, KeyBinding::Action(ActionBinding::Cancel));
    assert_eq!(
        sb.pressed_bindings(KeyName::KeyA),
        vec![KeyBinding::Play(PlayBinding::Key2), KeyBinding::Action(ActionBinding::Cancel)]
    );
    assert_eq!(sb.keys(), vec![KeyName::KeyA, KeyName::KeyB]);
    assert!(sb.pressed_bindings(KeyName::KeyC).is_empty());
}

#[test]
fn events_from_bindings() {
    assert_eq!(title_event(KeyBinding::Action(ActionBinding::Confirm), true), Some(TitleInputEvent::Confirm));
    assert_eq!(title_event(KeyBinding::Action(ActionBinding::Confirm), false), None);
    assert_eq!(title_event(KeyBinding::Play(PlayBinding::Key1), true), None);
    assert_eq!(playing_event(KeyBinding::Play(PlayBinding::Key5), true), Some(PlayingInputEvent::PlayKeyDown(PlayBinding::Key5)));
    assert_eq!(playing_event(KeyBinding::Play(PlayBinding::Key5), false), Some(PlayingInputEvent::PlayKeyUp(PlayBinding::Key5)));
    assert_eq!(playing_event(KeyBinding::PlayingAction(PlayingActionBinding::Abort), true), Some(PlayingInputEvent::Abort));
    assert_eq!(playing_event(KeyBinding::PlayingAction(PlayingActionBinding::Abort), false), None);
    assert_eq!(playing_event(KeyBinding::Action(ActionBinding::Cancel), true), None);
    assert_eq!(result_event(KeyBinding::Action(ActionBinding::Cancel), true), Some(ResultInputEvent::Cancel));
}

#[test]
fn polling_key_states() {
    let b = Bindings::with_defaults().unwrap();
    let states = vec![
        KeyState { key: KeyName::KeyS, just_pressed: true, just_released: false },
        KeyState { key: KeyName::KeyD, just_pressed: true, just_released: true },
        KeyState { key: KeyName::KeyR, just_pressed: false, just_released: true },
        KeyState { key: KeyName::Enter, just_pressed: true, just_released: false },
    ];
    assert_eq!(
        poll_playing_key_events(&b, &states),
        vec![
            PlayingInputEvent::PlayKeyDown(PlayBinding::Key1),
            PlayingInputEvent::PlayKeyDown(PlayBinding::Key2),
            PlayingInputEvent::PlayKeyUp(PlayBinding::Key2),
        ]
    );
    assert_eq!(poll_title_key_events(&b, &states), vec![TitleInputEvent::Confirm]);
    assert_eq!(poll_result_key_events(&b, &states), vec![ResultInputEvent::Confirm]);
}

#[test]
fn section_entries_bind_in_key_order() {
    let text = "[title.actions]\nConfirm = \"Enter\"\nCancel = \"Enter\"\n";
    let b = Bindings::from_toml_str(text).unwrap();
    assert_eq!(
        b.title_bindings().pressed_bindings(KeyName::Enter),
        vec![
            KeyBinding::Action(ActionBinding::Cancel),
            KeyBinding::Action(ActionBinding::Confirm)
        ]
    );
}
