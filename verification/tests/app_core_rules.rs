use wakamore::app_core::{
    play_event_for_key, toggles_debug_window, GameMode, GameRenderState, KeyPressed, KeyReleased,
    LoopManager, PlayCore, PlayEvent, Screen, ScreenCommand, ScreenEvent, ScreenManager,
};
use wakamore::events::KeyName;

#[test]
fn loop_is_due_at_start_and_then_each_period() {
    let mut lm = LoopManager::new(1_000, 100);
    assert_eq!(lm.period(), 100);
    assert!(lm.next_loop_is_came(1_000));
    assert!(!lm.next_loop_is_came(999));
    lm.update_loop_state(1_000);
    assert_eq!(lm.next_loop_at, 1_100);
    assert!(!lm.next_loop_is_came(1_050));
    assert!(lm.next_loop_is_came(1_100));
}

#[test]
fn late_loop_is_rescheduled_from_now() {
    let mut lm = LoopManager::new(0, 100);
    lm.update_loop_state(350);
    assert_eq!(lm.next_loop_at, 450);
    // a run a little late keeps the cadence
    let mut lm = LoopManager::new(0, 100);
    lm.update_loop_state(30);
    assert_eq!(lm.next_loop_at, 100);
}

#[test]
fn loop_runs_once_per_period() {
    let mut lm = LoopManager::new(0, 16);
    let mut runs = 0;
    for now in 0..160u64 {
        if lm.next_loop_is_came(now) {
            lm.update_loop_state(now);
            runs += 1;
            assert!(lm.next_loop_at > now && lm.next_loop_at <= now + 16);
        }
    }
    assert_eq!(runs, 10);
}

#[test]
fn key_events_become_play_events() {
    assert_eq!(play_event_for_key(true, true, false), None);
    assert_eq!(play_event_for_key(false, true, true), None);
    assert_eq!(
        play_event_for_key(true, false, false),
        Some(PlayEvent::KeyPressed(KeyPressed::Key1))
    );
    assert_eq!(play_event_for_key(true, false, true), Some(PlayEvent::NoEvent));
    assert_eq!(
        play_event_for_key(false, false, false),
        Some(PlayEvent::KeyReleased(KeyReleased::Key1))
    );
    assert_eq!(
        play_event_for_key(false, false, true),
        Some(PlayEvent::KeyReleased(KeyReleased::ToggleDebugWindow))
    );
}

#[test]
fn only_f12_release_toggles_debug_window() {
    assert!(toggles_debug_window(PlayEvent::KeyReleased(KeyReleased::ToggleDebugWindow)));
    assert!(!toggles_debug_window(PlayEvent::KeyReleased(KeyReleased::Key1)));
    assert!(!toggles_debug_window(PlayEvent::KeyPressed(KeyPressed::Key1)));
    assert!(!toggles_debug_window(PlayEvent::NoEvent));
}

#[test]
fn play_core_and_game_mode() {
    let mut core = PlayCore::default();
    core.receive_event(PlayEvent::KeyPressed(KeyPressed::Key1));
    core.receive_event(PlayEvent::NoEvent);
    assert_eq!(GameMode.current_screen_name(), "MainScreen");
}

#[test]
fn enter_starts_play_and_escape_returns_to_title() {
    let mut sm = ScreenManager::new();
    assert_eq!(sm.current_screen_name(), "Title");
    assert_eq!(sm.render_state(), GameRenderState::Title);
    assert_eq!(sm.handle_event(ScreenEvent::KeyPressed(KeyName::Escape)), ScreenCommand::Keep);
    assert_eq!(sm.current_screen_name(), "Title");
    sm.handle_event(ScreenEvent::KeyPressed(KeyName::Enter));
    assert_eq!(sm.current_screen_name(), "Gameplay");
    assert_eq!(sm.render_state(), GameRenderState::Gameplay);
    sm.update();
    assert_eq!(sm.current_screen_name(), "Gameplay");
    sm.handle_event(ScreenEvent::KeyPressed(KeyName::Enter));
    assert_eq!(sm.current_screen_name(), "Gameplay");
    sm.handle_event(ScreenEvent::KeyPressed(KeyName::Escape));
    assert_eq!(sm.current_screen_name(), "Title");
}

#[test]
fn screens_answer_events() {
    assert_eq!(
        Screen::Title.handle_event(ScreenEvent::KeyPressed(KeyName::Enter)),
        ScreenCommand::Replace(Screen::Gameplay)
    );
    assert_eq!(
        Screen::Gameplay.handle_event(ScreenEvent::KeyPressed(KeyName::Escape)),
        ScreenCommand::Replace(Screen::Title)
    );
    assert_eq!(Screen::Title.handle_event(ScreenEvent::Other), ScreenCommand::Keep);
    assert_eq!(Screen::Gameplay.handle_event(ScreenEvent::Other), ScreenCommand::Keep);
    assert_eq!(Screen::Title.update(), ScreenCommand::Keep);
    assert_eq!(Screen::Title.name(), "Title");
    assert_eq!(Screen::Gameplay.name(), "Gameplay");
    assert_eq!(Screen::Gameplay.render_state(), GameRenderState::Gameplay);
}
