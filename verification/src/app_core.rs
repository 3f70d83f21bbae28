//! The windowed application's core: loop timing, screens and their
//! transitions, and how keyboard input becomes play events. Times are
//! nanoseconds since a fixed origin chosen by the caller.
use vstd::prelude::*;
use crate::events::KeyName;

verus! {

// ---------------------------------------------------------------------------
// Loop timing
// ---------------------------------------------------------------------------

/// When a periodic loop (the main loop, or a window's redraw) runs next.
#[derive(Clone, Copy, Debug)]
pub struct LoopManager {
    /// The time at which the loop is next due, in nanoseconds.
    pub next_loop_at: u64,
    /// The period, in nanoseconds.
    pub period: u64,
}

impl LoopManager {
    /// A loop due at `now` that repeats every `period` nanoseconds.
    pub fn new(now: u64, period: u64) -> (r: LoopManager)
        ensures
            r.next_loop_at == now,
            r.period == period,
    {
        LoopManager { next_loop_at: now, period }
    }

    /// The period, in nanoseconds.
    pub fn period(&self) -> (r: u64)
        ensures
            r == self.period,
    {
        self.period
    }

    /// Whether the loop is due at `now`.
    pub fn next_loop_is_came(&self, now: u64) -> (r: bool)
        ensures
            r == (now >= self.next_loop_at),
    {
        now >= self.next_loop_at
    }

    /// Records that the loop ran at `now`: the next run is one period after
    /// the previous due time, or one period after `now` when that has
    /// already passed.
    pub fn update_loop_state(&mut self, now: u64)
        requires
            old(self).next_loop_at + old(self).period <= u64::MAX,
            now + old(self).period <= u64::MAX,
        ensures
            final(self).period == old(self).period,
            final(self).next_loop_at == if old(self).next_loop_at + old(self).period <= now {
                now + old(self).period
            } else {
                old(self).next_loop_at + old(self).period
            },
            // A loop run when due is next due after `now` and at most one
            // period after it: never twice at one instant, never more than
            // a period behind.
            old(self).period > 0 && old(self).next_loop_at <= now ==> now
                < final(self).next_loop_at <= now + old(self).period,
    {
        let next = self.next_loop_at + self.period;
        let next = if next <= now {
            now + self.period
        } else {
            next
        };
        self.next_loop_at = next;
    }
}

// ---------------------------------------------------------------------------
// Play core
// ---------------------------------------------------------------------------

#[derive(Clone, Copy, Debug, PartialEq, Eq, Structural)]
pub enum KeyPressed {
    Key1,
}

#[derive(Clone, Copy, Debug, PartialEq, Eq, Structural)]
pub enum KeyReleased {
    Key1,
    ToggleDebugWindow,
}

/// An event for the play core.
#[derive(Clone, Copy, Debug, PartialEq, Eq, Structural)]
pub enum PlayEvent {
    /// A key event that means nothing to the play core.
    NoEvent,
    KeyPressed(KeyPressed),
    KeyReleased(KeyReleased),
}

/// The gameplay core of the windowed application. It holds no state yet and
/// ignores the events it receives.
#[derive(Clone, Copy, Debug, Default)]
pub struct PlayCore {}

impl PlayCore {
    pub fn receive_event(&mut self, event: PlayEvent)
        ensures
            *final(self) == *old(self),
    {
    }
}

/// The play event of a keyboard key going down or up. Repeats give none;
/// F12 toggles the debug window when released and does nothing when
/// pressed; any other key is play key 1.
pub open spec fn play_event_of_key(pressed: bool, repeat: bool, is_f12: bool) -> Option<PlayEvent> {
    if repeat {
        None
    } else if pressed {
        if is_f12 {
            Some(PlayEvent::NoEvent)
        } else {
            Some(PlayEvent::KeyPressed(KeyPressed::Key1))
        }
    } else {
        if is_f12 {
            Some(PlayEvent::KeyReleased(KeyReleased::ToggleDebugWindow))
        } else {
            Some(PlayEvent::KeyReleased(KeyReleased::Key1))
        }
    }
}

pub fn play_event_for_key(pressed: bool, repeat: bool, is_f12: bool) -> (r: Option<PlayEvent>)
    ensures
        r == play_event_of_key(pressed, repeat, is_f12),
{
    if repeat {
        None
    } else if pressed {
        if is_f12 {
            Some(PlayEvent::NoEvent)
        } else {
            Some(PlayEvent::KeyPressed(KeyPressed::Key1))
        }
    } else {
        if is_f12 {
            Some(PlayEvent::KeyReleased(KeyReleased::ToggleDebugWindow))
        } else {
            Some(PlayEvent::KeyReleased(KeyReleased::Key1))
        }
    }
}

/// Whether a play event is for the application (toggling the debug window)
/// rather than for the play core.
pub fn toggles_debug_window(event: PlayEvent) -> (r: bool)
    ensures
        r == (event == PlayEvent::KeyReleased(KeyReleased::ToggleDebugWindow)),
{
    match event {
        PlayEvent::KeyReleased(KeyReleased::ToggleDebugWindow) => true,
        _ => false,
    }
}

/// The screen mode of the play core.
#[derive(Clone, Copy, Debug, Default)]
pub struct GameMode;

impl GameMode {
    pub fn current_screen_name(&self) -> (r: &'static str)
        ensures
            r@ == "MainScreen"@,
    {
        "MainScreen"
    }
}

// ---------------------------------------------------------------------------
// Screens
// ---------------------------------------------------------------------------

/// What the game window draws.
#[derive(Clone, Copy, Debug, PartialEq, Eq, Structural)]
pub enum GameRenderState {
    Title,
    Gameplay,
}

/// A rectangle: top-left position and size.
#[derive(Clone, Copy, Debug)]
pub struct Rect<T> {
    pub position: [T; 2],
    pub size: [T; 2],
}

/// A window event as the screens see it: a key going down, or anything else.
#[derive(Clone, Copy, Debug, PartialEq, Eq, Structural)]
pub enum ScreenEvent {
    KeyPressed(KeyName),
    Other,
}

#[derive(Clone, Copy, Debug, PartialEq, Eq, Structural)]
pub enum Screen {
    Title,
    Gameplay,
}

/// What a screen asks of the screen manager.
#[derive(Clone, Copy, Debug, PartialEq, Eq, Structural)]
pub enum ScreenCommand {
    /// Stay on the current screen.
    Keep,
    Replace(Screen),
}

/// The command of a screen for an event: Enter on the title starts play,
/// Escape during play returns to the title.
pub open spec fn screen_command_of(s: Screen, event: ScreenEvent) -> ScreenCommand {
    match (s, event) {
        (Screen::Title, ScreenEvent::KeyPressed(KeyName::Enter)) => ScreenCommand::Replace(
            Screen::Gameplay,
        ),
        (Screen::Gameplay, ScreenEvent::KeyPressed(KeyName::Escape)) => ScreenCommand::Replace(
            Screen::Title,
        ),
        _ => ScreenCommand::Keep,
    }
}

pub open spec fn render_state_of(s: Screen) -> GameRenderState {
    match s {
        Screen::Title => GameRenderState::Title,
        Screen::Gameplay => GameRenderState::Gameplay,
    }
}

impl Screen {
    pub fn handle_event(&self, event: ScreenEvent) -> (r: ScreenCommand)
        ensures
            r == screen_command_of(*self, event),
    {
        match (self, event) {
            (Screen::Title, ScreenEvent::KeyPressed(KeyName::Enter)) => ScreenCommand::Replace(
                Screen::Gameplay,
            ),
            (Screen::Gameplay, ScreenEvent::KeyPressed(KeyName::Escape)) => ScreenCommand::Replace(
                Screen::Title,
            ),
            _ => ScreenCommand::Keep,
        }
    }

    /// The per-loop update of a screen; no screen asks for anything yet.
    pub fn update(&self) -> (r: ScreenCommand)
        ensures
            r == ScreenCommand::Keep,
    {
        ScreenCommand::Keep
    }

    pub fn render_state(&self) -> (r: GameRenderState)
        ensures
            r == render_state_of(*self),
    {
        match self {
            Screen::Title => GameRenderState::Title,
            Screen::Gameplay => GameRenderState::Gameplay,
        }
    }

    pub fn name(&self) -> (r: &'static str)
        ensures
            *self == Screen::Title ==> r@ == "Title"@,
            *self == Screen::Gameplay ==> r@ == "Gameplay"@,
    {
        match self {
            Screen::Title => "Title",
            Screen::Gameplay => "Gameplay",
        }
    }
}

/// Holds the current screen and applies the screens' commands.
#[derive(Clone, Copy, Debug)]
pub struct ScreenManager {
    current: Screen,
}

impl ScreenManager {
    pub closed spec fn current(&self) -> Screen {
        self.current
    }

    /// Starts on the title screen.
    pub fn new() -> (r: ScreenManager)
        ensures
            r.current() == Screen::Title,
    {
        ScreenManager { current: Screen::Title }
    }

    fn apply(&mut self, command: ScreenCommand) -> (r: ScreenCommand)
        ensures
            r == ScreenCommand::Keep,
            final(self).current() == match command {
                ScreenCommand::Replace(s) => s,
                ScreenCommand::Keep => old(self).current(),
            },
    {
        match command {
            ScreenCommand::Replace(screen) => {
                self.current = screen;
                ScreenCommand::Keep
            },
            other => other,
        }
    }

    /// Passes a window event to the current screen and applies its command;
    /// a replaced screen is taken up at once, so nothing is left to do.
    pub fn handle_event(&mut self, event: ScreenEvent) -> (r: ScreenCommand)
        ensures
            r == ScreenCommand::Keep,
            final(self).current() == match screen_command_of(old(self).current(), event) {
                ScreenCommand::Replace(s) => s,
                ScreenCommand::Keep => old(self).current(),
            },
    {
        let command = self.current.handle_event(event);
        self.apply(command)
    }

    pub fn update(&mut self)
        ensures
            final(self).current() == old(self).current(),
    {
        let command = self.current.update();
        self.apply(command);
    }

    pub fn render_state(&self) -> (r: GameRenderState)
        ensures
            r == render_state_of(self.current()),
    {
        self.current.render_state()
    }

    pub fn current_screen_name(&self) -> (r: &'static str)
        ensures
            self.current() == Screen::Title ==> r@ == "Title"@,
            self.current() == Screen::Gameplay ==> r@ == "Gameplay"@,
    {
        self.current.name()
    }
}

/// Events other than the two keys that move between screens leave the
/// screen as it is.
pub proof fn law_other_events_keep_screen(s: Screen, event: ScreenEvent)
    requires
        event != ScreenEvent::KeyPressed(KeyName::Enter),
        event != ScreenEvent::KeyPressed(KeyName::Escape),
    ensures
        screen_command_of(s, event) == ScreenCommand::Keep,
{
}

} // verus!
