//! Input and gameplay event types shared by the input, emitter and game
//! modules.
use std::collections::HashMap;
use vstd::prelude::*;

verus! {

broadcast use vstd::std_specs::hash::group_hash_axioms;

/// The keyboard keys that bindings can name.
#[derive(Clone, Copy, Debug, PartialEq, Eq, Hash, Structural)]
pub enum KeyName {
    KeyA,
    KeyB,
    KeyC,
    KeyD,
    KeyE,
    KeyF,
    KeyG,
    KeyH,
    KeyI,
    KeyJ,
    KeyK,
    KeyL,
    KeyM,
    KeyN,
    KeyO,
    KeyP,
    KeyQ,
    KeyR,
    KeyS,
    KeyT,
    KeyU,
    KeyV,
    KeyW,
    KeyX,
    KeyY,
    KeyZ,
    Space,
    ShiftLeft,
    ShiftRight,
    Enter,
    Escape,
    Tab,
}

/// The letter of a letter key: `KeyA` is the `A` key, and so on; the
/// other keys have none.
pub open spec fn key_letter(k: KeyName) -> Option<char> {
    match k {
        KeyName::KeyA => Some('A'),
        KeyName::KeyB => Some('B'),
        KeyName::KeyC => Some('C'),
        KeyName::KeyD => Some('D'),
        KeyName::KeyE => Some('E'),
        KeyName::KeyF => Some('F'),
        KeyName::KeyG => Some('G'),
        KeyName::KeyH => Some('H'),
        KeyName::KeyI => Some('I'),
        KeyName::KeyJ => Some('J'),
        KeyName::KeyK => Some('K'),
        KeyName::KeyL => Some('L'),
        KeyName::KeyM => Some('M'),
        KeyName::KeyN => Some('N'),
        KeyName::KeyO => Some('O'),
        KeyName::KeyP => Some('P'),
        KeyName::KeyQ => Some('Q'),
        KeyName::KeyR => Some('R'),
        KeyName::KeyS => Some('S'),
        KeyName::KeyT => Some('T'),
        KeyName::KeyU => Some('U'),
        KeyName::KeyV => Some('V'),
        KeyName::KeyW => Some('W'),
        KeyName::KeyX => Some('X'),
        KeyName::KeyY => Some('Y'),
        KeyName::KeyZ => Some('Z'),
        _ => None,
    }
}

/// The gamepad buttons that are mapped to lanes.
#[derive(Clone, Copy, Debug, PartialEq, Eq, Hash, Structural)]
pub enum PadButton {
    West,
    LeftTrigger,
    LeftThumb,
    South,
    North,
    RightTrigger,
    East,
    RightThumb,
}

/// The play keys of a seven-key-plus-scratch layout.
#[derive(Clone, Copy, Debug, PartialEq, Eq, Hash, Structural)]
pub enum PlayBinding {
    Key1,
    Key2,
    Key3,
    Key4,
    Key5,
    Key6,
    Key7,
    ScratchUp,
    ScratchDown,
}

#[derive(Clone, Copy, Debug, PartialEq, Eq, Structural)]
pub enum TitleInputEvent {
    Confirm,
    Cancel,
}

#[derive(Clone, Copy, Debug, PartialEq, Eq, Structural)]
pub enum PlayingInputEvent {
    PlayKeyDown(PlayBinding),
    PlayKeyUp(PlayBinding),
    Abort,
}

#[derive(Clone, Copy, Debug, PartialEq, Eq, Structural)]
pub enum ResultInputEvent {
    Confirm,
    Cancel,
}

/// The physical input behind a lane event.
#[derive(Clone, Copy, Debug, PartialEq, Eq, Structural)]
pub enum RawInput {
    Key(KeyName),
    Gamepad(PadButton),
}

/// A lane was pressed or released.
#[derive(Clone, Copy, Debug, PartialEq, Eq, Structural)]
pub struct LaneInputEvent {
    pub lane_index: usize,
    pub pressed: bool,
    pub raw: Option<RawInput>,
}

#[derive(Clone, Copy, Debug, PartialEq, Eq, Structural)]
pub enum JudgementKind {
    Pg,
    Gr,
    Miss,
}

/// A press on a lane was judged.
#[derive(Clone, Copy, Debug, PartialEq, Eq, Structural)]
pub struct LaneJudgementEvent {
    pub lane_index: usize,
    pub kind: JudgementKind,
}

/// The last physical input seen on each lane.
#[derive(Debug)]
pub struct LastRawByLane(pub HashMap<usize, RawInput>);

impl LastRawByLane {
    pub fn new() -> (r: LastRawByLane)
        ensures
            r.0@ == Map::<usize, RawInput>::empty(),
    {
        LastRawByLane(HashMap::new())
    }
}

} // verus!
