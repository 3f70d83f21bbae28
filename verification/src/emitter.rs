//! Turning input events into lane events, and remembering which physical
//! input last touched each lane.
use vstd::prelude::*;
use crate::input::play_key_of;
use crate::events::{
    LaneInputEvent, LastRawByLane, PadButton, PlayBinding, PlayingInputEvent, RawInput,
};

verus! {

broadcast use vstd::std_specs::hash::group_hash_axioms;

/// Lane of a play key: keys 1 to 7 are lanes 0 to 6, both scratch
/// directions are lane 7.
pub open spec fn lane_of_play_key(key: PlayBinding) -> usize {
    match key {
        PlayBinding::Key1 => 0,
        PlayBinding::Key2 => 1,
        PlayBinding::Key3 => 2,
        PlayBinding::Key4 => 3,
        PlayBinding::Key5 => 4,
        PlayBinding::Key6 => 5,
        PlayBinding::Key7 => 6,
        PlayBinding::ScratchUp | PlayBinding::ScratchDown => 7,
    }
}

pub fn play_key_to_lane(key: PlayBinding) -> (r: usize)
    ensures
        r == lane_of_play_key(key),
        r < 8,
{
    match key {
        PlayBinding::Key1 => 0,
        PlayBinding::Key2 => 1,
        PlayBinding::Key3 => 2,
        PlayBinding::Key4 => 3,
        PlayBinding::Key5 => 4,
        PlayBinding::Key6 => 5,
        PlayBinding::Key7 => 6,
        PlayBinding::ScratchUp | PlayBinding::ScratchDown => 7,
    }
}

/// Play key `n` (named `n` or `Keyn` in bindings) plays on lane `n - 1`,
/// and both scratch directions on lane 7, the last.
pub proof fn law_play_key_lanes(d: char)
    ensures
        '1' <= d && d <= '7' ==> play_key_of(seq![d]) is Some && lane_of_play_key(
            play_key_of(seq![d])->0,
        ) == (d as u32) - 0x31,
        '1' <= d && d <= '7' ==> play_key_of("Key"@ + seq![d]) == play_key_of(seq![d]),
        play_key_of("ScratchUp"@) matches Some(k) && lane_of_play_key(k) == 7,
        play_key_of("ScratchDown"@) matches Some(k) && lane_of_play_key(k) == 7,
{
    reveal_strlit("Key1");
    reveal_strlit("1");
    reveal_strlit("Key2");
    reveal_strlit("2");
    reveal_strlit("Key3");
    reveal_strlit("3");
    reveal_strlit("Key4");
    reveal_strlit("4");
    reveal_strlit("Key5");
    reveal_strlit("5");
    reveal_strlit("Key6");
    reveal_strlit("6");
    reveal_strlit("Key7");
    reveal_strlit("7");
    reveal_strlit("ScratchUp");
    reveal_strlit("ScratchDown");
    reveal_strlit("Key");
    reveal_strlit("scratch_up");
    reveal_strlit("scratch_down");
    let up = "ScratchUp"@;
    let down = "ScratchDown"@;
    assert(up.len() == 9 && down.len() == 11);
    assert(up[0] != "1"@[0] && down[0] != "1"@[0]);
    assert("1"@[0] == '1' && "1"@.len() == 1 && "Key1"@.len() == 4 && "Key1"@[3] == '1');
    assert("2"@[0] == '2' && "2"@.len() == 1 && "Key2"@.len() == 4 && "Key2"@[3] == '2');
    assert("3"@[0] == '3' && "3"@.len() == 1 && "Key3"@.len() == 4 && "Key3"@[3] == '3');
    assert("4"@[0] == '4' && "4"@.len() == 1 && "Key4"@.len() == 4 && "Key4"@[3] == '4');
    assert("5"@[0] == '5' && "5"@.len() == 1 && "Key5"@.len() == 4 && "Key5"@[3] == '5');
    assert("6"@[0] == '6' && "6"@.len() == 1 && "Key6"@.len() == 4 && "Key6"@[3] == '6');
    assert("7"@[0] == '7' && "7"@.len() == 1 && "Key7"@.len() == 4 && "Key7"@[3] == '7');
    assert(seq![d][0] == d);
    assert(("Key"@ + seq![d])[3] == d && ("Key"@ + seq![d]).len() == 4);
    if '1' <= d && d <= '7' {
        if d == '1' {
            assert(seq![d] =~= "1"@);
            assert("Key"@ + seq![d] =~= "Key1"@);
            assert((d as u32) == 49);
        } else if d == '2' {
            assert(seq![d] =~= "2"@);
            assert("Key"@ + seq![d] =~= "Key2"@);
            assert((d as u32) == 50);
        } else if d == '3' {
            assert(seq![d] =~= "3"@);
            assert("Key"@ + seq![d] =~= "Key3"@);
            assert((d as u32) == 51);
        } else if d == '4' {
            assert(seq![d] =~= "4"@);
            assert("Key"@ + seq![d] =~= "Key4"@);
            assert((d as u32) == 52);
        } else if d == '5' {
            assert(seq![d] =~= "5"@);
            assert("Key"@ + seq![d] =~= "Key5"@);
            assert((d as u32) == 53);
            assert(seq![d] != "Key1"@);
        } else if d == '6' {
            assert(seq![d] =~= "6"@);
            assert("Key"@ + seq![d] =~= "Key6"@);
            assert((d as u32) == 54);
        } else if d == '7' {
            assert(seq![d] =~= "7"@);
            assert("Key"@ + seq![d] =~= "Key7"@);
            assert((d as u32) == 55);
        }
    }
}

/// An input event that may stand for a lane being pressed or released.
pub trait LaneEventSource {
    /// The lane and whether it is pressed, if the event is about a lane.
    spec fn spec_lane_input(&self) -> Option<(usize, bool)>;

    fn lane_input(&self) -> (r: Option<(usize, bool)>)
        ensures
            r == self.spec_lane_input(),
    ;
}

impl LaneEventSource for PlayingInputEvent {
    open spec fn spec_lane_input(&self) -> Option<(usize, bool)> {
        match self {
            PlayingInputEvent::PlayKeyDown(k) => Some((lane_of_play_key(*k), true)),
            PlayingInputEvent::PlayKeyUp(k) => Some((lane_of_play_key(*k), false)),
            PlayingInputEvent::Abort => None,
        }
    }

    fn lane_input(&self) -> (r: Option<(usize, bool)>) {
        match self {
            PlayingInputEvent::PlayKeyDown(k) => Some((play_key_to_lane(*k), true)),
            PlayingInputEvent::PlayKeyUp(k) => Some((play_key_to_lane(*k), false)),
            PlayingInputEvent::Abort => None,
        }
    }
}

/// The lane events that a list of input events stands for, in order; events
/// that are not about a lane are dropped.
pub open spec fn lane_events_of<E: LaneEventSource>(events: Seq<E>) -> Seq<LaneInputEvent>
    decreases events.len(),
{
    if events.len() == 0 {
        Seq::empty()
    } else {
        let prev = lane_events_of(events.drop_last());
        match events.last().spec_lane_input() {
            Some((lane_index, pressed)) => prev.push(
                LaneInputEvent { lane_index, pressed, raw: None },
            ),
            None => prev,
        }
    }
}

/// Converts input events to lane events (see [`lane_events_of`]).
pub fn input_events_to_lane_events<E: LaneEventSource>(events: &Vec<E>) -> (r: Vec<LaneInputEvent>)
    ensures
        r@ == lane_events_of(events@),
{
    let mut out: Vec<LaneInputEvent> = Vec::new();
    let mut i: usize = 0;
    while i < events.len()
        invariant
            i <= events@.len(),
            out@ == lane_events_of(events@.take(i as int)),
        decreases events@.len() - i,
    {
        assert(events@.take(i + 1).drop_last() =~= events@.take(i as int));
        if let Some((lane_index, pressed)) = events[i].lane_input() {
            out.push(LaneInputEvent { lane_index, pressed, raw: None });
        }
        i = i + 1;
    }
    assert(events@.take(events@.len() as int) =~= events@);
    out
}

/// Lane of a gamepad button.
pub open spec fn lane_of_pad_button(b: PadButton) -> usize {
    match b {
        PadButton::West => 0,
        PadButton::LeftTrigger => 1,
        PadButton::LeftThumb => 2,
        PadButton::South => 3,
        PadButton::North => 4,
        PadButton::RightTrigger => 5,
        PadButton::East => 6,
        PadButton::RightThumb => 7,
    }
}

pub fn pad_button_to_lane(b: PadButton) -> (r: usize)
    ensures
        r == lane_of_pad_button(b),
        r < 8,
{
    match b {
        PadButton::West => 0,
        PadButton::LeftTrigger => 1,
        PadButton::LeftThumb => 2,
        PadButton::South => 3,
        PadButton::North => 4,
        PadButton::RightTrigger => 5,
        PadButton::East => 6,
        PadButton::RightThumb => 7,
    }
}

/// The buttons of a gamepad in the order in which they are examined.
pub open spec fn pad_buttons() -> Seq<PadButton> {
    seq![
        PadButton::West,
        PadButton::LeftTrigger,
        PadButton::LeftThumb,
        PadButton::South,
        PadButton::North,
        PadButton::RightTrigger,
        PadButton::East,
        PadButton::RightThumb,
    ]
}

pub fn pad_button_order() -> (r: Vec<PadButton>)
    ensures
        r@ == pad_buttons(),
{
    let r = vec![
        PadButton::West,
        PadButton::LeftTrigger,
        PadButton::LeftThumb,
        PadButton::South,
        PadButton::North,
        PadButton::RightTrigger,
        PadButton::East,
        PadButton::RightThumb,
    ];
    assert(r@ =~= pad_buttons());
    r
}

/// The buttons are examined in lane order: the `i`-th button of
/// [`pad_buttons`] plays on lane `i`, and every button is among them, so
/// each lane has exactly one button.
pub proof fn law_pad_buttons_in_lane_order(i: int, b: PadButton)
    ensures
        0 <= i < 8 ==> lane_of_pad_button(pad_buttons()[i]) == i,
        pad_buttons().len() == 8,
        pad_buttons().contains(b),
{
    assert(pad_buttons()[lane_of_pad_button(b) as int] == b);
}

/// What happened to one gamepad button in this frame.
#[derive(Clone, Copy, Debug)]
pub struct PadButtonState {
    pub button: PadButton,
    pub just_pressed: bool,
    pub just_released: bool,
}

/// Lane events of one button: a press, then a release, as they happened.
pub open spec fn pad_events_of(st: PadButtonState) -> Seq<LaneInputEvent> {
    let lane_index = lane_of_pad_button(st.button);
    let raw = Some(RawInput::Gamepad(st.button));
    let down = if st.just_pressed {
        seq![LaneInputEvent { lane_index, pressed: true, raw }]
    } else {
        Seq::empty()
    };
    let up = if st.just_released {
        seq![LaneInputEvent { lane_index, pressed: false, raw }]
    } else {
        Seq::empty()
    };
    down + up
}

pub open spec fn pad_events_all(states: Seq<PadButtonState>) -> Seq<LaneInputEvent>
    decreases states.len(),
{
    if states.len() == 0 {
        Seq::empty()
    } else {
        pad_events_all(states.drop_last()) + pad_events_of(states.last())
    }
}

/// Lane events of the gamepad buttons, button by button.
pub fn gamepad_button_lane_events(states: &Vec<PadButtonState>) -> (r: Vec<LaneInputEvent>)
    ensures
        r@ == pad_events_all(states@),
{
    let mut out: Vec<LaneInputEvent> = Vec::new();
    let mut i: usize = 0;
    while i < states.len()
        invariant
            i <= states@.len(),
            out@ == pad_events_all(states@.take(i as int)),
        decreases states@.len() - i,
    {
        let st = states[i];
        assert(states@.take(i + 1).drop_last() =~= states@.take(i as int));
        let lane_index = pad_button_to_lane(st.button);
        let raw = Some(RawInput::Gamepad(st.button));
        let ghost before = out@;
        if st.just_pressed {
            out.push(LaneInputEvent { lane_index, pressed: true, raw });
        }
        if st.just_released {
            out.push(LaneInputEvent { lane_index, pressed: false, raw });
        }
        assert(out@ =~= before + pad_events_of(st));
        i = i + 1;
    }
    assert(states@.take(states@.len() as int) =~= states@);
    out
}

/// The last-input map after the events: each event that carries a physical
/// input records it for its lane, later events winning.
pub open spec fn record_raw(m: Map<usize, RawInput>, events: Seq<LaneInputEvent>) -> Map<
    usize,
    RawInput,
>
    decreases events.len(),
{
    if events.len() == 0 {
        m
    } else {
        let prev = record_raw(m, events.drop_last());
        match events.last().raw {
            Some(raw) => prev.insert(events.last().lane_index, raw),
            None => prev,
        }
    }
}

/// Records the physical input of each lane event.
pub fn record_lane_raw_events(last_raw: &mut LastRawByLane, events: &Vec<LaneInputEvent>)
    ensures
        final(last_raw).0@ == record_raw(old(last_raw).0@, events@),
{
    let mut i: usize = 0;
    while i < events.len()
        invariant
            i <= events@.len(),
            last_raw.0@ == record_raw(old(last_raw).0@, events@.take(i as int)),
        decreases events@.len() - i,
    {
        assert(events@.take(i + 1).drop_last() =~= events@.take(i as int));
        let ev = events[i];
        if let Some(raw) = ev.raw {
            last_raw.0.insert(ev.lane_index, raw);
        }
        i = i + 1;
    }
    assert(events@.take(events@.len() as int) =~= events@);
}

} // verus!
