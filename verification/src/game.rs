//! Rules of the lane game: screens and their transitions, scoring, lane
//! input state and the horizontal layout of the eight lanes.
use vstd::prelude::*;
use crate::input::{key_of_name, law_letter_keys, lemma_word_key_names};
use crate::events::{JudgementKind, KeyName, LaneInputEvent, PlayingInputEvent, TitleInputEvent};

verus! {

// ---------------------------------------------------------------------------
// Screens
// ---------------------------------------------------------------------------

#[derive(Clone, Copy, Debug, PartialEq, Eq, Hash, Structural, Default)]
pub enum AppState {
    #[default]
    Title,
    Playing,
    Result,
}

/// Events of the result screen.
#[derive(Clone, Copy, Debug, PartialEq, Eq, Structural)]
pub enum ResultInputEvent {
    ScratchDown,
    ScratchUp,
    Confirm,
    Cancel,
}

/// The screen to go to after the title screen's events: play starts on
/// confirm.
pub open spec fn title_transition(events: Seq<TitleInputEvent>) -> Option<AppState> {
    if events.contains(TitleInputEvent::Confirm) {
        Some(AppState::Playing)
    } else {
        None
    }
}

/// The screen to go to after the playing screen's events: abort shows the
/// result.
pub open spec fn playing_transition(events: Seq<PlayingInputEvent>) -> Option<AppState> {
    if events.contains(PlayingInputEvent::Abort) {
        Some(AppState::Result)
    } else {
        None
    }
}

/// The screen to go to after the result screen's events: the first confirm
/// or scratch-down decides, confirm going to the title and scratch-down
/// playing again.
pub open spec fn result_transition(events: Seq<ResultInputEvent>) -> Option<AppState>
    decreases events.len(),
{
    if events.len() == 0 {
        None
    } else if events[0] == ResultInputEvent::Confirm {
        Some(AppState::Title)
    } else if events[0] == ResultInputEvent::ScratchDown {
        Some(AppState::Playing)
    } else {
        result_transition(events.drop_first())
    }
}

pub fn update_title_input(events: &Vec<TitleInputEvent>) -> (r: Option<AppState>)
    ensures
        r == title_transition(events@),
{
    let mut i: usize = 0;
    while i < events.len()
        invariant
            i <= events@.len(),
            forall|k: int| 0 <= k < i ==> events@[k] != TitleInputEvent::Confirm,
        decreases events@.len() - i,
    {
        if events[i] == TitleInputEvent::Confirm {
            assert(events@.contains(TitleInputEvent::Confirm));
            return Some(AppState::Playing);
        }
        i = i + 1;
    }
    None
}

pub fn update_playing_input(events: &Vec<PlayingInputEvent>) -> (r: Option<AppState>)
    ensures
        r == playing_transition(events@),
{
    let mut i: usize = 0;
    while i < events.len()
        invariant
            i <= events@.len(),
            forall|k: int| 0 <= k < i ==> events@[k] != PlayingInputEvent::Abort,
        decreases events@.len() - i,
    {
        if events[i] == PlayingInputEvent::Abort {
            assert(events@.contains(PlayingInputEvent::Abort));
            return Some(AppState::Result);
        }
        i = i + 1;
    }
    None
}

pub fn update_result_input(events: &Vec<ResultInputEvent>) -> (r: Option<AppState>)
    ensures
        r == result_transition(events@),
{
    let mut i: usize = 0;
    assert(events@.skip(0) =~= events@);
    while i < events.len()
        invariant
            i <= events@.len(),
            result_transition(events@) == result_transition(events@.skip(i as int)),
        decreases events@.len() - i,
    {
        assert(events@.skip(i as int)[0] == events@[i as int]);
        if events[i] == ResultInputEvent::Confirm {
            return Some(AppState::Title);
        }
        if events[i] == ResultInputEvent::ScratchDown {
            return Some(AppState::Playing);
        }
        assert(events@.skip(i as int).drop_first() =~= events@.skip(i + 1));
        i = i + 1;
    }
    None
}

// ---------------------------------------------------------------------------
// Scoring
// ---------------------------------------------------------------------------

/// Points for a perfect-great judgement.
pub const SCORE_PG: u32 = 1000;

/// Points for a great judgement.
pub const SCORE_GR: u32 = 500;

/// Judgement counts and score of a play.
#[derive(Clone, Copy, Debug, Default, PartialEq, Eq, Structural)]
pub struct ScoreSummary {
    pub pg: u32,
    pub gr: u32,
    pub miss: u32,
    pub score: u32,
}

impl ScoreSummary {
    /// The score is the points of the judgements counted.
    pub open spec fn consistent(&self) -> bool {
        self.score == SCORE_PG * self.pg + SCORE_GR * self.gr
    }

    /// Whether one more judgement of `kind` can be counted without a
    /// counter or the score exceeding `u32::MAX`.
    pub open spec fn can_record(&self, kind: JudgementKind) -> bool {
        match kind {
            JudgementKind::Pg => self.pg < u32::MAX && self.score + SCORE_PG <= u32::MAX,
            JudgementKind::Gr => self.gr < u32::MAX && self.score + SCORE_GR <= u32::MAX,
            JudgementKind::Miss => self.miss < u32::MAX,
        }
    }

    /// A fresh summary: nothing counted, no score.
    pub fn new() -> (r: ScoreSummary)
        ensures
            r == (ScoreSummary { pg: 0, gr: 0, miss: 0, score: 0 }),
            r.consistent(),
    {
        ScoreSummary { pg: 0, gr: 0, miss: 0, score: 0 }
    }

    /// Counts a judgement: a PG adds [`SCORE_PG`] points, a GR adds
    /// [`SCORE_GR`], a miss adds none. A summary whose score matched its
    /// counts still does.
    pub fn record(&mut self, kind: JudgementKind)
        requires
            old(self).can_record(kind),
        ensures
            final(self).pg == old(self).pg + if kind == JudgementKind::Pg { 1int } else { 0int },
            final(self).gr == old(self).gr + if kind == JudgementKind::Gr { 1int } else { 0int },
            final(self).miss == old(self).miss + if kind == JudgementKind::Miss { 1int } else { 0int },
            final(self).score == old(self).score + match kind {
                JudgementKind::Pg => SCORE_PG as int,
                JudgementKind::Gr => SCORE_GR as int,
                JudgementKind::Miss => 0int,
            },
            old(self).consistent() ==> final(self).consistent(),
    {
        match kind {
            JudgementKind::Pg => {
                self.pg = self.pg + 1;
                self.score = self.score + SCORE_PG;
            },
            JudgementKind::Gr => {
                self.gr = self.gr + 1;
                self.score = self.score + SCORE_GR;
            },
            JudgementKind::Miss => {
                self.miss = self.miss + 1;
            },
        }
    }

    /// The score.
    pub fn score(&self) -> (r: u32)
        ensures
            r == self.score,
    {
        self.score
    }

    /// The number of PG judgements.
    pub fn pg(&self) -> (r: u32)
        ensures
            r == self.pg,
    {
        self.pg
    }

    /// The number of GR judgements.
    pub fn gr(&self) -> (r: u32)
        ensures
            r == self.gr,
    {
        self.gr
    }

    /// The number of misses.
    pub fn miss(&self) -> (r: u32)
        ensures
            r == self.miss,
    {
        self.miss
    }

    /// Clears the summary for a new play.
    pub fn reset(&mut self)
        ensures
            *final(self) == (ScoreSummary { pg: 0, gr: 0, miss: 0, score: 0 }),
    {
        *self = ScoreSummary::new();
    }
}

/// The text shown on a lane for a judgement.
pub fn judgement_text(kind: JudgementKind) -> (r: &'static str)
    ensures
        kind == JudgementKind::Pg ==> r@ == "PG"@,
        kind == JudgementKind::Gr ==> r@ == "GR"@,
        kind == JudgementKind::Miss ==> r@ == "MISS"@,
{
    match kind {
        JudgementKind::Pg => "PG",
        JudgementKind::Gr => "GR",
        JudgementKind::Miss => "MISS",
    }
}

// ---------------------------------------------------------------------------
// Lane input
// ---------------------------------------------------------------------------

/// Number of lanes: seven keys and the scratch.
pub const LANE_COUNT: usize = 8;

/// Whether the keys held down press lane `lane_index`: S D F Space J K L for
/// lanes 0 to 6, either shift for lane 7.
pub open spec fn lane_pressed_by(held: Seq<KeyName>, lane_index: usize) -> bool {
    match lane_index {
        0 => held.contains(KeyName::KeyS),
        1 => held.contains(KeyName::KeyD),
        2 => held.contains(KeyName::KeyF),
        3 => held.contains(KeyName::Space),
        4 => held.contains(KeyName::KeyJ),
        5 => held.contains(KeyName::KeyK),
        6 => held.contains(KeyName::KeyL),
        7 => held.contains(KeyName::ShiftLeft) || held.contains(KeyName::ShiftRight),
        _ => false,
    }
}

/// The names of the keys of lanes 0 to 6, the keys that the default
/// bindings give to play keys 1 to 7.
pub open spec fn lane_key_names() -> Seq<Seq<char>> {
    seq!["S"@, "D"@, "F"@, "Space"@, "J"@, "K"@, "L"@]
}

/// Lane `i` below 7 is held exactly when the key named by the `i`-th of
/// `S D F Space J K L` is held, the scratch lane 7 when a shift key named
/// `LShift` or `RShift` is held, and no other lane is ever held.
pub proof fn law_lane_keys(held: Seq<KeyName>, i: usize)
    ensures
        i < 7 ==> (lane_pressed_by(held, i) <==> held.contains(
            key_of_name(lane_key_names()[i as int])->0,
        )),
        lane_pressed_by(held, 7) <==> held.contains(key_of_name("LShift"@)->0) || held.contains(
            key_of_name("RShift"@)->0,
        ),
        i >= 8 ==> !lane_pressed_by(held, i),
{
    lemma_word_key_names();
    reveal_strlit("S");
    reveal_strlit("D");
    reveal_strlit("F");
    reveal_strlit("J");
    reveal_strlit("K");
    reveal_strlit("L");
    law_letter_keys('S', KeyName::KeyS, "S"@);
    law_letter_keys('D', KeyName::KeyD, "D"@);
    law_letter_keys('F', KeyName::KeyF, "F"@);
    law_letter_keys('J', KeyName::KeyJ, "J"@);
    law_letter_keys('K', KeyName::KeyK, "K"@);
    law_letter_keys('L', KeyName::KeyL, "L"@);
    assert(seq!['S'] =~= "S"@);
    assert(seq!['D'] =~= "D"@);
    assert(seq!['F'] =~= "F"@);
    assert(seq!['J'] =~= "J"@);
    assert(seq!['K'] =~= "K"@);
    assert(seq!['L'] =~= "L"@);
    assert(key_of_name("S"@) == Some(KeyName::KeyS));
    assert(key_of_name("D"@) == Some(KeyName::KeyD));
    assert(key_of_name("F"@) == Some(KeyName::KeyF));
    assert(key_of_name("J"@) == Some(KeyName::KeyJ));
    assert(key_of_name("K"@) == Some(KeyName::KeyK));
    assert(key_of_name("L"@) == Some(KeyName::KeyL));
}

fn holds(held: &Vec<KeyName>, k: KeyName) -> (r: bool)
    ensures
        r == held@.contains(k),
{
    let mut i: usize = 0;
    while i < held.len()
        invariant
            i <= held@.len(),
            forall|t: int| 0 <= t < i ==> held@[t] != k,
        decreases held@.len() - i,
    {
        if held[i] == k {
            assert(held@[i as int] == k);
            return true;
        }
        i = i + 1;
    }
    false
}

pub fn lane_is_pressed(held: &Vec<KeyName>, lane_index: usize) -> (r: bool)
    ensures
        r == lane_pressed_by(held@, lane_index),
{
    match lane_index {
        0 => holds(held, KeyName::KeyS),
        1 => holds(held, KeyName::KeyD),
        2 => holds(held, KeyName::KeyF),
        3 => holds(held, KeyName::Space),
        4 => holds(held, KeyName::KeyJ),
        5 => holds(held, KeyName::KeyK),
        6 => holds(held, KeyName::KeyL),
        7 => holds(held, KeyName::ShiftLeft) || holds(held, KeyName::ShiftRight),
        _ => false,
    }
}

/// Which lanes are held, and which went down in this frame.
#[derive(Clone, Copy, Debug)]
pub struct LaneInputState {
    pub pressed: [bool; 8],
    pub just_pressed: [bool; 8],
}

impl LaneInputState {
    pub fn new() -> (r: LaneInputState)
        ensures
            forall|i: int| 0 <= i < 8 ==> !r.pressed@[i] && !r.just_pressed@[i],
    {
        LaneInputState { pressed: [false;8], just_pressed: [false;8] }
    }

    /// Takes the held keys and the keys that went down in this frame.
    pub fn collect(&mut self, held: &Vec<KeyName>, went_down: &Vec<KeyName>)
        ensures
            forall|i: int|
                0 <= i < 8 ==> final(self).pressed@[i] == lane_pressed_by(held@, i as usize)
                    && final(self).just_pressed@[i] == lane_pressed_by(went_down@, i as usize),
    {
        let mut i: usize = 0;
        while i < 8
            invariant
                i <= 8,
                forall|t: int|
                    0 <= t < i ==> self.pressed@[t] == lane_pressed_by(held@, t as usize)
                        && self.just_pressed@[t] == lane_pressed_by(went_down@, t as usize),
            decreases 8 - i,
        {
            let p = lane_is_pressed(held, i);
            let jp = lane_is_pressed(went_down, i);
            self.pressed[i] = p;
            self.just_pressed[i] = jp;
            i = i + 1;
        }
    }

    /// One event per lane, in lane order, telling whether it is held.
    pub fn lane_events(&self) -> (r: Vec<LaneInputEvent>)
        ensures
            r@.len() == 8,
            forall|i: int|
                0 <= i < 8 ==> r@[i] == (LaneInputEvent {
                    lane_index: i as usize,
                    pressed: self.pressed@[i],
                    raw: None,
                }),
    {
        let mut out: Vec<LaneInputEvent> = Vec::new();
        let mut i: usize = 0;
        while i < 8
            invariant
                i <= 8,
                out@.len() == i,
                forall|t: int|
                    0 <= t < i ==> out@[t] == (LaneInputEvent {
                        lane_index: t as usize,
                        pressed: self.pressed@[t],
                        raw: None,
                    }),
            decreases 8 - i,
        {
            out.push(LaneInputEvent { lane_index: i, pressed: self.pressed[i], raw: None });
            i = i + 1;
        }
        out
    }
}

// ---------------------------------------------------------------------------
// Lane layout, in half pixels
// ---------------------------------------------------------------------------

/// Gap between lanes, in pixels.
pub const LANE_GAP: u32 = 3;

/// Total width of the eight lanes and their gaps, in pixels.
pub const LANE_TOTAL_WIDTH: u32 = 513;

/// Width of lane `i` in pixels: white keys 60, blue keys 48, scratch 108.
pub open spec fn lane_width_of(i: int) -> int {
    if i == 7 {
        108
    } else if i % 2 == 0 {
        60
    } else {
        48
    }
}

pub fn lane_width(lane_index: usize) -> (r: u32)
    requires
        lane_index < 8,
    ensures
        r == lane_width_of(lane_index as int),
{
    if lane_index == 7 {
        108
    } else if lane_index % 2 == 0 {
        60
    } else {
        48
    }
}

/// Left edge of lane `i`, in half pixels from the centre of the lanes.
pub open spec fn lane_left_half_px(i: int) -> int
    decreases i,
{
    if i <= 0 {
        -(LANE_TOTAL_WIDTH as int)
    } else {
        lane_left_half_px(i - 1) + 2 * (lane_width_of(i - 1) + LANE_GAP)
    }
}

/// Centre of lane `i`, in half pixels from the centre of the lanes (twice
/// the pixel position, which is a whole or half pixel); 0 for a lane that
/// does not exist.
pub open spec fn lane_center_half_px_of(i: int) -> int {
    if 0 <= i < 8 {
        lane_left_half_px(i) + lane_width_of(i)
    } else {
        0
    }
}

pub fn lane_center_half_px(lane_index: usize) -> (r: i32)
    ensures
        r == lane_center_half_px_of(lane_index as int),
{
    let mut left: i32 = -513;
    let mut idx: usize = 0;
    while idx < 8
        invariant
            idx <= 8,
            left == lane_left_half_px(idx as int),
            -513 <= left <= 600,
            lane_index < idx ==> lane_index >= 8,
        decreases 8 - idx,
    {
        let w = lane_width(idx) as i32;
        if idx == lane_index {
            return left + w;
        }
        proof {
            reveal_with_fuel(lane_left_half_px, 9);
        }
        left = left + 2 * (w + 3);
        idx = idx + 1;
    }
    0
}

/// The lanes fill their total width exactly, centred: the right edge of the
/// last lane is as far right of the centre as the left edge of the first is
/// left of it.
pub proof fn law_lanes_are_centred()
    ensures
        lane_left_half_px(0) == -(LANE_TOTAL_WIDTH as int),
        lane_left_half_px(7) + 2 * lane_width_of(7) == LANE_TOTAL_WIDTH as int,
{
    reveal_with_fuel(lane_left_half_px, 9);
}

} // verus!
