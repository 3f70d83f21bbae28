//! Key bindings: which keys stand for which actions in each screen, read
//! from a TOML document, and the input events that key presses give.
use vstd::prelude::*;
use crate::events::{key_letter, KeyName, PlayBinding, PlayingInputEvent, ResultInputEvent, TitleInputEvent};
use crate::text::{chars_of, lemma_trim_of_trimmed, range_eq_str, trim, trim_bounds};

verus! {

/// Confirm or cancel, in the title and result screens.
#[derive(Clone, Copy, Debug, PartialEq, Eq, Structural)]
pub enum ActionBinding {
    Confirm,
    Cancel,
}

/// Actions of the playing screen.
#[derive(Clone, Copy, Debug, PartialEq, Eq, Structural)]
pub enum PlayingActionBinding {
    Abort,
}

/// What a key stands for.
#[derive(Clone, Copy, Debug, PartialEq, Eq, Structural)]
pub enum KeyBinding {
    Action(ActionBinding),
    PlayingAction(PlayingActionBinding),
    Play(PlayBinding),
}

// ---------------------------------------------------------------------------
// Names
// ---------------------------------------------------------------------------

/// The key a name stands for: a single upper-case letter, or one of
/// `Space`, `LShift`, `RShift`, `Enter`, `Escape`, `Tab`; surrounding
/// whitespace is ignored.
pub open spec fn key_of_name(s: Seq<char>) -> Option<KeyName> {
    let t = trim(s);
    if t == "A"@ {
        Some(KeyName::KeyA)
    } else if t == "B"@ {
        Some(KeyName::KeyB)
    } else if t == "C"@ {
        Some(KeyName::KeyC)
    } else if t == "D"@ {
        Some(KeyName::KeyD)
    } else if t == "E"@ {
        Some(KeyName::KeyE)
    } else if t == "F"@ {
        Some(KeyName::KeyF)
    } else if t == "G"@ {
        Some(KeyName::KeyG)
    } else if t == "H"@ {
        Some(KeyName::KeyH)
    } else if t == "I"@ {
        Some(KeyName::KeyI)
    } else if t == "J"@ {
        Some(KeyName::KeyJ)
    } else if t == "K"@ {
        Some(KeyName::KeyK)
    } else if t == "L"@ {
        Some(KeyName::KeyL)
    } else if t == "M"@ {
        Some(KeyName::KeyM)
    } else if t == "N"@ {
        Some(KeyName::KeyN)
    } else if t == "O"@ {
        Some(KeyName::KeyO)
    } else if t == "P"@ {
        Some(KeyName::KeyP)
    } else if t == "Q"@ {
        Some(KeyName::KeyQ)
    } else if t == "R"@ {
        Some(KeyName::KeyR)
    } else if t == "S"@ {
        Some(KeyName::KeyS)
    } else if t == "T"@ {
        Some(KeyName::KeyT)
    } else if t == "U"@ {
        Some(KeyName::KeyU)
    } else if t == "V"@ {
        Some(KeyName::KeyV)
    } else if t == "W"@ {
        Some(KeyName::KeyW)
    } else if t == "X"@ {
        Some(KeyName::KeyX)
    } else if t == "Y"@ {
        Some(KeyName::KeyY)
    } else if t == "Z"@ {
        Some(KeyName::KeyZ)
    } else if t == "Space"@ {
        Some(KeyName::Space)
    } else if t == "LShift"@ {
        Some(KeyName::ShiftLeft)
    } else if t == "RShift"@ {
        Some(KeyName::ShiftRight)
    } else if t == "Enter"@ {
        Some(KeyName::Enter)
    } else if t == "Escape"@ {
        Some(KeyName::Escape)
    } else if t == "Tab"@ {
        Some(KeyName::Tab)
    } else {
        None
    }
}

fn key_of_name_range(cs: &[char], a: usize, b: usize) -> (r: Option<KeyName>)
    requires
        a <= b <= cs@.len(),
        trim(cs@.subrange(a as int, b as int)) == cs@.subrange(a as int, b as int),
    ensures
        r == key_of_name(cs@.subrange(a as int, b as int)),
{
    if range_eq_str(&cs, a, b, "A") {
        Some(KeyName::KeyA)
    } else if range_eq_str(&cs, a, b, "B") {
        Some(KeyName::KeyB)
    } else if range_eq_str(&cs, a, b, "C") {
        Some(KeyName::KeyC)
    } else if range_eq_str(&cs, a, b, "D") {
        Some(KeyName::KeyD)
    } else if range_eq_str(&cs, a, b, "E") {
        Some(KeyName::KeyE)
    } else if range_eq_str(&cs, a, b, "F") {
        Some(KeyName::KeyF)
    } else if range_eq_str(&cs, a, b, "G") {
        Some(KeyName::KeyG)
    } else if range_eq_str(&cs, a, b, "H") {
        Some(KeyName::KeyH)
    } else if range_eq_str(&cs, a, b, "I") {
        Some(KeyName::KeyI)
    } else if range_eq_str(&cs, a, b, "J") {
        Some(KeyName::KeyJ)
    } else if range_eq_str(&cs, a, b, "K") {
        Some(KeyName::KeyK)
    } else if range_eq_str(&cs, a, b, "L") {
        Some(KeyName::KeyL)
    } else if range_eq_str(&cs, a, b, "M") {
        Some(KeyName::KeyM)
    } else if range_eq_str(&cs, a, b, "N") {
        Some(KeyName::KeyN)
    } else if range_eq_str(&cs, a, b, "O") {
        Some(KeyName::KeyO)
    } else if range_eq_str(&cs, a, b, "P") {
        Some(KeyName::KeyP)
    } else if range_eq_str(&cs, a, b, "Q") {
        Some(KeyName::KeyQ)
    } else if range_eq_str(&cs, a, b, "R") {
        Some(KeyName::KeyR)
    } else if range_eq_str(&cs, a, b, "S") {
        Some(KeyName::KeyS)
    } else if range_eq_str(&cs, a, b, "T") {
        Some(KeyName::KeyT)
    } else if range_eq_str(&cs, a, b, "U") {
        Some(KeyName::KeyU)
    } else if range_eq_str(&cs, a, b, "V") {
        Some(KeyName::KeyV)
    } else if range_eq_str(&cs, a, b, "W") {
        Some(KeyName::KeyW)
    } else if range_eq_str(&cs, a, b, "X") {
        Some(KeyName::KeyX)
    } else if range_eq_str(&cs, a, b, "Y") {
        Some(KeyName::KeyY)
    } else if range_eq_str(&cs, a, b, "Z") {
        Some(KeyName::KeyZ)
    } else if range_eq_str(&cs, a, b, "Space") {
        Some(KeyName::Space)
    } else if range_eq_str(&cs, a, b, "LShift") {
        Some(KeyName::ShiftLeft)
    } else if range_eq_str(&cs, a, b, "RShift") {
        Some(KeyName::ShiftRight)
    } else if range_eq_str(&cs, a, b, "Enter") {
        Some(KeyName::Enter)
    } else if range_eq_str(&cs, a, b, "Escape") {
        Some(KeyName::Escape)
    } else if range_eq_str(&cs, a, b, "Tab") {
        Some(KeyName::Tab)
    } else {
        None
    }
}

/// Reads a key name (see [`key_of_name`]).
pub fn parse_keycode(s: &str) -> (r: Option<KeyName>)
    ensures
        r == key_of_name(s@),
{
    let cs = chars_of(s);
    let (a, b) = trim_bounds(&cs, 0, cs.len());
    assert(cs@.subrange(0, cs@.len() as int) =~= cs@);
    proof {
        crate::text::lemma_trim_idempotent(cs@);
    }
    key_of_name_range(&cs, a, b)
}

/// A single upper-case letter names the key of that letter, and a letter
/// key is named by its letter alone (surrounding whitespace aside).
pub proof fn law_letter_keys(c: char, k: KeyName, s: Seq<char>)
    ensures
        'A' <= c && c <= 'Z' ==> key_of_name(seq![c]) is Some && key_letter(key_of_name(seq![c])->0)
            == Some(c),
        key_letter(k) == Some(c) && key_of_name(s) == Some(k) ==> trim(s) == seq![c],
{
    reveal_strlit("A");
    reveal_strlit("B");
    reveal_strlit("C");
    reveal_strlit("D");
    reveal_strlit("E");
    reveal_strlit("F");
    reveal_strlit("G");
    reveal_strlit("H");
    reveal_strlit("I");
    reveal_strlit("J");
    reveal_strlit("K");
    reveal_strlit("L");
    reveal_strlit("M");
    reveal_strlit("N");
    reveal_strlit("O");
    reveal_strlit("P");
    reveal_strlit("Q");
    reveal_strlit("R");
    reveal_strlit("S");
    reveal_strlit("T");
    reveal_strlit("U");
    reveal_strlit("V");
    reveal_strlit("W");
    reveal_strlit("X");
    reveal_strlit("Y");
    reveal_strlit("Z");
    reveal_strlit("Space");
    reveal_strlit("LShift");
    reveal_strlit("RShift");
    reveal_strlit("Enter");
    reveal_strlit("Escape");
    reveal_strlit("Tab");
    if 'A' <= c && c <= 'Z' {
            assert(trim(seq![c]) =~= seq![c]) by {
            assert(seq![c].drop_first() =~= Seq::<char>::empty());
        }
        if c == 'A' {
            assert(seq![c] =~= "A"@);
        } else if c == 'B' {
            assert(seq![c] =~= "B"@);
        } else if c == 'C' {
            assert(seq![c] =~= "C"@);
        } else if c == 'D' {
            assert(seq![c] =~= "D"@);
        } else if c == 'E' {
            assert(seq![c] =~= "E"@);
        } else if c == 'F' {
            assert(seq![c] =~= "F"@);
        } else if c == 'G' {
            assert(seq![c] =~= "G"@);
        } else if c == 'H' {
            assert(seq![c] =~= "H"@);
        } else if c == 'I' {
            assert(seq![c] =~= "I"@);
        } else if c == 'J' {
            assert(seq![c] =~= "J"@);
        } else if c == 'K' {
            assert(seq![c] =~= "K"@);
        } else if c == 'L' {
            assert(seq![c] =~= "L"@);
        } else if c == 'M' {
            assert(seq![c] =~= "M"@);
        } else if c == 'N' {
            assert(seq![c] =~= "N"@);
        } else if c == 'O' {
            assert(seq![c] =~= "O"@);
        } else if c == 'P' {
            assert(seq![c] =~= "P"@);
        } else if c == 'Q' {
            assert(seq![c] =~= "Q"@);
        } else if c == 'R' {
            assert(seq![c] =~= "R"@);
        } else if c == 'S' {
            assert(seq![c] =~= "S"@);
        } else if c == 'T' {
            assert(seq![c] =~= "T"@);
        } else if c == 'U' {
            assert(seq![c] =~= "U"@);
        } else if c == 'V' {
            assert(seq![c] =~= "V"@);
        } else if c == 'W' {
            assert(seq![c] =~= "W"@);
        } else if c == 'X' {
            assert(seq![c] =~= "X"@);
        } else if c == 'Y' {
            assert(seq![c] =~= "Y"@);
        } else if c == 'Z' {
            assert(seq![c] =~= "Z"@);
        }
    }
}

/// The key names that are words name their keys.
pub proof fn lemma_word_key_names()
    ensures
        key_of_name("Space"@) == Some(KeyName::Space),
        key_of_name("LShift"@) == Some(KeyName::ShiftLeft),
        key_of_name("RShift"@) == Some(KeyName::ShiftRight),
        key_of_name("Enter"@) == Some(KeyName::Enter),
        key_of_name("Escape"@) == Some(KeyName::Escape),
        key_of_name("Tab"@) == Some(KeyName::Tab),
{
    reveal_strlit("A");
    reveal_strlit("B");
    reveal_strlit("C");
    reveal_strlit("D");
    reveal_strlit("E");
    reveal_strlit("F");
    reveal_strlit("G");
    reveal_strlit("H");
    reveal_strlit("I");
    reveal_strlit("J");
    reveal_strlit("K");
    reveal_strlit("L");
    reveal_strlit("M");
    reveal_strlit("N");
    reveal_strlit("O");
    reveal_strlit("P");
    reveal_strlit("Q");
    reveal_strlit("R");
    reveal_strlit("S");
    reveal_strlit("T");
    reveal_strlit("U");
    reveal_strlit("V");
    reveal_strlit("W");
    reveal_strlit("X");
    reveal_strlit("Y");
    reveal_strlit("Z");
    reveal_strlit("Space");
    reveal_strlit("LShift");
    reveal_strlit("RShift");
    reveal_strlit("Enter");
    reveal_strlit("Escape");
    reveal_strlit("Tab");
    assert("A"@.len() == 1);
    assert("B"@.len() == 1);
    assert("C"@.len() == 1);
    assert("D"@.len() == 1);
    assert("E"@.len() == 1);
    assert("F"@.len() == 1);
    assert("G"@.len() == 1);
    assert("H"@.len() == 1);
    assert("I"@.len() == 1);
    assert("J"@.len() == 1);
    assert("K"@.len() == 1);
    assert("L"@.len() == 1);
    assert("M"@.len() == 1);
    assert("N"@.len() == 1);
    assert("O"@.len() == 1);
    assert("P"@.len() == 1);
    assert("Q"@.len() == 1);
    assert("R"@.len() == 1);
    assert("S"@.len() == 1);
    assert("T"@.len() == 1);
    assert("U"@.len() == 1);
    assert("V"@.len() == 1);
    assert("W"@.len() == 1);
    assert("X"@.len() == 1);
    assert("Y"@.len() == 1);
    assert("Z"@.len() == 1);
    assert("Space"@.len() == 5 && "Space"@[0] == 'S' && "Space"@.last() == 'e');
    assert("LShift"@.len() == 6 && "LShift"@[0] == 'L' && "LShift"@.last() == 't');
    assert("RShift"@.len() == 6 && "RShift"@[0] == 'R' && "RShift"@.last() == 't');
    assert("Enter"@.len() == 5 && "Enter"@[0] == 'E' && "Enter"@.last() == 'r');
    assert("Escape"@.len() == 6 && "Escape"@[0] == 'E' && "Escape"@.last() == 'e');
    assert("Tab"@.len() == 3 && "Tab"@[0] == 'T' && "Tab"@.last() == 'b');
    lemma_trim_of_trimmed("Space"@);
    lemma_trim_of_trimmed("LShift"@);
    lemma_trim_of_trimmed("RShift"@);
    lemma_trim_of_trimmed("Enter"@);
    lemma_trim_of_trimmed("Escape"@);
    lemma_trim_of_trimmed("Tab"@);
    assert("LShift"@[1] != "Space"@[1]);
    assert("RShift"@[0] != "LShift"@[0]);
    assert("Escape"@[1] != "Enter"@[1]);
}

/// The play key an event name stands for (`Key1` or `1`, ..., `ScratchUp` or
/// `scratch_up`, `ScratchDown` or `scratch_down`).
pub open spec fn play_key_of(s: Seq<char>) -> Option<PlayBinding> {
    if s == "Key1"@ || s == "1"@ {
        Some(PlayBinding::Key1)
    } else if s == "Key2"@ || s == "2"@ {
        Some(PlayBinding::Key2)
    } else if s == "Key3"@ || s == "3"@ {
        Some(PlayBinding::Key3)
    } else if s == "Key4"@ || s == "4"@ {
        Some(PlayBinding::Key4)
    } else if s == "Key5"@ || s == "5"@ {
        Some(PlayBinding::Key5)
    } else if s == "Key6"@ || s == "6"@ {
        Some(PlayBinding::Key6)
    } else if s == "Key7"@ || s == "7"@ {
        Some(PlayBinding::Key7)
    } else if s == "ScratchUp"@ || s == "scratch_up"@ {
        Some(PlayBinding::ScratchUp)
    } else if s == "ScratchDown"@ || s == "scratch_down"@ {
        Some(PlayBinding::ScratchDown)
    } else {
        None
    }
}

pub fn parse_play_key(s: &str) -> (r: Option<PlayBinding>)
    ensures
        r == play_key_of(s@),
{
    let cs = chars_of(s);
    let n = cs.len();
    assert(cs@.subrange(0, n as int) =~= cs@);
    if range_eq_str(&cs, 0, n, "Key1") || range_eq_str(&cs, 0, n, "1") {
        Some(PlayBinding::Key1)
    } else if range_eq_str(&cs, 0, n, "Key2") || range_eq_str(&cs, 0, n, "2") {
        Some(PlayBinding::Key2)
    } else if range_eq_str(&cs, 0, n, "Key3") || range_eq_str(&cs, 0, n, "3") {
        Some(PlayBinding::Key3)
    } else if range_eq_str(&cs, 0, n, "Key4") || range_eq_str(&cs, 0, n, "4") {
        Some(PlayBinding::Key4)
    } else if range_eq_str(&cs, 0, n, "Key5") || range_eq_str(&cs, 0, n, "5") {
        Some(PlayBinding::Key5)
    } else if range_eq_str(&cs, 0, n, "Key6") || range_eq_str(&cs, 0, n, "6") {
        Some(PlayBinding::Key6)
    } else if range_eq_str(&cs, 0, n, "Key7") || range_eq_str(&cs, 0, n, "7") {
        Some(PlayBinding::Key7)
    } else if range_eq_str(&cs, 0, n, "ScratchUp") || range_eq_str(&cs, 0, n, "scratch_up") {
        Some(PlayBinding::ScratchUp)
    } else if range_eq_str(&cs, 0, n, "ScratchDown") || range_eq_str(&cs, 0, n, "scratch_down") {
        Some(PlayBinding::ScratchDown)
    } else {
        None
    }
}

/// The title/result action an event name stands for.
pub open spec fn action_of(s: Seq<char>) -> Option<ActionBinding> {
    if s == "Confirm"@ || s == "confirm"@ {
        Some(ActionBinding::Confirm)
    } else if s == "Cancel"@ || s == "cancel"@ {
        Some(ActionBinding::Cancel)
    } else {
        None
    }
}

pub fn parse_input_action(s: &str) -> (r: Option<ActionBinding>)
    ensures
        r == action_of(s@),
{
    let cs = chars_of(s);
    let n = cs.len();
    assert(cs@.subrange(0, n as int) =~= cs@);
    if range_eq_str(&cs, 0, n, "Confirm") || range_eq_str(&cs, 0, n, "confirm") {
        Some(ActionBinding::Confirm)
    } else if range_eq_str(&cs, 0, n, "Cancel") || range_eq_str(&cs, 0, n, "cancel") {
        Some(ActionBinding::Cancel)
    } else {
        None
    }
}

/// The playing-screen action an event name stands for.
pub open spec fn playing_action_of(s: Seq<char>) -> Option<PlayingActionBinding> {
    if s == "Abort"@ {
        Some(PlayingActionBinding::Abort)
    } else {
        None
    }
}

pub fn parse_playing_action(s: &str) -> (r: Option<PlayingActionBinding>)
    ensures
        r == playing_action_of(s@),
{
    let cs = chars_of(s);
    let n = cs.len();
    assert(cs@.subrange(0, n as int) =~= cs@);
    if range_eq_str(&cs, 0, n, "Abort") {
        Some(PlayingActionBinding::Abort)
    } else {
        None
    }
}


// ---------------------------------------------------------------------------
// Bindings of one screen
// ---------------------------------------------------------------------------

/// The bindings of one screen, in the order they were made.
#[derive(Debug, Default)]
pub struct StateBindings {
    bound: Vec<(KeyName, KeyBinding)>,
}

impl View for StateBindings {
    type V = Seq<(KeyName, KeyBinding)>;

    closed spec fn view(&self) -> Seq<(KeyName, KeyBinding)> {
        self.bound@
    }
}

/// The bindings of key `k`, in the order they were made.
pub open spec fn bindings_for(l: Seq<(KeyName, KeyBinding)>, k: KeyName) -> Seq<KeyBinding>
    decreases l.len(),
{
    if l.len() == 0 {
        Seq::empty()
    } else {
        let prev = bindings_for(l.drop_last(), k);
        if l.last().0 == k {
            prev.push(l.last().1)
        } else {
            prev
        }
    }
}

/// The keys that have bindings, each once, in the order of their first binding.
pub open spec fn bound_keys(l: Seq<(KeyName, KeyBinding)>) -> Seq<KeyName>
    decreases l.len(),
{
    if l.len() == 0 {
        Seq::empty()
    } else {
        let prev = bound_keys(l.drop_last());
        if prev.contains(l.last().0) {
            prev
        } else {
            prev.push(l.last().0)
        }
    }
}

impl StateBindings {
    pub fn new() -> (r: StateBindings)
        ensures
            r@ == Seq::<(KeyName, KeyBinding)>::empty(),
    {
        StateBindings { bound: Vec::new() }
    }

    /// The keys that have bindings.
    pub fn keys(&self) -> (r: Vec<KeyName>)
        ensures
            r@ == bound_keys(self@),
    {
        let mut out: Vec<KeyName> = Vec::new();
        let mut i: usize = 0;
        while i < self.bound.len()
            invariant
                i <= self@.len(),
                out@ == bound_keys(self@.take(i as int)),
            decreases self@.len() - i,
        {
            assert(self@.take(i + 1).drop_last() =~= self@.take(i as int));
            let k = self.bound[i].0;
            let mut found = false;
            let mut j: usize = 0;
            while j < out.len()
                invariant
                    j <= out@.len(),
                    found == exists|t: int| 0 <= t < j && out@[t] == k,
                decreases out@.len() - j,
            {
                if out[j] == k {
                    found = true;
                }
                j = j + 1;
            }
            assert(found == out@.contains(k));
            if !found {
                out.push(k);
            }
            i = i + 1;
        }
        assert(self@.take(self@.len() as int) =~= self@);
        out
    }

    /// Binds `key` to `binding`, after the key's earlier bindings.
    pub fn bind(&mut self, key: KeyName, binding: KeyBinding)
        ensures
            final(self)@ == old(self)@.push((key, binding)),
    {
        self.bound.push((key, binding));
    }

    fn bindings_of(&self, key: KeyName) -> (r: Vec<KeyBinding>)
        ensures
            r@ == bindings_for(self@, key),
    {
        let mut out: Vec<KeyBinding> = Vec::new();
        let mut i: usize = 0;
        while i < self.bound.len()
            invariant
                i <= self@.len(),
                out@ == bindings_for(self@.take(i as int), key),
            decreases self@.len() - i,
        {
            assert(self@.take(i + 1).drop_last() =~= self@.take(i as int));
            if self.bound[i].0 == key {
                out.push(self.bound[i].1);
            }
            i = i + 1;
        }
        assert(self@.take(self@.len() as int) =~= self@);
        out
    }

    /// The bindings that fire when `key` is pressed.
    pub fn pressed_bindings(&self, key: KeyName) -> (r: Vec<KeyBinding>)
        ensures
            r@ == bindings_for(self@, key),
    {
        self.bindings_of(key)
    }

    /// The bindings that fire when `key` is released.
    pub fn released_bindings(&self, key: KeyName) -> (r: Vec<KeyBinding>)
        ensures
            r@ == bindings_for(self@, key),
    {
        self.bindings_of(key)
    }
}

/// What a binding writes is what a lookup reads back: after binding `key`
/// to `binding`, the bindings of `key` are its earlier ones followed by
/// `binding`, and those of every other key are unchanged.
pub proof fn law_bind_then_lookup(
    l: Seq<(KeyName, KeyBinding)>,
    key: KeyName,
    binding: KeyBinding,
    other: KeyName,
)
    requires
        other != key,
    ensures
        bindings_for(l.push((key, binding)), key) == bindings_for(l, key).push(binding),
        bindings_for(l.push((key, binding)), other) == bindings_for(l, other),
{
    assert(l.push((key, binding)).drop_last() =~= l);
}

// ---------------------------------------------------------------------------
// Events from key presses
// ---------------------------------------------------------------------------

/// What happened to one bound key in this frame.
#[derive(Clone, Copy, Debug)]
pub struct KeyState {
    pub key: KeyName,
    pub just_pressed: bool,
    pub just_released: bool,
}

pub open spec fn with_pressed(bs: Seq<KeyBinding>, pressed: bool) -> Seq<(KeyBinding, bool)> {
    bs.map_values(|b: KeyBinding| (b, pressed))
}

/// The bindings that fire for one key: its press bindings, then its release
/// bindings.
pub open spec fn key_events(l: Seq<(KeyName, KeyBinding)>, st: KeyState) -> Seq<(KeyBinding, bool)> {
    (if st.just_pressed {
        with_pressed(bindings_for(l, st.key), true)
    } else {
        Seq::empty()
    }) + (if st.just_released {
        with_pressed(bindings_for(l, st.key), false)
    } else {
        Seq::empty()
    })
}

pub open spec fn all_key_events(l: Seq<(KeyName, KeyBinding)>, states: Seq<KeyState>) -> Seq<
    (KeyBinding, bool),
>
    decreases states.len(),
{
    if states.len() == 0 {
        Seq::empty()
    } else {
        all_key_events(l, states.drop_last()) + key_events(l, states.last())
    }
}

fn push_all(out: &mut Vec<(KeyBinding, bool)>, bs: &Vec<KeyBinding>, pressed: bool)
    ensures
        final(out)@ == old(out)@ + with_pressed(bs@, pressed),
{
    let mut i: usize = 0;
    while i < bs.len()
        invariant
            i <= bs@.len(),
            out@ == old(out)@ + with_pressed(bs@.take(i as int), pressed),
        decreases bs@.len() - i,
    {
        out.push((bs[i], pressed));
        assert(with_pressed(bs@.take(i + 1), pressed) =~= with_pressed(bs@.take(i as int), pressed).push((bs@[i as int], pressed)));
        i = i + 1;
    }
    assert(bs@.take(bs@.len() as int) =~= bs@);
}

impl StateBindings {
    /// The bindings that fire, each with whether its key went down, for the
    /// key states given (one per key, as [`StateBindings::keys`] lists them).
    pub fn binding_events(&self, states: &Vec<KeyState>) -> (r: Vec<(KeyBinding, bool)>)
        ensures
            r@ == all_key_events(self@, states@),
    {
        let mut out: Vec<(KeyBinding, bool)> = Vec::new();
        let mut i: usize = 0;
        while i < states.len()
            invariant
                i <= states@.len(),
                out@ == all_key_events(self@, states@.take(i as int)),
            decreases states@.len() - i,
        {
            assert(states@.take(i + 1).drop_last() =~= states@.take(i as int));
            let st = states[i];
            let ghost before = out@;
            if st.just_pressed {
                let bs = self.pressed_bindings(st.key);
                push_all(&mut out, &bs, true);
            }
            if st.just_released {
                let bs = self.released_bindings(st.key);
                push_all(&mut out, &bs, false);
            }
            assert(out@ =~= before + key_events(self@, st));
            i = i + 1;
        }
        assert(states@.take(states@.len() as int) =~= states@);
        out
    }
}

/// The title-screen event of a binding firing: only presses count.
pub open spec fn title_event_of(b: KeyBinding, pressed: bool) -> Option<TitleInputEvent> {
    if !pressed {
        None
    } else {
        match b {
            KeyBinding::Action(ActionBinding::Confirm) => Some(TitleInputEvent::Confirm),
            KeyBinding::Action(ActionBinding::Cancel) => Some(TitleInputEvent::Cancel),
            _ => None,
        }
    }
}

/// The playing-screen event of a binding firing: play keys on press and
/// release, abort on press.
pub open spec fn playing_event_of(b: KeyBinding, pressed: bool) -> Option<PlayingInputEvent> {
    match (b, pressed) {
        (KeyBinding::Play(k), true) => Some(PlayingInputEvent::PlayKeyDown(k)),
        (KeyBinding::Play(k), false) => Some(PlayingInputEvent::PlayKeyUp(k)),
        (KeyBinding::PlayingAction(PlayingActionBinding::Abort), true) => Some(
            PlayingInputEvent::Abort,
        ),
        _ => None,
    }
}

/// The result-screen event of a binding firing: only presses count.
pub open spec fn result_event_of(b: KeyBinding, pressed: bool) -> Option<ResultInputEvent> {
    if !pressed {
        None
    } else {
        match b {
            KeyBinding::Action(ActionBinding::Confirm) => Some(ResultInputEvent::Confirm),
            KeyBinding::Action(ActionBinding::Cancel) => Some(ResultInputEvent::Cancel),
            _ => None,
        }
    }
}

/// Actions mean the same on the title and result screens, and fire on
/// press only: the action named `Confirm` (or `confirm`) confirms and the
/// one named `Cancel` (or `cancel`) cancels, on both screens.
pub proof fn law_action_events(b: KeyBinding, pressed: bool)
    ensures
        title_event_of(b, pressed) == Some(TitleInputEvent::Confirm) <==> result_event_of(b, pressed)
            == Some(ResultInputEvent::Confirm),
        title_event_of(b, pressed) == Some(TitleInputEvent::Cancel) <==> result_event_of(b, pressed)
            == Some(ResultInputEvent::Cancel),
        !pressed ==> title_event_of(b, pressed) is None && result_event_of(b, pressed) is None,
        action_of("confirm"@) == action_of("Confirm"@) && action_of("cancel"@) == action_of("Cancel"@),
        title_event_of(KeyBinding::Action(action_of("Confirm"@)->0), true) == Some(TitleInputEvent::Confirm),
        title_event_of(KeyBinding::Action(action_of("Cancel"@)->0), true) == Some(TitleInputEvent::Cancel),
{
    reveal_strlit("Confirm");
    reveal_strlit("confirm");
    reveal_strlit("Cancel");
    reveal_strlit("cancel");
    assert("Cancel"@[1] != "Confirm"@[1] && "cancel"@[1] != "Confirm"@[1] && "Cancel"@[0] != "confirm"@[0]);
    assert("cancel"@[1] != "confirm"@[1]);
}

pub fn title_event(b: KeyBinding, pressed: bool) -> (r: Option<TitleInputEvent>)
    ensures
        r == title_event_of(b, pressed),
{
    if !pressed {
        return None;
    }
    match b {
        KeyBinding::Action(ActionBinding::Confirm) => Some(TitleInputEvent::Confirm),
        KeyBinding::Action(ActionBinding::Cancel) => Some(TitleInputEvent::Cancel),
        _ => None,
    }
}

pub fn playing_event(b: KeyBinding, pressed: bool) -> (r: Option<PlayingInputEvent>)
    ensures
        r == playing_event_of(b, pressed),
{
    match (b, pressed) {
        (KeyBinding::Play(k), true) => Some(PlayingInputEvent::PlayKeyDown(k)),
        (KeyBinding::Play(k), false) => Some(PlayingInputEvent::PlayKeyUp(k)),
        (KeyBinding::PlayingAction(PlayingActionBinding::Abort), true) => Some(
            PlayingInputEvent::Abort,
        ),
        _ => None,
    }
}

pub fn result_event(b: KeyBinding, pressed: bool) -> (r: Option<ResultInputEvent>)
    ensures
        r == result_event_of(b, pressed),
{
    if !pressed {
        return None;
    }
    match b {
        KeyBinding::Action(ActionBinding::Confirm) => Some(ResultInputEvent::Confirm),
        KeyBinding::Action(ActionBinding::Cancel) => Some(ResultInputEvent::Cancel),
        _ => None,
    }
}

/// The values present in `s`, in order.
pub open spec fn somes<T>(s: Seq<Option<T>>) -> Seq<T>
    decreases s.len(),
{
    if s.len() == 0 {
        Seq::empty()
    } else {
        match s.last() {
            Some(x) => somes(s.drop_last()).push(x),
            None => somes(s.drop_last()),
        }
    }
}

pub open spec fn title_events_of(fired: Seq<(KeyBinding, bool)>) -> Seq<TitleInputEvent> {
    somes(fired.map_values(|p: (KeyBinding, bool)| title_event_of(p.0, p.1)))
}

pub open spec fn playing_events_of(fired: Seq<(KeyBinding, bool)>) -> Seq<PlayingInputEvent> {
    somes(fired.map_values(|p: (KeyBinding, bool)| playing_event_of(p.0, p.1)))
}

pub open spec fn result_events_of(fired: Seq<(KeyBinding, bool)>) -> Seq<ResultInputEvent> {
    somes(fired.map_values(|p: (KeyBinding, bool)| result_event_of(p.0, p.1)))
}

proof fn lemma_somes_step<T, U>(fired: Seq<T>, i: int, f: spec_fn(T) -> Option<U>)
    requires
        0 <= i < fired.len(),
    ensures
        somes(fired.take(i + 1).map_values(f)) == match f(fired[i]) {
            Some(x) => somes(fired.take(i).map_values(f)).push(x),
            None => somes(fired.take(i).map_values(f)),
        },
{
    assert(fired.take(i + 1).map_values(f).drop_last() =~= fired.take(i).map_values(f));
}

// ---------------------------------------------------------------------------
// Bindings of all screens
// ---------------------------------------------------------------------------

/// Bindings of the title, playing and result screens.
#[derive(Debug, Default)]
pub struct Bindings {
    title: StateBindings,
    playing: StateBindings,
    result: StateBindings,
}

pub struct BindingsView {
    pub title: Seq<(KeyName, KeyBinding)>,
    pub playing: Seq<(KeyName, KeyBinding)>,
    pub result: Seq<(KeyName, KeyBinding)>,
}

impl View for Bindings {
    type V = BindingsView;

    closed spec fn view(&self) -> BindingsView {
        BindingsView { title: self.title@, playing: self.playing@, result: self.result@ }
    }
}

impl Bindings {
    pub fn title_bindings(&self) -> (r: &StateBindings)
        ensures
            r@ == self@.title,
    {
        &self.title
    }

    pub fn playing_bindings(&self) -> (r: &StateBindings)
        ensures
            r@ == self@.playing,
    {
        &self.playing
    }

    pub fn result_bindings(&self) -> (r: &StateBindings)
        ensures
            r@ == self@.result,
    {
        &self.result
    }
}

/// Title-screen events from the key states.
pub fn poll_title_key_events(bindings: &Bindings, states: &Vec<KeyState>) -> (r: Vec<TitleInputEvent>)
    ensures
        r@ == title_events_of(all_key_events(bindings@.title, states@)),
{
    let fired = bindings.title.binding_events(states);
    let mut out: Vec<TitleInputEvent> = Vec::new();
    let mut i: usize = 0;
    while i < fired.len()
        invariant
            i <= fired@.len(),
            out@ == title_events_of(fired@.take(i as int)),
        decreases fired@.len() - i,
    {
        proof {
            lemma_somes_step(fired@, i as int, |p: (KeyBinding, bool)| title_event_of(p.0, p.1));
        }
        if let Some(e) = title_event(fired[i].0, fired[i].1) {
            out.push(e);
        }
        i = i + 1;
    }
    assert(fired@.take(fired@.len() as int) =~= fired@);
    out
}

/// Playing-screen events from the key states.
pub fn poll_playing_key_events(bindings: &Bindings, states: &Vec<KeyState>) -> (r: Vec<PlayingInputEvent>)
    ensures
        r@ == playing_events_of(all_key_events(bindings@.playing, states@)),
{
    let fired = bindings.playing.binding_events(states);
    let mut out: Vec<PlayingInputEvent> = Vec::new();
    let mut i: usize = 0;
    while i < fired.len()
        invariant
            i <= fired@.len(),
            out@ == playing_events_of(fired@.take(i as int)),
        decreases fired@.len() - i,
    {
        proof {
            lemma_somes_step(fired@, i as int, |p: (KeyBinding, bool)| playing_event_of(p.0, p.1));
        }
        if let Some(e) = playing_event(fired[i].0, fired[i].1) {
            out.push(e);
        }
        i = i + 1;
    }
    assert(fired@.take(fired@.len() as int) =~= fired@);
    out
}

/// Result-screen events from the key states.
pub fn poll_result_key_events(bindings: &Bindings, states: &Vec<KeyState>) -> (r: Vec<ResultInputEvent>)
    ensures
        r@ == result_events_of(all_key_events(bindings@.result, states@)),
{
    let fired = bindings.result.binding_events(states);
    let mut out: Vec<ResultInputEvent> = Vec::new();
    let mut i: usize = 0;
    while i < fired.len()
        invariant
            i <= fired@.len(),
            out@ == result_events_of(fired@.take(i as int)),
        decreases fired@.len() - i,
    {
        proof {
            lemma_somes_step(fired@, i as int, |p: (KeyBinding, bool)| result_event_of(p.0, p.1));
        }
        if let Some(e) = result_event(fired[i].0, fired[i].1) {
            out.push(e);
        }
        i = i + 1;
    }
    assert(fired@.take(fired@.len() as int) =~= fired@);
    out
}

// ---------------------------------------------------------------------------
// Reading bindings from TOML
// ---------------------------------------------------------------------------

/// A TOML value, as the `toml` crate parses it.
#[verifier::external_type_specification]
#[verifier::external_body]
pub struct ExTomlValue(toml::Value);

/// The error the `toml` crate reports for a document it cannot parse.
#[verifier::external_type_specification]
#[verifier::external_body]
pub struct ExTomlError(toml::de::Error);

/// The string values that a TOML value holds, reachable from it through
/// tables alone, each under the path of keys that leads to it. A string
/// value holds its own text under the empty path; integers, floats,
/// booleans, dates and arrays hold none.
pub uninterp spec fn toml_strings(v: toml::Value) -> Map<Seq<Seq<char>>, Seq<char>>;

/// What the `toml` crate reads from `text`: `None` when it does not accept
/// the text as a TOML document, else the string values of the document (as
/// [`toml_strings`] gives them).
pub uninterp spec fn toml_document(text: Seq<char>) -> Option<Map<Seq<Seq<char>>, Seq<char>>>;

/// The strings of `m` under key `k`, with `k` taken off their paths.
pub open spec fn under(m: Map<Seq<Seq<char>>, Seq<char>>, k: Seq<char>) -> Map<Seq<Seq<char>>, Seq<char>> {
    Map::new(|p: Seq<Seq<char>>| m.contains_key(seq![k] + p), |p: Seq<Seq<char>>| m[seq![k] + p])
}

/// The strings of section `state.section` of a document's strings `m`.
pub open spec fn section_strings(m: Map<Seq<Seq<char>>, Seq<char>>, state: Seq<char>, section: Seq<char>) -> Map<
    Seq<Seq<char>>,
    Seq<char>,
> {
    under(under(m, state), section)
}

/// The entries `es` are those of a table whose strings are `m`: each key
/// once, with its string value, or `None` where the value is not a string,
/// and every key that has a string value among them.
pub open spec fn entries_agree(m: Map<Seq<Seq<char>>, Seq<char>>, es: Seq<(Seq<char>, Option<Seq<char>>)>) -> bool {
    &&& forall|i: int|
        0 <= i < es.len() ==> match (#[trigger] es[i]).1 {
            Some(text) => m.contains_key(seq![es[i].0]) && m[seq![es[i].0]] == text,
            None => !m.contains_key(seq![es[i].0]),
        }
    &&& forall|k: Seq<char>| #[trigger] m.contains_key(seq![k]) ==> exists|i: int| 0 <= i < es.len() && (#[trigger] es[i]).0 == k
    &&& forall|i: int, j: int| 0 <= i < j < es.len() ==> (#[trigger] es[i]).0 != (#[trigger] es[j]).0
}

/// `a` comes before `b` in the order of `String`: compared character by
/// character by code point, a proper prefix first. (The byte order of UTF-8
/// forms, which `String` compares, is this order.)
pub open spec fn text_before(a: Seq<char>, b: Seq<char>) -> bool
    decreases a.len(),
{
    if a.len() == 0 {
        b.len() > 0
    } else if b.len() == 0 {
        false
    } else if a[0] != b[0] {
        (a[0] as u32) < (b[0] as u32)
    } else {
        text_before(a.drop_first(), b.drop_first())
    }
}

/// The entries' keys come in increasing order.
pub open spec fn keys_in_order(es: Seq<(Seq<char>, Option<Seq<char>>)>) -> bool {
    forall|i: int, j: int| 0 <= i < j < es.len() ==> text_before((#[trigger] es[i]).0, (#[trigger] es[j]).0)
}

/// Calls `toml::from_str::<toml::Value>`: it succeeds exactly when the
/// crate accepts the text, and the value it gives holds the strings that
/// the crate reads from the text; both are functions of the text alone.
#[verifier::external_body]
fn toml_parse(text: &str) -> (r: Result<toml::Value, toml::de::Error>)
    ensures
        r is Ok <==> toml_document(text@) is Some,
        r matches Ok(v) ==> toml_document(text@) == Some(toml_strings(v)),
{
    toml::from_str::<toml::Value>(text)
}

/// Calls `toml::Value::get` with a string key: the value under `key` when
/// `v` is a table that has it, else `None`. So the strings of the result are
/// those of `v` under `key`, and when there is no result `v` holds none
/// under `key`.
#[verifier::external_body]
fn toml_get<'a>(v: &'a toml::Value, key: &str) -> (r: Option<&'a toml::Value>)
    ensures
        r matches Some(x) ==> toml_strings(*x) == under(toml_strings(*v), key@),
        r is None ==> under(toml_strings(*v), key@).dom() == Set::<Seq<Seq<char>>>::empty(),
{
    v.get(key)
}

/// When `v` is a table, its entries as `toml::map::Map::iter` lists them,
/// each key with its value when that value is a string and `None`
/// otherwise; `None` when `v` is not a table (such a value holds no string
/// under a one-key path). With the crate's default features (no
/// `preserve_order`) the map is a `BTreeMap<String, Value>`, so the entries
/// come in increasing key order.
#[verifier::external_body]
fn toml_table_entries(v: &toml::Value) -> (r: Option<Vec<(String, Option<String>)>>)
    ensures
        entries_agree(
            toml_strings(*v),
            match r {
                Some(es) => entries_view(es@),
                None => Seq::empty(),
            },
        ),
        r matches Some(es) ==> keys_in_order(entries_view(es@)),
{
    match v {
        toml::Value::Table(t) => {
            let mut out = Vec::new();
            for (k, x) in t.iter() {
                let text = match x {
                    toml::Value::String(s) => Some(s.clone()),
                    _ => None,
                };
                out.push((k.clone(), text));
            }
            Some(out)
        },
        _ => None,
    }
}

/// Which section a list of entries comes from; it decides what an event
/// name means.
#[derive(Clone, Copy, Debug, PartialEq, Eq, Structural)]
pub enum BindingSection {
    TitleActions,
    ResultActions,
    PlayKeys,
    PlayingActions,
}

/// The binding an event name stands for in a section.
pub open spec fn section_binding(section: BindingSection, event: Seq<char>) -> Option<KeyBinding> {
    match section {
        BindingSection::TitleActions | BindingSection::ResultActions => match action_of(event) {
            Some(a) => Some(KeyBinding::Action(a)),
            None => None,
        },
        BindingSection::PlayKeys => match play_key_of(event) {
            Some(k) => Some(KeyBinding::Play(k)),
            None => None,
        },
        BindingSection::PlayingActions => match playing_action_of(event) {
            Some(a) => Some(KeyBinding::PlayingAction(a)),
            None => None,
        },
    }
}

pub open spec fn entry_view(e: (String, Option<String>)) -> (Seq<char>, Option<Seq<char>>) {
    (e.0@, match e.1 {
        Some(v) => Some(v@),
        None => None,
    })
}

pub open spec fn entries_view(es: Seq<(String, Option<String>)>) -> Seq<(Seq<char>, Option<Seq<char>>)> {
    es.map_values(|e: (String, Option<String>)| entry_view(e))
}

/// The bindings `l` after the entries of a section: an entry binds when its
/// value is a string naming a key and its name means something in the
/// section; other entries are skipped.
pub open spec fn bind_entries(
    l: Seq<(KeyName, KeyBinding)>,
    es: Seq<(Seq<char>, Option<Seq<char>>)>,
    section: BindingSection,
) -> Seq<(KeyName, KeyBinding)>
    decreases es.len(),
{
    if es.len() == 0 {
        l
    } else {
        let prev = bind_entries(l, es.drop_last(), section);
        let (event, value) = es.last();
        match value {
            Some(v) => match (key_of_name(v), section_binding(section, event)) {
                (Some(k), Some(b)) => prev.push((k, b)),
                _ => prev,
            },
            None => prev,
        }
    }
}

/// The bindings that the four sections give: `[title.actions]`,
/// `[result.actions]`, then `[playing.play_keys]` and `[playing.actions]`
/// into the playing screen, in that order.
pub open spec fn bindings_from_sections(
    title_actions: Seq<(Seq<char>, Option<Seq<char>>)>,
    result_actions: Seq<(Seq<char>, Option<Seq<char>>)>,
    play_keys: Seq<(Seq<char>, Option<Seq<char>>)>,
    playing_actions: Seq<(Seq<char>, Option<Seq<char>>)>,
) -> BindingsView {
    BindingsView {
        title: bind_entries(Seq::empty(), title_actions, BindingSection::TitleActions),
        playing: bind_entries(
            bind_entries(Seq::empty(), play_keys, BindingSection::PlayKeys),
            playing_actions,
            BindingSection::PlayingActions,
        ),
        result: bind_entries(Seq::empty(), result_actions, BindingSection::ResultActions),
    }
}

fn section_binding_exec(section: BindingSection, event: &str) -> (r: Option<KeyBinding>)
    ensures
        r == section_binding(section, event@),
{
    match section {
        BindingSection::TitleActions | BindingSection::ResultActions => match parse_input_action(
            event,
        ) {
            Some(a) => Some(KeyBinding::Action(a)),
            None => None,
        },
        BindingSection::PlayKeys => match parse_play_key(event) {
            Some(k) => Some(KeyBinding::Play(k)),
            None => None,
        },
        BindingSection::PlayingActions => match parse_playing_action(event) {
            Some(a) => Some(KeyBinding::PlayingAction(a)),
            None => None,
        },
    }
}

impl StateBindings {
    /// Binds the entries of a section (see [`bind_entries`]).
    pub fn bind_section(&mut self, entries: &Vec<(String, Option<String>)>, section: BindingSection)
        ensures
            final(self)@ == bind_entries(old(self)@, entries_view(entries@), section),
    {
        let ghost es = entries_view(entries@);
        let mut i: usize = 0;
        while i < entries.len()
            invariant
                i <= entries@.len(),
                es == entries_view(entries@),
                self@ == bind_entries(old(self)@, es.take(i as int), section),
            decreases entries@.len() - i,
        {
            assert(es.take(i + 1).drop_last() =~= es.take(i as int));
            assert(es.take(i + 1).last() == entry_view(entries@[i as int]));
            match &entries[i].1 {
                Some(value) => {
                    let key = parse_keycode(value.as_str());
                    let binding = section_binding_exec(section, entries[i].0.as_str());
                    match (key, binding) {
                        (Some(k), Some(b)) => self.bind(k, b),
                        _ => {},
                    }
                },
                None => {},
            }
            i = i + 1;
        }
        assert(es.take(entries@.len() as int) =~= es);
    }
}

/// Whether `b` is what the four sections of a document whose strings are
/// `m` bind: the entries of `[title.actions]`, `[result.actions]`,
/// `[playing.play_keys]` and `[playing.actions]`, each section's keys in
/// increasing order, bound as [`bindings_from_sections`] says.
pub open spec fn read_from_document(m: Map<Seq<Seq<char>>, Seq<char>>, b: BindingsView) -> bool {
    exists|
        t: Seq<(Seq<char>, Option<Seq<char>>)>,
        re: Seq<(Seq<char>, Option<Seq<char>>)>,
        pk: Seq<(Seq<char>, Option<Seq<char>>)>,
        pa: Seq<(Seq<char>, Option<Seq<char>>)>,
    |
        #![trigger bindings_from_sections(t, re, pk, pa)]
        keys_in_order(t) && keys_in_order(re) && keys_in_order(pk) && keys_in_order(pa)
            && entries_agree(section_strings(m, "title"@, "actions"@), t) && entries_agree(
            section_strings(m, "result"@, "actions"@),
            re,
        ) && entries_agree(section_strings(m, "playing"@, "play_keys"@), pk) && entries_agree(
            section_strings(m, "playing"@, "actions"@),
            pa,
        ) && b == bindings_from_sections(t, re, pk, pa)
}

/// Why bindings could not be read.
#[derive(Debug)]
pub enum BindingsError {
    /// The text is not a TOML document.
    Toml(toml::de::Error),
}

/// The entries of section `state.section` of a parsed document, or none
/// when the document has no such table: each key of the section once, with
/// its string value or `None`, and every key that has a string value.
fn section_entries(doc: &toml::Value, state: &str, section: &str) -> (r: Vec<(String, Option<String>)>)
    ensures
        entries_agree(section_strings(toml_strings(*doc), state@, section@), entries_view(r@)),
        keys_in_order(entries_view(r@)),
{
    let none: Vec<(String, Option<String>)> = Vec::new();
    assert(entries_view(none@) =~= Seq::empty());
    match toml_get(doc, state) {
        Some(st) => match toml_get(st, section) {
            Some(sec) => match toml_table_entries(sec) {
                Some(es) => es,
                None => none,
            },
            None => {
                assert(section_strings(toml_strings(*doc), state@, section@) =~= Map::empty());
                none
            },
        },
        None => {
            assert(section_strings(toml_strings(*doc), state@, section@) =~= Map::empty());
            none
        },
    }
}

impl Bindings {
    /// Bindings from the entries of the four sections (see
    /// [`bindings_from_sections`]).
    pub fn from_sections(
        title_actions: &Vec<(String, Option<String>)>,
        result_actions: &Vec<(String, Option<String>)>,
        play_keys: &Vec<(String, Option<String>)>,
        playing_actions: &Vec<(String, Option<String>)>,
    ) -> (r: Bindings)
        ensures
            r@ == bindings_from_sections(
                entries_view(title_actions@),
                entries_view(result_actions@),
                entries_view(play_keys@),
                entries_view(playing_actions@),
            ),
    {
        let mut title = StateBindings::new();
        title.bind_section(title_actions, BindingSection::TitleActions);
        let mut result = StateBindings::new();
        result.bind_section(result_actions, BindingSection::ResultActions);
        let mut playing = StateBindings::new();
        playing.bind_section(play_keys, BindingSection::PlayKeys);
        playing.bind_section(playing_actions, BindingSection::PlayingActions);
        Bindings { title, playing, result }
    }

    /// Reads bindings from a TOML document of the form
    ///
    /// ```toml
    /// [playing.play_keys]
    /// Key1 = "S"
    /// ScratchUp = "Space"
    /// [playing.actions]
    /// Abort = "R"
    /// [title.actions]
    /// Confirm = "Enter"
    /// [result.actions]
    /// Cancel = "Escape"
    /// ```
    ///
    /// It fails exactly when the text is not TOML; entries that name no known
    /// event or key, or whose value is not a string, are skipped.
    pub fn from_toml_str(s: &str) -> (r: Result<Bindings, BindingsError>)
        ensures
            r is Ok <==> toml_document(s@) is Some,
            r matches Ok(b) ==> read_from_document(toml_document(s@)->0, b@),
    {
        let doc = match toml_parse(s) {
            Ok(v) => v,
            Err(e) => {
                return Err(BindingsError::Toml(e));
            },
        };
        let title_actions = section_entries(&doc, "title", "actions");
        let result_actions = section_entries(&doc, "result", "actions");
        let play_keys = section_entries(&doc, "playing", "play_keys");
        let playing_actions = section_entries(&doc, "playing", "actions");
        let b = Bindings::from_sections(&title_actions, &result_actions, &play_keys, &playing_actions);
        Ok(b)
    }

    /// The default bindings: S D F Space J K L for keys 1 to 7, right and
    /// left shift for scratch up and down, R to abort, Enter and Escape to
    /// confirm and cancel. They are read from a TOML document, as
    /// [`Bindings::from_toml_str`] reads any other.
    pub fn with_defaults() -> (r: Result<Bindings, BindingsError>)
        ensures
            r is Ok <==> toml_document(DEFAULT_BINDINGS_TOML@) is Some,
            r matches Ok(b) ==> read_from_document(toml_document(DEFAULT_BINDINGS_TOML@)->0, b@),
    {
        Self::from_toml_str(DEFAULT_BINDINGS_TOML)
    }
}

/// The TOML text of the default bindings.
pub const DEFAULT_BINDINGS_TOML: &'static str = "
[playing.play_keys]
Key1 = \"S\"
Key2 = \"D\"
Key3 = \"F\"
Key4 = \"Space\"
Key5 = \"J\"
Key6 = \"K\"
Key7 = \"L\"
ScratchUp = \"RShift\"
ScratchDown = \"LShift\"

[playing.actions]
Abort = \"R\"

[title.actions]
Confirm = \"Enter\"
Cancel = \"Escape\"

[result.actions]
Confirm = \"Enter\"
Cancel = \"Escape\"
";
} // verus!
