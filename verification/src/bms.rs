//! The BMS chart format: header keys, the parsed chart, and the line-oriented
//! parser. Everything is stated over the `Seq<char>` view of the text; where
//! the format is defined in bytes (the three measure digits, the two-byte
//! payload slots) the UTF-8 width of each character is taken into account.
use std::collections::HashMap;
use vstd::prelude::*;
use crate::text::{
    ascii_lower, lemma_ascii_lower_of_trimmed, lemma_trim_ascii_upper, lemma_ascii_upper_idempotent,
    all_digits, ascii_upper_char, digit_value, digits_value, is_space, lemma_ascii_upper_char_space, lemma_index_of_char,
    lemma_trim_end_bounds, lemma_trim_of_trimmed, lemma_trim_start_bounds, trim_start,
    all_ascii, char_utf8_width, find_char, find_space, is_ascii_char, lemma_utf8_len_at_least_len,
    trim_char_bounds, string_from_range, ascii_upper, ascii_upper_range, chars_of, index_of_char, index_of_space,
    parse_unsigned, parse_unsigned_range, push_char, range_eq_str, string_from_chars, trim,
    trim_bounds, trim_char, utf8_len, utf8_width,
};

verus! {

broadcast use vstd::std_specs::hash::group_hash_axioms;

/// A BMS header key.
///
/// Common keys (`TITLE`, `ARTIST`, `BPM`, ...) have a variant of their own;
/// numbered keys such as `WAVnn` become `Wav(u8)` with `nn` read as
/// hexadecimal; any other key is kept, upper-cased, in `Other`.
#[derive(Debug, Clone, PartialEq, Eq, Hash)]
pub enum HeaderKey {
    Player,
    Genre,
    Title,
    Artist,
    Bpm,
    PlayLevel,
    Rank,
    Subtitle,
    SubArtist,
    Difficulty,
    Total,
    Comment,
    LnType,
    /// The stage picture (`#STAGEFILE ...`).
    StageFile,
    Wav(u8),
    /// A picture reference (`#BMPnn ...`).
    Bmp(u8),
    Other(String),
}

/// The mathematical value of a [`HeaderKey`].
pub enum HeaderKeyView {
    Player,
    Genre,
    Title,
    Artist,
    Bpm,
    PlayLevel,
    Rank,
    Subtitle,
    SubArtist,
    Difficulty,
    Total,
    Comment,
    LnType,
    StageFile,
    Wav(u8),
    Bmp(u8),
    Other(Seq<char>),
}

impl View for HeaderKey {
    type V = HeaderKeyView;

    open spec fn view(&self) -> HeaderKeyView {
        match self {
            HeaderKey::Player => HeaderKeyView::Player,
            HeaderKey::Genre => HeaderKeyView::Genre,
            HeaderKey::Title => HeaderKeyView::Title,
            HeaderKey::Artist => HeaderKeyView::Artist,
            HeaderKey::Bpm => HeaderKeyView::Bpm,
            HeaderKey::PlayLevel => HeaderKeyView::PlayLevel,
            HeaderKey::Rank => HeaderKeyView::Rank,
            HeaderKey::Subtitle => HeaderKeyView::Subtitle,
            HeaderKey::SubArtist => HeaderKeyView::SubArtist,
            HeaderKey::Difficulty => HeaderKeyView::Difficulty,
            HeaderKey::Total => HeaderKeyView::Total,
            HeaderKey::Comment => HeaderKeyView::Comment,
            HeaderKey::LnType => HeaderKeyView::LnType,
            HeaderKey::StageFile => HeaderKeyView::StageFile,
            HeaderKey::Wav(n) => HeaderKeyView::Wav(*n),
            HeaderKey::Bmp(n) => HeaderKeyView::Bmp(*n),
            HeaderKey::Other(s) => HeaderKeyView::Other(s@),
        }
    }
}

/// The hexadecimal digit of `d` (`0..=15`), upper case.
pub open spec fn hex_digit(d: nat) -> char {
    if d < 10 {
        ((0x30 + d) as u32) as char
    } else {
        ((0x41 + d - 10) as u32) as char
    }
}

/// `n` written with two upper-case hexadecimal digits (`{:02X}`).
pub open spec fn hex2(n: u8) -> Seq<char> {
    seq![hex_digit((n / 16) as nat), hex_digit((n % 16) as nat)]
}

/// The text of a header key, as it is written after `#` in a chart.
pub open spec fn key_text(k: HeaderKeyView) -> Seq<char> {
    match k {
        HeaderKeyView::Player => "PLAYER"@,
        HeaderKeyView::Genre => "GENRE"@,
        HeaderKeyView::Title => "TITLE"@,
        HeaderKeyView::Artist => "ARTIST"@,
        HeaderKeyView::Bpm => "BPM"@,
        HeaderKeyView::PlayLevel => "PLAYLEVEL"@,
        HeaderKeyView::Rank => "RANK"@,
        HeaderKeyView::Subtitle => "SUBTITLE"@,
        HeaderKeyView::SubArtist => "SUBARTIST"@,
        HeaderKeyView::Difficulty => "DIFFICULTY"@,
        HeaderKeyView::Total => "TOTAL"@,
        HeaderKeyView::Comment => "COMMENT"@,
        HeaderKeyView::LnType => "LNTYPE"@,
        HeaderKeyView::StageFile => "STAGEFILE"@,
        HeaderKeyView::Wav(n) => "WAV"@ + hex2(n),
        HeaderKeyView::Bmp(n) => "BMP"@ + hex2(n),
        HeaderKeyView::Other(s) => s,
    }
}

/// The key that the text `s` names: trimmed and upper-cased, then matched
/// against the known keys; `WAVxx`/`BMPxx` with a hexadecimal `xx` that fits
/// a byte give `Wav`/`Bmp`; anything else is `Other` of the upper-cased text.
pub open spec fn header_key_of(s: Seq<char>) -> HeaderKeyView {
    let up = ascii_upper(trim(s));
    if up == "PLAYER"@ {
        HeaderKeyView::Player
    } else if up == "GENRE"@ {
        HeaderKeyView::Genre
    } else if up == "TITLE"@ {
        HeaderKeyView::Title
    } else if up == "ARTIST"@ {
        HeaderKeyView::Artist
    } else if up == "BPM"@ {
        HeaderKeyView::Bpm
    } else if up == "PLAYLEVEL"@ {
        HeaderKeyView::PlayLevel
    } else if up == "RANK"@ {
        HeaderKeyView::Rank
    } else if up == "SUBTITLE"@ {
        HeaderKeyView::Subtitle
    } else if up == "SUBARTIST"@ {
        HeaderKeyView::SubArtist
    } else if up == "DIFFICULTY"@ {
        HeaderKeyView::Difficulty
    } else if up == "TOTAL"@ {
        HeaderKeyView::Total
    } else if up == "COMMENT"@ {
        HeaderKeyView::Comment
    } else if up == "LNTYPE"@ {
        HeaderKeyView::LnType
    } else if up == "STAGEFILE"@ {
        HeaderKeyView::StageFile
    } else if up.len() > 3 && up.take(3) == "WAV"@ {
        match parse_unsigned(up.skip(3), 16, 255) {
            Some(n) => HeaderKeyView::Wav(n as u8),
            None => HeaderKeyView::Other(up),
        }
    } else if up.len() > 3 && up.take(3) == "BMP"@ {
        match parse_unsigned(up.skip(3), 16, 255) {
            Some(n) => HeaderKeyView::Bmp(n as u8),
            None => HeaderKeyView::Other(up),
        }
    } else {
        HeaderKeyView::Other(up)
    }
}

/// One channel line of a measure: the channel number and its slots, each
/// slot empty (`00`) or holding the two-byte object identifier.
#[derive(Debug, Clone)]
pub struct ChannelData {
    pub channel: u8,
    pub data: Vec<Option<String>>,
}

pub struct ChannelDataView {
    pub channel: u8,
    pub data: Seq<Option<Seq<char>>>,
}

pub open spec fn slot_view(o: Option<String>) -> Option<Seq<char>> {
    match o {
        Some(s) => Some(s@),
        None => None,
    }
}

impl View for ChannelData {
    type V = ChannelDataView;

    open spec fn view(&self) -> ChannelDataView {
        ChannelDataView { channel: self.channel, data: self.data@.map_values(|o: Option<String>| slot_view(o)) }
    }
}

/// A parsed BMS chart: its header values and, per measure number, the
/// channel lines of that measure in the order they appear.
#[derive(Debug, Clone)]
pub struct Bms {
    /// Header key/value pairs; a key occurs at most once (see [`Bms::wf`]).
    pub headers: Vec<(HeaderKey, String)>,
    /// Measure number to the channels of that measure.
    pub measures: HashMap<u32, Vec<ChannelData>>,
}

pub struct BmsView {
    pub headers: Map<HeaderKeyView, Seq<char>>,
    pub measures: Map<u32, Seq<ChannelDataView>>,
}

/// The header map that a list of pairs denotes; a later pair for a key
/// replaces an earlier one.
pub open spec fn header_map(s: Seq<(HeaderKey, String)>) -> Map<HeaderKeyView, Seq<char>>
    decreases s.len(),
{
    if s.len() == 0 {
        Map::empty()
    } else {
        header_map(s.drop_last()).insert(s.last().0@, s.last().1@)
    }
}

pub open spec fn channels_view(v: Vec<ChannelData>) -> Seq<ChannelDataView> {
    v@.map_values(|c: ChannelData| c@)
}

impl View for Bms {
    type V = BmsView;

    open spec fn view(&self) -> BmsView {
        BmsView {
            headers: header_map(self.headers@),
            measures: self.measures@.map_values(|v: Vec<ChannelData>| channels_view(v)),
        }
    }
}

impl Bms {
    /// Every header key occurs once in `headers`.
    pub open spec fn wf(&self) -> bool {
        forall|i: int, j: int|
            0 <= i < j < self.headers@.len() ==> (#[trigger] self.headers@[i]).0@
                != (#[trigger] self.headers@[j]).0@
    }
}

// ---------------------------------------------------------------------------
// The format, line by line
// ---------------------------------------------------------------------------

pub open spec fn empty_bms() -> BmsView {
    BmsView { headers: Map::empty(), measures: Map::empty() }
}

pub open spec fn with_header(m: BmsView, k: HeaderKeyView, v: Seq<char>) -> BmsView {
    BmsView { headers: m.headers.insert(k, v), measures: m.measures }
}

/// `m` with channel line `c` appended to measure `measure`.
pub open spec fn with_channel(m: BmsView, measure: u32, c: ChannelDataView) -> BmsView {
    let prev = if m.measures.contains_key(measure) {
        m.measures[measure]
    } else {
        Seq::empty()
    };
    BmsView { headers: m.headers, measures: m.measures.insert(measure, prev.push(c)) }
}

/// A two-character slot: `00` is empty.
pub open spec fn slot_of(p: Seq<char>) -> Option<Seq<char>> {
    if p == seq!['0', '0'] {
        None
    } else {
        Some(p)
    }
}

/// The payload of a channel line cut into two-byte slots, or `None` where a
/// cut would fall inside a multi-byte character. A last lone byte is ignored.
pub open spec fn data_slots(d: Seq<char>) -> Option<Seq<Option<Seq<char>>>>
    decreases d.len(),
{
    if d.len() == 0 {
        Some(Seq::empty())
    } else if utf8_width(d[0]) == 1 {
        if d.len() == 1 {
            Some(Seq::empty())
        } else if utf8_width(d[1]) == 1 {
            match data_slots(d.skip(2)) {
                Some(rest) => Some(seq![slot_of(d.take(2))] + rest),
                None => None,
            }
        } else {
            None
        }
    } else if utf8_width(d[0]) == 2 {
        match data_slots(d.skip(1)) {
            Some(rest) => Some(seq![slot_of(d.take(1))] + rest),
            None => None,
        }
    } else {
        None
    }
}

/// Measure and channel of the text before `:` of a data line: three bytes
/// of decimal measure, then a decimal channel that fits a byte.
pub open spec fn data_head(left: Seq<char>) -> Option<(u32, u8)> {
    if left.len() >= 4 && all_ascii(left.take(3)) {
        match (
            parse_unsigned(left.take(3), 10, 0xffff_ffff),
            parse_unsigned(left.skip(3), 10, 255),
        ) {
            (Some(m), Some(c)) => Some((m as u32, c as u8)),
            _ => None,
        }
    } else {
        None
    }
}

/// Whether byte 3 of the UTF-8 form of `left` starts a character.
pub open spec fn splits_at_byte_3(left: Seq<char>) -> bool {
    ||| left.len() >= 1 && utf8_width(left[0]) == 3
    ||| left.len() >= 2 && utf8_width(left[0]) + utf8_width(left[1]) == 3
    ||| left.len() >= 3 && utf8_width(left[0]) + utf8_width(left[1]) + utf8_width(left[2]) == 3
}

/// Key and value of a header line (`after` is the line without its `#`):
/// the key runs to the first whitespace, the value is the rest, trimmed and
/// stripped of surrounding double quotes.
pub open spec fn header_entry(after: Seq<char>) -> (HeaderKeyView, Seq<char>) {
    let w = index_of_space(after);
    let key = header_key_of(trim(after.take(w as int)));
    let value = if w < after.len() {
        trim_char(trim(after.skip(w + 1int)), '"')
    } else {
        Seq::empty()
    };
    (key, value)
}

pub open spec fn header_line(m: BmsView, after: Seq<char>) -> BmsView {
    let (k, v) = header_entry(after);
    with_header(m, k, v)
}

/// What one line does to the chart read so far.
///
/// Blank lines, lines that start with `*` and lines that do not start with
/// `#` are skipped. `#mmmcc:payload` with a decimal measure `mmm` and channel
/// `cc` adds a channel line; every other `#` line sets a header.
pub open spec fn apply_line(m: BmsView, raw: Seq<char>) -> BmsView {
    let line = trim(raw);
    if line.len() == 0 || line[0] == '*' || line[0] != '#' {
        m
    } else {
        let after = line.drop_first();
        let ci = index_of_char(after, ':');
        if ci < after.len() {
            let left = trim(after.take(ci as int));
            let data = trim(after.skip(ci + 1int));
            match data_head(left) {
                Some((measure, channel)) => with_channel(
                    m,
                    measure,
                    ChannelDataView { channel, data: data_slots(data).unwrap() },
                ),
                None => header_line(m, after),
            }
        } else {
            header_line(m, after)
        }
    }
}

/// Whether a line can be read: the measure digits of a `:` line end on a
/// character boundary, and a data line's payload can be cut into slots.
pub open spec fn line_readable(raw: Seq<char>) -> bool {
    let line = trim(raw);
    if line.len() == 0 || line[0] != '#' {
        true
    } else {
        let after = line.drop_first();
        let ci = index_of_char(after, ':');
        if ci < after.len() {
            let left = trim(after.take(ci as int));
            let data = trim(after.skip(ci + 1int));
            &&& (utf8_len(left) < 4 || splits_at_byte_3(left))
            &&& (data_head(left) is Some ==> data_slots(data) is Some)
        } else {
            true
        }
    }
}

/// The chart read so far, `m`, after the lines of `s` (separated by `\n`).
pub open spec fn apply_text(m: BmsView, s: Seq<char>) -> BmsView
    decreases s.len(),
{
    let i = index_of_char(s, '\n');
    if i >= s.len() {
        apply_line(m, s)
    } else {
        apply_text(apply_line(m, s.take(i as int)), s.skip(i + 1int))
    }
}

/// Every line of `s` can be read.
pub open spec fn text_readable(s: Seq<char>) -> bool
    decreases s.len(),
{
    let i = index_of_char(s, '\n');
    if i >= s.len() {
        line_readable(s)
    } else {
        line_readable(s.take(i as int)) && text_readable(s.skip(i + 1int))
    }
}

/// The chart that the text `s` denotes.
pub open spec fn bms_of(s: Seq<char>) -> BmsView {
    apply_text(empty_bms(), s)
}

// ---------------------------------------------------------------------------
// Lemmas on the header list
// ---------------------------------------------------------------------------

proof fn lemma_header_map_last(s: Seq<(HeaderKey, String)>, k: HeaderKeyView, j: int)
    requires
        0 <= j < s.len(),
        s[j].0@ == k,
        forall|t: int| j < t < s.len() ==> (#[trigger] s[t]).0@ != k,
    ensures
        header_map(s).contains_key(k),
        header_map(s)[k] == s[j].1@,
    decreases s.len(),
{
    if j < s.len() - 1 {
        let p = s.drop_last();
        assert forall|t: int| j < t < p.len() implies (#[trigger] p[t]).0@ != k by {
            assert(p[t] == s[t]);
        }
        lemma_header_map_last(p, k, j);
    }
}

proof fn lemma_header_map_absent(s: Seq<(HeaderKey, String)>, k: HeaderKeyView)
    requires
        forall|t: int| 0 <= t < s.len() ==> (#[trigger] s[t]).0@ != k,
    ensures
        !header_map(s).contains_key(k),
    decreases s.len(),
{
    if s.len() > 0 {
        let p = s.drop_last();
        assert forall|t: int| 0 <= t < p.len() implies (#[trigger] p[t]).0@ != k by {
            assert(p[t] == s[t]);
        }
        lemma_header_map_absent(p, k);
    }
}

proof fn lemma_header_map_update(
    s: Seq<(HeaderKey, String)>,
    i: int,
    e: (HeaderKey, String),
)
    requires
        0 <= i < s.len(),
        s[i].0@ == e.0@,
        forall|t: int| 0 <= t < s.len() && t != i ==> (#[trigger] s[t]).0@ != e.0@,
    ensures
        header_map(s.update(i, e)) == header_map(s).insert(e.0@, e.1@),
    decreases s.len(),
{
    let u = s.update(i, e);
    if i == s.len() - 1 {
        assert(u.drop_last() =~= s.drop_last());
        assert(header_map(u) =~= header_map(s).insert(e.0@, e.1@));
    } else {
        let p = s.drop_last();
        assert(u.drop_last() =~= p.update(i, e));
        assert forall|t: int| 0 <= t < p.len() && t != i implies (#[trigger] p[t]).0@ != e.0@ by {
            assert(p[t] == s[t]);
        }
        lemma_header_map_update(p, i, e);
        assert(u.last() == s.last());
        assert(s.last().0@ != e.0@) by {
            assert(s[s.len() - 1] == s.last());
        }
        assert(header_map(u) =~= header_map(s).insert(e.0@, e.1@));
    }
}

// ---------------------------------------------------------------------------
// Executable functions
// ---------------------------------------------------------------------------

/// Whether two keys are the same key.
pub fn same_key(a: &HeaderKey, b: &HeaderKey) -> (r: bool)
    ensures
        r == (a@ == b@),
{
    match (a, b) {
        (HeaderKey::Player, HeaderKey::Player) => true,
        (HeaderKey::Genre, HeaderKey::Genre) => true,
        (HeaderKey::Title, HeaderKey::Title) => true,
        (HeaderKey::Artist, HeaderKey::Artist) => true,
        (HeaderKey::Bpm, HeaderKey::Bpm) => true,
        (HeaderKey::PlayLevel, HeaderKey::PlayLevel) => true,
        (HeaderKey::Rank, HeaderKey::Rank) => true,
        (HeaderKey::Subtitle, HeaderKey::Subtitle) => true,
        (HeaderKey::SubArtist, HeaderKey::SubArtist) => true,
        (HeaderKey::Difficulty, HeaderKey::Difficulty) => true,
        (HeaderKey::Total, HeaderKey::Total) => true,
        (HeaderKey::Comment, HeaderKey::Comment) => true,
        (HeaderKey::LnType, HeaderKey::LnType) => true,
        (HeaderKey::StageFile, HeaderKey::StageFile) => true,
        (HeaderKey::Wav(x), HeaderKey::Wav(y)) => *x == *y,
        (HeaderKey::Bmp(x), HeaderKey::Bmp(y)) => *x == *y,
        (HeaderKey::Other(x), HeaderKey::Other(y)) => *x == *y,
        _ => false,
    }
}

/// Reads the header key named by `cs[a..b]`.
fn header_key_of_range(cs: &[char], a: usize, b: usize) -> (r: HeaderKey)
    requires
        a <= b <= cs@.len(),
    ensures
        r@ == header_key_of(cs@.subrange(a as int, b as int)),
{
    let (ts, te) = trim_bounds(cs, a, b);
    let up = ascii_upper_range(cs, ts, te);
    let n = up.len();
    let ghost upv = ascii_upper(trim(cs@.subrange(a as int, b as int)));
    assert(up@ == upv);
    assert(up@.subrange(0, n as int) =~= up@);
    if range_eq_str(&up, 0, n, "PLAYER") {
        HeaderKey::Player
    } else if range_eq_str(&up, 0, n, "GENRE") {
        HeaderKey::Genre
    } else if range_eq_str(&up, 0, n, "TITLE") {
        HeaderKey::Title
    } else if range_eq_str(&up, 0, n, "ARTIST") {
        HeaderKey::Artist
    } else if range_eq_str(&up, 0, n, "BPM") {
        HeaderKey::Bpm
    } else if range_eq_str(&up, 0, n, "PLAYLEVEL") {
        HeaderKey::PlayLevel
    } else if range_eq_str(&up, 0, n, "RANK") {
        HeaderKey::Rank
    } else if range_eq_str(&up, 0, n, "SUBTITLE") {
        HeaderKey::Subtitle
    } else if range_eq_str(&up, 0, n, "SUBARTIST") {
        HeaderKey::SubArtist
    } else if range_eq_str(&up, 0, n, "DIFFICULTY") {
        HeaderKey::Difficulty
    } else if range_eq_str(&up, 0, n, "TOTAL") {
        HeaderKey::Total
    } else if range_eq_str(&up, 0, n, "COMMENT") {
        HeaderKey::Comment
    } else if range_eq_str(&up, 0, n, "LNTYPE") {
        HeaderKey::LnType
    } else if range_eq_str(&up, 0, n, "STAGEFILE") {
        HeaderKey::StageFile
    } else if n > 3 && range_eq_str(&up, 0, 3, "WAV") {
        assert(up@.subrange(3, n as int) =~= upv.skip(3));
        assert(up@.subrange(0, 3) =~= upv.take(3));
        match parse_unsigned_range(&up, 3, n, 16, 255) {
            Some(v) => HeaderKey::Wav(v as u8),
            None => HeaderKey::Other(string_from_chars(&up)),
        }
    } else if n > 3 && range_eq_str(&up, 0, 3, "BMP") {
        assert(up@.subrange(3, n as int) =~= upv.skip(3));
        assert(up@.subrange(0, 3) =~= upv.take(3));
        match parse_unsigned_range(&up, 3, n, 16, 255) {
            Some(v) => HeaderKey::Bmp(v as u8),
            None => HeaderKey::Other(string_from_chars(&up)),
        }
    } else {
        proof {
            if n > 3 {
                assert(up@.subrange(0, 3) =~= upv.take(3));
            }
        }
        HeaderKey::Other(string_from_chars(&up))
    }
}

/// Reads a header key from its text: trimmed, upper-cased, then matched
/// (see [`header_key_of`]).
pub fn parse_header_key(s: &str) -> (r: HeaderKey)
    ensures
        r@ == header_key_of(s@),
{
    let cs = chars_of(s);
    assert(cs@.subrange(0, cs@.len() as int) =~= cs@);
    header_key_of_range(&cs, 0, cs.len())
}

impl HeaderKey {
    /// The key as written in a chart (`TITLE`, `WAV0A`, ...); this is what
    /// the key displays as.
    pub fn to_key_string(&self) -> (r: String)
        ensures
            r@ == key_text(self@),
    {
        match self {
            HeaderKey::Player => String::from_str("PLAYER"),
            HeaderKey::Genre => String::from_str("GENRE"),
            HeaderKey::Title => String::from_str("TITLE"),
            HeaderKey::Artist => String::from_str("ARTIST"),
            HeaderKey::Bpm => String::from_str("BPM"),
            HeaderKey::PlayLevel => String::from_str("PLAYLEVEL"),
            HeaderKey::Rank => String::from_str("RANK"),
            HeaderKey::Subtitle => String::from_str("SUBTITLE"),
            HeaderKey::SubArtist => String::from_str("SUBARTIST"),
            HeaderKey::Difficulty => String::from_str("DIFFICULTY"),
            HeaderKey::Total => String::from_str("TOTAL"),
            HeaderKey::Comment => String::from_str("COMMENT"),
            HeaderKey::LnType => String::from_str("LNTYPE"),
            HeaderKey::StageFile => String::from_str("STAGEFILE"),
            HeaderKey::Wav(n) => numbered_key_text("WAV", *n),
            HeaderKey::Bmp(n) => numbered_key_text("BMP", *n),
            HeaderKey::Other(s) => s.clone(),
        }
    }

    /// Reads a key from its text (see [`parse_header_key`]).
    pub fn from_key_str(s: &str) -> (r: HeaderKey)
        ensures
            r@ == header_key_of(s@),
    {
        parse_header_key(s)
    }
}

impl std::str::FromStr for HeaderKey {
    type Err = ();

    /// Reads a key from its text (see [`parse_header_key`]); this never
    /// fails.
    fn from_str(s: &str) -> (r: Result<HeaderKey, ()>)
        ensures
            r matches Ok(k) && k@ == header_key_of(s@),
    {
        Ok(parse_header_key(s))
    }
}

impl<'a> From<&'a str> for HeaderKey {
    /// Reads a key from its text (see [`parse_header_key`]).
    fn from(s: &'a str) -> (r: HeaderKey)
        ensures
            r@ == header_key_of(s@),
    {
        parse_header_key(s)
    }
}

/// A key read from text is fixed by its view ([`header_key_of`]); an `Other`
/// key's `String` is not determined by its characters in Verus, so the
/// conversion states its result through the view (the `ensures` of `from`)
/// rather than as one value.
impl<'a> vstd::std_specs::convert::FromSpecImpl<&'a str> for HeaderKey {
    open spec fn obeys_from_spec() -> bool {
        false
    }

    open spec fn from_spec(v: &'a str) -> HeaderKey {
        choose|k: HeaderKey| k@ == header_key_of(v@)
    }
}

fn hex_digit_char(d: u8) -> (r: char)
    requires
        d < 16,
    ensures
        r == hex_digit(d as nat),
{
    if d < 10 {
        (0x30u8 + d) as char
    } else {
        (0x41u8 + d - 10) as char
    }
}

fn numbered_key_text(prefix: &str, n: u8) -> (r: String)
    ensures
        r@ == prefix@ + hex2(n),
{
    let mut out = String::from_str(prefix);
    push_char(&mut out, hex_digit_char(n / 16));
    push_char(&mut out, hex_digit_char(n % 16));
    assert(out@ =~= prefix@ + hex2(n));
    out
}

impl Bms {
    /// The value of header `key`, if the chart sets it.
    pub fn header(&self, key: &HeaderKey) -> (r: Option<&str>)
        ensures
            r is Some <==> self@.headers.contains_key(key@),
            r matches Some(v) ==> v@ == self@.headers[key@],
    {
        let n = self.headers.len();
        let mut i = n;
        while i > 0
            invariant
                i <= n == self.headers@.len(),
                forall|t: int| i <= t < n ==> (#[trigger] self.headers@[t]).0@ != key@,
            decreases i,
        {
            if same_key(&self.headers[i - 1].0, key) {
                proof {
                    lemma_header_map_last(self.headers@, key@, i - 1);
                }
                return Some(self.headers[i - 1].1.as_str());
            }
            i = i - 1;
        }
        proof {
            lemma_header_map_absent(self.headers@, key@);
        }
        None
    }

    /// The value of the header named by the text `key`,
    /// e.g. `header_by_str("TITLE")` or `header_by_str("wav01")`.
    pub fn header_by_str(&self, key: &str) -> (r: Option<&str>)
        ensures
            r is Some <==> self@.headers.contains_key(header_key_of(key@)),
            r matches Some(v) ==> v@ == self@.headers[header_key_of(key@)],
    {
        let hk = parse_header_key(key);
        self.header(&hk)
    }

    /// The `WAVnn` entry for `id`.
    pub fn wav(&self, id: u8) -> (r: Option<&str>)
        ensures
            r is Some <==> self@.headers.contains_key(HeaderKeyView::Wav(id)),
            r matches Some(v) ==> v@ == self@.headers[HeaderKeyView::Wav(id)],
    {
        self.header(&HeaderKey::Wav(id))
    }

    /// The `BMPnn` entry for `id`.
    pub fn bmp(&self, id: u8) -> (r: Option<&str>)
        ensures
            r is Some <==> self@.headers.contains_key(HeaderKeyView::Bmp(id)),
            r matches Some(v) ==> v@ == self@.headers[HeaderKeyView::Bmp(id)],
    {
        self.header(&HeaderKey::Bmp(id))
    }

    /// The `#STAGEFILE` value.
    pub fn stagefile(&self) -> (r: Option<&str>)
        ensures
            r is Some <==> self@.headers.contains_key(HeaderKeyView::StageFile),
            r matches Some(v) ==> v@ == self@.headers[HeaderKeyView::StageFile],
    {
        self.header(&HeaderKey::StageFile)
    }

    /// Sets header `key` to `value`, replacing an earlier value.
    fn set_header(&mut self, key: HeaderKey, value: String)
        requires
            old(self).wf(),
        ensures
            final(self).wf(),
            final(self)@ == with_header(old(self)@, key@, value@),
    {
        let n = self.headers.len();
        let mut i: usize = 0;
        while i < n
            invariant
                i <= n == self.headers@.len(),
                old(self).wf(),
                self.headers@ == old(self).headers@,
                self.measures == old(self).measures,
                forall|t: int| 0 <= t < i ==> (#[trigger] self.headers@[t]).0@ != key@,
            decreases n - i,
        {
            if same_key(&self.headers[i].0, &key) {
                let ghost e = (key, value);
                proof {
                    assert forall|t: int| 0 <= t < n && t != i implies (#[trigger] self.headers@[t]).0@
                        != e.0@ by {
                        if t > i {
                            assert(self.headers@[i as int].0@ != self.headers@[t].0@);
                        }
                    }
                    lemma_header_map_update(self.headers@, i as int, e);
                }
                self.headers.set(i, (key, value));
                assert(self@ == with_header(old(self)@, e.0@, e.1@));
                assert(self.wf()) by {
                    assert forall|x: int, y: int|
                        0 <= x < y < self.headers@.len() implies (#[trigger] self.headers@[x]).0@
                        != (#[trigger] self.headers@[y]).0@ by {
                        if x != i && y != i {
                            assert(self.headers@[x] == old(self).headers@[x]);
                            assert(self.headers@[y] == old(self).headers@[y]);
                        }
                    }
                }
                return ;
            }
            i = i + 1;
        }
        let ghost before = self.headers@;
        self.headers.push((key, value));
        assert(self.headers@.drop_last() =~= before);
        assert(self.wf()) by {
            assert forall|x: int, y: int|
                0 <= x < y < self.headers@.len() implies (#[trigger] self.headers@[x]).0@
                != (#[trigger] self.headers@[y]).0@ by {
                assert(self.headers@[x] == before[x]);
                if y < before.len() {
                    assert(self.headers@[y] == before[y]);
                }
            }
        }
    }

    /// Appends channel line `c` to measure `measure`.
    fn add_channel(&mut self, measure: u32, c: ChannelData)
        ensures
            final(self).headers == old(self).headers,
            final(self)@ == with_channel(old(self)@, measure, c@),
    {
        let ghost before = self.measures@;
        let mut list = match self.measures.remove(&measure) {
            Some(v) => v,
            None => Vec::new(),
        };
        let ghost prev = list;
        assert(before.contains_key(measure) ==> prev == before[measure]);
        assert(!before.contains_key(measure) ==> prev@ == Seq::<ChannelData>::empty());
        list.push(c);
        assert(channels_view(list) =~= channels_view(prev).push(c@));
        self.measures.insert(measure, list);
        assert(self.measures@ =~= before.insert(measure, list));
        let ghost f = |v: Vec<ChannelData>| channels_view(v);
        assert(old(self)@.measures == before.map_values(f));
        proof {
            if before.contains_key(measure) {
                assert(old(self)@.measures[measure] == channels_view(prev));
            } else {
                assert(channels_view(prev) =~= Seq::<ChannelDataView>::empty());
            }
        }
        assert(self@.measures =~= with_channel(old(self)@, measure, c@).measures);
    }
}


// ---------------------------------------------------------------------------
// Reading a chart
// ---------------------------------------------------------------------------

proof fn lemma_utf8_len_small(s: Seq<char>)
    requires
        s.len() <= 3,
    ensures
        utf8_len(s) == (if s.len() >= 1 {
            utf8_width(s[0])
        } else {
            0
        }) + (if s.len() >= 2 {
            utf8_width(s[1])
        } else {
            0
        }) + (if s.len() >= 3 {
            utf8_width(s[2])
        } else {
            0
        }),
{
    reveal_with_fuel(utf8_len, 4);
    if s.len() >= 1 {
        let t = s.drop_first();
        if s.len() >= 2 {
            assert(t[0] == s[1]);
            let u = t.drop_first();
            if s.len() >= 3 {
                assert(u[0] == s[2]);
                assert(u.drop_first().len() == 0);
            }
        }
    }
}

/// Whether the measure digits of `cs[a..b]` (the text before `:`) end on a
/// character boundary.
fn head_cut_ok(cs: &[char], a: usize, b: usize) -> (r: bool)
    requires
        a <= b <= cs@.len(),
    ensures
        ({
            let left = cs@.subrange(a as int, b as int);
            r == (utf8_len(left) < 4 || splits_at_byte_3(left))
        }),
{
    let ghost left = cs@.subrange(a as int, b as int);
    let n = b - a;
    let w0 = if n >= 1 {
        char_utf8_width(cs[a])
    } else {
        0
    };
    let w1 = if n >= 2 {
        char_utf8_width(cs[a + 1])
    } else {
        0
    };
    let w2 = if n >= 3 {
        char_utf8_width(cs[a + 2])
    } else {
        0
    };
    proof {
        if n >= 1 {
            assert(left[0] == cs@[a as int]);
        }
        if n >= 2 {
            assert(left[1] == cs@[a + 1]);
        }
        if n >= 3 {
            assert(left[2] == cs@[a + 2]);
        }
    }
    let short = if n >= 4 {
        proof {
            lemma_utf8_len_at_least_len(left);
        }
        false
    } else {
        proof {
            lemma_utf8_len_small(left);
        }
        w0 + w1 + w2 < 4
    };
    let splits = (n >= 1 && w0 == 3) || (n >= 2 && w0 + w1 == 3) || (n >= 3 && w0 + w1 + w2 == 3);
    short || splits
}

/// Measure and channel of the text `cs[a..b]` before `:` (see [`data_head`]).
fn data_head_range(cs: &[char], a: usize, b: usize) -> (r: Option<(u32, u8)>)
    requires
        a <= b <= cs@.len(),
    ensures
        r == data_head(cs@.subrange(a as int, b as int)),
{
    let ghost left = cs@.subrange(a as int, b as int);
    if b - a >= 4 && (cs[a] as u32) < 0x80 && (cs[a + 1] as u32) < 0x80 && (cs[a + 2] as u32)
        < 0x80 {
        assert(left.take(3) =~= cs@.subrange(a as int, a + 3));
        assert(left.skip(3) =~= cs@.subrange(a + 3, b as int));
        assert(all_ascii(left.take(3))) by {
            assert forall|i: int| 0 <= i < 3 implies is_ascii_char(#[trigger] left.take(3)[i]) by {
                assert(left.take(3)[i] == cs@[a + i]);
            }
        }
        let m = parse_unsigned_range(cs, a, a + 3, 10, 0xffff_ffff);
        let c = parse_unsigned_range(cs, a + 3, b, 10, 255);
        match (m, c) {
            (Some(m), Some(c)) => Some((m, c as u8)),
            _ => None,
        }
    } else {
        proof {
            if b - a >= 4 {
                assert(!all_ascii(left.take(3))) by {
                    if !is_ascii_char(cs@[a as int]) {
                        assert(left.take(3)[0] == cs@[a as int]);
                    } else if !is_ascii_char(cs@[a + 1]) {
                        assert(left.take(3)[1] == cs@[a + 1]);
                    } else {
                        assert(left.take(3)[2] == cs@[a + 2]);
                    }
                }
            }
        }
        None
    }
}

pub open spec fn slots_view(r: Option<Vec<Option<String>>>) -> Option<Seq<Option<Seq<char>>>> {
    match r {
        Some(v) => Some(v@.map_values(|o: Option<String>| slot_view(o))),
        None => None,
    }
}

pub open spec fn prepend_slots(
    p: Seq<Option<Seq<char>>>,
    rest: Option<Seq<Option<Seq<char>>>>,
) -> Option<Seq<Option<Seq<char>>>> {
    match rest {
        Some(r) => Some(p + r),
        None => None,
    }
}

/// The payload `cs[a..b]` cut into slots (see [`data_slots`]).
fn cut_slots(cs: &[char], a: usize, b: usize) -> (r: Option<Vec<Option<String>>>)
    requires
        a <= b <= cs@.len(),
    ensures
        slots_view(r) == data_slots(cs@.subrange(a as int, b as int)),
{
    let mut out: Vec<Option<String>> = Vec::new();
    let mut i = a;
    while i < b
        invariant
            a <= i <= b <= cs@.len(),
            data_slots(cs@.subrange(a as int, b as int)) == prepend_slots(
                out@.map_values(|o: Option<String>| slot_view(o)),
                data_slots(cs@.subrange(i as int, b as int)),
            ),
        decreases b - i,
    {
        let ghost d = cs@.subrange(i as int, b as int);
        let ghost ov = out@.map_values(|o: Option<String>| slot_view(o));
        assert(d[0] == cs@[i as int]);
        let w0 = char_utf8_width(cs[i]);
        if w0 == 1 {
            if i + 1 == b {
                assert(ov + Seq::<Option<Seq<char>>>::empty() =~= ov);
                assert(out@.map_values(|o: Option<String>| slot_view(o)) == ov);
                return Some(out);
            }
            assert(d[1] == cs@[i + 1]);
            let w1 = char_utf8_width(cs[i + 1]);
            if w1 != 1 {
                return None;
            }
            assert(d.take(2) =~= cs@.subrange(i as int, i + 2));
            assert(d.skip(2) =~= cs@.subrange(i + 2, b as int));
            let slot = if cs[i] == '0' && cs[i + 1] == '0' {
                assert(d.take(2) =~= seq!['0', '0']);
                None
            } else {
                assert(d.take(2) != seq!['0', '0']) by {
                    if d.take(2) == seq!['0', '0'] {
                        assert(d.take(2)[0] == '0' && d.take(2)[1] == '0');
                    }
                }
                Some(string_from_range(cs, i, i + 2))
            };
            assert(slot_view(slot) == slot_of(d.take(2)));
            out.push(slot);
            assert(out@.map_values(|o: Option<String>| slot_view(o)) =~= ov + seq![slot_of(d.take(2))]);
            assert(ov + (seq![slot_of(d.take(2))] + data_slots(d.skip(2)).unwrap_or(seq![]))
                =~= ov + seq![slot_of(d.take(2))] + data_slots(d.skip(2)).unwrap_or(seq![]));
            i = i + 2;
        } else if w0 == 2 {
            assert(d.take(1) =~= cs@.subrange(i as int, i + 1));
            assert(d.skip(1) =~= cs@.subrange(i + 1, b as int));
            assert(d.take(1) != seq!['0', '0']) by {
                assert(d.take(1).len() != seq!['0', '0'].len());
            }
            let slot = Some(string_from_range(cs, i, i + 1));
            assert(slot_view(slot) == slot_of(d.take(1)));
            out.push(slot);
            assert(out@.map_values(|o: Option<String>| slot_view(o)) =~= ov + seq![slot_of(d.take(1))]);
            assert(ov + (seq![slot_of(d.take(1))] + data_slots(d.skip(1)).unwrap_or(seq![]))
                =~= ov + seq![slot_of(d.take(1))] + data_slots(d.skip(1)).unwrap_or(seq![]));
            i = i + 1;
        } else {
            return None;
        }
    }
    assert(cs@.subrange(i as int, b as int).len() == 0);
    assert(out@.map_values(|o: Option<String>| slot_view(o)) + Seq::<Option<Seq<char>>>::empty()
        =~= out@.map_values(|o: Option<String>| slot_view(o)));
    Some(out)
}

/// Key and value of the header line whose text after `#` is `cs[a..b]`.
fn header_entry_range(cs: &[char], a: usize, b: usize) -> (r: (HeaderKey, String))
    requires
        a <= b <= cs@.len(),
    ensures
        (r.0@, r.1@) == header_entry(cs@.subrange(a as int, b as int)),
{
    let ghost after = cs@.subrange(a as int, b as int);
    let w = find_space(cs, a, b);
    assert(after.take(w - a) =~= cs@.subrange(a as int, w as int));
    let (ks, ke) = trim_bounds(cs, a, w);
    let key = header_key_of_range(cs, ks, ke);
    let value = if w < b {
        assert(after.skip(w - a + 1) =~= cs@.subrange(w + 1, b as int));
        let (vs, ve) = trim_bounds(cs, w + 1, b);
        let (qs, qe) = trim_char_bounds(cs, vs, ve, '"');
        string_from_range(cs, qs, qe)
    } else {
        String::new()
    };
    (key, value)
}

/// Applies the line `cs[a..b]` to `bms` (see [`apply_line`]).
fn read_line(bms: &mut Bms, cs: &[char], a: usize, b: usize)
    requires
        a <= b <= cs@.len(),
        old(bms).wf(),
        line_readable(cs@.subrange(a as int, b as int)),
    ensures
        final(bms).wf(),
        final(bms)@ == apply_line(old(bms)@, cs@.subrange(a as int, b as int)),
{
    let (ls, le) = trim_bounds(cs, a, b);
    if ls == le {
        return ;
    }
    let ghost line = cs@.subrange(ls as int, le as int);
    assert(line[0] == cs@[ls as int]);
    if cs[ls] == '*' || cs[ls] != '#' {
        return ;
    }
    let s1 = ls + 1;
    let ghost after = line.drop_first();
    assert(after =~= cs@.subrange(s1 as int, le as int));
    let ci = find_char(cs, s1, le, ':');
    if ci < le {
        assert(after.take(ci - s1) =~= cs@.subrange(s1 as int, ci as int));
        assert(after.skip(ci - s1 + 1) =~= cs@.subrange(ci + 1, le as int));
        let (fs, fe) = trim_bounds(cs, s1, ci);
        let (ds, de) = trim_bounds(cs, ci + 1, le);
        match data_head_range(cs, fs, fe) {
            Some((measure, channel)) => {
                match cut_slots(cs, ds, de) {
                    Some(data) => {
                        bms.add_channel(measure, ChannelData { channel, data });
                        return ;
                    },
                    None => {
                        return ;
                    },
                }
            },
            None => {},
        }
    }
    let (k, v) = header_entry_range(cs, s1, le);
    bms.set_header(k, v);
}

/// Whether the line `cs[a..b]` can be read (see [`line_readable`]).
fn line_readable_range(cs: &[char], a: usize, b: usize) -> (r: bool)
    requires
        a <= b <= cs@.len(),
    ensures
        r == line_readable(cs@.subrange(a as int, b as int)),
{
    let (ls, le) = trim_bounds(cs, a, b);
    if ls == le {
        return true;
    }
    let ghost line = cs@.subrange(ls as int, le as int);
    assert(line[0] == cs@[ls as int]);
    if cs[ls] != '#' {
        return true;
    }
    let s1 = ls + 1;
    let ghost after = line.drop_first();
    assert(after =~= cs@.subrange(s1 as int, le as int));
    let ci = find_char(cs, s1, le, ':');
    if ci < le {
        assert(after.take(ci - s1) =~= cs@.subrange(s1 as int, ci as int));
        assert(after.skip(ci - s1 + 1) =~= cs@.subrange(ci + 1, le as int));
        let (fs, fe) = trim_bounds(cs, s1, ci);
        let (ds, de) = trim_bounds(cs, ci + 1, le);
        if !head_cut_ok(cs, fs, fe) {
            return false;
        }
        match data_head_range(cs, fs, fe) {
            Some(_) => cut_slots(cs, ds, de).is_some(),
            None => true,
        }
    } else {
        true
    }
}

/// Whether every line of `s` can be read by [`parse_bms`]. The lines on
/// which it fails are `:` lines whose first three bytes end inside a
/// character, and data lines whose payload has a multi-byte character where
/// a two-byte slot would be cut.
pub fn bms_text_readable(s: &str) -> (r: bool)
    ensures
        r == text_readable(s@),
{
    let cs = chars_of(s);
    let n = cs.len();
    let mut pos: usize = 0;
    assert(cs@.skip(0) =~= cs@);
    loop
        invariant
            pos <= n == cs@.len(),
            cs@ == s@,
            text_readable(s@) == text_readable(cs@.skip(pos as int)),
        decreases n - pos,
    {
        let ghost rest = cs@.skip(pos as int);
        let j = find_char(&cs, pos, n, '\n');
        assert(rest =~= cs@.subrange(pos as int, n as int));
        if j >= n {
            return line_readable_range(&cs, pos, n);
        }
        assert(rest.take(j - pos) =~= cs@.subrange(pos as int, j as int));
        assert(rest.skip(j - pos + 1) =~= cs@.skip(j + 1));
        if !line_readable_range(&cs, pos, j) {
            return false;
        }
        pos = j + 1;
    }
}

/// Parses BMS text into a [`Bms`].
///
/// Header lines (`#TITLE ...`) set header values; data lines
/// (`#mmmcc:payload`, three digits of measure then the channel number) add
/// a channel to their measure, the payload cut into two-character slots of
/// which `00` is empty. The text must be readable (see
/// [`bms_text_readable`]); on such text parsing always succeeds.
pub fn parse_bms(s: &str) -> (r: Result<Bms, String>)
    requires
        text_readable(s@),
    ensures
        r is Ok,
        r matches Ok(b) ==> b@ == bms_of(s@) && b.wf(),
{
    let cs = chars_of(s);
    let n = cs.len();
    let mut bms = Bms { headers: Vec::new(), measures: HashMap::new() };
    assert(bms@.headers =~= empty_bms().headers);
    assert(bms@.measures =~= empty_bms().measures);
    let mut pos: usize = 0;
    assert(cs@.skip(0) =~= cs@);
    loop
        invariant_except_break
            pos <= n == cs@.len(),
            cs@ == s@,
            bms.wf(),
            bms_of(s@) == apply_text(bms@, cs@.skip(pos as int)),
            text_readable(cs@.skip(pos as int)),
        ensures
            bms.wf(),
            bms@ == bms_of(s@),
        decreases n - pos,
    {
        let ghost rest = cs@.skip(pos as int);
        let j = find_char(&cs, pos, n, '\n');
        assert(rest =~= cs@.subrange(pos as int, n as int));
        if j >= n {
            read_line(&mut bms, &cs, pos, n);
            break;
        }
        assert(rest.take(j - pos) =~= cs@.subrange(pos as int, j as int));
        assert(rest.skip(j - pos + 1) =~= cs@.skip(j + 1));
        read_line(&mut bms, &cs, pos, j);
        pos = j + 1;
    }
    Ok(bms)
}

// ---------------------------------------------------------------------------
// Laws
// ---------------------------------------------------------------------------

/// A text with no surrounding whitespace and no lower-case ASCII letter is
/// left as it is by trimming and upper-casing.
proof fn lemma_normal_form(t: Seq<char>)
    requires
        t.len() > 0 ==> !is_space(t[0]) && !is_space(t.last()),
        forall|i: int| 0 <= i < t.len() ==> !('a' <= #[trigger] t[i] && t[i] <= 'z'),
    ensures
        ascii_upper(trim(t)) == t,
{
    lemma_trim_of_trimmed(t);
    assert(ascii_upper(t) =~= t);
}

/// The upper-cased, trimmed text is already in normal form.
proof fn lemma_normalized(s: Seq<char>)
    ensures
        ascii_upper(trim(ascii_upper(trim(s)))) == ascii_upper(trim(s)),
{
    let t = trim(s);
    let up = ascii_upper(t);
    lemma_trim_start_bounds(s);
    lemma_trim_end_bounds(trim_start(s));
    if t.len() > 0 {
        assert(t[0] == trim_start(s)[0]);
        lemma_ascii_upper_char_space(t[0]);
        lemma_ascii_upper_char_space(t.last());
        assert(up[0] == ascii_upper_char(t[0]));
        assert(up.last() == ascii_upper_char(t.last()));
    }
    lemma_trim_of_trimmed(up);
    assert forall|i: int| 0 <= i < up.len() implies ascii_upper_char(#[trigger] up[i]) == up[i] by {
        lemma_ascii_upper_char_space(t[i]);
    }
    assert(ascii_upper(up) =~= up);
}

proof fn lemma_hex2(n: u8)
    ensures
        hex2(n).len() == 2,
        !is_space(hex2(n)[0]) && !is_space(hex2(n)[1]),
        !('a' <= hex2(n)[0] && hex2(n)[0] <= 'z') && !('a' <= hex2(n)[1] && hex2(n)[1] <= 'z'),
        hex2(n)[0] != '+',
        parse_unsigned(hex2(n), 16, 255) == Some(n as nat),
{
    let h = hex2(n);
    let hi = (n / 16) as nat;
    let lo = (n % 16) as nat;
    assert(digit_value(hex_digit(hi), 16) == Some(hi));
    assert(digit_value(hex_digit(lo), 16) == Some(lo));
    assert(all_digits(h, 16));
    assert(h.drop_last() =~= seq![hex_digit(hi)]);
    assert(seq![hex_digit(hi)].drop_last() =~= Seq::<char>::empty());
    assert(digits_value(Seq::<char>::empty(), 16) == 0);
    assert(seq![hex_digit(hi)].last() == hex_digit(hi));
    assert(digits_value(seq![hex_digit(hi)], 16) == hi);
    assert(digits_value(h, 16) == hi * 16 + lo);
}

proof fn lemma_numbered_key(prefix: Seq<char>, n: u8)
    requires
        prefix.len() == 3,
        !is_space(prefix[0]),
        forall|i: int| 0 <= i < 3 ==> !('a' <= #[trigger] prefix[i] && prefix[i] <= 'z'),
    ensures
        ascii_upper(trim(prefix + hex2(n))) == prefix + hex2(n),
        (prefix + hex2(n)).take(3) == prefix,
        (prefix + hex2(n)).skip(3) == hex2(n),
        (prefix + hex2(n)).len() == 5,
        (prefix + hex2(n))[0] == prefix[0],
{
    lemma_hex2(n);
    let t = prefix + hex2(n);
    assert(t.last() == hex2(n)[1]);
    assert forall|i: int| 0 <= i < t.len() implies !('a' <= #[trigger] t[i] && t[i] <= 'z') by {
        if i >= 3 {
            assert(t[i] == hex2(n)[i - 3]);
        }
    }
    lemma_normal_form(t);
    assert(t.take(3) =~= prefix);
    assert(t.skip(3) =~= hex2(n));
}

proof fn lemma_round_trip_other(s: Seq<char>)
    requires
        header_key_of(s) is Other,
    ensures
        header_key_of(key_text(header_key_of(s))) == header_key_of(s),
{
    let up = ascii_upper(trim(s));
    let u = header_key_of(s)->Other_0;
    assert(u == up);
    assert(key_text(header_key_of(s)) == u);
    lemma_normalized(s);
    assert(ascii_upper(trim(u)) == up);
}

proof fn lemma_round_trip_numbered(k: HeaderKeyView)
    requires
        k is Wav || k is Bmp,
    ensures
        header_key_of(key_text(k)) == k,
{
    reveal_strlit("PLAYER");
    reveal_strlit("GENRE");
    reveal_strlit("TITLE");
    reveal_strlit("ARTIST");
    reveal_strlit("BPM");
    reveal_strlit("PLAYLEVEL");
    reveal_strlit("RANK");
    reveal_strlit("SUBTITLE");
    reveal_strlit("SUBARTIST");
    reveal_strlit("DIFFICULTY");
    reveal_strlit("TOTAL");
    reveal_strlit("COMMENT");
    reveal_strlit("LNTYPE");
    reveal_strlit("STAGEFILE");
    reveal_strlit("WAV");
    reveal_strlit("BMP");
    let t = key_text(k);
    match k {
        HeaderKeyView::Wav(n) => {
            lemma_numbered_key("WAV"@, n);
            assert(t[0] == 'W');
            assert(t.len() != "PLAYER"@.len());
            assert(t[0] != "GENRE"@[0]);
            assert(t[0] != "TITLE"@[0]);
            assert(t.len() != "ARTIST"@.len());
            assert(t.len() != "BPM"@.len());
            assert(t.len() != "PLAYLEVEL"@.len());
            assert(t.len() != "RANK"@.len());
            assert(t.len() != "SUBTITLE"@.len());
            assert(t.len() != "SUBARTIST"@.len());
            assert(t.len() != "DIFFICULTY"@.len());
            assert(t[0] != "TOTAL"@[0]);
            assert(t.len() != "COMMENT"@.len());
            assert(t.len() != "LNTYPE"@.len());
            assert(t.len() != "STAGEFILE"@.len());
            lemma_hex2(n);
            assert(t.skip(3) == hex2(n));
            assert(parse_unsigned(t.skip(3), 16, 255) == Some(n as nat));
        },
        HeaderKeyView::Bmp(n) => {
            lemma_numbered_key("BMP"@, n);
            assert(t[0] == 'B');
            assert(t.len() != "PLAYER"@.len());
            assert(t[0] != "GENRE"@[0]);
            assert(t[0] != "TITLE"@[0]);
            assert(t.len() != "ARTIST"@.len());
            assert(t.len() != "BPM"@.len());
            assert(t.len() != "PLAYLEVEL"@.len());
            assert(t.len() != "RANK"@.len());
            assert(t.len() != "SUBTITLE"@.len());
            assert(t.len() != "SUBARTIST"@.len());
            assert(t.len() != "DIFFICULTY"@.len());
            assert(t[0] != "TOTAL"@[0]);
            assert(t.len() != "COMMENT"@.len());
            assert(t.len() != "LNTYPE"@.len());
            assert(t.len() != "STAGEFILE"@.len());
            assert(t.take(3)[0] == 'B');
            assert(t.take(3) != "WAV"@) by {
                assert(t.take(3)[0] != "WAV"@[0]);
            }
            lemma_hex2(n);
            assert(t.skip(3) == hex2(n));
        },
        _ => {},
    }
}

proof fn lemma_round_trip_named(k: HeaderKeyView)
    requires
        !(k is Wav || k is Bmp || k is Other),
    ensures
        header_key_of(key_text(k)) == k,
{
    reveal_strlit("PLAYER");
    reveal_strlit("GENRE");
    reveal_strlit("TITLE");
    reveal_strlit("ARTIST");
    reveal_strlit("BPM");
    reveal_strlit("PLAYLEVEL");
    reveal_strlit("RANK");
    reveal_strlit("SUBTITLE");
    reveal_strlit("SUBARTIST");
    reveal_strlit("DIFFICULTY");
    reveal_strlit("TOTAL");
    reveal_strlit("COMMENT");
    reveal_strlit("LNTYPE");
    reveal_strlit("STAGEFILE");
    let t = key_text(k);
    assert(t.len() > 0);
    lemma_normal_form(t);
}

/// Each named key is read from its BMS spelling and from nothing else: a
/// text names `Subtitle` exactly when, trimmed and upper-cased, it is
/// `SUBTITLE`, and likewise for every named key. Each named key is written
/// as that spelling.
pub proof fn law_named_key_spellings(s: Seq<char>)
    ensures
        header_key_of(s) == HeaderKeyView::Player <==> ascii_upper(trim(s)) == "PLAYER"@,
        header_key_of(s) == HeaderKeyView::Genre <==> ascii_upper(trim(s)) == "GENRE"@,
        header_key_of(s) == HeaderKeyView::Title <==> ascii_upper(trim(s)) == "TITLE"@,
        header_key_of(s) == HeaderKeyView::Artist <==> ascii_upper(trim(s)) == "ARTIST"@,
        header_key_of(s) == HeaderKeyView::Bpm <==> ascii_upper(trim(s)) == "BPM"@,
        header_key_of(s) == HeaderKeyView::PlayLevel <==> ascii_upper(trim(s)) == "PLAYLEVEL"@,
        header_key_of(s) == HeaderKeyView::Rank <==> ascii_upper(trim(s)) == "RANK"@,
        header_key_of(s) == HeaderKeyView::Subtitle <==> ascii_upper(trim(s)) == "SUBTITLE"@,
        header_key_of(s) == HeaderKeyView::SubArtist <==> ascii_upper(trim(s)) == "SUBARTIST"@,
        header_key_of(s) == HeaderKeyView::Difficulty <==> ascii_upper(trim(s)) == "DIFFICULTY"@,
        header_key_of(s) == HeaderKeyView::Total <==> ascii_upper(trim(s)) == "TOTAL"@,
        header_key_of(s) == HeaderKeyView::Comment <==> ascii_upper(trim(s)) == "COMMENT"@,
        header_key_of(s) == HeaderKeyView::LnType <==> ascii_upper(trim(s)) == "LNTYPE"@,
        header_key_of(s) == HeaderKeyView::StageFile <==> ascii_upper(trim(s)) == "STAGEFILE"@,
        key_text(HeaderKeyView::Player) == "PLAYER"@,
        key_text(HeaderKeyView::Genre) == "GENRE"@,
        key_text(HeaderKeyView::Title) == "TITLE"@,
        key_text(HeaderKeyView::Artist) == "ARTIST"@,
        key_text(HeaderKeyView::Bpm) == "BPM"@,
        key_text(HeaderKeyView::PlayLevel) == "PLAYLEVEL"@,
        key_text(HeaderKeyView::Rank) == "RANK"@,
        key_text(HeaderKeyView::Subtitle) == "SUBTITLE"@,
        key_text(HeaderKeyView::SubArtist) == "SUBARTIST"@,
        key_text(HeaderKeyView::Difficulty) == "DIFFICULTY"@,
        key_text(HeaderKeyView::Total) == "TOTAL"@,
        key_text(HeaderKeyView::Comment) == "COMMENT"@,
        key_text(HeaderKeyView::LnType) == "LNTYPE"@,
        key_text(HeaderKeyView::StageFile) == "STAGEFILE"@,
{
    reveal_strlit("PLAYER");
    reveal_strlit("GENRE");
    reveal_strlit("TITLE");
    reveal_strlit("ARTIST");
    reveal_strlit("BPM");
    reveal_strlit("PLAYLEVEL");
    reveal_strlit("RANK");
    reveal_strlit("SUBTITLE");
    reveal_strlit("SUBARTIST");
    reveal_strlit("DIFFICULTY");
    reveal_strlit("TOTAL");
    reveal_strlit("COMMENT");
    reveal_strlit("LNTYPE");
    reveal_strlit("STAGEFILE");
    assert("PLAYER"@.len() == 6 && "PLAYER"@[0] == 'P' && "PLAYER"@[1] == 'L');
    assert("GENRE"@.len() == 5 && "GENRE"@[0] == 'G' && "GENRE"@[1] == 'E');
    assert("TITLE"@.len() == 5 && "TITLE"@[0] == 'T' && "TITLE"@[1] == 'I');
    assert("ARTIST"@.len() == 6 && "ARTIST"@[0] == 'A' && "ARTIST"@[1] == 'R');
    assert("BPM"@.len() == 3 && "BPM"@[0] == 'B' && "BPM"@[1] == 'P');
    assert("PLAYLEVEL"@.len() == 9 && "PLAYLEVEL"@[0] == 'P' && "PLAYLEVEL"@[1] == 'L');
    assert("RANK"@.len() == 4 && "RANK"@[0] == 'R' && "RANK"@[1] == 'A');
    assert("SUBTITLE"@.len() == 8 && "SUBTITLE"@[0] == 'S' && "SUBTITLE"@[1] == 'U');
    assert("SUBARTIST"@.len() == 9 && "SUBARTIST"@[0] == 'S' && "SUBARTIST"@[1] == 'U');
    assert("DIFFICULTY"@.len() == 10 && "DIFFICULTY"@[0] == 'D' && "DIFFICULTY"@[1] == 'I');
    assert("TOTAL"@.len() == 5 && "TOTAL"@[0] == 'T' && "TOTAL"@[1] == 'O');
    assert("COMMENT"@.len() == 7 && "COMMENT"@[0] == 'C' && "COMMENT"@[1] == 'O');
    assert("LNTYPE"@.len() == 6 && "LNTYPE"@[0] == 'L' && "LNTYPE"@[1] == 'N');
    assert("STAGEFILE"@.len() == 9 && "STAGEFILE"@[0] == 'S' && "STAGEFILE"@[1] == 'T');
}

/// Every key other than `Other` reads back as itself from the text it is
/// written as: `WAV0A` is `Wav(10)`, `BMPFF` is `Bmp(255)`, `LNTYPE` is
/// `LnType`, and so on.
pub proof fn law_key_round_trip(k: HeaderKeyView)
    requires
        !(k is Other),
    ensures
        header_key_of(key_text(k)) == k,
{
    if k is Wav || k is Bmp {
        lemma_round_trip_numbered(k);
    } else {
        lemma_round_trip_named(k);
    }
}

/// Reading a key ignores ASCII case and surrounding whitespace: the text
/// trimmed and lower-cased, or upper-cased, names the same key. A text that
/// names no known key is kept as `Other` of its trimmed, upper-cased form,
/// which is then the written form of no other key.
pub proof fn law_key_ignores_case_and_blanks(s: Seq<char>)
    ensures
        header_key_of(ascii_lower(trim(s))) == header_key_of(s),
        header_key_of(ascii_upper(s)) == header_key_of(s),
        header_key_of(s) is Other ==> header_key_of(s)->Other_0 == ascii_upper(trim(s)),
        header_key_of(s) is Other ==> forall|k: HeaderKeyView|
            !(k is Other) ==> #[trigger] key_text(k) != ascii_upper(trim(s)),
{
    lemma_ascii_lower_of_trimmed(s);
    lemma_trim_ascii_upper(s);
    lemma_ascii_upper_idempotent(trim(s));
    assert(ascii_upper(trim(ascii_lower(trim(s)))) == ascii_upper(trim(s)));
    assert(ascii_upper(trim(ascii_upper(s))) == ascii_upper(trim(s)));
    if header_key_of(s) is Other {
        assert forall|k: HeaderKeyView| !(k is Other) implies #[trigger] key_text(k) != ascii_upper(
            trim(s),
        ) by {
            if key_text(k) == ascii_upper(trim(s)) {
                law_key_round_trip(k);
                lemma_normalized(s);
                assert(ascii_upper(trim(key_text(k))) == ascii_upper(trim(s)));
                assert(header_key_of(key_text(k)) == header_key_of(s));
            }
        }
    }
}

/// Writing a key out and reading it back gives the same key: for every key
/// text `s`, `header_key_of(key_text(header_key_of(s))) == header_key_of(s)`.
/// So the text a key displays as names that key again.
pub proof fn law_key_text_round_trip(s: Seq<char>)
    ensures
        header_key_of(key_text(header_key_of(s))) == header_key_of(s),
{
    let k = header_key_of(s);
    if k is Other {
        lemma_round_trip_other(s);
    } else {
        law_key_round_trip(k);
    }
}

proof fn lemma_index_of_char_concat(a: Seq<char>, b: Seq<char>, c: char)
    ensures
        index_of_char(a + b, c) == if index_of_char(a, c) < a.len() {
            index_of_char(a, c)
        } else {
            a.len() + index_of_char(b, c)
        },
    decreases a.len(),
{
    if a.len() == 0 {
        assert(a + b =~= b);
    } else {
        assert((a + b)[0] == a[0]);
        if a[0] != c {
            assert((a + b).drop_first() =~= a.drop_first() + b);
            lemma_index_of_char_concat(a.drop_first(), b, c);
        }
    }
}

/// A chart is read one line at a time: reading two texts joined by a line
/// break is reading the first and then, on top of what it gave, the second.
pub proof fn law_read_joined_text(m: BmsView, a: Seq<char>, b: Seq<char>)
    ensures
        apply_text(m, a + seq!['\n'] + b) == apply_text(apply_text(m, a), b),
        text_readable(a + seq!['\n'] + b) == (text_readable(a) && text_readable(b)),
    decreases a.len(),
{
    let s = a + seq!['\n'] + b;
    lemma_index_of_char_concat(a, seq!['\n'] + b, '\n');
    assert(s =~= a + (seq!['\n'] + b));
    let i = index_of_char(a, '\n');
    lemma_index_of_char(a, '\n');
    if i < a.len() {
        assert(s.take(i as int) =~= a.take(i as int));
        assert(s.skip(i + 1int) =~= a.skip(i + 1int) + seq!['\n'] + b);
        law_read_joined_text(apply_line(m, a.take(i as int)), a.skip(i + 1int), b);
    } else {
        assert((seq!['\n'] + b)[0] == '\n');
        assert(s.take(a.len() as int) =~= a);
        assert(s.skip(a.len() + 1int) =~= b);
    }
}

/// A line the reader skips: it holds no line break, and once trimmed it is
/// empty, starts with `*`, or does not start with `#`.
pub open spec fn line_skipped(l: Seq<char>) -> bool {
    &&& index_of_char(l, '\n') >= l.len()
    &&& (trim(l).len() == 0 || trim(l)[0] == '*' || trim(l)[0] != '#')
}

/// Inserting or removing a skipped line, anywhere in a text, changes neither
/// the chart read from it nor whether it can be read.
pub proof fn law_skipped_line_changes_nothing(m: BmsView, a: Seq<char>, l: Seq<char>, b: Seq<char>)
    requires
        line_skipped(l),
    ensures
        apply_text(m, a + seq!['\n'] + l + seq!['\n'] + b) == apply_text(m, a + seq!['\n'] + b),
        text_readable(a + seq!['\n'] + l + seq!['\n'] + b) == text_readable(a + seq!['\n'] + b),
        apply_text(m, l + seq!['\n'] + b) == apply_text(m, b),
        text_readable(l + seq!['\n'] + b) == text_readable(b),
        apply_text(m, a + seq!['\n'] + l) == apply_text(m, a),
        text_readable(a + seq!['\n'] + l) == text_readable(a),
{
    law_read_joined_text(m, a + seq!['\n'] + l, b);
    law_read_joined_text(m, a, l);
    law_read_joined_text(m, a, b);
    law_read_joined_text(m, l, b);
    assert(apply_text(apply_text(m, a), l) == apply_text(m, a));
    assert(apply_text(m, l) == m);
}

/// What a header line writes is what a lookup of its key reads back: after
/// any text `a` and then a header line (a `#` line without `:` and without a
/// line break), the chart's header for the line's key is the line's value,
/// whatever `a` set before.
pub proof fn law_header_line_is_read(m: BmsView, a: Seq<char>, line: Seq<char>)
    requires
        index_of_char(line, '\n') >= line.len(),
        trim(line).len() > 0,
        trim(line)[0] == '#',
        index_of_char(trim(line).drop_first(), ':') >= trim(line).len() - 1,
    ensures
        apply_text(m, a + seq!['\n'] + line).headers.contains_key(
            header_entry(trim(line).drop_first()).0,
        ),
        apply_text(m, a + seq!['\n'] + line).headers[header_entry(trim(line).drop_first()).0]
            == header_entry(trim(line).drop_first()).1,
{
    law_read_joined_text(m, a, line);
}

} // verus!
