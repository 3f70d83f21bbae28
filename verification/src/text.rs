//! Character-level text handling shared by the chart parser and the key
//! binding loader: Unicode whitespace, trimming, searching, ASCII case
//! folding, UTF-8 widths and unsigned integer parsing, each stated over the
//! `Seq<char>` view of a string.
use vstd::prelude::*;

verus! {

// ---------------------------------------------------------------------------
// Specifications
// ---------------------------------------------------------------------------

/// The Unicode `White_Space` property, which is what `char::is_whitespace`
/// tests and what `str::trim` removes.
pub open spec fn is_space(c: char) -> bool {
    let v = c as u32;
    ||| 0x09 <= v <= 0x0D
    ||| v == 0x20
    ||| v == 0x85
    ||| v == 0xA0
    ||| v == 0x1680
    ||| 0x2000 <= v <= 0x200A
    ||| v == 0x2028
    ||| v == 0x2029
    ||| v == 0x202F
    ||| v == 0x205F
    ||| v == 0x3000
}

/// `s` without its leading whitespace.
pub open spec fn trim_start(s: Seq<char>) -> Seq<char>
    decreases s.len(),
{
    if s.len() > 0 && is_space(s[0]) {
        trim_start(s.drop_first())
    } else {
        s
    }
}

/// `s` without its trailing whitespace.
pub open spec fn trim_end(s: Seq<char>) -> Seq<char>
    decreases s.len(),
{
    if s.len() > 0 && is_space(s.last()) {
        trim_end(s.drop_last())
    } else {
        s
    }
}

/// `s` without leading and trailing whitespace (`str::trim`).
pub open spec fn trim(s: Seq<char>) -> Seq<char> {
    trim_end(trim_start(s))
}

/// `s` without leading occurrences of `c`.
pub open spec fn strip_start_char(s: Seq<char>, c: char) -> Seq<char>
    decreases s.len(),
{
    if s.len() > 0 && s[0] == c {
        strip_start_char(s.drop_first(), c)
    } else {
        s
    }
}

/// `s` without trailing occurrences of `c`.
pub open spec fn strip_end_char(s: Seq<char>, c: char) -> Seq<char>
    decreases s.len(),
{
    if s.len() > 0 && s.last() == c {
        strip_end_char(s.drop_last(), c)
    } else {
        s
    }
}

/// `str::trim_matches(c)` for a single character `c`.
pub open spec fn trim_char(s: Seq<char>, c: char) -> Seq<char> {
    strip_end_char(strip_start_char(s, c), c)
}

/// Index of the first `c` in `s`, or `s.len()` when there is none.
pub open spec fn index_of_char(s: Seq<char>, c: char) -> nat
    decreases s.len(),
{
    if s.len() == 0 {
        0
    } else if s[0] == c {
        0
    } else {
        1 + index_of_char(s.drop_first(), c)
    }
}

/// Index of the first whitespace character of `s`, or `s.len()` when there is none.
pub open spec fn index_of_space(s: Seq<char>) -> nat
    decreases s.len(),
{
    if s.len() == 0 {
        0
    } else if is_space(s[0]) {
        0
    } else {
        1 + index_of_space(s.drop_first())
    }
}

/// Number of bytes of `c` in UTF-8.
pub open spec fn utf8_width(c: char) -> nat {
    if (c as u32) < 0x80 {
        1
    } else if (c as u32) < 0x800 {
        2
    } else if (c as u32) < 0x10000 {
        3
    } else {
        4
    }
}

/// Number of bytes of `s` in UTF-8 (`str::len`).
pub open spec fn utf8_len(s: Seq<char>) -> nat
    decreases s.len(),
{
    if s.len() == 0 {
        0
    } else {
        utf8_width(s[0]) + utf8_len(s.drop_first())
    }
}

pub open spec fn is_ascii_char(c: char) -> bool {
    (c as u32) < 0x80
}

pub open spec fn all_ascii(s: Seq<char>) -> bool {
    forall|i: int| 0 <= i < s.len() ==> is_ascii_char(#[trigger] s[i])
}

/// `char::to_ascii_uppercase`.
pub open spec fn ascii_upper_char(c: char) -> char {
    if 'a' <= c && c <= 'z' {
        ((c as u32) - 32) as char
    } else {
        c
    }
}

/// `str::to_ascii_uppercase`.
pub open spec fn ascii_upper(s: Seq<char>) -> Seq<char> {
    s.map_values(|c: char| ascii_upper_char(c))
}

/// `char::to_ascii_lowercase`.
pub open spec fn ascii_lower_char(c: char) -> char {
    if 'A' <= c && c <= 'Z' {
        ((c as u32) + 32) as char
    } else {
        c
    }
}

/// `str::to_ascii_lowercase`.
pub open spec fn ascii_lower(s: Seq<char>) -> Seq<char> {
    s.map_values(|c: char| ascii_lower_char(c))
}

/// `char::to_digit(radix)` for `2 <= radix <= 36`.
pub open spec fn digit_value(c: char, radix: nat) -> Option<nat> {
    let v = c as u32;
    let d: int = if 0x30 <= v <= 0x39 {
        v - 0x30
    } else if 0x61 <= v <= 0x7A {
        v - 0x61 + 10
    } else if 0x41 <= v <= 0x5A {
        v - 0x41 + 10
    } else {
        36
    };
    if d < radix {
        Some(d as nat)
    } else {
        None
    }
}

pub open spec fn all_digits(s: Seq<char>, radix: nat) -> bool {
    forall|i: int| 0 <= i < s.len() ==> (#[trigger] digit_value(s[i], radix)) is Some
}

/// The number written by the digits `s` in base `radix` (most significant first).
pub open spec fn digits_value(s: Seq<char>, radix: nat) -> nat
    decreases s.len(),
{
    if s.len() == 0 {
        0
    } else {
        digits_value(s.drop_last(), radix) * radix + match digit_value(s.last(), radix) {
            Some(d) => d,
            None => 0,
        }
    }
}

/// What `from_str_radix` of an unsigned integer type whose largest value is
/// `max` gives for `s`: an optional `+`, then one or more digits, denoting a
/// number no larger than `max`.
pub open spec fn parse_unsigned(s: Seq<char>, radix: nat, max: nat) -> Option<nat> {
    let digits = if s.len() > 0 && s[0] == '+' {
        s.drop_first()
    } else {
        s
    };
    if digits.len() > 0 && all_digits(digits, radix) && digits_value(digits, radix) <= max {
        Some(digits_value(digits, radix))
    } else {
        None
    }
}

// ---------------------------------------------------------------------------
// Lemmas
// ---------------------------------------------------------------------------

pub proof fn lemma_index_of_char(s: Seq<char>, c: char)
    ensures
        index_of_char(s, c) <= s.len(),
        index_of_char(s, c) < s.len() ==> s[index_of_char(s, c) as int] == c,
        forall|k: int| 0 <= k < index_of_char(s, c) ==> s[k] != c,
    decreases s.len(),
{
    if s.len() > 0 && s[0] != c {
        lemma_index_of_char(s.drop_first(), c);
        assert forall|k: int| 0 <= k < index_of_char(s, c) implies s[k] != c by {
            if k > 0 {
                assert(s[k] == s.drop_first()[k - 1]);
            }
        }
    }
}

pub proof fn lemma_index_of_space(s: Seq<char>)
    ensures
        index_of_space(s) <= s.len(),
        index_of_space(s) < s.len() ==> is_space(s[index_of_space(s) as int]),
        forall|k: int| 0 <= k < index_of_space(s) ==> !is_space(s[k]),
    decreases s.len(),
{
    if s.len() > 0 && !is_space(s[0]) {
        lemma_index_of_space(s.drop_first());
        assert forall|k: int| 0 <= k < index_of_space(s) implies !is_space(s[k]) by {
            if k > 0 {
                assert(s[k] == s.drop_first()[k - 1]);
            }
        }
    }
}

pub proof fn lemma_utf8_len_at_least_len(s: Seq<char>)
    ensures
        utf8_len(s) >= s.len(),
    decreases s.len(),
{
    if s.len() > 0 {
        lemma_utf8_len_at_least_len(s.drop_first());
    }
}

pub proof fn lemma_trim_start_bounds(s: Seq<char>)
    ensures
        trim_start(s).len() <= s.len(),
        trim_start(s) == s.subrange(s.len() - trim_start(s).len(), s.len() as int),
        trim_start(s).len() > 0 ==> !is_space(trim_start(s)[0]),
    decreases s.len(),
{
    if s.len() > 0 && is_space(s[0]) {
        lemma_trim_start_bounds(s.drop_first());
        assert(s.drop_first().subrange(
            s.drop_first().len() - trim_start(s).len(),
            s.drop_first().len() as int,
        ) =~= s.subrange(s.len() - trim_start(s).len(), s.len() as int));
    } else {
        assert(s.subrange(0, s.len() as int) =~= s);
    }
}

pub proof fn lemma_trim_end_bounds(s: Seq<char>)
    ensures
        trim_end(s).len() <= s.len(),
        trim_end(s) == s.subrange(0, trim_end(s).len() as int),
        trim_end(s).len() > 0 ==> !is_space(trim_end(s).last()),
    decreases s.len(),
{
    if s.len() > 0 && is_space(s.last()) {
        lemma_trim_end_bounds(s.drop_last());
        assert(s.drop_last().subrange(0, trim_end(s).len() as int) =~= s.subrange(
            0,
            trim_end(s).len() as int,
        ));
    } else {
        assert(s.subrange(0, s.len() as int) =~= s);
    }
}

/// A sequence that neither starts nor ends with whitespace is its own trim.
pub proof fn lemma_trim_of_trimmed(s: Seq<char>)
    requires
        s.len() > 0 ==> !is_space(s[0]) && !is_space(s.last()),
    ensures
        trim(s) == s,
{
}

/// Trimming twice is trimming once.
pub proof fn lemma_trim_idempotent(s: Seq<char>)
    ensures
        trim(trim(s)) == trim(s),
{
    let t = trim_start(s);
    lemma_trim_start_bounds(s);
    lemma_trim_end_bounds(t);
    let u = trim_end(t);
    if u.len() > 0 {
        assert(u[0] == t[0]);
    }
    lemma_trim_of_trimmed(u);
}

/// ASCII upper-casing neither adds nor removes whitespace.
pub proof fn lemma_ascii_upper_char_space(c: char)
    ensures
        is_space(ascii_upper_char(c)) == is_space(c),
        ascii_upper_char(ascii_upper_char(c)) == ascii_upper_char(c),
{
}

/// Trimming and ASCII upper-casing can be done in either order.
pub proof fn lemma_trim_ascii_upper(s: Seq<char>)
    ensures
        trim(ascii_upper(s)) == ascii_upper(trim(s)),
{
    lemma_trim_start_upper(s);
    lemma_trim_end_upper(trim_start(s));
}

proof fn lemma_trim_start_upper(s: Seq<char>)
    ensures
        trim_start(ascii_upper(s)) == ascii_upper(trim_start(s)),
    decreases s.len(),
{
    if s.len() > 0 {
        lemma_ascii_upper_char_space(s[0]);
        assert(ascii_upper(s)[0] == ascii_upper_char(s[0]));
        assert(ascii_upper(s).drop_first() =~= ascii_upper(s.drop_first()));
        lemma_trim_start_upper(s.drop_first());
    }
}

proof fn lemma_trim_end_upper(s: Seq<char>)
    ensures
        trim_end(ascii_upper(s)) == ascii_upper(trim_end(s)),
    decreases s.len(),
{
    if s.len() > 0 {
        lemma_ascii_upper_char_space(s.last());
        assert(ascii_upper(s).last() == ascii_upper_char(s.last()));
        assert(ascii_upper(s).drop_last() =~= ascii_upper(s.drop_last()));
        lemma_trim_end_upper(s.drop_last());
    }
}

/// Upper-casing twice is upper-casing once.
pub proof fn lemma_ascii_upper_idempotent(s: Seq<char>)
    ensures
        ascii_upper(ascii_upper(s)) == ascii_upper(s),
{
    assert forall|i: int| 0 <= i < s.len() implies ascii_upper_char(ascii_upper_char(s[i]))
        == ascii_upper_char(s[i]) by {
        lemma_ascii_upper_char_space(s[i]);
    }
    assert(ascii_upper(ascii_upper(s)) =~= ascii_upper(s));
}

/// Lower-casing a trimmed text keeps it trimmed, and upper-casing it
/// afterwards is upper-casing the text itself.
pub proof fn lemma_ascii_lower_of_trimmed(s: Seq<char>)
    ensures
        trim(ascii_lower(trim(s))) == ascii_lower(trim(s)),
        ascii_upper(ascii_lower(trim(s))) == ascii_upper(trim(s)),
{
    let t = trim(s);
    let l = ascii_lower(t);
    lemma_trim_start_bounds(s);
    lemma_trim_end_bounds(trim_start(s));
    if t.len() > 0 {
        assert(t[0] == trim_start(s)[0]);
        assert(l[0] == ascii_lower_char(t[0]));
        assert(l.last() == ascii_lower_char(t.last()));
    }
    lemma_trim_of_trimmed(l);
    assert(ascii_upper(l) =~= ascii_upper(t));
}

pub proof fn lemma_digits_value_push(s: Seq<char>, c: char, radix: nat)
    ensures
        digits_value(s.push(c), radix) == digits_value(s, radix) * radix + match digit_value(
            c,
            radix,
        ) {
            Some(d) => d,
            None => 0,
        },
{
    assert(s.push(c).drop_last() =~= s);
}

// ---------------------------------------------------------------------------
// Executable counterparts
// ---------------------------------------------------------------------------

/// The characters of `s`, in order.
pub fn chars_of(s: &str) -> (r: Vec<char>)
    ensures
        r@ == s@,
{
    let mut out: Vec<char> = Vec::new();
    for c in it: s.chars()
        invariant
            out@ == it.seq().take(it.index() as int),
            it.seq() == s@,
    {
        out.push(c);
    }
    out
}

/// Calls `String::push`, which std documents as appending the given `char`
/// to the end of the string.
#[verifier::external_body]
pub(crate) fn push_char(s: &mut String, c: char)
    ensures
        final(s)@ == old(s)@.push(c),
{
    s.push(c);
}

/// A `String` holding `cs[a..b]`.
pub fn string_from_range(cs: &[char], a: usize, b: usize) -> (r: String)
    requires
        a <= b <= cs@.len(),
    ensures
        r@ == cs@.subrange(a as int, b as int),
{
    let mut out = String::new();
    let mut i = a;
    while i < b
        invariant
            a <= i <= b <= cs@.len(),
            out@ == cs@.subrange(a as int, i as int),
        decreases b - i,
    {
        push_char(&mut out, cs[i]);
        assert(cs@.subrange(a as int, i + 1) =~= cs@.subrange(a as int, i as int).push(cs@[i as int]));
        i = i + 1;
    }
    out
}

/// A `String` holding all of `cs`.
pub fn string_from_chars(cs: &[char]) -> (r: String)
    ensures
        r@ == cs@,
{
    let r = string_from_range(cs, 0, cs.len());
    assert(cs@.subrange(0, cs@.len() as int) =~= cs@);
    r
}

/// Appends the characters of `lit` to `out`.
pub fn push_str(out: &mut String, lit: &str)
    ensures
        final(out)@ == old(out)@ + lit@,
{
    let n = lit.unicode_len();
    let mut i: usize = 0;
    while i < n
        invariant
            n == lit@.len(),
            i <= n,
            out@ == old(out)@ + lit@.subrange(0, i as int),
        decreases n - i,
    {
        let c = lit.get_char(i);
        push_char(out, c);
        assert(lit@.subrange(0, i + 1) =~= lit@.subrange(0, i as int).push(c));
        i = i + 1;
    }
    assert(lit@.subrange(0, n as int) =~= lit@);
}

/// `char::is_whitespace`.
pub fn char_is_space(c: char) -> (r: bool)
    ensures
        r == is_space(c),
{
    let v = c as u32;
    (0x09 <= v && v <= 0x0D) || v == 0x20 || v == 0x85 || v == 0xA0 || v == 0x1680 || (0x2000
        <= v && v <= 0x200A) || v == 0x2028 || v == 0x2029 || v == 0x202F || v == 0x205F || v
        == 0x3000
}

/// Number of bytes of `c` in UTF-8 (`char::len_utf8`).
pub fn char_utf8_width(c: char) -> (r: usize)
    ensures
        r == utf8_width(c),
{
    let v = c as u32;
    if v < 0x80 {
        1
    } else if v < 0x800 {
        2
    } else if v < 0x10000 {
        3
    } else {
        4
    }
}

/// Bounds of `trim(cs[a..b])` inside `cs`.
pub fn trim_bounds(cs: &[char], a: usize, b: usize) -> (r: (usize, usize))
    requires
        a <= b <= cs@.len(),
    ensures
        a <= r.0 <= r.1 <= b,
        cs@.subrange(r.0 as int, r.1 as int) == trim(cs@.subrange(a as int, b as int)),
{
    let mut i = a;
    while i < b && char_is_space(cs[i])
        invariant
            a <= i <= b <= cs@.len(),
            trim_start(cs@.subrange(a as int, b as int)) == trim_start(
                cs@.subrange(i as int, b as int),
            ),
        decreases b - i,
    {
        assert(cs@.subrange(i as int, b as int).drop_first() =~= cs@.subrange(i + 1, b as int));
        i = i + 1;
    }
    let mut j = b;
    while j > i && char_is_space(cs[j - 1])
        invariant
            a <= i <= j <= b <= cs@.len(),
            trim_start(cs@.subrange(a as int, b as int)) == cs@.subrange(i as int, b as int),
            trim_end(cs@.subrange(i as int, b as int)) == trim_end(
                cs@.subrange(i as int, j as int),
            ),
        decreases j - i,
    {
        assert(cs@.subrange(i as int, j as int).drop_last() =~= cs@.subrange(i as int, j - 1));
        j = j - 1;
    }
    (i, j)
}

/// Bounds of `trim_char(cs[a..b], c)` inside `cs`.
pub fn trim_char_bounds(cs: &[char], a: usize, b: usize, c: char) -> (r: (usize, usize))
    requires
        a <= b <= cs@.len(),
    ensures
        a <= r.0 <= r.1 <= b,
        cs@.subrange(r.0 as int, r.1 as int) == trim_char(cs@.subrange(a as int, b as int), c),
{
    let mut i = a;
    while i < b && cs[i] == c
        invariant
            a <= i <= b <= cs@.len(),
            strip_start_char(cs@.subrange(a as int, b as int), c) == strip_start_char(
                cs@.subrange(i as int, b as int),
                c,
            ),
        decreases b - i,
    {
        assert(cs@.subrange(i as int, b as int).drop_first() =~= cs@.subrange(i + 1, b as int));
        i = i + 1;
    }
    let mut j = b;
    while j > i && cs[j - 1] == c
        invariant
            a <= i <= j <= b <= cs@.len(),
            strip_start_char(cs@.subrange(a as int, b as int), c) == cs@.subrange(
                i as int,
                b as int,
            ),
            strip_end_char(cs@.subrange(i as int, b as int), c) == strip_end_char(
                cs@.subrange(i as int, j as int),
                c,
            ),
        decreases j - i,
    {
        assert(cs@.subrange(i as int, j as int).drop_last() =~= cs@.subrange(i as int, j - 1));
        j = j - 1;
    }
    (i, j)
}

/// Position of the first `c` in `cs[a..b]`, or `b` when there is none.
pub fn find_char(cs: &[char], a: usize, b: usize, c: char) -> (r: usize)
    requires
        a <= b <= cs@.len(),
    ensures
        a <= r <= b,
        r - a == index_of_char(cs@.subrange(a as int, b as int), c),
{
    let mut i = a;
    while i < b && cs[i] != c
        invariant
            a <= i <= b <= cs@.len(),
            index_of_char(cs@.subrange(a as int, b as int), c) == (i - a) + index_of_char(
                cs@.subrange(i as int, b as int),
                c,
            ),
        decreases b - i,
    {
        assert(cs@.subrange(i as int, b as int).drop_first() =~= cs@.subrange(i + 1, b as int));
        i = i + 1;
    }
    i
}

/// Position of the first whitespace character in `cs[a..b]`, or `b` when there is none.
pub fn find_space(cs: &[char], a: usize, b: usize) -> (r: usize)
    requires
        a <= b <= cs@.len(),
    ensures
        a <= r <= b,
        r - a == index_of_space(cs@.subrange(a as int, b as int)),
{
    let mut i = a;
    while i < b && !char_is_space(cs[i])
        invariant
            a <= i <= b <= cs@.len(),
            index_of_space(cs@.subrange(a as int, b as int)) == (i - a) + index_of_space(
                cs@.subrange(i as int, b as int),
            ),
        decreases b - i,
    {
        assert(cs@.subrange(i as int, b as int).drop_first() =~= cs@.subrange(i + 1, b as int));
        i = i + 1;
    }
    i
}

/// Whether `cs[a..b]` spells `lit`.
pub fn range_eq_str(cs: &[char], a: usize, b: usize, lit: &str) -> (r: bool)
    requires
        a <= b <= cs@.len(),
    ensures
        r == (cs@.subrange(a as int, b as int) == lit@),
{
    let n = lit.unicode_len();
    if b - a != n {
        return false;
    }
    let mut i: usize = 0;
    while i < n
        invariant
            n == lit@.len(),
            b - a == n,
            a <= b <= cs@.len(),
            i <= n,
            forall|k: int| 0 <= k < i ==> cs@[a + k] == lit@[k],
        decreases n - i,
    {
        if lit.get_char(i) != cs[a + i] {
            assert(cs@.subrange(a as int, b as int)[i as int] != lit@[i as int]);
            return false;
        }
        i = i + 1;
    }
    assert(cs@.subrange(a as int, b as int) =~= lit@);
    true
}

/// `ascii_upper(cs[a..b])` as a vector.
pub fn ascii_upper_range(cs: &[char], a: usize, b: usize) -> (r: Vec<char>)
    requires
        a <= b <= cs@.len(),
    ensures
        r@ == ascii_upper(cs@.subrange(a as int, b as int)),
{
    let mut out: Vec<char> = Vec::new();
    let mut i = a;
    while i < b
        invariant
            a <= i <= b <= cs@.len(),
            out@ == ascii_upper(cs@.subrange(a as int, i as int)),
        decreases b - i,
    {
        let c = cs[i];
        let u = if 'a' <= c && c <= 'z' {
            ((c as u8) - 32) as char
        } else {
            c
        };
        assert(u == ascii_upper_char(c));
        out.push(u);
        assert(ascii_upper(cs@.subrange(a as int, i + 1)) =~= ascii_upper(
            cs@.subrange(a as int, i as int),
        ).push(ascii_upper_char(c)));
        i = i + 1;
    }
    out
}

/// `char::to_digit(radix)`.
pub fn char_digit(c: char, radix: u32) -> (r: Option<u32>)
    requires
        2 <= radix <= 36,
    ensures
        r matches Some(d) ==> digit_value(c, radix as nat) == Some(d as nat),
        r is None ==> digit_value(c, radix as nat) is None,
{
    let v = c as u32;
    let d: u32 = if 0x30 <= v && v <= 0x39 {
        v - 0x30
    } else if 0x61 <= v && v <= 0x7A {
        v - 0x61 + 10
    } else if 0x41 <= v && v <= 0x5A {
        v - 0x41 + 10
    } else {
        36
    };
    if d < radix {
        Some(d)
    } else {
        None
    }
}

/// `from_str_radix` for an unsigned type whose largest value is `max`,
/// applied to `cs[a..b]`.
pub fn parse_unsigned_range(cs: &[char], a: usize, b: usize, radix: u32, max: u32) -> (r: Option<
    u32,
>)
    requires
        a <= b <= cs@.len(),
        2 <= radix <= 36,
    ensures
        r matches Some(v) ==> parse_unsigned(cs@.subrange(a as int, b as int), radix as nat, max as nat)
            == Some(v as nat),
        r is None ==> parse_unsigned(cs@.subrange(a as int, b as int), radix as nat, max as nat) is None,
{
    let ghost s = cs@.subrange(a as int, b as int);
    let mut start = a;
    if a < b && cs[a] == '+' {
        start = a + 1;
        assert(s.drop_first() =~= cs@.subrange(start as int, b as int));
    } else {
        assert(s =~= cs@.subrange(start as int, b as int));
    }
    let ghost digits = cs@.subrange(start as int, b as int);
    let ghost outcome = parse_unsigned(s, radix as nat, max as nat);
    assert(outcome == if digits.len() > 0 && all_digits(digits, radix as nat) && digits_value(
        digits,
        radix as nat,
    ) <= max {
        Some(digits_value(digits, radix as nat))
    } else {
        None
    });
    if start == b {
        return None;
    }
    let mut acc: u64 = 0;
    let mut over = false;
    let mut i = start;
    while i < b
        invariant
            a <= start < b <= cs@.len(),
            start <= i <= b,
            2 <= radix <= 36,
            digits == cs@.subrange(start as int, b as int),
            s == cs@.subrange(a as int, b as int),
            outcome == parse_unsigned(s, radix as nat, max as nat),
            outcome == if digits.len() > 0 && all_digits(digits, radix as nat) && digits_value(
                digits,
                radix as nat,
            ) <= max {
                Some(digits_value(digits, radix as nat))
            } else {
                None
            },
            all_digits(cs@.subrange(start as int, i as int), radix as nat),
            !over ==> acc == digits_value(cs@.subrange(start as int, i as int), radix as nat) && acc
                <= max,
            over ==> digits_value(cs@.subrange(start as int, i as int), radix as nat) > max,
        decreases b - i,
    {
        let ghost prev = cs@.subrange(start as int, i as int);
        assert(cs@.subrange(start as int, i + 1) =~= prev.push(cs@[i as int]));
        proof {
            lemma_digits_value_push(prev, cs@[i as int], radix as nat);
        }
        match char_digit(cs[i], radix) {
            None => {
                assert(!all_digits(digits, radix as nat)) by {
                    assert(digits[i - start] == cs@[i as int]);
                }
                return None;
            },
            Some(d) => {
                let ghost dv = digits_value(prev, radix as nat);
                assert(dv * radix >= dv) by (nonlinear_arith)
                    requires
                        radix >= 2,
                ;
                if !over {
                    assert(acc * radix <= 36 * 0xffff_ffffu64) by (nonlinear_arith)
                        requires
                            acc <= 0xffff_ffffu64,
                            radix <= 36,
                    ;
                    let next = acc * (radix as u64) + (d as u64);
                    if next > max as u64 {
                        over = true;
                    } else {
                        acc = next;
                    }
                }
                assert(all_digits(cs@.subrange(start as int, i + 1), radix as nat)) by {
                    assert forall|k: int| 0 <= k < i + 1 - start implies (#[trigger] digit_value(
                        cs@.subrange(start as int, i + 1)[k],
                        radix as nat,
                    )) is Some by {
                        if k < i - start {
                            assert(cs@.subrange(start as int, i + 1)[k] == prev[k]);
                        }
                    }
                }
            },
        }
        i = i + 1;
    }
    assert(cs@.subrange(start as int, i as int) == digits);
    if over {
        None
    } else {
        Some(acc as u32)
    }
}

} // verus!
