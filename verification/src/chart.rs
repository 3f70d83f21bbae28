//! Where the notes of a parsed BMS chart fall: each note's lane and its
//! position inside its measure, ordered by position. Turning positions into
//! seconds needs the tempo and is done by the caller.
use vstd::prelude::*;
use crate::bms::{Bms, ChannelData, ChannelDataView, channels_view};

verus! {

broadcast use {
    vstd::std_specs::hash::group_hash_axioms,
    vstd::seq_lib::group_to_multiset_ensures,
    vstd::multiset::group_multiset_axioms,
};

/// The eight lanes of a seven-key chart.
#[derive(Clone, Copy, Debug, PartialEq, Eq, Hash, Structural)]
pub enum Lane7S {
    /// Lane 1 (left-most).
    Lane1,
    Lane2,
    Lane3,
    Lane4,
    Lane5,
    Lane6,
    Lane7,
    /// The scratch lane.
    Scratch,
}

pub open spec fn lane_number(l: Lane7S) -> usize {
    match l {
        Lane7S::Lane1 => 0,
        Lane7S::Lane2 => 1,
        Lane7S::Lane3 => 2,
        Lane7S::Lane4 => 3,
        Lane7S::Lane5 => 4,
        Lane7S::Lane6 => 5,
        Lane7S::Lane7 => 6,
        Lane7S::Scratch => 7,
    }
}

impl Lane7S {
    /// The lane's index, 0 for the left-most and 7 for the scratch.
    pub fn index(self) -> (r: usize)
        ensures
            r == lane_number(self),
            r < 8,
    {
        match self {
            Lane7S::Lane1 => 0,
            Lane7S::Lane2 => 1,
            Lane7S::Lane3 => 2,
            Lane7S::Lane4 => 3,
            Lane7S::Lane5 => 4,
            Lane7S::Lane6 => 5,
            Lane7S::Lane7 => 6,
            Lane7S::Scratch => 7,
        }
    }
}

/// The lane a channel plays on: channels 11 to 17 are lanes 1 to 7, channels
/// 18 and 19 the scratch; other channels are not played.
pub open spec fn lane_of_channel(ch: u8) -> Option<Lane7S> {
    match ch {
        11 => Some(Lane7S::Lane1),
        12 => Some(Lane7S::Lane2),
        13 => Some(Lane7S::Lane3),
        14 => Some(Lane7S::Lane4),
        15 => Some(Lane7S::Lane5),
        16 => Some(Lane7S::Lane6),
        17 => Some(Lane7S::Lane7),
        18 | 19 => Some(Lane7S::Scratch),
        _ => None,
    }
}

pub fn channel_to_lane(ch: u8) -> (r: Option<Lane7S>)
    ensures
        r == lane_of_channel(ch),
{
    match ch {
        11 => Some(Lane7S::Lane1),
        12 => Some(Lane7S::Lane2),
        13 => Some(Lane7S::Lane3),
        14 => Some(Lane7S::Lane4),
        15 => Some(Lane7S::Lane5),
        16 => Some(Lane7S::Lane6),
        17 => Some(Lane7S::Lane7),
        18 | 19 => Some(Lane7S::Scratch),
        _ => None,
    }
}

/// Channels 11 to 17 play, in order, on the lanes numbered 0 to 6
/// (channel `ch` on lane `ch - 11`), channels 18 and 19 on the scratch lane
/// (numbered 7), and no other channel plays. Lanes with the same number are
/// the same lane.
pub proof fn law_channel_lanes(ch: u8, a: Lane7S, b: Lane7S)
    ensures
        11 <= ch <= 17 ==> lane_of_channel(ch) is Some && lane_number(lane_of_channel(ch)->0) == ch
            - 11,
        ch == 18 || ch == 19 ==> lane_of_channel(ch) is Some && lane_number(
            lane_of_channel(ch)->0,
        ) == 7,
        !(11 <= ch <= 19) ==> lane_of_channel(ch) is None,
        lane_number(a) == lane_number(b) ==> a == b,
{
}

/// Where a note falls: in lane `lane`, in the measure `measure_index`
/// measures after the first, `slot / slots` of the way through it.
#[derive(Clone, Copy, Debug, PartialEq, Eq, Structural)]
pub struct ChartPosition {
    pub lane: Lane7S,
    pub measure_index: u32,
    pub slot: usize,
    pub slots: usize,
}

/// Measures are numbered from 1: measure 1 starts the chart, and measure 0
/// starts at the same time.
pub open spec fn measure_index_of(m: u32) -> u32 {
    if m == 0 {
        0
    } else {
        (m - 1) as u32
    }
}

/// The notes of the first `k` slots of a channel, in slot order.
pub open spec fn channel_notes(mi: u32, c: ChannelDataView, k: int) -> Seq<ChartPosition>
    decreases k,
{
    if k <= 0 {
        Seq::empty()
    } else {
        let prev = channel_notes(mi, c, k - 1);
        match (lane_of_channel(c.channel), c.data[k - 1]) {
            (Some(lane), Some(_)) => prev.push(
                ChartPosition {
                    lane,
                    measure_index: mi,
                    slot: (k - 1) as usize,
                    slots: c.data.len() as usize,
                },
            ),
            _ => prev,
        }
    }
}

/// The notes of a measure's channels, channel by channel.
pub open spec fn measure_notes(mi: u32, cs: Seq<ChannelDataView>) -> Seq<ChartPosition>
    decreases cs.len(),
{
    if cs.len() == 0 {
        Seq::empty()
    } else {
        measure_notes(mi, cs.drop_last()) + channel_notes(
            mi,
            cs.last(),
            cs.last().data.len() as int,
        )
    }
}

/// The notes of the measures numbered in `order`, measure by measure.
pub open spec fn notes_in_order(order: Seq<u32>, ms: Map<u32, Seq<ChannelDataView>>) -> Seq<
    ChartPosition,
>
    decreases order.len(),
{
    if order.len() == 0 {
        Seq::empty()
    } else {
        notes_in_order(order.drop_last(), ms) + measure_notes(
            measure_index_of(order.last()),
            ms[order.last()],
        )
    }
}

/// `a` comes strictly before `b`.
pub open spec fn earlier(a: ChartPosition, b: ChartPosition) -> bool {
    ||| a.measure_index < b.measure_index
    ||| a.measure_index == b.measure_index && a.slot * b.slots < b.slot * a.slots
}

pub open spec fn in_position_order(s: Seq<ChartPosition>) -> bool {
    forall|i: int, j: int| 0 <= i < j < s.len() ==> !earlier(#[trigger] s[j], #[trigger] s[i])
}

pub open spec fn slots_positive(s: Seq<ChartPosition>) -> bool {
    forall|i: int| 0 <= i < s.len() ==> (#[trigger] s[i]).slots > 0
}

proof fn lemma_fraction_order(as_: int, an: int, bs: int, bn: int, cs: int, cn: int)
    requires
        an > 0,
        bn > 0,
        cn > 0,
        as_ * bn < bs * an,
        bs * cn <= cs * bn,
    ensures
        as_ * cn < cs * an,
{
    assert((as_ * bn) * cn < (bs * an) * cn) by (nonlinear_arith)
        requires
            as_ * bn < bs * an,
            cn > 0,
    ;
    assert((bs * cn) * an <= (cs * bn) * an) by (nonlinear_arith)
        requires
            bs * cn <= cs * bn,
            an > 0,
    ;
    assert((as_ * cn) * bn < (cs * an) * bn) by (nonlinear_arith)
        requires
            (as_ * bn) * cn < (bs * an) * cn,
            (bs * cn) * an <= (cs * bn) * an,
    ;
    assert(as_ * cn < cs * an) by (nonlinear_arith)
        requires
            (as_ * cn) * bn < (cs * an) * bn,
            bn > 0,
    ;
}

/// Earlier-than, followed by not-later-than, is earlier-than.
proof fn lemma_earlier_then_not_later(a: ChartPosition, b: ChartPosition, c: ChartPosition)
    requires
        a.slots > 0,
        b.slots > 0,
        c.slots > 0,
        earlier(a, b),
        !earlier(c, b),
    ensures
        earlier(a, c),
{
    if a.measure_index == b.measure_index && b.measure_index == c.measure_index {
        lemma_fraction_order(
            a.slot as int,
            a.slots as int,
            b.slot as int,
            b.slots as int,
            c.slot as int,
            c.slots as int,
        );
    }
}

fn earlier_exec(a: &ChartPosition, b: &ChartPosition) -> (r: bool)
    ensures
        r == earlier(*a, *b),
{
    if a.measure_index < b.measure_index {
        return true;
    }
    if a.measure_index > b.measure_index {
        return false;
    }
    let x = a.slot as u128;
    let y = b.slots as u128;
    let z = b.slot as u128;
    let w = a.slots as u128;
    assert(x * y <= 0xffff_ffff_ffff_ffff * 0xffff_ffff_ffff_ffff) by (nonlinear_arith)
        requires
            x <= 0xffff_ffff_ffff_ffff,
            y <= 0xffff_ffff_ffff_ffff,
    ;
    assert(z * w <= 0xffff_ffff_ffff_ffff * 0xffff_ffff_ffff_ffff) by (nonlinear_arith)
        requires
            z <= 0xffff_ffff_ffff_ffff,
            w <= 0xffff_ffff_ffff_ffff,
    ;
    x * y < z * w
}

/// Inserts `x` after every position not later than it, keeping `out` in
/// position order; positions equal to `x` stay before it.
fn insert_in_order(out: &mut Vec<ChartPosition>, x: ChartPosition)
    requires
        in_position_order(old(out)@),
        slots_positive(old(out)@),
        x.slots > 0,
    ensures
        in_position_order(final(out)@),
        slots_positive(final(out)@),
        final(out)@.to_multiset() == old(out)@.to_multiset().insert(x),
{
    let mut j: usize = 0;
    while j < out.len() && !earlier_exec(&x, &out[j])
        invariant
            j <= out@.len(),
            forall|t: int| 0 <= t < j ==> !earlier(x, #[trigger] out@[t]),
        decreases out@.len() - j,
    {
        j = j + 1;
    }
    let ghost s = out@;
    out.insert(j, x);
    proof {
        vstd::seq_lib::to_multiset_insert(s, j as int, x);
        let u = out@;
        assert(u == s.insert(j as int, x));
        assert forall|p: int, q: int| 0 <= p < q < u.len() implies !earlier(
            #[trigger] u[q],
            #[trigger] u[p],
        ) by {
            if q < j {
                assert(u[p] == s[p] && u[q] == s[q]);
            } else if q == j {
                assert(u[p] == s[p]);
            } else if p == j {
                assert(u[q] == s[q - 1]);
                assert(earlier(x, s[j as int]));
                if q - 1 > j {
                    assert(!earlier(s[q - 1], s[j as int]));
                    lemma_earlier_then_not_later(x, s[j as int], s[q - 1]);
                }
            } else if p < j {
                assert(u[p] == s[p] && u[q] == s[q - 1]);
            } else {
                assert(u[p] == s[p - 1] && u[q] == s[q - 1]);
            }
        }
        assert forall|p: int| 0 <= p < u.len() implies (#[trigger] u[p]).slots > 0 by {
            if p < j {
                assert(u[p] == s[p]);
            } else if p > j {
                assert(u[p] == s[p - 1]);
            }
        }
    }
}

/// Appends the notes of channel `c` of measure `mi` to `out`.
fn push_channel_notes(out: &mut Vec<ChartPosition>, mi: u32, c: &ChannelData)
    requires
        slots_positive(old(out)@),
    ensures
        final(out)@ == old(out)@ + channel_notes(mi, c@, c@.data.len() as int),
        slots_positive(final(out)@),
{
    let lane = channel_to_lane(c.channel);
    let total = c.data.len();
    let mut i: usize = 0;
    assert(old(out)@ + channel_notes(mi, c@, 0) =~= old(out)@);
    while i < total
        invariant
            i <= total == c@.data.len(),
            lane == lane_of_channel(c.channel),
            out@ == old(out)@ + channel_notes(mi, c@, i as int),
            slots_positive(out@),
        decreases total - i,
    {
        let ghost before = out@;
        match lane {
            Some(l) => {
                if c.data[i].is_some() {
                    out.push(ChartPosition { lane: l, measure_index: mi, slot: i, slots: total });
                }
            },
            None => {},
        }
        assert(out@ =~= old(out)@ + channel_notes(mi, c@, i + 1));
        i = i + 1;
    }
}

/// The positions of every note of the chart, ordered by position: the
/// notes of each played channel's non-empty slots, taking the measures in
/// some order of their numbers (the order does not matter once sorted).
/// Notes at the same position keep the order in which they were taken.
pub fn chart_positions(b: &Bms) -> (r: Vec<ChartPosition>)
    ensures
        in_position_order(r@),
        slots_positive(r@),
        exists|order: Seq<u32>|
            #![trigger order.to_set()]
            order.no_duplicates() && order.to_set() == b@.measures.dom() && r@.to_multiset()
                == notes_in_order(order, b@.measures).to_multiset(),
{
    let mut all: Vec<ChartPosition> = Vec::new();
    let ghost mut order: Seq<u32> = Seq::empty();
    for entry in it: b.measures.iter()
        invariant
            order == it.seq().take(it.index() as int).map_values(
                |p: (&u32, &Vec<ChannelData>)| *p.0,
            ),
            all@ == notes_in_order(order, b@.measures),
            slots_positive(all@),
            order.len() == it.index(),
            it.seq().len() == b.measures@.dom().len(),
            order.no_duplicates(),
            forall|t: int| 0 <= t < order.len() ==> b.measures@.contains_key(#[trigger] order[t]),
            it.seq().no_duplicates(),
            forall|k: u32| #[trigger] b.measures@.contains_key(k) ==> it.seq().contains((&k, &b.measures@[k])),
            forall|t: int|
                0 <= t < it.seq().len() ==> b.measures@.contains_key(*it.seq()[t].0)
                    && b.measures@[*it.seq()[t].0] == *it.seq()[t].1,
    {
        let (m, channels) = entry;
        let mi: u32 = if *m == 0 {
            0
        } else {
            *m - 1
        };
        let ghost cs = channels_view(*channels);
        let ghost base = all@;
        let mut j: usize = 0;
        while j < channels.len()
            invariant
                j <= channels@.len(),
                cs == channels_view(*channels),
                all@ == base + measure_notes(mi, cs.take(j as int)),
                slots_positive(all@),
            decreases channels@.len() - j,
        {
            assert(cs.take(j + 1).drop_last() =~= cs.take(j as int));
            assert(cs.take(j + 1).last() == channels@[j as int]@);
            push_channel_notes(&mut all, mi, &channels[j]);
            assert(all@ =~= base + measure_notes(mi, cs.take(j + 1)));
            j = j + 1;
        }
        assert(cs.take(channels@.len() as int) =~= cs);
        proof {
            assert(entry == it.seq()[it.index() as int]);
            assert(!order.contains(*m)) by {
                if order.contains(*m) {
                    let t = choose|t: int| 0 <= t < order.len() && order[t] == *m;
                    assert(order[t] == *it.seq()[t].0);
                    assert(it.seq()[t] == it.seq()[it.index() as int]);
                }
            }
            let next = order.push(*m);
            assert(next.drop_last() =~= order);
            assert(b@.measures[*m] == cs);
            order = next;
        }
        assert(order =~= it.seq().take(it.index() + 1).map_values(
            |p: (&u32, &Vec<ChannelData>)| *p.0,
        ));
    }
    proof {
        order.unique_seq_to_set();
        vstd::seq_lib::seq_to_set_is_finite(order);
        assert(b@.measures.dom() =~= b.measures@.dom());
        assert(b.measures@.dom().finite());
        assert(order.to_set().subset_of(b@.measures.dom()));
        vstd::set_lib::lemma_subset_equality(order.to_set(), b@.measures.dom());
    }
    let mut out: Vec<ChartPosition> = Vec::new();
    let mut i: usize = 0;
    assert(all@.take(0) =~= Seq::<ChartPosition>::empty());
    assert(out@ =~= Seq::<ChartPosition>::empty());
    while i < all.len()
        invariant
            i <= all@.len(),
            in_position_order(out@),
            slots_positive(out@),
            slots_positive(all@),
            out@.to_multiset() == all@.take(i as int).to_multiset(),
        decreases all@.len() - i,
    {
        assert(all@.take(i + 1) =~= all@.take(i as int).push(all@[i as int]));
        insert_in_order(&mut out, all[i]);
        i = i + 1;
    }
    assert(all@.take(all@.len() as int) =~= all@);
    out
}

} // verus!
