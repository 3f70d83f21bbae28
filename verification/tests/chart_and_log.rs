use wakamore::bms::parse_bms;
use wakamore::chart::{channel_to_lane, chart_positions, ChartPosition, Lane7S};
use wakamore::key_log::{KeyEventLog, ENTRY_LIFETIME_MS, MAX_ENTRIES};

fn pos(lane: Lane7S, measure_index: u32, slot: usize, slots: usize) -> ChartPosition {
    ChartPosition { lane, measure_index, slot, slots }
}

#[test]
fn channels_map_to_lanes() {
    assert_eq!(channel_to_lane(11), Some(Lane7S::Lane1));
    assert_eq!(channel_to_lane(17), Some(Lane7S::Lane7));
    assert_eq!(channel_to_lane(18), Some(Lane7S::Scratch));
    assert_eq!(channel_to_lane(19), Some(Lane7S::Scratch));
    assert_eq!(channel_to_lane(10), None);
    assert_eq!(channel_to_lane(20), None);
    assert_eq!(Lane7S::Lane1.index(), 0);
    assert_eq!(Lane7S::Scratch.index(), 7);
}

#[test]
fn chart_positions_are_sorted() {
    let b = parse_bms("#00211:01\n#00111:0101\n#00112:00AA00\n#00105:01\n#00113:01\n").unwrap();
    let p = chart_positions(&b);
    assert_eq!(
        p,
        vec![
            pos(Lane7S::Lane1, 0, 0, 2),
            pos(Lane7S::Lane3, 0, 0, 1),
            pos(Lane7S::Lane2, 0, 1, 3),
            pos(Lane7S::Lane1, 0, 1, 2),
            pos(Lane7S::Lane1, 1, 0, 1),
        ]
    );
}

#[test]
fn measure_zero_starts_with_measure_one() {
    let b = parse_bms("#00018:01\n#00119:0001\n").unwrap();
    let p = chart_positions(&b);
    assert_eq!(p.len(), 2);
    assert_eq!(p[0], pos(Lane7S::Scratch, 0, 0, 1));
    assert_eq!(p[1], pos(Lane7S::Scratch, 0, 1, 2));
}

#[test]
fn empty_chart_has_no_notes() {
    let b = parse_bms("#TITLE nothing\n#00101:01\n").unwrap();
    assert!(chart_positions(&b).is_empty());
}

#[test]
fn key_log_keeps_the_latest_entries() {
    let mut log = KeyEventLog::new();
    assert_eq!(log.len(), 0);
    for i in 0..25u64 {
        log.record(i * 10, format!("e{}", i));
        assert!(log.len() <= MAX_ENTRIES);
    }
    assert_eq!(log.len(), MAX_ENTRIES);
    let entries = log.newest_first();
    assert_eq!(entries[0], (240, "e24".to_string()));
    assert_eq!(entries[MAX_ENTRIES - 1], (50, "e5".to_string()));
}

#[test]
fn key_log_drops_old_entries() {
    let mut log = KeyEventLog::new();
    log.record(0, "a".to_string());
    log.record(1000, "b".to_string());
    log.record(5000, "c".to_string());
    log.retain_recent(ENTRY_LIFETIME_MS + 500);
    assert_eq!(
        log.newest_first(),
        vec![(5000, "c".to_string()), (1000, "b".to_string())]
    );
    log.retain_recent(ENTRY_LIFETIME_MS + 1000);
    assert_eq!(log.newest_first(), vec![(5000, "c".to_string())]);
    // an entry from after `now` stays
    log.record(20_000, "d".to_string());
    log.retain_recent(10_000);
    assert_eq!(log.newest_first(), vec![(20_000, "d".to_string()), (5000, "c".to_string())]);
}
