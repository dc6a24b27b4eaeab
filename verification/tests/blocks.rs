use session_blocks::UsageEntry;
use session_blocks::find_active_block;
use session_blocks::floor_to_hour;
use session_blocks::identify_session_blocks;

// 2024-01-01T00:00:00Z in milliseconds since the Unix epoch.
const DAY: u64 = 1_704_067_200_000;

fn at(hours: u64, minutes: u64, seconds: u64) -> u64 {
    DAY + hours * 3_600_000 + minutes * 60_000 + seconds * 1_000
}

fn entry(timestamp: u64, input: u64, output: u64, cost: u64, model: &str) -> UsageEntry {
    UsageEntry {
        timestamp,
        input_tokens: input,
        output_tokens: output,
        cache_creation_tokens: 0,
        cache_read_tokens: 0,
        total_tokens: input + output,
        cost,
        model: model.to_string(),
    }
}

#[test]
fn test_floor_to_hour() {
    // 2024-01-01T10:35:45Z
    let timestamp = at(10, 35, 45);
    let floored = floor_to_hour(timestamp);
    assert_eq!((floored / 3_600_000) % 24, 10);
    assert_eq!((floored / 60_000) % 60, 0);
    assert_eq!((floored / 1_000) % 60, 0);
}

#[test]
fn test_identify_blocks_single() {
    let entries = vec![
        entry(at(10, 0, 0), 100, 50, 1_000, "sonnet-3-5"),
        entry(at(11, 0, 0), 200, 100, 2_000, "sonnet-3-5"),
    ];

    let blocks = identify_session_blocks(entries, at(11, 30, 0));
    assert_eq!(blocks.len(), 1);

    let block = &blocks[0];
    assert_eq!(block.total_tokens, 450);
    assert_eq!(block.input_tokens, 300);
    assert_eq!(block.output_tokens, 150);
    assert_eq!(block.entry_count, 2);
}

#[test]
fn same_hour_records_make_one_block() {
    let entries = vec![
        entry(at(10, 0, 0), 10, 0, 1, "m"),
        entry(at(10, 1, 0), 20, 0, 1, "m"),
    ];
    let blocks = identify_session_blocks(entries, at(10, 2, 0));
    assert_eq!(blocks.len(), 1);
    assert_eq!(blocks[0].start_time, at(10, 0, 0));
    assert_eq!(blocks[0].end_time, at(15, 0, 0));
    assert_eq!(blocks[0].entry_count, 2);
}

#[test]
fn record_past_window_opens_second_block_floored() {
    let entries = vec![
        entry(at(10, 0, 0), 10, 0, 1, "m"),
        entry(at(15, 1, 0), 20, 0, 1, "m"),
    ];
    let blocks = identify_session_blocks(entries, at(15, 2, 0));
    assert_eq!(blocks.len(), 2);
    assert_eq!(blocks[0].start_time, at(10, 0, 0));
    // The second block anchors at the top of its own hour, 15:00:00, even
    // though the gap from the first record exceeds one window.
    assert_eq!(blocks[1].start_time, at(15, 0, 0));
    assert_eq!(blocks[0].entry_count, 1);
    assert_eq!(blocks[1].entry_count, 1);
}

#[test]
fn gaps_between_records_never_split_a_block() {
    let entries = vec![
        entry(at(10, 0, 0), 1, 0, 1, "m"),
        entry(at(13, 0, 0), 2, 0, 1, "m"),
        entry(at(14, 59, 0), 3, 0, 1, "m"),
    ];
    let blocks = identify_session_blocks(entries, at(15, 30, 0));
    assert_eq!(blocks.len(), 1);
    assert_eq!(blocks[0].start_time, at(10, 0, 0));
    assert_eq!(blocks[0].entry_count, 3);
    assert_eq!(blocks[0].total_tokens, 6);
}

#[test]
fn empty_input_yields_no_blocks() {
    let blocks = identify_session_blocks(Vec::new(), at(10, 0, 0));
    assert!(blocks.is_empty());
}

#[test]
fn single_record_yields_one_block_containing_it() {
    let entries = vec![entry(at(7, 42, 13), 5, 7, 3, "m")];
    let blocks = identify_session_blocks(entries, at(7, 50, 0));
    assert_eq!(blocks.len(), 1);
    assert_eq!(blocks[0].start_time, at(7, 0, 0));
    assert_eq!(blocks[0].entry_count, 1);
    assert_eq!(blocks[0].total_tokens, 12);
    assert_eq!(blocks[0].total_cost, 3);
}

#[test]
fn aggregates_sum_all_four_counters_and_cost() {
    let mut e1 = entry(at(10, 0, 0), 100, 50, 10, "m");
    e1.cache_creation_tokens = 7;
    e1.cache_read_tokens = 3;
    e1.total_tokens = 160;
    let e2 = entry(at(10, 30, 0), 1, 2, 5, "m");
    let blocks = identify_session_blocks(vec![e1, e2], at(11, 0, 0));
    assert_eq!(blocks.len(), 1);
    assert_eq!(blocks[0].input_tokens, 101);
    assert_eq!(blocks[0].output_tokens, 52);
    assert_eq!(blocks[0].cache_creation_tokens, 7);
    assert_eq!(blocks[0].cache_read_tokens, 3);
    assert_eq!(blocks[0].total_tokens, 163);
    assert_eq!(blocks[0].total_cost, 15);
}

#[test]
fn models_are_distinct_in_first_appearance_order() {
    let entries = vec![
        entry(at(10, 0, 0), 1, 0, 1, "sonnet"),
        entry(at(10, 1, 0), 1, 0, 1, "opus"),
        entry(at(10, 2, 0), 1, 0, 1, "sonnet"),
    ];
    let blocks = identify_session_blocks(entries, at(10, 3, 0));
    assert_eq!(blocks.len(), 1);
    assert_eq!(blocks[0].models, vec!["sonnet".to_string(), "opus".to_string()]);
}

#[test]
fn rerunning_segmentation_gives_identical_blocks() {
    let make = || {
        vec![
            entry(at(10, 0, 0), 100, 50, 10, "a"),
            entry(at(12, 30, 0), 5, 5, 2, "b"),
            entry(at(16, 0, 0), 7, 0, 1, "a"),
        ]
    };
    let now = at(16, 30, 0);
    let b1 = identify_session_blocks(make(), now);
    let b2 = identify_session_blocks(make(), now);
    assert_eq!(b1.len(), b2.len());
    for (x, y) in b1.iter().zip(b2.iter()) {
        assert_eq!(x.start_time, y.start_time);
        assert_eq!(x.end_time, y.end_time);
        assert_eq!(x.is_active, y.is_active);
        assert_eq!(x.total_tokens, y.total_tokens);
        assert_eq!(x.total_cost, y.total_cost);
        assert_eq!(x.models, y.models);
        assert_eq!(x.entry_count, y.entry_count);
    }
}

#[test]
fn activity_is_derived_from_now() {
    let entries = vec![entry(at(10, 0, 0), 1, 0, 1, "m")];
    let active = identify_session_blocks(entries, at(14, 59, 59));
    assert!(active[0].is_active);

    let entries = vec![entry(at(10, 0, 0), 1, 0, 1, "m")];
    let past = identify_session_blocks(entries, at(15, 0, 0));
    assert!(!past[0].is_active);
}

#[test]
fn find_active_block_searches_all_blocks() {
    let entries = vec![
        entry(at(0, 30, 0), 1, 0, 1, "m"),
        entry(at(10, 0, 0), 1, 0, 1, "m"),
    ];
    let now = at(10, 45, 0);
    let blocks = identify_session_blocks(entries, now);
    assert_eq!(blocks.len(), 2);
    assert_eq!(find_active_block(&blocks, now), Some(1));
    // An instant in the idle gap between the two windows hits nothing.
    assert_eq!(find_active_block(&blocks, at(7, 0, 0)), None);
    // The stream may stop before now: a later instant hits nothing either.
    assert_eq!(find_active_block(&blocks, at(20, 0, 0)), None);
}
