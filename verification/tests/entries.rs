use session_blocks::MessageData;
use session_blocks::Usage;
use session_blocks::UsageEntry;
use session_blocks::normalize_entry;
use session_blocks::recommend_profile;
use session_blocks::sort_entries_by_timestamp;

fn usage(input: u64, output: u64, cache_creation: u64, cache_read: u64) -> Usage {
    Usage {
        input_tokens: input,
        output_tokens: output,
        cache_creation_input_tokens: cache_creation,
        cache_read_input_tokens: cache_read,
    }
}

fn entry(timestamp: u64) -> UsageEntry {
    UsageEntry {
        timestamp,
        input_tokens: 1,
        output_tokens: 0,
        cache_creation_tokens: 0,
        cache_read_tokens: 0,
        total_tokens: 1,
        cost: 0,
        model: "m".to_string(),
    }
}

#[test]
fn normalize_keeps_a_real_model_and_recomputes_totals() {
    let message = MessageData { usage: usage(100, 50, 0, 0), model: None };
    let e = normalize_entry(
        1_704_103_200_000,
        message,
        Some("sonnet-3-5-20241022".to_string()),
        1_000,
    )
    .unwrap();
    assert_eq!(e.input_tokens, 100);
    assert_eq!(e.output_tokens, 50);
    assert_eq!(e.total_tokens, 150);
    assert_eq!(e.model, "sonnet-3-5-20241022");
    assert_eq!(e.timestamp, 1_704_103_200_000);
    assert_eq!(e.cost, 1_000);
}

#[test]
fn normalize_falls_back_to_the_message_model() {
    let message = MessageData { usage: usage(1, 2, 3, 4), model: Some("haiku".to_string()) };
    let e = normalize_entry(0, message, None, 7).unwrap();
    assert_eq!(e.model, "haiku");
    assert_eq!(e.total_tokens, 10);
    assert_eq!(e.cache_creation_tokens, 3);
    assert_eq!(e.cache_read_tokens, 4);
}

#[test]
fn normalize_skips_unknown_or_empty_models() {
    let message = MessageData { usage: usage(1, 1, 0, 0), model: None };
    assert!(normalize_entry(0, message, None, 0).is_none());

    let message = MessageData { usage: usage(1, 1, 0, 0), model: None };
    assert!(normalize_entry(0, message, Some("unknown".to_string()), 0).is_none());

    let message = MessageData { usage: usage(1, 1, 0, 0), model: Some("".to_string()) };
    assert!(normalize_entry(0, message, None, 0).is_none());
}

#[test]
fn sort_orders_records_by_timestamp() {
    let mut v = vec![entry(500), entry(100), entry(300), entry(100), entry(200)];
    sort_entries_by_timestamp(&mut v);
    let stamps: Vec<u64> = v.iter().map(|e| e.timestamp).collect();
    assert_eq!(stamps, vec![100, 100, 200, 300, 500]);
}

#[test]
fn sort_keeps_an_already_sorted_sequence() {
    let mut v = vec![entry(1), entry(2), entry(3)];
    sort_entries_by_timestamp(&mut v);
    let stamps: Vec<u64> = v.iter().map(|e| e.timestamp).collect();
    assert_eq!(stamps, vec![1, 2, 3]);
}

#[test]
fn recommend_picks_the_last_largest_report() {
    let minutes = vec![Some(10), None, Some(30), Some(30), Some(5)];
    assert_eq!(recommend_profile(&minutes), Some(3));
}

#[test]
fn recommend_none_when_no_profile_reports() {
    let minutes: Vec<Option<u64>> = vec![None, None];
    assert_eq!(recommend_profile(&minutes), None);
    assert_eq!(recommend_profile(&Vec::new()), None);
}
