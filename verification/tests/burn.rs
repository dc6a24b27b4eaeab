use session_blocks::SessionBlock;
use session_blocks::project;

// 2024-01-01T00:00:00Z in milliseconds since the Unix epoch.
const DAY: u64 = 1_704_067_200_000;
const MINUTE_MS: u64 = 60_000;
const WINDOW_MS: u64 = 18_000_000;

fn block(total_tokens: u64, total_cost: u64) -> SessionBlock {
    SessionBlock {
        start_time: DAY,
        end_time: DAY + WINDOW_MS,
        is_active: true,
        input_tokens: total_tokens,
        output_tokens: 0,
        cache_creation_tokens: 0,
        cache_read_tokens: 0,
        total_tokens,
        total_cost,
        models: vec!["m".to_string()],
        entry_count: 1,
        burn_rate: None,
    }
}

#[test]
fn example_projection_against_budget() {
    // 600 tokens after 60 minutes against a budget of 1000: 10 tokens per
    // minute, 400 remaining, 40 minutes until the limit.
    let b = block(600, 600);
    let now = DAY + 60 * MINUTE_MS;
    let br = project(&b, now, 1000).unwrap();
    assert_eq!(br.elapsed_minutes, 60);
    assert_eq!(br.tokens_per_minute, 10);
    assert_eq!(br.cost_per_hour, 600);
    assert_eq!(br.projected_tokens, 600 + 10 * 240);
    assert_eq!(br.projected_cost, 600 + (600 * 240) / 60);
    assert_eq!(br.time_until_limit.unwrap().minutes, 40);
}

#[test]
fn below_threshold_attaches_no_burn_rate() {
    let b = block(600, 600);
    // Half a minute elapsed: far too little data.
    assert!(project(&b, DAY + 30_000, 1000).is_none());
    // Exactly one whole minute is still not strictly more than one.
    assert!(project(&b, DAY + MINUTE_MS, 1000).is_none());
    // A second whole minute is enough.
    assert!(project(&b, DAY + 2 * MINUTE_MS, 1000).is_some());
}

#[test]
fn budget_already_spent_saturates_to_zero_minutes() {
    let b = block(1000, 0);
    let now = DAY + 2 * MINUTE_MS;
    let br = project(&b, now, 800).unwrap();
    assert_eq!(br.tokens_per_minute, 500);
    assert_eq!(br.time_until_limit.unwrap().minutes, 0);
}

#[test]
fn budget_exactly_reached_saturates_too() {
    let b = block(800, 0);
    let now = DAY + 2 * MINUTE_MS;
    let br = project(&b, now, 800).unwrap();
    assert_eq!(br.time_until_limit.unwrap().minutes, 0);
}

#[test]
fn zero_rate_omits_time_until_limit() {
    let b = block(0, 120);
    let now = DAY + 2 * MINUTE_MS;
    let br = project(&b, now, 1000).unwrap();
    assert_eq!(br.tokens_per_minute, 0);
    assert!(br.time_until_limit.is_none());
    // With nothing consumed, the projection stays at the actuals.
    assert_eq!(br.projected_tokens, 0);
}

#[test]
fn truncating_rate_still_counts_slow_burns() {
    // 7 tokens over 3 minutes: rate truncates to 2 per minute.
    let b = block(7, 0);
    let now = DAY + 3 * MINUTE_MS;
    let br = project(&b, now, 1000).unwrap();
    assert_eq!(br.tokens_per_minute, 2);
    assert_eq!(br.projected_tokens, 7 + 2 * 297);
    assert_eq!(br.time_until_limit.unwrap().minutes, (1000 - 7) / 2);
}

#[test]
fn nominally_closed_window_projects_actuals() {
    let b = block(600, 500);
    // 301 minutes: past the five-hour window's nominal end.
    let now = DAY + 301 * MINUTE_MS;
    let br = project(&b, now, 1000).unwrap();
    assert_eq!(br.elapsed_minutes, 301);
    assert_eq!(br.projected_tokens, 600);
    assert_eq!(br.projected_cost, 500);
}

#[test]
fn cost_per_hour_scales_cost_to_an_hour() {
    // 90 cost units over 120 minutes: 45 per hour.
    let b = block(0, 90);
    let now = DAY + 120 * MINUTE_MS;
    let br = project(&b, now, 1000).unwrap();
    assert_eq!(br.cost_per_hour, 45);
    assert_eq!(br.projected_cost, 90 + (45 * 180) / 60);
}
