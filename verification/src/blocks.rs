//! Partitioning an ordered record stream into five-hour session blocks.
//!
//! A block opens at the top of the hour of its first record and admits every
//! following record less than one window past that anchor, however large the
//! gaps between individual records. A record at or past the window's end
//! closes the block and opens a new one anchored at the top of its own hour.

use vstd::prelude::*;

use crate::models::SessionBlock;
use crate::models::UsageEntry;
use crate::models::cache_creation_of;
use crate::models::cache_read_of;
use crate::models::cost_of;
use crate::models::distinct_models;
use crate::models::input_of;
use crate::models::output_of;
use crate::models::sum_cache_creation;
use crate::models::sum_cache_read;
use crate::models::sum_cost;
use crate::models::sum_input;
use crate::models::sum_output;
use crate::models::sum_tokens;
use crate::models::lemma_sum_by_nonneg;
use crate::models::lemma_sum_by_take_step;
use crate::models::lemma_sum_by_take_le;
use crate::timeline::HOUR_MS;
use crate::timeline::MAX_TIMESTAMP_MS;
use crate::timeline::WINDOW_MS;
use crate::timeline::floor_to_hour;
use crate::timeline::spec_floor_to_hour;
use crate::timeline::lemma_floor_to_hour_bounds;

verus! {

/// The anchor of the block holding record group `g`: the top of the hour of
/// the group's first record.
pub open spec fn group_start(g: Seq<UsageEntry>) -> int
    recommends
        g.len() > 0,
{
    spec_floor_to_hour(g[0].timestamp as int)
}

/// The partition of a record sequence into session-block member groups.
/// Reading the records left to right: a record less than one window past the
/// open block's anchor joins it; any other record opens a new group.
pub open spec fn session_groups(s: Seq<UsageEntry>) -> Seq<Seq<UsageEntry>>
    decreases s.len(),
{
    if s.len() == 0 {
        Seq::empty()
    } else {
        let prev = session_groups(s.drop_last());
        let e = s.last();
        if prev.len() == 0 {
            seq![seq![e]]
        } else {
            let cur = prev.last();
            if (e.timestamp as int) < group_start(cur) + WINDOW_MS {
                prev.update(prev.len() - 1, cur.push(e))
            } else {
                prev.push(seq![e])
            }
        }
    }
}

/// `b` is exactly the session block of member group `g`, evaluated at
/// instant `now`: anchored window, activity re-derived from `now`, totals
/// summed from the members, models distinct in order of first appearance,
/// and no burn rate attached.
pub open spec fn block_matches(b: SessionBlock, g: Seq<UsageEntry>, now: int) -> bool {
    &&& g.len() > 0
    &&& b.start_time == group_start(g)
    &&& b.end_time == group_start(g) + WINDOW_MS
    &&& b.is_active == (b.start_time <= now < b.end_time)
    &&& b.input_tokens == sum_input(g)
    &&& b.output_tokens == sum_output(g)
    &&& b.cache_creation_tokens == sum_cache_creation(g)
    &&& b.cache_read_tokens == sum_cache_read(g)
    &&& b.total_tokens == sum_tokens(g)
    &&& b.total_cost == sum_cost(g)
    &&& b.models.deep_view() == distinct_models(g)
    &&& b.entry_count == g.len()
    &&& b.burn_rate is None
}

/// Whether the model list already holds `m`.
fn contains_model(models: &Vec<String>, m: &String) -> (r: bool)
    ensures
        r == models.deep_view().contains(m@),
{
    let mut k: usize = 0;
    while k < models.len()
        invariant
            k <= models@.len(),
            forall|t: int| 0 <= t < k ==> models.deep_view()[t] != m@,
        decreases models@.len() - k,
    {
        if models[k] == *m {
            assert(models.deep_view().contains(m@)) by {
                assert(models.deep_view()[k as int] == m@);
            }
            return true;
        }
        k += 1;
    }
    false
}

/// Builds the closed session block of one member group: sums every counter
/// and the cost across the members, collects the distinct models, counts the
/// members, and re-derives activity from `now`.
fn create_block(start_time: u64, entries: Vec<UsageEntry>, now: u64) -> (b: SessionBlock)
    requires
        entries@.len() > 0,
        start_time == group_start(entries@),
        start_time <= MAX_TIMESTAMP_MS,
        sum_tokens(entries@) <= u64::MAX,
        sum_cost(entries@) <= u64::MAX,
    ensures
        block_matches(b, entries@, now as int),
{
    let end_time = start_time + WINDOW_MS;
    let is_active = now >= start_time && now < end_time;

    let mut input_tokens: u64 = 0;
    let mut output_tokens: u64 = 0;
    let mut cache_creation_tokens: u64 = 0;
    let mut cache_read_tokens: u64 = 0;
    let mut total_cost: u64 = 0;
    let mut models: Vec<String> = Vec::new();

    let ghost s = entries@;
    let mut j: usize = 0;
    while j < entries.len()
        invariant
            entries@ == s,
            j <= s.len(),
            sum_tokens(s) <= u64::MAX,
            sum_cost(s) <= u64::MAX,
            input_tokens == sum_input(s.take(j as int)),
            output_tokens == sum_output(s.take(j as int)),
            cache_creation_tokens == sum_cache_creation(s.take(j as int)),
            cache_read_tokens == sum_cache_read(s.take(j as int)),
            total_cost == sum_cost(s.take(j as int)),
            models.deep_view() == distinct_models(s.take(j as int)),
        decreases s.len() - j,
    {
        let ghost ji = j as int;
        proof {
            lemma_sum_by_take_step(s, input_of(), ji);
            lemma_sum_by_take_step(s, output_of(), ji);
            lemma_sum_by_take_step(s, cache_creation_of(), ji);
            lemma_sum_by_take_step(s, cache_read_of(), ji);
            lemma_sum_by_take_step(s, cost_of(), ji);
            lemma_sum_by_take_le(s, input_of(), ji + 1);
            lemma_sum_by_take_le(s, output_of(), ji + 1);
            lemma_sum_by_take_le(s, cache_creation_of(), ji + 1);
            lemma_sum_by_take_le(s, cache_read_of(), ji + 1);
            lemma_sum_by_take_le(s, cost_of(), ji + 1);
            lemma_sum_by_nonneg(s, input_of());
            lemma_sum_by_nonneg(s, output_of());
            lemma_sum_by_nonneg(s, cache_creation_of());
            lemma_sum_by_nonneg(s, cache_read_of());
        }
        let e = &entries[j];
        input_tokens = input_tokens + e.input_tokens;
        output_tokens = output_tokens + e.output_tokens;
        cache_creation_tokens = cache_creation_tokens + e.cache_creation_tokens;
        cache_read_tokens = cache_read_tokens + e.cache_read_tokens;
        total_cost = total_cost + e.cost;
        let ghost old_models = models.deep_view();
        if !contains_model(&models, &e.model) {
            models.push(e.model.clone());
            proof {
                assert(models.deep_view() =~= old_models.push(s[ji].model@));
            }
        }
        proof {
            assert(s.take(ji + 1).drop_last() =~= s.take(ji));
            assert(s.take(ji + 1).last() == s[ji]);
        }
        j += 1;
    }
    proof {
        assert(s.take(s.len() as int) =~= s);
        lemma_sum_by_nonneg(s, input_of());
        lemma_sum_by_nonneg(s, output_of());
        lemma_sum_by_nonneg(s, cache_creation_of());
        lemma_sum_by_nonneg(s, cache_read_of());
    }
    let total_tokens = input_tokens + output_tokens + cache_creation_tokens + cache_read_tokens;
    let entry_count = entries.len();
    SessionBlock {
        start_time,
        end_time,
        is_active,
        input_tokens,
        output_tokens,
        cache_creation_tokens,
        cache_read_tokens,
        total_tokens,
        total_cost,
        models,
        entry_count,
        burn_rate: None,
    }
}

/// Whether instant `now` falls inside the block's window. Activity is
/// re-derived from the window bounds at every evaluation, never read off a
/// stored flag.
pub open spec fn spec_is_active_at(b: SessionBlock, now: int) -> bool {
    b.start_time <= now < b.end_time
}

/// Whether instant `now` falls inside the block's window.
pub fn block_is_active(b: &SessionBlock, now: u64) -> (r: bool)
    ensures
        r == spec_is_active_at(*b, now as int),
{
    now >= b.start_time && now < b.end_time
}

/// Finds the earliest block whose window contains `now`, searching rather
/// than assuming the last block is the live one: the record stream may have
/// stopped long before `now`.
pub fn find_active_block(blocks: &Vec<SessionBlock>, now: u64) -> (r: Option<usize>)
    ensures
        r matches Some(k) ==> k < blocks@.len() && spec_is_active_at(blocks@[k as int], now as int)
            && (forall|j: int| 0 <= j < k ==> !spec_is_active_at(blocks@[j], now as int)),
        r is None ==> forall|j: int|
            0 <= j < blocks@.len() ==> !spec_is_active_at(blocks@[j], now as int),
{
    let mut k: usize = 0;
    while k < blocks.len()
        invariant
            k <= blocks@.len(),
            forall|j: int| 0 <= j < k ==> !spec_is_active_at(blocks@[j], now as int),
        decreases blocks@.len() - k,
    {
        if block_is_active(&blocks[k], now) {
            return Some(k);
        }
        k += 1;
    }
    None
}

/// The state the segmentation loop maintains after `i` records: the closed
/// blocks match the finished groups, and the open block's members are the
/// contiguous run of records since `first_idx`, forming the last group.
spec fn seg_loop_inv(
    s: Seq<UsageEntry>,
    i: int,
    first_idx: int,
    blocks: Seq<SessionBlock>,
    cur: Seq<UsageEntry>,
    cur_start: Option<u64>,
    now: int,
) -> bool {
    let gs = session_groups(s.take(i));
    &&& 0 <= i <= s.len()
    &&& (i == 0 ==> blocks.len() == 0 && cur.len() == 0 && cur_start is None)
    &&& (i > 0 ==> {
        &&& 0 <= first_idx < i
        &&& cur == s.subrange(first_idx, i)
        &&& gs.len() == blocks.len() + 1
        &&& gs[gs.len() - 1] == cur
        &&& cur_start == Some((group_start(cur) as u64))
        &&& (forall|j: int| 0 <= j < blocks.len() ==> block_matches(blocks[j], gs[j], now))
    })
}

/// Per-group sums are bounded by the whole input's sums.
proof fn lemma_group_sums_bounded(s: Seq<UsageEntry>, a: int, b: int)
    requires
        0 <= a <= b <= s.len(),
    ensures
        sum_tokens(s.subrange(a, b)) <= sum_tokens(s),
        sum_cost(s.subrange(a, b)) <= sum_cost(s),
        sum_tokens(s.subrange(a, b)) >= 0,
        sum_cost(s.subrange(a, b)) >= 0,
{
    crate::models::lemma_sum_by_subrange_le(s, input_of(), a, b);
    crate::models::lemma_sum_by_subrange_le(s, output_of(), a, b);
    crate::models::lemma_sum_by_subrange_le(s, cache_creation_of(), a, b);
    crate::models::lemma_sum_by_subrange_le(s, cache_read_of(), a, b);
    crate::models::lemma_sum_by_subrange_le(s, cost_of(), a, b);
    lemma_sum_by_nonneg(s.subrange(a, b), input_of());
    lemma_sum_by_nonneg(s.subrange(a, b), output_of());
    lemma_sum_by_nonneg(s.subrange(a, b), cache_creation_of());
    lemma_sum_by_nonneg(s.subrange(a, b), cache_read_of());
    lemma_sum_by_nonneg(s.subrange(a, b), cost_of());
}

/// Partitions a record sequence into session blocks, per the anchoring rule:
/// a block opens at the top of the hour of its first record, spans one
/// window, and takes every record inside that window; a record at or past
/// the window's end closes it and opens the next. `now` is the single
/// evaluation instant used to mark activity.
///
/// Correctness of the grouping against real sessions rests on the records
/// arriving in ascending timestamp order; the grouping itself is defined,
/// and proved, for any order.
pub fn identify_session_blocks(entries: Vec<UsageEntry>, now: u64) -> (blocks: Vec<SessionBlock>)
    requires
        sum_tokens(entries@) <= u64::MAX,
        sum_cost(entries@) <= u64::MAX,
        forall|t: int| 0 <= t < entries@.len() ==> (#[trigger] entries@[t]).timestamp <= MAX_TIMESTAMP_MS,
    ensures
        blocks@.len() == session_groups(entries@).len(),
        forall|j: int| 0 <= j < blocks@.len()
            ==> block_matches(blocks@[j], session_groups(entries@)[j], now as int),
{
    let ghost s = entries@;
    if entries.len() == 0 {
        return Vec::new();
    }

    let mut rest = entries;
    let mut blocks: Vec<SessionBlock> = Vec::new();
    let mut current_block_start: Option<u64> = None;
    let mut current_block_entries: Vec<UsageEntry> = Vec::new();
    let ghost mut first_idx: int = 0;

    while rest.len() > 0
        invariant
            rest@.len() <= s.len(),
            rest@ == s.skip(s.len() - rest@.len()),
            sum_tokens(s) <= u64::MAX,
            sum_cost(s) <= u64::MAX,
            forall|t: int| 0 <= t < s.len() ==> (#[trigger] s[t]).timestamp <= MAX_TIMESTAMP_MS,
            seg_loop_inv(
                s,
                s.len() - rest@.len(),
                first_idx,
                blocks@,
                current_block_entries@,
                current_block_start,
                now as int,
            ),
        decreases rest@.len(),
    {
        let ghost i = s.len() - rest@.len();
        let ghost gs = session_groups(s.take(i));
        let e = rest.remove(0);
        proof {
            assert(e == s[i]);
            assert(rest@ =~= s.skip(i + 1));
            assert(s.take(i + 1).drop_last() =~= s.take(i));
            assert(s.take(i + 1).last() == s[i]);
            lemma_floor_to_hour_bounds(s[i].timestamp as int);
        }
        match current_block_start {
            Some(block_start) => {
                proof {
                    assert(current_block_entries@ == s.subrange(first_idx, i));
                    assert(current_block_entries@[0] == s[first_idx]);
                    lemma_floor_to_hour_bounds(s[first_idx].timestamp as int);
                }
                if e.timestamp < block_start + WINDOW_MS {
                    current_block_entries.push(e);
                    proof {
                        let gs2 = session_groups(s.take(i + 1));
                        assert(gs2 == gs.update(gs.len() - 1, gs[gs.len() - 1].push(s[i])));
                        assert(current_block_entries@ =~= s.subrange(first_idx, i + 1));
                        assert(gs2[gs2.len() - 1] == current_block_entries@);
                        assert(group_start(current_block_entries@)
                            == group_start(s.subrange(first_idx, i)));
                        assert(forall|j: int| 0 <= j < blocks@.len() ==> gs2[j] == gs[j]);
                    }
                } else {
                    proof {
                        lemma_group_sums_bounded(s, first_idx, i);
                    }
                    let closed = create_block(block_start, current_block_entries, now);
                    blocks.push(closed);
                    current_block_start = Some(floor_to_hour(e.timestamp));
                    current_block_entries = Vec::new();
                    current_block_entries.push(e);
                    proof {
                        first_idx = i;
                        let gs2 = session_groups(s.take(i + 1));
                        assert(gs2 == gs.push(seq![s[i]]));
                        assert(current_block_entries@ =~= s.subrange(i, i + 1));
                        assert(group_start(current_block_entries@)
                            == spec_floor_to_hour(s[i].timestamp as int));
                        assert(forall|j: int| 0 <= j < blocks@.len() - 1 ==> gs2[j] == gs[j]);
                        assert(blocks@[blocks@.len() - 1] == closed);
                        assert(gs2[blocks@.len() - 1] == gs[gs.len() - 1]);
                    }
                }
            },
            None => {
                proof {
                    assert(i == 0);
                    assert(s.take(0int) =~= Seq::<UsageEntry>::empty());
                }
                current_block_start = Some(floor_to_hour(e.timestamp));
                current_block_entries.push(e);
                proof {
                    first_idx = 0;
                    let gs2 = session_groups(s.take(1int));
                    assert(gs2 =~= seq![seq![s[0int]]]);
                    assert(current_block_entries@ =~= s.subrange(0int, 1int));
                    assert(current_block_entries@ =~= seq![s[0int]]);
                }
            },
        }
    }

    let ghost i = s.len() as int;
    proof {
        assert(s.take(i) =~= s);
        assert(current_block_entries@.len() > 0);
        assert(current_block_entries@ == s.subrange(first_idx, i));
        assert(current_block_entries@[0] == s[first_idx]);
        lemma_floor_to_hour_bounds(s[first_idx].timestamp as int);
        lemma_group_sums_bounded(s, first_idx, i);
    }
    match current_block_start {
        Some(block_start) => {
            if current_block_entries.len() > 0 {
                let closed = create_block(block_start, current_block_entries, now);
                blocks.push(closed);
            }
        },
        None => {},
    }
    blocks
}

/// Number of member records over all groups.
pub open spec fn total_entry_count(gs: Seq<Seq<UsageEntry>>) -> int
    decreases gs.len(),
{
    if gs.len() == 0 {
        0
    } else {
        total_entry_count(gs.drop_last()) + gs.last().len()
    }
}

/// Every group is non-empty, and there are groups exactly when there are
/// records.
proof fn lemma_groups_nonempty(s: Seq<UsageEntry>)
    ensures
        s.len() == 0 <==> session_groups(s).len() == 0,
        forall|j: int| 0 <= j < session_groups(s).len()
            ==> (#[trigger] session_groups(s)[j]).len() > 0,
    decreases s.len(),
{
    if s.len() > 0 {
        lemma_groups_nonempty(s.drop_last());
    }
}

/// The groups concatenate back to the record sequence: nothing dropped,
/// nothing duplicated, order kept.
proof fn lemma_groups_flatten(s: Seq<UsageEntry>)
    ensures
        session_groups(s).flatten_alt() =~= s,
    decreases s.len(),
{
    if s.len() > 0 {
        lemma_groups_flatten(s.drop_last());
        lemma_groups_nonempty(s.drop_last());
        let prev = session_groups(s.drop_last());
        let e = s.last();
        let gs = session_groups(s);
        if prev.len() == 0 {
            assert(gs =~= seq![seq![e]]);
            assert(gs.drop_last() =~= Seq::<Seq<UsageEntry>>::empty());
            assert(gs.flatten_alt() =~= seq![e]);
            assert(s =~= seq![e]);
        } else {
            let cur = prev.last();
            if (e.timestamp as int) < group_start(cur) + WINDOW_MS {
                let gs2 = prev.update(prev.len() - 1, cur.push(e));
                assert(gs == gs2);
                assert(gs2.drop_last() =~= prev.drop_last());
                assert(gs2.last() == cur.push(e));
                assert(gs2.flatten_alt() == prev.drop_last().flatten_alt() + cur.push(e));
                assert(prev.flatten_alt() == prev.drop_last().flatten_alt() + cur);
                assert(prev.drop_last().flatten_alt() + cur.push(e)
                    =~= (prev.drop_last().flatten_alt() + cur).push(e));
                assert(gs2.flatten_alt() =~= s.drop_last().push(e));
                assert(s.drop_last().push(e) =~= s);
            } else {
                let gs2 = prev.push(seq![e]);
                assert(gs == gs2);
                assert(gs2.drop_last() =~= prev);
                assert(gs2.flatten_alt() == prev.flatten_alt() + seq![e]);
                assert(prev.flatten_alt() + seq![e] =~= s.drop_last().push(e));
                assert(s.drop_last().push(e) =~= s);
            }
        }
    }
}

/// The member counts of the groups add up to their concatenation's length.
proof fn lemma_total_entry_count(gs: Seq<Seq<UsageEntry>>)
    ensures
        total_entry_count(gs) == gs.flatten_alt().len(),
    decreases gs.len(),
{
    if gs.len() > 0 {
        lemma_total_entry_count(gs.drop_last());
    }
}

/// Partition law: concatenating the groups of a record sequence gives back
/// exactly that sequence — every record lands in exactly one group, once —
/// and so the groups' member counts add up to the number of records.
pub proof fn lemma_blocks_partition(s: Seq<UsageEntry>)
    ensures
        session_groups(s).flatten() == s,
        total_entry_count(session_groups(s)) == s.len(),
{
    lemma_groups_flatten(s);
    lemma_total_entry_count(session_groups(s));
    session_groups(s).lemma_flatten_and_flatten_alt_are_equivalent();
}

/// Anchoring law: every group's start instant sits exactly at the top of an
/// hour — minutes, seconds and sub-second parts zero.
pub proof fn lemma_blocks_anchoring(s: Seq<UsageEntry>)
    ensures
        forall|j: int| 0 <= j < session_groups(s).len()
            ==> #[trigger] group_start(session_groups(s)[j]) % (HOUR_MS as int) == 0,
{
    lemma_groups_nonempty(s);
    let gs = session_groups(s);
    assert forall|j: int| 0 <= j < gs.len()
        implies #[trigger] group_start(gs[j]) % (HOUR_MS as int) == 0 by {
        lemma_floor_to_hour_bounds(gs[j][0].timestamp as int);
    }
}

/// The inductive heart of the ordering laws. For records in ascending
/// timestamp order: every member of a group lies inside its group's window,
/// consecutive group starts are at least one window apart, and the last
/// group's start is no later than the last record.
proof fn lemma_groups_sorted_structure(s: Seq<UsageEntry>)
    requires
        crate::models::sorted_by_timestamp(s),
    ensures
        forall|j: int, k: int|
            0 <= j < session_groups(s).len() && 0 <= k < session_groups(s)[j].len()
                ==> group_start(#[trigger] session_groups(s)[j])
                    <= #[trigger] session_groups(s)[j][k].timestamp
                    < group_start(session_groups(s)[j]) + WINDOW_MS,
        forall|j: int| 0 <= j < session_groups(s).len() - 1
            ==> group_start(#[trigger] session_groups(s)[j]) + WINDOW_MS
                <= group_start(session_groups(s)[j + 1]),
        session_groups(s).len() > 0
            ==> group_start(session_groups(s).last()) <= s.last().timestamp,
    decreases s.len(),
{
    if s.len() > 0 {
        let d = s.drop_last();
        assert(crate::models::sorted_by_timestamp(d)) by {
            assert(forall|i: int, j: int| 0 <= i <= j < d.len() ==> d[i].timestamp <= d[j].timestamp);
        }
        lemma_groups_sorted_structure(d);
        lemma_groups_nonempty(d);
        lemma_groups_nonempty(s);
        let prev = session_groups(d);
        let e = s.last();
        let gs = session_groups(s);
        lemma_floor_to_hour_bounds(e.timestamp as int);
        if prev.len() == 0 {
            assert(gs =~= seq![seq![e]]);
            assert(gs[0][0] == e);
        } else {
            let cur = prev.last();
            let start = group_start(cur);
            lemma_floor_to_hour_bounds(cur[0].timestamp as int);
            // The last record of the shorter sequence bounds the open
            // group's start from above, and the new record from below.
            assert(d.last().timestamp <= e.timestamp);
            if (e.timestamp as int) < start + WINDOW_MS {
                let gs2 = prev.update(prev.len() - 1, cur.push(e));
                assert(gs == gs2);
                assert(start <= d.last().timestamp <= e.timestamp);
                assert(cur.push(e)[0] == cur[0]);
                assert(group_start(cur.push(e)) == start);
                assert(forall|j: int| 0 <= j < gs2.len() - 1 ==> gs2[j] == prev[j]);
                assert forall|j: int, k: int|
                    0 <= j < gs2.len() && 0 <= k < gs2[j].len()
                        implies group_start(#[trigger] gs2[j])
                            <= #[trigger] gs2[j][k].timestamp
                            < group_start(gs2[j]) + WINDOW_MS by {
                    if j == gs2.len() - 1 && k == gs2[j].len() - 1 {
                        assert(gs2[j][k] == e);
                    } else {
                        assert(gs2[j][k] == prev[j][k]);
                    }
                }
            } else {
                let gs2 = prev.push(seq![e]);
                assert(gs == gs2);
                // The closed group's start is hour-aligned, so one window
                // past it is too, and the new anchor cannot fall below it.
                vstd::arithmetic::div_mod::lemma_mod_multiples_vanish(
                    5int,
                    start,
                    HOUR_MS as int,
                );
                assert((start + WINDOW_MS) % (HOUR_MS as int) == start % (HOUR_MS as int));
                crate::timeline::lemma_floor_to_hour_at_least(
                    start + WINDOW_MS,
                    e.timestamp as int,
                );
                assert(group_start(seq![e]) == spec_floor_to_hour(e.timestamp as int));
                assert(forall|j: int| 0 <= j < prev.len() ==> gs2[j] == prev[j]);
                assert forall|j: int, k: int|
                    0 <= j < gs2.len() && 0 <= k < gs2[j].len()
                        implies group_start(#[trigger] gs2[j])
                            <= #[trigger] gs2[j][k].timestamp
                            < group_start(gs2[j]) + WINDOW_MS by {
                    if j == gs2.len() - 1 {
                        assert(gs2[j] =~= seq![e]);
                        assert(gs2[j][k] == e);
                    } else {
                        assert(gs2[j][k] == prev[j][k]);
                    }
                }
            }
        }
    }
}

/// Window-membership law: with records in ascending timestamp order, every
/// member of a group lies inside its group's five-hour window.
pub proof fn lemma_blocks_window_membership(s: Seq<UsageEntry>)
    requires
        crate::models::sorted_by_timestamp(s),
    ensures
        forall|j: int, k: int|
            0 <= j < session_groups(s).len() && 0 <= k < session_groups(s)[j].len()
                ==> group_start(#[trigger] session_groups(s)[j])
                    <= #[trigger] session_groups(s)[j][k].timestamp
                    < group_start(session_groups(s)[j]) + WINDOW_MS,
{
    lemma_groups_sorted_structure(s);
}

/// Non-overlap law: with records in ascending timestamp order, consecutive
/// groups start in order and a full window apart, so the windows never
/// overlap — gaps between them are allowed. No two groups share a member:
/// that is the partition law, `lemma_blocks_partition`.
pub proof fn lemma_blocks_non_overlap(s: Seq<UsageEntry>)
    requires
        crate::models::sorted_by_timestamp(s),
    ensures
        forall|j: int| 0 <= j < session_groups(s).len() - 1
            ==> group_start(#[trigger] session_groups(s)[j])
                <= group_start(session_groups(s)[j + 1]),
        forall|j: int| 0 <= j < session_groups(s).len() - 1
            ==> group_start(#[trigger] session_groups(s)[j]) + WINDOW_MS
                <= group_start(session_groups(s)[j + 1]),
{
    lemma_groups_sorted_structure(s);
}

/// Any two groups, not only consecutive ones, start at least one window
/// apart.
proof fn lemma_groups_start_separation(s: Seq<UsageEntry>, j: int, k: int)
    requires
        crate::models::sorted_by_timestamp(s),
        0 <= j < k < session_groups(s).len(),
    ensures
        group_start(session_groups(s)[j]) + WINDOW_MS <= group_start(session_groups(s)[k]),
    decreases k - j,
{
    lemma_groups_sorted_structure(s);
    if k > j + 1 {
        lemma_groups_start_separation(s, j, k - 1);
    }
}

/// At most one block among all blocks of one record sequence is active at a
/// given instant: the windows are disjoint, so no instant falls inside two.
pub proof fn lemma_at_most_one_active(
    blocks: Seq<SessionBlock>,
    s: Seq<UsageEntry>,
    now: int,
)
    requires
        crate::models::sorted_by_timestamp(s),
        blocks.len() == session_groups(s).len(),
        forall|j: int| 0 <= j < blocks.len()
            ==> block_matches(#[trigger] blocks[j], session_groups(s)[j], now),
    ensures
        forall|j: int, k: int|
            0 <= j < k < blocks.len()
                ==> !(spec_is_active_at(#[trigger] blocks[j], now)
                    && spec_is_active_at(#[trigger] blocks[k], now)),
{
    assert forall|j: int, k: int|
        0 <= j < k < blocks.len()
            implies !(spec_is_active_at(#[trigger] blocks[j], now)
                && spec_is_active_at(#[trigger] blocks[k], now)) by {
        lemma_groups_start_separation(s, j, k);
    }
}

/// Number of member records over a sequence of blocks.
pub open spec fn blocks_entry_count(blocks: Seq<SessionBlock>) -> int
    decreases blocks.len(),
{
    if blocks.len() == 0 {
        0
    } else {
        blocks_entry_count(blocks.drop_last()) + blocks.last().entry_count
    }
}

/// Matching blocks count exactly what their groups count.
proof fn lemma_blocks_entry_count_matches(
    blocks: Seq<SessionBlock>,
    gs: Seq<Seq<UsageEntry>>,
    now: int,
)
    requires
        blocks.len() == gs.len(),
        forall|j: int| 0 <= j < blocks.len() ==> block_matches(#[trigger] blocks[j], gs[j], now),
    ensures
        blocks_entry_count(blocks) == total_entry_count(gs),
    decreases blocks.len(),
{
    if blocks.len() > 0 {
        assert(forall|j: int| 0 <= j < blocks.len() - 1
            ==> block_matches(#[trigger] blocks.drop_last()[j], gs.drop_last()[j], now));
        lemma_blocks_entry_count_matches(blocks.drop_last(), gs.drop_last(), now);
        assert(block_matches(blocks[blocks.len() - 1], gs[gs.len() - 1], now));
    }
}

/// The partition and anchoring laws, read off the blocks themselves: the
/// blocks' member counts add up to the number of records — no record
/// dropped or duplicated — every block starts at the top of an hour, and
/// every block spans exactly one window.
pub proof fn lemma_session_blocks_laws(blocks: Seq<SessionBlock>, s: Seq<UsageEntry>, now: int)
    requires
        blocks.len() == session_groups(s).len(),
        forall|j: int| 0 <= j < blocks.len()
            ==> block_matches(#[trigger] blocks[j], session_groups(s)[j], now),
    ensures
        blocks_entry_count(blocks) == s.len(),
        forall|j: int| 0 <= j < blocks.len()
            ==> (#[trigger] blocks[j]).start_time % HOUR_MS == 0,
        forall|j: int| 0 <= j < blocks.len()
            ==> (#[trigger] blocks[j]).end_time == blocks[j].start_time + WINDOW_MS,
{
    lemma_blocks_partition(s);
    lemma_blocks_entry_count_matches(blocks, session_groups(s), now);
    lemma_blocks_anchoring(s);
}

/// The ordering laws, read off the blocks themselves, for records in
/// ascending timestamp order: blocks appear in non-decreasing start order
/// and their windows never overlap — one block ends before the next starts,
/// idle gaps allowed — and every member record of a block falls inside that
/// block's window.
pub proof fn lemma_session_blocks_sorted_laws(
    blocks: Seq<SessionBlock>,
    s: Seq<UsageEntry>,
    now: int,
)
    requires
        crate::models::sorted_by_timestamp(s),
        blocks.len() == session_groups(s).len(),
        forall|j: int| 0 <= j < blocks.len()
            ==> block_matches(#[trigger] blocks[j], session_groups(s)[j], now),
    ensures
        forall|j: int| 0 <= j < blocks.len() - 1
            ==> (#[trigger] blocks[j]).start_time <= blocks[j + 1].start_time,
        forall|j: int| 0 <= j < blocks.len() - 1
            ==> (#[trigger] blocks[j]).end_time <= blocks[j + 1].start_time,
        forall|j: int, k: int|
            0 <= j < blocks.len() && 0 <= k < session_groups(s)[j].len()
                ==> (#[trigger] blocks[j]).start_time
                    <= #[trigger] session_groups(s)[j][k].timestamp < blocks[j].end_time,
{
    lemma_groups_sorted_structure(s);
}

/// The fields of two blocks agree: same window, same activity, same totals,
/// same models in the same order, same member count, and no burn rate.
pub open spec fn same_block(a: SessionBlock, b: SessionBlock) -> bool {
    &&& a.start_time == b.start_time
    &&& a.end_time == b.end_time
    &&& a.is_active == b.is_active
    &&& a.input_tokens == b.input_tokens
    &&& a.output_tokens == b.output_tokens
    &&& a.cache_creation_tokens == b.cache_creation_tokens
    &&& a.cache_read_tokens == b.cache_read_tokens
    &&& a.total_tokens == b.total_tokens
    &&& a.total_cost == b.total_cost
    &&& a.models.deep_view() == b.models.deep_view()
    &&& a.entry_count == b.entry_count
    &&& a.burn_rate is None
    &&& b.burn_rate is None
}

/// Idempotence law: the contract of `identify_session_blocks` pins every
/// block field as a function of the records and the evaluation instant
/// alone, so two runs over the same sorted input give identical block
/// boundaries and aggregates.
pub proof fn lemma_segmentation_deterministic(
    b1: Seq<SessionBlock>,
    b2: Seq<SessionBlock>,
    s: Seq<UsageEntry>,
    now: int,
)
    requires
        b1.len() == session_groups(s).len(),
        forall|j: int| 0 <= j < b1.len() ==> block_matches(#[trigger] b1[j], session_groups(s)[j], now),
        b2.len() == session_groups(s).len(),
        forall|j: int| 0 <= j < b2.len() ==> block_matches(#[trigger] b2[j], session_groups(s)[j], now),
    ensures
        b1.len() == b2.len(),
        forall|j: int| 0 <= j < b1.len() ==> same_block(#[trigger] b1[j], b2[j]),
{
}

} // verus!
