//! Turning raw log material into usage records, ordering records by
//! timestamp, and picking the profile with the most room left.
//!
//! Decoding log lines, walking directories and resolving prices stay with
//! the caller; what arrives here is already plain values.

use vstd::prelude::*;
use vstd::string::StringExecFns;

use crate::models::MessageData;
use crate::models::UsageEntry;
use crate::models::sorted_by_timestamp;

verus! {

/// The model identifier a record ends up with: the line's own `model` field
/// when present, else the message's, else the placeholder `"unknown"`.
pub open spec fn effective_model(model: Option<String>, message_model: Option<String>) -> Seq<char> {
    match model {
        Some(m) => m@,
        None => match message_model {
            Some(m) => m@,
            None => "unknown"@,
        },
    }
}

/// A record is kept only when its effective model is a real identifier:
/// non-empty and not the placeholder `"unknown"`.
pub open spec fn keeps_model(model: Option<String>, message_model: Option<String>) -> bool {
    &&& effective_model(model, message_model) != "unknown"@
    &&& effective_model(model, message_model).len() != 0
}

/// Builds one normalized usage record from a decoded log line's parts, or
/// nothing when the line names no real model. The record's `total_tokens` is
/// recomputed from the four counters; `cost` arrives already resolved, in
/// the caller's minor currency unit.
pub fn normalize_entry(
    timestamp: u64,
    message: MessageData,
    model: Option<String>,
    cost: u64,
) -> (r: Option<UsageEntry>)
    requires
        message.usage.input_tokens + message.usage.output_tokens
            + message.usage.cache_creation_input_tokens
            + message.usage.cache_read_input_tokens <= u64::MAX,
    ensures
        r is Some <==> keeps_model(model, message.model),
        r matches Some(e) ==> {
            &&& e.timestamp == timestamp
            &&& e.input_tokens == message.usage.input_tokens
            &&& e.output_tokens == message.usage.output_tokens
            &&& e.cache_creation_tokens == message.usage.cache_creation_input_tokens
            &&& e.cache_read_tokens == message.usage.cache_read_input_tokens
            &&& e.total_tokens == message.usage.input_tokens + message.usage.output_tokens
                + message.usage.cache_creation_input_tokens
                + message.usage.cache_read_input_tokens
            &&& e.cost == cost
            &&& e.model@ == effective_model(model, message.model)
        },
{
    let MessageData { usage, model: message_model } = message;
    let resolved: String = match model {
        Some(m) => m,
        None => match message_model {
            Some(m) => m,
            None => String::from_str("unknown"),
        },
    };
    let placeholder = String::from_str("unknown");
    if resolved == placeholder || resolved.as_str().is_empty() {
        return None;
    }
    let total_tokens = usage.input_tokens + usage.output_tokens
        + usage.cache_creation_input_tokens + usage.cache_read_input_tokens;
    Some(UsageEntry {
        timestamp,
        input_tokens: usage.input_tokens,
        output_tokens: usage.output_tokens,
        cache_creation_tokens: usage.cache_creation_input_tokens,
        cache_read_tokens: usage.cache_read_input_tokens,
        total_tokens,
        cost,
        model: resolved,
    })
}

/// Sorts records into ascending timestamp order in place, keeping exactly
/// the records it was given. The segmenter's ordering laws hold of input in
/// this order.
pub fn sort_entries_by_timestamp(entries: &mut Vec<UsageEntry>)
    ensures
        sorted_by_timestamp(final(entries)@),
        final(entries)@.to_multiset() == old(entries)@.to_multiset(),
        final(entries)@.len() == old(entries)@.len(),
{
    let ghost orig = entries@;
    let n = entries.len();
    let mut i: usize = 1;
    while i < n
        invariant
            entries@.len() == n,
            entries@.to_multiset() == orig.to_multiset(),
            n == orig.len(),
            1 <= i || n == 0,
            i <= n || n == 0,
            forall|a: int, b: int|
                0 <= a <= b < i && b < n ==> entries@[a].timestamp <= entries@[b].timestamp,
        decreases n - i,
    {
        let ghost before = entries@;
        let e = entries.remove(i);
        proof {
            broadcast use vstd::seq_lib::group_to_multiset_ensures;

            assert(entries@ == before.remove(i as int));
            assert(entries@.to_multiset() =~= before.to_multiset().remove(before[i as int]));
            assert(forall|a: int| 0 <= a < i ==> entries@[a] == before[a]);
        }
        let mut j: usize = i;
        while j > 0 && entries[j - 1].timestamp > e.timestamp
            invariant
                j <= i,
                i < n,
                entries@.len() == n - 1,
                entries@ == before.remove(i as int),
                forall|a: int| 0 <= a < i ==> entries@[a] == before[a],
                forall|a: int, b: int|
                    0 <= a <= b < i ==> entries@[a].timestamp <= entries@[b].timestamp,
                forall|a: int| j <= a < i ==> entries@[a].timestamp > e.timestamp,
            decreases j,
        {
            j -= 1;
        }
        let ghost removed = entries@;
        entries.insert(j, e);
        proof {
            broadcast use vstd::seq_lib::group_to_multiset_ensures;
            broadcast use vstd::seq_lib::to_multiset_insert;

            assert(entries@ == removed.insert(j as int, e));
            assert(entries@.to_multiset() == removed.to_multiset().insert(e));
            assert(before.to_multiset().count(before[i as int]) >= 1) by {
                assert(before[i as int] == e);
            }
            assert(entries@.to_multiset() =~= before.to_multiset());
            assert forall|a: int, b: int|
                0 <= a <= b < i + 1 && b < n implies entries@[a].timestamp
                <= entries@[b].timestamp by {
                if j > 0 {
                    assert(removed[j - 1].timestamp <= e.timestamp);
                }
                if a < j && b == j {
                    assert(entries@[a] == removed[a]);
                    assert(removed[a].timestamp <= removed[j - 1].timestamp);
                }
            }
        }
        i += 1;
    }
}

/// `minutes` as a comparable value: the reported minutes, or below every
/// report when there is none.
pub open spec fn limit_minutes_of(o: Option<u64>) -> int {
    match o {
        Some(v) => v as int,
        None => -1,
    }
}

/// Picks the profile with the most minutes left until its limit: the last
/// index reporting the maximum, or nothing when no profile reports any.
pub fn recommend_profile(minutes: &Vec<Option<u64>>) -> (r: Option<usize>)
    ensures
        r matches Some(k) ==> k < minutes@.len() && limit_minutes_of(minutes@[k as int]) >= 0
            && (forall|j: int| 0 <= j < minutes@.len()
                ==> limit_minutes_of(#[trigger] minutes@[j])
                    <= limit_minutes_of(minutes@[k as int]))
            && (forall|j: int| k < j < minutes@.len()
                ==> limit_minutes_of(#[trigger] minutes@[j])
                    < limit_minutes_of(minutes@[k as int])),
        r is None ==> forall|j: int|
            0 <= j < minutes@.len() ==> limit_minutes_of(#[trigger] minutes@[j]) < 0,
{
    let mut best: Option<usize> = None;
    let mut k: usize = 0;
    while k < minutes.len()
        invariant
            k <= minutes@.len(),
            best matches Some(b) ==> b < k && limit_minutes_of(minutes@[b as int]) >= 0
                && (forall|j: int| 0 <= j < k
                    ==> limit_minutes_of(#[trigger] minutes@[j])
                        <= limit_minutes_of(minutes@[b as int]))
                && (forall|j: int| b < j < k
                    ==> limit_minutes_of(#[trigger] minutes@[j])
                        < limit_minutes_of(minutes@[b as int])),
            best is None ==> forall|j: int|
                0 <= j < k ==> limit_minutes_of(#[trigger] minutes@[j]) < 0,
        decreases minutes@.len() - k,
    {
        if let Some(v) = minutes[k] {
            let take_it = match best {
                Some(b) => {
                    if let Some(bv) = minutes[b] {
                        v >= bv
                    } else {
                        true
                    }
                },
                None => true,
            };
            if take_it {
                best = Some(k);
            }
        }
        k += 1;
    }
    best
}

} // verus!
