//! The value types of the engine, and the spec-level folds over record
//! sequences that the contracts are stated in.

use vstd::prelude::*;

verus! {

/// Token counters of one message, as the log supplies them.
#[derive(Debug, Clone)]
pub struct Usage {
    pub input_tokens: u64,
    pub output_tokens: u64,
    pub cache_creation_input_tokens: u64,
    pub cache_read_input_tokens: u64,
}

/// The message part of a raw log line: its counters and, sometimes, the
/// model that produced it.
#[derive(Debug, Clone)]
pub struct MessageData {
    pub usage: Usage,
    pub model: Option<String>,
}

/// One normalized usage record. `timestamp` is milliseconds since the Unix
/// epoch, UTC; `cost` is in the caller's minor currency unit; `model` is a
/// non-empty identifier.
#[derive(Debug)]
pub struct UsageEntry {
    pub timestamp: u64,
    pub input_tokens: u64,
    pub output_tokens: u64,
    pub cache_creation_tokens: u64,
    pub cache_read_tokens: u64,
    pub total_tokens: u64,
    pub cost: u64,
    pub model: String,
}

/// One five-hour billing window and the totals of its member records.
#[derive(Debug)]
pub struct SessionBlock {
    pub start_time: u64,
    pub end_time: u64,
    pub is_active: bool,
    pub input_tokens: u64,
    pub output_tokens: u64,
    pub cache_creation_tokens: u64,
    pub cache_read_tokens: u64,
    pub total_tokens: u64,
    pub total_cost: u64,
    pub models: Vec<String>,
    pub entry_count: usize,
    pub burn_rate: Option<BurnRate>,
}

/// Consumption rate of an active block and its linear projection to the end
/// of the window.
#[derive(Debug, Clone)]
pub struct BurnRate {
    pub elapsed_minutes: u64,
    pub tokens_per_minute: u64,
    pub cost_per_hour: u64,
    pub projected_tokens: u64,
    pub projected_cost: u64,
    pub time_until_limit: Option<TimeUntilLimit>,
}

/// Whole minutes until the token budget runs out at the current rate.
/// Rendering this as text is the presentation layer's business.
#[derive(Debug, Clone)]
pub struct TimeUntilLimit {
    pub minutes: u64,
}

/// Records are in ascending timestamp order.
pub open spec fn sorted_by_timestamp(s: Seq<UsageEntry>) -> bool {
    forall|i: int, j: int|
        0 <= i <= j < s.len() ==> s[i].timestamp <= s[j].timestamp
}

/// Sum of `f` over a record sequence.
pub open spec fn sum_by(s: Seq<UsageEntry>, f: spec_fn(UsageEntry) -> int) -> int
    decreases s.len(),
{
    if s.len() == 0 {
        0
    } else {
        sum_by(s.drop_last(), f) + f(s.last())
    }
}

/// The input-token counter of a record.
pub open spec fn input_of() -> spec_fn(UsageEntry) -> int {
    |e: UsageEntry| e.input_tokens as int
}

/// The output-token counter of a record.
pub open spec fn output_of() -> spec_fn(UsageEntry) -> int {
    |e: UsageEntry| e.output_tokens as int
}

/// The cache-creation-token counter of a record.
pub open spec fn cache_creation_of() -> spec_fn(UsageEntry) -> int {
    |e: UsageEntry| e.cache_creation_tokens as int
}

/// The cache-read-token counter of a record.
pub open spec fn cache_read_of() -> spec_fn(UsageEntry) -> int {
    |e: UsageEntry| e.cache_read_tokens as int
}

/// The cost of a record.
pub open spec fn cost_of() -> spec_fn(UsageEntry) -> int {
    |e: UsageEntry| e.cost as int
}

/// Total input tokens of a record sequence.
pub open spec fn sum_input(s: Seq<UsageEntry>) -> int {
    sum_by(s, input_of())
}

/// Total output tokens of a record sequence.
pub open spec fn sum_output(s: Seq<UsageEntry>) -> int {
    sum_by(s, output_of())
}

/// Total cache-creation tokens of a record sequence.
pub open spec fn sum_cache_creation(s: Seq<UsageEntry>) -> int {
    sum_by(s, cache_creation_of())
}

/// Total cache-read tokens of a record sequence.
pub open spec fn sum_cache_read(s: Seq<UsageEntry>) -> int {
    sum_by(s, cache_read_of())
}

/// Total cost of a record sequence.
pub open spec fn sum_cost(s: Seq<UsageEntry>) -> int {
    sum_by(s, cost_of())
}

/// Total tokens of a record sequence: all four counters together, recomputed
/// from the records themselves, never taken from their `total_tokens` field.
pub open spec fn sum_tokens(s: Seq<UsageEntry>) -> int {
    sum_input(s) + sum_output(s) + sum_cache_creation(s) + sum_cache_read(s)
}

/// The distinct model identifiers of a record sequence, in order of first
/// appearance.
pub open spec fn distinct_models(s: Seq<UsageEntry>) -> Seq<Seq<char>>
    decreases s.len(),
{
    if s.len() == 0 {
        Seq::empty()
    } else {
        let prev = distinct_models(s.drop_last());
        if prev.contains(s.last().model@) {
            prev
        } else {
            prev.push(s.last().model@)
        }
    }
}

/// Stepping a fold: the sum over one more leading record.
pub proof fn lemma_sum_by_take_step(s: Seq<UsageEntry>, f: spec_fn(UsageEntry) -> int, i: int)
    requires
        0 <= i < s.len(),
    ensures
        sum_by(s.take(i + 1), f) == sum_by(s.take(i), f) + f(s[i]),
{
    assert(s.take(i + 1).drop_last() =~= s.take(i));
    assert(s.take(i + 1).last() == s[i]);
}

/// A sum of non-negative contributions is non-negative.
pub proof fn lemma_sum_by_nonneg(s: Seq<UsageEntry>, f: spec_fn(UsageEntry) -> int)
    requires
        forall|j: int| 0 <= j < s.len() ==> #[trigger] f(s[j]) >= 0,
    ensures
        sum_by(s, f) >= 0,
    decreases s.len(),
{
    if s.len() > 0 {
        lemma_sum_by_nonneg(s.drop_last(), f);
    }
}

/// Sums split over concatenation.
pub proof fn lemma_sum_by_concat(a: Seq<UsageEntry>, b: Seq<UsageEntry>, f: spec_fn(UsageEntry) -> int)
    ensures
        sum_by(a + b, f) == sum_by(a, f) + sum_by(b, f),
    decreases b.len(),
{
    if b.len() == 0 {
        assert(a + b =~= a);
    } else {
        assert((a + b).drop_last() =~= a + b.drop_last());
        assert((a + b).last() == b.last());
        lemma_sum_by_concat(a, b.drop_last(), f);
    }
}

/// With non-negative contributions, a prefix sums to no more than the whole.
pub proof fn lemma_sum_by_take_le(s: Seq<UsageEntry>, f: spec_fn(UsageEntry) -> int, i: int)
    requires
        0 <= i <= s.len(),
        forall|j: int| 0 <= j < s.len() ==> #[trigger] f(s[j]) >= 0,
    ensures
        sum_by(s.take(i), f) <= sum_by(s, f),
{
    assert(s =~= s.take(i) + s.skip(i));
    lemma_sum_by_concat(s.take(i), s.skip(i), f);
    assert(forall|j: int|
        0 <= j < s.skip(i).len() ==> #[trigger] f(s.skip(i)[j]) >= 0) by {
        assert(forall|j: int| 0 <= j < s.skip(i).len() ==> s.skip(i)[j] == s[i + j]);
    }
    lemma_sum_by_nonneg(s.skip(i), f);
}

/// With non-negative contributions, any contiguous run sums to no more than
/// the whole.
pub proof fn lemma_sum_by_subrange_le(s: Seq<UsageEntry>, f: spec_fn(UsageEntry) -> int, a: int, b: int)
    requires
        0 <= a <= b <= s.len(),
        forall|j: int| 0 <= j < s.len() ==> #[trigger] f(s[j]) >= 0,
    ensures
        sum_by(s.subrange(a, b), f) <= sum_by(s, f),
{
    assert(s.take(b) =~= s.take(a) + s.subrange(a, b));
    lemma_sum_by_concat(s.take(a), s.subrange(a, b), f);
    assert(forall|j: int|
        0 <= j < s.take(a).len() ==> #[trigger] f(s.take(a)[j]) >= 0) by {
        assert(forall|j: int| 0 <= j < s.take(a).len() ==> s.take(a)[j] == s[j]);
    }
    lemma_sum_by_nonneg(s.take(a), f);
    lemma_sum_by_take_le(s, f, b);
}

} // verus!
