//! Reconstruction of fixed-length billing windows ("session blocks") from a
//! time-ordered stream of usage records, aggregation of token and cost totals
//! inside each window, and linear projection of when a configured token budget
//! will run out.
//!
//! Instants are plain integers: milliseconds since the Unix epoch, UTC.
//! Monetary amounts are plain integers in whatever minor currency unit the
//! caller picks (the same unit throughout); the engine never converts units.

mod blocks;
mod burn;
mod entries;
mod models;
mod timeline;

pub use blocks::block_is_active;
pub use blocks::block_matches;
pub use blocks::find_active_block;
pub use blocks::group_start;
pub use blocks::identify_session_blocks;
pub use blocks::blocks_entry_count;
pub use blocks::lemma_at_most_one_active;
pub use blocks::lemma_blocks_anchoring;
pub use blocks::lemma_session_blocks_laws;
pub use blocks::lemma_session_blocks_sorted_laws;
pub use blocks::lemma_blocks_non_overlap;
pub use blocks::lemma_blocks_partition;
pub use blocks::lemma_blocks_window_membership;
pub use blocks::lemma_segmentation_deterministic;
pub use blocks::same_block;
pub use blocks::session_groups;
pub use blocks::spec_is_active_at;
pub use blocks::total_entry_count;
pub use entries::effective_model;
pub use entries::keeps_model;
pub use entries::limit_minutes_of;
pub use entries::normalize_entry;
pub use entries::recommend_profile;
pub use entries::sort_entries_by_timestamp;
pub use burn::burn_rate_matches;
pub use burn::lemma_budget_saturation;
pub use burn::lemma_project_saturation;
pub use burn::project;
pub use burn::spec_cost_per_hour;
pub use burn::spec_elapsed_minutes;
pub use burn::spec_minutes_until_limit;
pub use burn::spec_projected_cost;
pub use burn::spec_projected_tokens;
pub use burn::spec_tokens_per_minute;
pub use burn::spec_tokens_remaining;

pub use models::BurnRate;
pub use models::MessageData;
pub use models::SessionBlock;
pub use models::TimeUntilLimit;
pub use models::Usage;
pub use models::UsageEntry;
pub use models::distinct_models;
pub use models::sorted_by_timestamp;
pub use models::sum_by;
pub use models::sum_cache_creation;
pub use models::sum_cache_read;
pub use models::sum_cost;
pub use models::sum_input;
pub use models::sum_output;
pub use models::sum_tokens;

pub use timeline::floor_to_hour;
pub use timeline::spec_floor_to_hour;
pub use timeline::HOUR_MS;
pub use timeline::MINUTE_MS;
pub use timeline::SESSION_DURATION_HOURS;
pub use timeline::WINDOW_MINUTES;
pub use timeline::WINDOW_MS;
pub use timeline::MAX_TIMESTAMP_MS;
