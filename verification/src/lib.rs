//! Order-book bookkeeping and dashboard text for an intent market.
//!
//! The engine side keeps a book of tracked intents, refreshed by incoming
//! envelopes and dropped on expiry, and publishes a snapshot sorted by
//! expiry (`book`, `state`). The dashboard side turns published intents
//! into display text (`token`, `amount`, `board`, `filter`). `clock`
//! holds instants and the chrono calls on them; `text` the character-level
//! helpers that the rest builds on.

pub mod amount;
pub mod board;
pub mod book;
pub mod clock;
pub mod filter;
pub mod state;
pub mod text;
pub mod token;

pub use amount::{format_amount_atoms, group_thousands, parse_atoms};
pub use board::{
    buy_now_atoms, buy_now_atoms_at, buy_range_human, dashboard_row, dashboard_row_at,
    decay_remaining, decay_remaining_at, excl_flag, excl_flag_at, limit_price_plan, row_buildable_at,
    usd_estimate_plan, PricePlan, RowText, UsdPlan,
};
pub use book::{
    deadline_from_normalized, purge_expired, purge_expired_at, upsert_intent, upsert_intent_at,
    upsert_intent_checked,
    Envelope, IntentBook, Normalized, TrackedIntent,
};
pub use clock::{addable, Timestamp, MAX_DELTA_SECS, MAX_UNIX_SECS, MIN_UNIX_SECS};
pub use filter::{
    filter_label, next_filter_on_key, parse_source_filter, source_allowed, SourceSet,
};
pub use state::{engine_state, engine_state_at, EngineIntent, EngineState};
pub use token::{can_shorten, short_addr, short_id, token_info, token_label, TokenInfo, UsdRate};
