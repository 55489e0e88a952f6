//! A karma ledger with daily rate limits.
//!
//! Members of a group award or deduct reputation points ("karma") from one
//! another, subject to an asymmetric daily quota per giver.  When the quota
//! is exhausted, a giver may instead spend one point of their own karma,
//! after an explicit confirmation.  Balances, quota counters, membership and
//! a bounded per-user history are kept in named partitions of an embedded
//! key-value store.

pub mod business;
pub mod codec;
pub mod db;
pub mod engine;
pub mod error;
pub mod laws;
pub mod views;

pub use business::DAY_SECONDS;
pub use business::DEFAULT_DOWN;
pub use business::DEFAULT_UP;
pub use business::GRAPH_MAX_SIZE;
pub use business::current_timestamp;
pub use business::is_assignable_karma_expired;
pub use business::is_assignable_karma_expired_at;
pub use db::Measure;
pub use db::Store;
pub use engine::FallbackOutcome;
pub use engine::GrantOutcome;
pub use engine::GrantRequest;
pub use engine::Karma;
pub use engine::confirm_fallback;
pub use engine::decode_pending;
pub use engine::encode_pending;
pub use engine::grant;
pub use engine::karma_from_text;
pub use error::StoreError;
pub use views::GroupCommand;
pub use views::GroupReply;
pub use views::LeaderboardResult;
pub use views::NoticeSlot;
pub use views::slot_key_bytes;
pub use views::RootCommand;
pub use views::RootReply;
pub use views::Stats;
pub use views::UserCommand;
pub use views::history_series;
pub use views::leaderboard;
pub use views::run_group_command;
pub use views::run_root_command;
pub use views::run_user_command;
pub use views::stats;
