//! Moderation ledger and shared content store: infraction catalog, case and
//! punishment logs, point tallies and user-owned tags.
//!
//! `database::Database` is an in-memory reference model of the store, whose
//! uniqueness, ownership and ordering rules are verified. The bot's store of
//! record is SQL run against Postgres by the application around this
//! library; the verifier does not see that code.
pub mod models;
pub mod database;
pub mod laws;
pub mod render;
pub mod replies;
pub mod sticker;
