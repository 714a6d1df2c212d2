//! Verified core of a Discord bot: channel bookkeeping, reply rules,
//! message chunking and the decisions of the thread synchronisation.

pub mod action;
pub mod bot;
pub mod channel;
pub mod gateway;
pub mod meta;
pub mod query;
pub mod sync;
pub mod text;
