//! Message-processing core of a chat bot.
//!
//! Inbound chat events are routed through an ordered chain of handlers; each
//! handler may emit replies or side-effecting actions (send or delete a
//! message, read channel or message metadata) through the [`handler::ResponseCallbacks`]
//! capability. The history-window subsystem enforces a per-channel bounded
//! retention policy on message history, in an in-memory and a persisted-store
//! variant.

pub mod bot;
pub mod models;
pub mod queue;
pub mod store;
pub mod handler;
pub mod history_window;
pub mod memory_window;
pub mod callbacks;
pub mod ping;
pub mod quote;
pub mod text;
