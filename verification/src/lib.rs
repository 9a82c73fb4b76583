//! Command and event logic of the voidleo Discord bot, verified with Verus.
//!
//! The network side (the Discord gateway, sending and deleting messages,
//! kicking members) lives outside this library; here are the parsers,
//! the selection rules and the text that the bot produces.
pub mod args;
pub mod clock;
pub mod color;
pub mod config;
pub mod embed;
pub mod event;
pub mod handler;
pub mod lurker_purge;
pub mod permissions;
pub mod purge_channel;
pub mod text;
