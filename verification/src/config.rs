//! The bot's configuration, read from `config.ron`.
use vstd::prelude::*;
use std::collections::HashSet;

verus! {

/// The whole configuration.
#[derive(Default)]
pub struct AppConfig {
    /// The bot's Discord token.
    pub discord_token: String,
    /// The guild the bot serves.
    pub guild_id: u64,
    /// The bot's own user id.
    pub bot_user_id: u64,
    /// The users who may run owner-only commands.
    pub owners: HashSet<u64>,
    /// The channel that log entries are posted to, if any.
    pub log_channel_id: Option<u64>,
    /// The welcome message for new members, if enabled.
    pub new_member_welcome: Option<NewMemberWelcome>,
    /// Users pinged when a message consists of one of their emojis.
    pub emoji_pings: Option<Vec<EmojiPingConfig>>,
    /// The lurker purge, if enabled.
    pub lurker_purge: Option<LurkerPurgeConfig>,
    /// Which roles may run which commands.
    pub command_permissions: CommandPermissions,
}

/// For each command, the roles allowed to run it; `None` allows everyone.
#[derive(Default)]
pub struct CommandPermissions {
    pub event: Option<HashSet<u64>>,
    pub ping: Option<HashSet<u64>>,
}

/// The message that greets a new member.
pub struct NewMemberWelcome {
    /// The greeting.
    pub message: String,
    /// The channel it is posted in.
    pub channel_id: u64,
    /// The byte position in `message` where a mention of the new member is
    /// inserted, if any.
    pub ping_insert_idx: Option<usize>,
}

/// A user to ping whenever a message consists of one of `emojis`.
pub struct EmojiPingConfig {
    pub user_id: u64,
    pub emojis: Vec<String>,
}

/// The lurker purge's settings.
pub struct LurkerPurgeConfig {
    /// The channel of the purge announcement.
    pub channel_id: u64,
    /// Days that members have to react to the announcement.
    pub grace_period_days: u64,
    /// Members holding one of these roles are never kicked.
    pub immune_roles: Vec<u64>,
    /// The text of the purge announcement.
    pub message: String,
}

} // verus!
