//! Embedded messages: what the bot posts in a channel, built step by step
//! before it is sent.
use vstd::prelude::*;
use crate::color::{GOLD, RED, LUMINOUS_VIVID_PINK};

verus! {

/// An embedded message to post in a channel.
pub struct Embed {
    /// The channel to post in.
    pub channel_id: u64,
    /// The embed's title, if any.
    pub title: Option<String>,
    /// The embed's description, if any.
    pub description: Option<String>,
    /// Plain text sent with the embed, if any.
    pub content: Option<String>,
    /// The embed's colour.
    pub color: u32,
}

/// The parts of an [`Embed`], as values.
pub struct EmbedView {
    pub channel_id: u64,
    pub title: Option<Seq<char>>,
    pub description: Option<Seq<char>>,
    pub content: Option<Seq<char>>,
    pub color: u32,
}

pub open spec fn opt_view(o: Option<String>) -> Option<Seq<char>> {
    match o {
        Some(s) => Some(s@),
        None => None,
    }
}

impl View for Embed {
    type V = EmbedView;

    open spec fn view(&self) -> EmbedView {
        EmbedView {
            channel_id: self.channel_id,
            title: opt_view(self.title),
            description: opt_view(self.description),
            content: opt_view(self.content),
            color: self.color,
        }
    }
}

impl Embed {
    /// An embed for `channel_id` with no title, description or content, in
    /// gold.
    pub fn new(channel_id: u64) -> (e: Embed)
        ensures
            e@ == (EmbedView {
                channel_id,
                title: None,
                description: None,
                content: None,
                color: GOLD,
            }),
    {
        Embed { channel_id, title: None, description: None, content: None, color: GOLD }
    }

    /// The embed with its title set to `title`.
    pub fn title(self, title: &str) -> (e: Embed)
        ensures
            e@ == (EmbedView { title: Some(title@), ..self@ }),
    {
        Embed { title: Some(title.to_owned()), ..self }
    }

    /// The embed with its description set to `descr`.
    pub fn descr(self, descr: &str) -> (e: Embed)
        ensures
            e@ == (EmbedView { description: Some(descr@), ..self@ }),
    {
        Embed { description: Some(descr.to_owned()), ..self }
    }

    /// The embed with the plain text `content` sent along.
    pub fn content(self, content: &str) -> (e: Embed)
        ensures
            e@ == (EmbedView { content: Some(content@), ..self@ }),
    {
        Embed { content: Some(content.to_owned()), ..self }
    }

    /// The embed in colour `color`.
    pub fn color(self, color: u32) -> (e: Embed)
        ensures
            e@ == (EmbedView { color, ..self@ }),
    {
        Embed { color, ..self }
    }
}

/// How grave a log entry is.
#[derive(Debug, Clone, Copy, PartialEq, Eq, Structural)]
pub enum LogLevel {
    Error,
    Warn,
    Info,
}

/// The title of a log entry's embed.
pub open spec fn log_title_spec(level: LogLevel) -> Seq<char> {
    match level {
        LogLevel::Error => "[ ERROR ]"@,
        LogLevel::Warn => "[ WARN ]"@,
        LogLevel::Info => "[ INFO ]"@,
    }
}

/// The colour of a log entry's embed: pink for errors, red for warnings,
/// the default gold for information.
pub open spec fn log_color_spec(level: LogLevel) -> u32 {
    match level {
        LogLevel::Error => LUMINOUS_VIVID_PINK,
        LogLevel::Warn => RED,
        LogLevel::Info => GOLD,
    }
}

/// The embed that reports `message` at `level` in the log channel
/// `channel_id`.
pub fn log_embed(channel_id: u64, level: LogLevel, message: &str) -> (e: Embed)
    ensures
        e@ == (EmbedView {
            channel_id,
            title: Some(log_title_spec(level)),
            description: Some(message@),
            content: None,
            color: log_color_spec(level),
        }),
{
    match level {
        LogLevel::Error => Embed::new(channel_id).title("[ ERROR ]").descr(message).color(
            LUMINOUS_VIVID_PINK,
        ),
        LogLevel::Warn => Embed::new(channel_id).title("[ WARN ]").descr(message).color(RED),
        LogLevel::Info => Embed::new(channel_id).title("[ INFO ]").descr(message),
    }
}

} // verus!
