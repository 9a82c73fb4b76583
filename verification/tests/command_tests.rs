use voidleo::color::{GOLD, LUMINOUS_VIVID_PINK, RED};
use voidleo::embed::{log_embed, Embed, LogLevel};
use voidleo::event::{
    event_description, parse_custom_emoji, parse_custom_emoji_checked, parse_event_args,
    parse_event_args_checked, parse_event_arg_string, select_event_tokens, EventArgs,
    EventRequest,
};
use voidleo::purge_channel::{
    parse_purge_arg_string, parse_purge_args, parse_purge_args_checked, purge_action, purge_step,
    PurgeAction, PurgeStep, PURGE_BATCH_LIMIT,
};
use voidleo::text::IntParseError;

const USAGE: &str = "Usage: `event [role] <reaction_emoji> <message>`";

fn parsed(a: EventArgs) -> (String, String, String) {
    match a {
        EventArgs::Parsed(r) => (r.role, r.emoji, r.message),
        EventArgs::Usage(u) => panic!("usage: {}", u),
        EventArgs::NoArguments => panic!("no arguments"),
    }
}

fn usage(a: EventArgs) -> String {
    match a {
        EventArgs::Usage(u) => u,
        _ => panic!("expected a usage text"),
    }
}

#[test]
fn event_with_role() {
    let (role, emoji, message) =
        parsed(parse_event_args("$event <@&42> <:party:7001> Game night at 8"));
    assert_eq!(role, "<@&42>");
    assert_eq!(emoji, "<:party:7001>");
    assert_eq!(message, "Game night at 8");
}

#[test]
fn event_without_role_is_for_everyone() {
    let (role, emoji, message) = parsed(parse_event_args("$ event <:party:7001> Movie"));
    assert_eq!(role, "@everyone");
    assert_eq!(emoji, "<:party:7001>");
    assert_eq!(message, "Movie");
}

#[test]
fn event_message_keeps_its_spacing() {
    let (_, _, message) = parsed(parse_event_arg_string("<:p:1> a  b "));
    assert_eq!(message, "a  b ");
}

#[test]
fn event_double_space_takes_next_token() {
    // an empty first token is no emoji: the next token is taken
    let (role, emoji, message) = parsed(parse_event_arg_string(" <:p:1> go"));
    assert_eq!(role, "@everyone");
    assert_eq!(emoji, "<:p:1>");
    assert_eq!(message, "go");
}

#[test]
fn event_no_arguments() {
    assert!(matches!(parse_event_args("$event"), EventArgs::NoArguments));
}

#[test]
fn event_missing_emoji() {
    let u = usage(parse_event_args("$event <@&42>"));
    assert_eq!(u, format!("No reaction_emoji supplied!\n{}", USAGE));
}

#[test]
fn event_invalid_emoji() {
    let u = usage(parse_event_args("$event party tonight"));
    assert_eq!(u, format!("party is not a valid reaction_emoji!\n{}", USAGE));
}

#[test]
fn event_missing_message() {
    let u = usage(parse_event_args("$event <@&1> <:p:1>"));
    assert_eq!(u, format!("no message was supplied!\n{}", USAGE));
    let u = usage(parse_event_args("$event <:p:1> "));
    assert_eq!(u, format!("no message was supplied!\n{}", USAGE));
}

#[test]
fn event_arguments_the_command_panics_on() {
    // a one-byte emoji token cannot have its first two bytes sliced off
    assert!(parse_event_args_checked("$event x hello").is_none());
    assert!(parse_event_args_checked("$event <@&1> x hello").is_none());
    assert!(parse_event_args_checked("$event <:p:1> hello").is_some());
    assert!(parse_event_args_checked("$event").is_some());
}

#[test]
fn event_tokens_selection() {
    let t = select_event_tokens("<@&1> <:p:2> rest of it").unwrap();
    assert_eq!(t.role, "<@&1>");
    assert_eq!(t.emoji, "<:p:2>");
    assert_eq!(t.rest, Some("rest of it".to_string()));
    assert!(select_event_tokens("<@&1>").is_none());
}

#[test]
fn event_announcement_text() {
    let req = EventRequest {
        role: "<@&42>".to_string(),
        emoji: "<:party:7001>".to_string(),
        message: "Game night".to_string(),
    };
    assert_eq!(
        event_description(&req),
        "<@&42>\n\nGame night\n\nReact with <:party:7001> if you can make it!"
    );
}

#[test]
fn custom_emoji_read_back() {
    let e = parse_custom_emoji("<:party:7001>").unwrap();
    assert_eq!(e.id, 7001);
    assert_eq!(e.name, "party");
    let e = parse_custom_emoji("<:happybagelday:731955992647958641>").unwrap();
    assert_eq!(e.id, 731955992647958641);
    assert_eq!(e.name, "happybagelday");
}

#[test]
fn custom_emoji_errors() {
    assert_eq!(parse_custom_emoji("<:party:12ab>").err(), Some(IntParseError::InvalidDigit));
    assert_eq!(parse_custom_emoji("<:party:>").err(), Some(IntParseError::Empty));
    assert_eq!(
        parse_custom_emoji("<:party:99999999999999999999>").err(),
        Some(IntParseError::PosOverflow)
    );
    assert!(parse_custom_emoji_checked("<:party>").is_none());
    assert!(parse_custom_emoji_checked("<:a:1>").is_some());
}

#[test]
fn purge_args_confirm_and_after() {
    assert_eq!(
        parse_purge_args("$purge_channel_messages --confirm=123 --after=45"),
        Ok(Some((123, Some(45))))
    );
    assert_eq!(parse_purge_args("$purge_channel_messages --confirm=9"), Ok(Some((9, None))));
}

#[test]
fn purge_args_without_confirmation() {
    assert_eq!(parse_purge_args("$purge_channel_messages"), Ok(None));
    assert_eq!(parse_purge_args("$purge_channel_messages --after=4 junk"), Ok(None));
}

#[test]
fn purge_args_last_option_wins_and_errors_stop() {
    assert_eq!(
        parse_purge_arg_string("--confirm=1 --confirm=2\u{3000}--after=3"),
        Ok(Some((2, Some(3))))
    );
    assert_eq!(parse_purge_arg_string("--confirm=x --after=3"), Err(IntParseError::InvalidDigit));
    assert_eq!(parse_purge_arg_string("--confirm="), Err(IntParseError::Empty));
    assert_eq!(parse_purge_arg_string("--after=1 --confirm=+7"), Ok(Some((7, Some(1)))));
}

#[test]
fn purge_args_panic_domain() {
    assert!(parse_purge_args_checked("$").is_none());
    assert_eq!(parse_purge_args_checked("$purge_channel_messages --confirm=5"), Some(Ok(Some((5, None)))));
}

#[test]
fn purge_action_decisions() {
    match purge_action(None, 10) {
        PurgeAction::Notify(e) => {
            assert_eq!(e.channel_id, 10);
            assert_eq!(e.color, LUMINOUS_VIVID_PINK);
            assert!(e.description.unwrap().starts_with("This will delete **ALL** messages"));
        }
        _ => panic!("expected a confirmation request"),
    }
    match purge_action(Some((11, None)), 10) {
        PurgeAction::Notify(e) => {
            assert_eq!(e.color, RED);
            assert_eq!(
                e.description.unwrap(),
                "The confirmation id does not match this channel id!"
            );
        }
        _ => panic!("expected a refusal"),
    }
    assert!(matches!(purge_action(Some((10, Some(3))), 10), PurgeAction::DeleteAll(Some(3))));
}

#[test]
fn embed_builders() {
    let e = Embed::new(5);
    assert_eq!(e.color, GOLD);
    assert!(e.title.is_none() && e.description.is_none() && e.content.is_none());
    let e = e.title("t").descr("d").content("c").color(RED).title("t2");
    assert_eq!(e.title.as_deref(), Some("t2"));
    assert_eq!(e.description.as_deref(), Some("d"));
    assert_eq!(e.content.as_deref(), Some("c"));
    assert_eq!(e.color, RED);
    assert_eq!(e.channel_id, 5);
}

#[test]
fn log_embeds() {
    let e = log_embed(3, LogLevel::Error, "boom");
    assert_eq!(e.title.as_deref(), Some("[ ERROR ]"));
    assert_eq!(e.description.as_deref(), Some("boom"));
    assert_eq!(e.color, LUMINOUS_VIVID_PINK);
    assert_eq!(log_embed(3, LogLevel::Warn, "w").color, RED);
    assert_eq!(log_embed(3, LogLevel::Warn, "w").title.as_deref(), Some("[ WARN ]"));
    assert_eq!(log_embed(3, LogLevel::Info, "i").color, GOLD);
    assert_eq!(log_embed(3, LogLevel::Info, "i").title.as_deref(), Some("[ INFO ]"));
}

#[test]
fn purge_batches_until_empty() {
    assert_eq!(PURGE_BATCH_LIMIT, 100);
    assert_eq!(purge_step(0), PurgeStep::Done);
    assert_eq!(purge_step(1), PurgeStep::DeleteBatch);
    assert_eq!(purge_step(100), PurgeStep::DeleteBatch);
}
