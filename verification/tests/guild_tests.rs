use std::collections::HashSet;
use voidleo::config::{AppConfig, EmojiPingConfig, LurkerPurgeConfig, NewMemberWelcome};
use voidleo::handler::{emoji_ping_targets, user_mention, welcome_message};
use voidleo::lurker_purge::{
    active_members, holds_immune_role, inactive_members, is_purge_announcement,
    purge_announcement, purge_reaction_name, purge_results_message, purge_sleep_secs,
    purge_sleep_secs_at, remaining_grace_period, Member, PURGE_REACTION_EMOJI_ID,
};
use voidleo::permissions::authorized;

fn member(id: u64, name: &str, roles: &[u64]) -> Member {
    Member { user_id: id, name: name.to_string(), roles: roles.to_vec() }
}

fn guild() -> Vec<Member> {
    vec![
        member(1, "ann", &[]),
        member(2, "bob", &[10]),
        member(3, "cid", &[20]),
        member(4, "dee", &[]),
        member(5, "eve", &[30, 20]),
    ]
}

fn ids(ms: &[Member]) -> Vec<u64> {
    ms.iter().map(|m| m.user_id).collect()
}

#[test]
fn inactive_members_are_non_reacting_non_immune() {
    let kicked = inactive_members(guild(), &vec![1, 3], &vec![20]);
    assert_eq!(ids(&kicked), vec![2, 4]);
}

#[test]
fn active_members_are_reacting_non_immune() {
    let survivors = active_members(guild(), &vec![1, 3, 4], &vec![20]);
    assert_eq!(ids(&survivors), vec![1, 4]);
}

#[test]
fn purge_partitions_non_immune_members() {
    let reactors = vec![2, 5];
    let immune = vec![20];
    let kicked = inactive_members(guild(), &reactors, &immune);
    let survivors = active_members(guild(), &reactors, &immune);
    let non_immune: Vec<u64> = guild()
        .iter()
        .filter(|m| !holds_immune_role(&m.roles, &immune))
        .map(|m| m.user_id)
        .collect();
    let mut all = ids(&kicked);
    all.extend(ids(&survivors));
    all.sort();
    assert_eq!(all, non_immune);
    assert!(ids(&kicked).iter().all(|k| !ids(&survivors).contains(k)));
}

#[test]
fn purge_results_text() {
    let kicked = vec![member(2, "bob", &[]), member(4, "dee", &[])];
    let survivors = vec![member(1, "ann", &[])];
    assert_eq!(
        purge_results_message(&kicked, &survivors),
        "**Thank you for your participation in the purge.**\n\nRemeber users who have fallen:\n  - [x] ~~bob~~\n  - [x] ~~dee~~\n\nSurviving users of the purge:\n  - [·] **ann**"
    );
    assert_eq!(
        purge_results_message(&vec![], &vec![]),
        "**Thank you for your participation in the purge.**\n\nRemeber users who have fallen:\n\n\nSurviving users of the purge:\n"
    );
}

#[test]
fn grace_period_arithmetic() {
    assert_eq!(remaining_grace_period(1, 100), 86_300);
    assert_eq!(remaining_grace_period(2, 0), 172_800);
    assert_eq!(remaining_grace_period(1, 86_400), 0);
}

#[test]
fn grace_period_from_the_clock() {
    let now = std::time::SystemTime::now()
        .duration_since(std::time::UNIX_EPOCH)
        .unwrap()
        .as_secs() as i64;
    let left = purge_sleep_secs(1, now - 100).unwrap();
    assert!(left <= 86_300 && left >= 86_200, "left {}", left);
    // an announcement older than its grace period overflows
    assert_eq!(purge_sleep_secs(1, now - 200_000), None);
    assert_eq!(purge_sleep_secs(u64::MAX, now), None);
}

#[test]
fn grace_period_at_a_clock_reading() {
    assert_eq!(purge_sleep_secs_at(1, 1_000, 900), Some(86_300));
    assert_eq!(purge_sleep_secs_at(2, 1_000, 1_000), Some(172_800));
    assert_eq!(purge_sleep_secs_at(1, 87_400, 1_000), Some(0));
    // an announcement older than its grace period
    assert_eq!(purge_sleep_secs_at(1, 87_401, 1_000), None);
    // a clock behind the announcement: the elapsed time wraps around
    assert_eq!(purge_sleep_secs_at(1, 900, 1_000), None);
    // the elapsed time does not fit in an i64
    assert_eq!(purge_sleep_secs_at(1, i64::MAX, -1), None);
    // the grace period does not fit in a u64 of seconds
    assert_eq!(purge_sleep_secs_at(u64::MAX / 86_400 + 1, 0, 0), None);
    assert_eq!(
        purge_sleep_secs_at(u64::MAX / 86_400, 0, 0),
        Some(u64::MAX / 86_400 * 86_400)
    );
}

#[test]
fn more_reactions_kick_fewer_members() {
    let immune = vec![20];
    let fewer = inactive_members(guild(), &vec![1], &immune);
    let more = inactive_members(guild(), &vec![1, 2, 4], &immune);
    assert_eq!(ids(&fewer), vec![2, 4]);
    assert_eq!(ids(&more), Vec::<u64>::new());
    assert!(ids(&more).iter().all(|k| ids(&fewer).contains(k)));
    let some = inactive_members(guild(), &vec![1, 4], &immune);
    assert_eq!(ids(&some), vec![2]);
    assert!(ids(&some).iter().all(|k| ids(&fewer).contains(k)));
}

#[test]
fn purge_announcement_detection() {
    let text = "Purge!".to_string();
    assert!(is_purge_announcement(Some(Some("Purge!".to_string())), &text));
    assert!(!is_purge_announcement(Some(Some("other".to_string())), &text));
    assert!(!is_purge_announcement(None, &text));
    assert!(!is_purge_announcement(Some(None), &text));
    assert!(is_purge_announcement(Some(None), &String::new()));
}

#[test]
fn purge_announcement_embed() {
    let cfg = LurkerPurgeConfig {
        channel_id: 77,
        grace_period_days: 3,
        immune_roles: vec![],
        message: "React or be kicked".to_string(),
    };
    let e = purge_announcement(&cfg);
    assert_eq!(e.channel_id, 77);
    assert_eq!(e.content.as_deref(), Some("@everyone"));
    assert_eq!(e.description.as_deref(), Some("React or be kicked"));
    assert_eq!(purge_reaction_name(), "happybagelday");
    assert_eq!(PURGE_REACTION_EMOJI_ID, 731955992647958641);
}

#[test]
fn authorization() {
    let mut cfg = AppConfig::default();
    assert!(authorized(&cfg, &None));
    assert!(authorized(&cfg, &Some(vec![1])));
    let mut roles = HashSet::new();
    roles.insert(9u64);
    cfg.command_permissions.ping = Some(roles);
    assert!(authorized(&cfg, &Some(vec![3, 9])));
    assert!(!authorized(&cfg, &Some(vec![3])));
    assert!(!authorized(&cfg, &None));
}

#[test]
fn emoji_pings() {
    let mut cfg = AppConfig::default();
    assert_eq!(emoji_ping_targets(&cfg, &":wave:".to_string()), Vec::<u64>::new());
    cfg.emoji_pings = Some(vec![
        EmojiPingConfig { user_id: 1, emojis: vec![":wave:".to_string(), ":tada:".to_string()] },
        EmojiPingConfig { user_id: 2, emojis: vec![":cat:".to_string()] },
        EmojiPingConfig { user_id: 3, emojis: vec![":tada:".to_string()] },
    ]);
    assert_eq!(emoji_ping_targets(&cfg, &":tada:".to_string()), vec![1, 3]);
    assert_eq!(emoji_ping_targets(&cfg, &":cat:".to_string()), vec![2]);
    assert_eq!(emoji_ping_targets(&cfg, &"hi :cat:".to_string()), Vec::<u64>::new());
}

#[test]
fn mentions() {
    assert_eq!(user_mention(123456789), "<@123456789>");
    assert_eq!(user_mention(0), "<@0>");
}

#[test]
fn welcome_messages() {
    let w = NewMemberWelcome {
        message: "Welcome, ! Read the rules.".to_string(),
        channel_id: 5,
        ping_insert_idx: Some(9),
    };
    assert_eq!(welcome_message(&w, 42), "Welcome, <@42>! Read the rules.");
    let w = NewMemberWelcome { message: "Hello".to_string(), channel_id: 5, ping_insert_idx: None };
    assert_eq!(welcome_message(&w, 42), "Hello");
    let w = NewMemberWelcome { message: "héllo".to_string(), channel_id: 5, ping_insert_idx: Some(3) };
    assert_eq!(welcome_message(&w, 1), "hé<@1>llo");
}
