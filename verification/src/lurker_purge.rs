//! The lurker purge: members are asked to react to an announcement, and
//! after a grace period those who did not react (and hold no immune role)
//! are kicked; the result is then announced.
use vstd::prelude::*;
use crate::clock::utc_now_timestamp;
use crate::config::LurkerPurgeConfig;
use crate::color::GOLD;
use crate::embed::{Embed, EmbedView};

verus! {

broadcast use vstd::std_specs::vec::group_vec_axioms;

/// The custom emoji that members react with to survive a purge.
pub const PURGE_REACTION_EMOJI_ID: u64 = 731955992647958641;

/// Seconds in a day.
pub const SECONDS_IN_DAY: u64 = 86_400;

/// The name of the custom emoji that members react with.
pub fn purge_reaction_name() -> (s: String)
    ensures
        s@ == "happybagelday"@,
{
    "happybagelday".to_owned()
}

/// A member of the guild, as the purge sees it.
pub struct Member {
    pub user_id: u64,
    pub name: String,
    pub roles: Vec<u64>,
}

/// True when a member with `roles` holds one of the `immune` roles.
pub open spec fn is_immune(roles: Seq<u64>, immune: Seq<u64>) -> bool {
    exists|i: int| 0 <= i < immune.len() && roles.contains(immune[i])
}

/// A member who did not react and is not immune: kicked by the purge.
pub open spec fn is_inactive(m: Member, reactors: Seq<u64>, immune: Seq<u64>) -> bool {
    !reactors.contains(m.user_id) && !is_immune(m.roles@, immune)
}

/// A member who reacted and is not immune: a survivor of the purge.
pub open spec fn is_active(m: Member, reactors: Seq<u64>, immune: Seq<u64>) -> bool {
    reactors.contains(m.user_id) && !is_immune(m.roles@, immune)
}

pub open spec fn inactive_pred(reactors: Seq<u64>, immune: Seq<u64>) -> spec_fn(Member) -> bool {
    |m: Member| is_inactive(m, reactors, immune)
}

pub open spec fn active_pred(reactors: Seq<u64>, immune: Seq<u64>) -> spec_fn(Member) -> bool {
    |m: Member| is_active(m, reactors, immune)
}

/// Whether `x` occurs in `v`.
pub fn contains_id(v: &Vec<u64>, x: u64) -> (r: bool)
    ensures
        r == v@.contains(x),
{
    let mut i: usize = 0;
    while i < v.len()
        invariant
            i <= v.len(),
            forall|j: int| 0 <= j < i ==> v@[j] != x,
        decreases v.len() - i,
    {
        if v[i] == x {
            assert(v@[i as int] == x);
            return true;
        }
        i = i + 1;
    }
    false
}

/// Whether a member with `roles` holds one of the `immune` roles.
pub fn holds_immune_role(roles: &Vec<u64>, immune: &Vec<u64>) -> (r: bool)
    ensures
        r == is_immune(roles@, immune@),
{
    let mut i: usize = 0;
    while i < immune.len()
        invariant
            i <= immune.len(),
            forall|j: int| 0 <= j < i ==> !roles@.contains(#[trigger] immune@[j]),
        decreases immune.len() - i,
    {
        if contains_id(roles, immune[i]) {
            return true;
        }
        i = i + 1;
    }
    false
}

/// The members of `members` that reacted (`reacted`) or did not react
/// (`!reacted`) and hold no immune role, in order.
fn select_members(members: Vec<Member>, reactors: &Vec<u64>, immune: &Vec<u64>, reacted: bool) -> (r: Vec<Member>)
    ensures
        reacted ==> r@ == members@.filter(active_pred(reactors@, immune@)),
        !reacted ==> r@ == members@.filter(inactive_pred(reactors@, immune@)),
{
    let ghost ms = members@;
    let ghost pred = if reacted {
        active_pred(reactors@, immune@)
    } else {
        inactive_pred(reactors@, immune@)
    };
    let mut out: Vec<Member> = Vec::new();
    for m in it: members.into_iter()
        invariant
            it.seq() == ms,
            pred == if reacted {
                active_pred(reactors@, immune@)
            } else {
                inactive_pred(reactors@, immune@)
            },
            out@ == ms.take(it.index() as int).filter(pred),
    {
        let ghost k = it.index() as int;
        assert(ms.take(k + 1).drop_last() =~= ms.take(k));
        assert(ms.take(k + 1).last() == m);
        proof {
            reveal_with_fuel(Seq::<_>::filter, 1);
        }
        let in_reactors = contains_id(reactors, m.user_id);
        let immune_member = holds_immune_role(&m.roles, immune);
        if in_reactors == reacted && !immune_member {
            out.push(m);
        }
    }
    assert(ms.take(ms.len() as int) =~= ms);
    out
}

/// The members of `members` that the purge kicks: those whose id is not
/// among the reacting users' ids and who hold no immune role, in order.
pub fn inactive_members(members: Vec<Member>, reactors: &Vec<u64>, immune: &Vec<u64>) -> (r: Vec<Member>)
    ensures
        r@ == members@.filter(inactive_pred(reactors@, immune@)),
{
    select_members(members, reactors, immune, false)
}

/// The members of `members` that survive the purge: those whose id is among
/// the reacting users' ids and who hold no immune role, in order.
pub fn active_members(members: Vec<Member>, reactors: &Vec<u64>, immune: &Vec<u64>) -> (r: Vec<Member>)
    ensures
        r@ == members@.filter(active_pred(reactors@, immune@)),
{
    select_members(members, reactors, immune, true)
}

pub open spec fn not_immune_pred(immune: Seq<u64>) -> spec_fn(Member) -> bool {
    |m: Member| !is_immune(m.roles@, immune)
}

/// The purge splits the members who hold no immune role: each of them is
/// either kicked or a survivor, never both, and a member with an immune
/// role is neither. So, from one list of members, the kicked and the
/// surviving members together are as many as the members without an immune
/// role.
pub proof fn lemma_purge_partitions_members(members: Seq<Member>, reactors: Seq<u64>, immune: Seq<u64>)
    ensures
        forall|i: int|
            0 <= i < members.len() ==> (is_inactive(#[trigger] members[i], reactors, immune) || is_active(
                members[i],
                reactors,
                immune,
            )) == !is_immune(members[i].roles@, immune),
        forall|i: int|
            0 <= i < members.len() ==> !(is_inactive(#[trigger] members[i], reactors, immune)
                && is_active(members[i], reactors, immune)),
        members.filter(inactive_pred(reactors, immune)).len() + members.filter(
            active_pred(reactors, immune),
        ).len() == members.filter(not_immune_pred(immune)).len(),
    decreases members.len(),
{
    reveal_with_fuel(Seq::<_>::filter, 1);
    if members.len() > 0 {
        lemma_purge_partitions_members(members.drop_last(), reactors, immune);
    }
}

/// Kicked and surviving members together are exactly the members without
/// an immune role, each as often as it occurs among the members.
pub proof fn lemma_purge_partition_multiset(members: Seq<Member>, reactors: Seq<u64>, immune: Seq<u64>)
    ensures
        members.filter(inactive_pred(reactors, immune)).to_multiset().add(
            members.filter(active_pred(reactors, immune)).to_multiset(),
        ) =~= members.filter(not_immune_pred(immune)).to_multiset(),
    decreases members.len(),
{
    broadcast use vstd::seq_lib::group_to_multiset_ensures, vstd::multiset::group_multiset_axioms;

    reveal_with_fuel(Seq::<_>::filter, 1);
    if members.len() == 0 {
        assert(members.filter(inactive_pred(reactors, immune)).len() == 0);
        assert(members.filter(active_pred(reactors, immune)).len() == 0);
        assert(members.filter(not_immune_pred(immune)).len() == 0);
    } else {
        lemma_purge_partition_multiset(members.drop_last(), reactors, immune);
    }
}

/// More reactions never kick more members: when every id in `r1` is also in
/// `r2`, each member kicked with reactions `r2` is kicked with `r1` as well,
/// as often.
pub proof fn lemma_more_reactions_fewer_kicks(
    members: Seq<Member>,
    r1: Seq<u64>,
    r2: Seq<u64>,
    immune: Seq<u64>,
)
    requires
        forall|id: u64| r1.contains(id) ==> r2.contains(id),
    ensures
        members.filter(inactive_pred(r2, immune)).to_multiset().subset_of(
            members.filter(inactive_pred(r1, immune)).to_multiset(),
        ),
    decreases members.len(),
{
    broadcast use vstd::seq_lib::group_to_multiset_ensures, vstd::multiset::group_multiset_axioms;

    reveal_with_fuel(Seq::<_>::filter, 1);
    if members.len() == 0 {
        assert(members.filter(inactive_pred(r2, immune)).len() == 0);
    } else {
        lemma_more_reactions_fewer_kicks(members.drop_last(), r1, r2, immune);
    }
}

/// Each item of `s.filter(pred)` is an item of `s`.
pub proof fn lemma_filtered_from<A>(s: Seq<A>, pred: spec_fn(A) -> bool)
    ensures
        forall|k: int| 0 <= k < s.filter(pred).len() ==> s.contains(#[trigger] s.filter(pred)[k]),
    decreases s.len(),
{
    reveal_with_fuel(Seq::<_>::filter, 1);
    if s.len() > 0 {
        let d = s.drop_last();
        lemma_filtered_from(d, pred);
        let f = s.filter(pred);
        let g = d.filter(pred);
        assert forall|k: int| 0 <= k < f.len() implies s.contains(#[trigger] f[k]) by {
            if k < g.len() {
                assert(f[k] == g[k]);
                assert(d.contains(g[k]));
                let i = choose|i: int| 0 <= i < d.len() && d[i] == g[k];
                assert(s[i] == f[k]);
            } else {
                assert(f[k] == s.last());
                assert(s[s.len() - 1] == f[k]);
            }
        }
    }
}

/// Immunity is holding at least one of the immune roles: with no immune
/// roles nobody is immune, holding any single one of them is enough, and
/// holding none of them is not.
pub proof fn lemma_immunity(roles: Seq<u64>, immune: Seq<u64>)
    ensures
        immune.len() == 0 ==> !is_immune(roles, immune),
        forall|j: int| 0 <= j < immune.len() && roles.contains(#[trigger] immune[j]) ==> is_immune(roles, immune),
        (forall|j: int| 0 <= j < immune.len() ==> !roles.contains(#[trigger] immune[j])) ==> !is_immune(
            roles,
            immune,
        ),
{
}

/// The purge kicks exactly the members who did not react and hold none of
/// the immune roles: every kicked member is one of the members, did not
/// react and holds no immune role, and every such member is kicked. So with
/// no immune roles every member who did not react is kicked, and a member
/// holding any one immune role is not.
pub proof fn lemma_kicked_members(members: Seq<Member>, reactors: Seq<u64>, immune: Seq<u64>)
    ensures
        forall|k: int|
            0 <= k < members.filter(inactive_pred(reactors, immune)).len() ==> members.contains(
                #[trigger] members.filter(inactive_pred(reactors, immune))[k],
            ) && !reactors.contains(members.filter(inactive_pred(reactors, immune))[k].user_id) && (
            forall|j: int|
                0 <= j < immune.len() ==> !members.filter(
                    inactive_pred(reactors, immune),
                )[k].roles@.contains(#[trigger] immune[j])),
        forall|i: int|
            0 <= i < members.len() && !reactors.contains(members[i].user_id) && (forall|j: int|
                0 <= j < immune.len() ==> !members[i].roles@.contains(#[trigger] immune[j]))
                ==> #[trigger] members.filter(inactive_pred(reactors, immune)).contains(members[i]),
{
    broadcast use vstd::seq_lib::group_filter_ensures;

    lemma_filtered_from(members, inactive_pred(reactors, immune));
    let f = members.filter(inactive_pred(reactors, immune));
    assert forall|k: int| #![trigger f[k]] 0 <= k < f.len() implies forall|j: int|
        0 <= j < immune.len() ==> !f[k].roles@.contains(#[trigger] immune[j]) by {
        assert(inactive_pred(reactors, immune)(f[k]));
    }
    assert forall|i: int|
        0 <= i < members.len() && !reactors.contains(members[i].user_id) && (forall|j: int|
            0 <= j < immune.len() ==> !members[i].roles@.contains(#[trigger] immune[j])) implies #[trigger] f.contains(
        members[i],
    ) by {
        assert(inactive_pred(reactors, immune)(members[i]));
    }
}

/// The survivors are exactly the members who reacted and hold none of the
/// immune roles: every survivor is one of the members, reacted and holds
/// no immune role, and every such member survives.
pub proof fn lemma_surviving_members(members: Seq<Member>, reactors: Seq<u64>, immune: Seq<u64>)
    ensures
        forall|k: int|
            0 <= k < members.filter(active_pred(reactors, immune)).len() ==> members.contains(
                #[trigger] members.filter(active_pred(reactors, immune))[k],
            ) && reactors.contains(members.filter(active_pred(reactors, immune))[k].user_id) && (
            forall|j: int|
                0 <= j < immune.len() ==> !members.filter(
                    active_pred(reactors, immune),
                )[k].roles@.contains(#[trigger] immune[j])),
        forall|i: int|
            0 <= i < members.len() && reactors.contains(members[i].user_id) && (forall|j: int|
                0 <= j < immune.len() ==> !members[i].roles@.contains(#[trigger] immune[j]))
                ==> #[trigger] members.filter(active_pred(reactors, immune)).contains(members[i]),
{
    broadcast use vstd::seq_lib::group_filter_ensures;

    lemma_filtered_from(members, active_pred(reactors, immune));
    let f = members.filter(active_pred(reactors, immune));
    assert forall|k: int| #![trigger f[k]] 0 <= k < f.len() implies forall|j: int|
        0 <= j < immune.len() ==> !f[k].roles@.contains(#[trigger] immune[j]) by {
        assert(active_pred(reactors, immune)(f[k]));
    }
    assert forall|i: int|
        0 <= i < members.len() && reactors.contains(members[i].user_id) && (forall|j: int|
            0 <= j < immune.len() ==> !members[i].roles@.contains(#[trigger] immune[j])) implies #[trigger] f.contains(
        members[i],
    ) by {
        assert(active_pred(reactors, immune)(members[i]));
    }
}

/// `list` joined with `sep` between consecutive items.
pub open spec fn seq_join(list: Seq<Seq<char>>, sep: Seq<char>) -> Seq<char>
    decreases list.len(),
{
    if list.len() == 0 {
        Seq::empty()
    } else if list.len() == 1 {
        list[0]
    } else {
        seq_join(list.drop_last(), sep) + sep + list.last()
    }
}

/// The announcement line of a kicked member.
pub open spec fn kicked_line(name: Seq<char>) -> Seq<char> {
    "  - [x] ~~"@ + name + "~~"@
}

/// The announcement line of a surviving member.
pub open spec fn survivor_line(name: Seq<char>) -> Seq<char> {
    "  - [·] **"@ + name + "**"@
}

pub open spec fn kicked_lines(ms: Seq<Member>) -> Seq<Seq<char>> {
    ms.map_values(|m: Member| kicked_line(m.name@))
}

pub open spec fn survivor_lines(ms: Seq<Member>) -> Seq<Seq<char>> {
    ms.map_values(|m: Member| survivor_line(m.name@))
}

/// The announcement of the purge's result.
pub open spec fn purge_results_spec(kicked: Seq<Member>, survivors: Seq<Member>) -> Seq<char> {
    "**Thank you for your participation in the purge.**\n\nRemeber users who have fallen:\n"@
        + seq_join(kicked_lines(kicked), "\n"@) + "\n\nSurviving users of the purge:\n"@
        + seq_join(survivor_lines(survivors), "\n"@)
}

/// The lines of `ms`, one per member, joined by newlines; `kicked` chooses
/// the kicked members' form of line.
fn member_lines(ms: &Vec<Member>, kicked: bool) -> (s: String)
    ensures
        kicked ==> s@ == seq_join(kicked_lines(ms@), "\n"@),
        !kicked ==> s@ == seq_join(survivor_lines(ms@), "\n"@),
{
    let ghost lines = if kicked { kicked_lines(ms@) } else { survivor_lines(ms@) };
    let mut s = String::new();
    let mut i: usize = 0;
    while i < ms.len()
        invariant
            i <= ms.len(),
            lines == if kicked { kicked_lines(ms@) } else { survivor_lines(ms@) },
            s@ == seq_join(lines.take(i as int), "\n"@),
        decreases ms.len() - i,
    {
        assert(lines.take(i as int + 1).drop_last() =~= lines.take(i as int));
        if i > 0 {
            s.append("\n");
        }
        if kicked {
            s.append("  - [x] ~~");
            s.append(ms[i].name.as_str());
            s.append("~~");
        } else {
            s.append("  - [·] **");
            s.append(ms[i].name.as_str());
            s.append("**");
        }
        assert(s@ =~= seq_join(lines.take(i as int + 1), "\n"@));
        i = i + 1;
    }
    assert(lines.take(ms.len() as int) =~= lines);
    s
}

/// The announcement of the purge's result: the kicked members, then the
/// survivors, one per line.
pub fn purge_results_message(kicked: &Vec<Member>, survivors: &Vec<Member>) -> (s: String)
    ensures
        s@ == purge_results_spec(kicked@, survivors@),
{
    let mut s = "**Thank you for your participation in the purge.**\n\nRemeber users who have fallen:\n".to_owned();
    let k = member_lines(kicked, true);
    s.append(k.as_str());
    s.append("\n\nSurviving users of the purge:\n");
    let v = member_lines(survivors, false);
    s.append(v.as_str());
    s
}

/// True when the remaining grace period can be computed without overflow:
/// the grace period in seconds fits in a `u64`, and the elapsed time, taken
/// as a `u64` (a negative one wraps around), does not exceed it.
pub open spec fn grace_period_defined(grace_period_days: u64, elapsed: i64) -> bool {
    &&& grace_period_days * SECONDS_IN_DAY <= u64::MAX
    &&& (elapsed as u64) <= grace_period_days * SECONDS_IN_DAY
}

/// The seconds left of a grace period of `grace_period_days` days of which
/// `elapsed` seconds have passed.
pub fn remaining_grace_period(grace_period_days: u64, elapsed: i64) -> (r: u64)
    requires
        grace_period_defined(grace_period_days, elapsed),
    ensures
        r == grace_period_days * SECONDS_IN_DAY - (elapsed as u64),
{
    grace_period_days * SECONDS_IN_DAY - elapsed as u64
}

/// How long the purge sleeps, when the clock reads `now` and the
/// announcement was posted at `posted` (both in seconds since the Unix
/// epoch); `None` when the computation overflows.
pub open spec fn purge_sleep_spec(grace_period_days: u64, now: i64, posted: i64) -> Option<u64> {
    let elapsed = now - posted;
    if i64::MIN <= elapsed <= i64::MAX && grace_period_defined(grace_period_days, elapsed as i64) {
        Some((grace_period_days * SECONDS_IN_DAY - ((elapsed as i64) as u64)) as u64)
    } else {
        None
    }
}

/// How many seconds of the grace period are left for an announcement
/// posted at `posted` when the clock reads `now` (both in seconds since the
/// Unix epoch); `None` when the computation overflows (a grace period too
/// long for a `u64`, an elapsed time outside `i64`, or an announcement older
/// than the grace period).
pub fn purge_sleep_secs_at(grace_period_days: u64, now: i64, posted: i64) -> (r: Option<u64>)
    ensures
        r == purge_sleep_spec(grace_period_days, now, posted),
{
    match now.checked_sub(posted) {
        None => None,
        Some(elapsed) => {
            if grace_period_days > u64::MAX / SECONDS_IN_DAY {
                None
            } else if elapsed as u64 > grace_period_days * SECONDS_IN_DAY {
                None
            } else {
                Some(remaining_grace_period(grace_period_days, elapsed))
            }
        },
    }
}

/// How many seconds of the grace period are left for an announcement
/// posted at `posted`, by the clock read now (see
/// [`purge_sleep_secs_at`]).
pub fn purge_sleep_secs(grace_period_days: u64, posted: i64) -> (r: Option<u64>)
    ensures
        exists|now: i64| r == purge_sleep_spec(grace_period_days, now, posted),
{
    let now = utc_now_timestamp();
    purge_sleep_secs_at(grace_period_days, now, posted)
}

/// The text of the first embed of a message, as the purge reads it: `None`
/// without embeds, the empty text for an embed without description.
pub open spec fn first_embed_text(first_embed: Option<Option<String>>) -> Option<Seq<char>> {
    match first_embed {
        None => None,
        Some(None) => Some(Seq::empty()),
        Some(Some(d)) => Some(d@),
    }
}

/// Whether the last message of the purge channel, whose first embed (if it
/// has one) has description `first_embed`, is the purge announcement with
/// text `purge_message`: only then is an interrupted purge resumed.
pub fn is_purge_announcement(first_embed: Option<Option<String>>, purge_message: &String) -> (r: bool)
    ensures
        r == (first_embed_text(first_embed) == Some(purge_message@)),
{
    match first_embed {
        None => false,
        Some(d) => {
            let text = match d {
                Some(t) => t,
                None => String::new(),
            };
            text == *purge_message
        },
    }
}

/// The purge announcement: the configured text, sent to `@everyone` in the
/// purge channel.
pub fn purge_announcement(config: &LurkerPurgeConfig) -> (e: Embed)
    ensures
        e@ == (EmbedView {
            channel_id: config.channel_id,
            title: None,
            description: Some(config.message@),
            content: Some("@everyone"@),
            color: GOLD,
        }),
{
    Embed::new(config.channel_id).content("@everyone").descr(config.message.as_str())
}

} // verus!
