//! Who may run a command.
use vstd::prelude::*;
use crate::config::AppConfig;

verus! {

broadcast use vstd::std_specs::hash::group_hash_axioms;

/// True when one of `roles` is in `p`.
pub open spec fn holds_permitted_role(p: Set<u64>, roles: Seq<u64>) -> bool {
    exists|i: int| 0 <= i < roles.len() && #[trigger] p.contains(roles[i])
}

/// Whether a member is allowed: everyone when no roles are configured;
/// otherwise a member (not a direct message) holding one of the roles.
pub open spec fn authorized_spec(permitted: Option<Set<u64>>, member_roles: Option<Seq<u64>>) -> bool {
    match permitted {
        None => true,
        Some(p) => match member_roles {
            None => false,
            Some(roles) => holds_permitted_role(p, roles),
        },
    }
}

/// Whether the author of a message may run a command. `member_roles` are
/// the author's roles when the message comes from a guild member (`None`
/// in a direct message). The roles checked are those configured for `ping`.
pub fn authorized(config: &AppConfig, member_roles: &Option<Vec<u64>>) -> (r: bool)
    ensures
        r == authorized_spec(
            match config.command_permissions.ping {
                Some(h) => Some(h@),
                None => None,
            },
            match member_roles {
                Some(v) => Some(v@),
                None => None,
            },
        ),
{
    match &config.command_permissions.ping {
        None => true,
        Some(permitted) => match member_roles {
            None => false,
            Some(roles) => {
                let mut i: usize = 0;
                while i < roles.len()
                    invariant
                        config.command_permissions.ping == Some(*permitted),
                        *member_roles == Some(*roles),
                        i <= roles.len(),
                        forall|j: int| 0 <= j < i ==> !permitted@.contains(#[trigger] roles@[j]),
                    decreases roles.len() - i,
                {
                    if permitted.contains(&roles[i]) {
                        assert(permitted@.contains(roles@[i as int]));
                        return true;
                    }
                    i = i + 1;
                }
                false
            },
        },
    }
}

/// Authorization by roles: with no roles configured everyone may run the
/// command; with roles configured a direct message may not, and a member
/// may exactly when one of its roles, at any position, is permitted. So a
/// member whose only role is `r` may exactly when `r` is permitted, and
/// more roles never take the permission away.
pub proof fn lemma_authorized_roles(p: Set<u64>, roles: Seq<u64>, more: Seq<u64>, r: u64)
    ensures
        authorized_spec(None, Some(roles)),
        authorized_spec(None, None),
        !authorized_spec(Some(p), None),
        authorized_spec(Some(p), Some(seq![r])) == p.contains(r),
        forall|i: int|
            0 <= i < roles.len() && p.contains(#[trigger] roles[i]) ==> authorized_spec(Some(p), Some(roles)),
        authorized_spec(Some(p), Some(roles)) ==> exists|i: int|
            0 <= i < roles.len() && p.contains(#[trigger] roles[i]),
        authorized_spec(Some(p), Some(roles)) ==> authorized_spec(Some(p), Some(roles + more)),
        authorized_spec(Some(p), Some(more)) ==> authorized_spec(Some(p), Some(roles + more)),
{
    if p.contains(r) {
        assert(seq![r][0] == r);
    }
    assert forall|i: int|
        0 <= i < roles.len() && p.contains(#[trigger] roles[i]) implies authorized_spec(Some(p), Some(roles)) by {
        assert(p.contains(roles[i]));
    }
    if authorized_spec(Some(p), Some(roles)) {
        let i = choose|i: int| 0 <= i < roles.len() && #[trigger] p.contains(roles[i]);
        assert((roles + more)[i] == roles[i]);
    }
    if authorized_spec(Some(p), Some(more)) {
        let i = choose|i: int| 0 <= i < more.len() && #[trigger] p.contains(more[i]);
        assert((roles + more)[roles.len() + i] == more[i]);
    }
}

} // verus!
