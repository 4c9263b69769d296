//! Keeping people from approving their own messages: a ✅ or ❌ (or one of
//! two custom emojis) that a member adds to a message of their own is taken
//! off unless their roles allow it.

use vstd::prelude::*;
use crate::config::MiscConfig;
use crate::text::same_text;

verus! {

/// The emoji of a reaction.
pub enum ReactionEmoji {
    /// A Unicode emoji.
    Unicode(String),
    /// A custom emoji, by id.
    Custom(u64),
    /// Anything else.
    Other,
}

/// Ids of the blocked custom emojis.
pub open spec fn blocked_custom_id(id: u64) -> bool {
    id == 1494754728582709338u64 || id == 1500871782477856969u64
}

/// Whether a reaction uses one of the blocked emojis: ✅, ❌, or a blocked
/// custom emoji.
pub open spec fn blocked_emoji(e: ReactionEmoji) -> bool {
    match e {
        ReactionEmoji::Unicode(s) => s@ == "\u{2705}"@ || s@ == "\u{274C}"@,
        ReactionEmoji::Custom(id) => blocked_custom_id(id),
        ReactionEmoji::Other => false,
    }
}

/// Whether a reaction uses one of the blocked emojis.
pub fn is_blocked_emoji(emoji: &ReactionEmoji) -> (r: bool)
    ensures
        r == blocked_emoji(*emoji),
{
    match emoji {
        ReactionEmoji::Unicode(s) => same_text(s.as_str(), "\u{2705}") || same_text(s.as_str(), "\u{274C}"),
        ReactionEmoji::Custom(id) => *id == 1494754728582709338u64 || *id == 1500871782477856969u64,
        ReactionEmoji::Other => false,
    }
}

/// Whether some role of `member_roles` is among `allowed`.
pub open spec fn shares_role(member_roles: Seq<u64>, allowed: Seq<u64>) -> bool {
    exists|i: int| 0 <= i < member_roles.len() && allowed.contains(#[trigger] member_roles[i])
}

fn has_any_role(member_roles: &Vec<u64>, allowed: &Vec<u64>) -> (r: bool)
    ensures
        r == shares_role(member_roles@, allowed@),
{
    let mut i: usize = 0;
    while i < member_roles.len()
        invariant
            i <= member_roles@.len(),
            forall|j: int| 0 <= j < i ==> !allowed@.contains(#[trigger] member_roles@[j]),
        decreases member_roles@.len() - i,
    {
        let mut k: usize = 0;
        while k < allowed.len()
            invariant
                i < member_roles@.len(),
                k <= allowed@.len(),
                forall|j: int| 0 <= j < k ==> allowed@[j] != member_roles@[i as int],
            decreases allowed@.len() - k,
        {
            if allowed[k] == member_roles[i] {
                assert(allowed@.contains(member_roles@[i as int]));
                return true;
            }
            k = k + 1;
        }
        i = i + 1;
    }
    false
}

/// Whether a reaction must be taken off: it is by the message's own author,
/// uses a blocked emoji, and the author's roles do not allow it. Without
/// feature settings it always must; with them, holding one of the listed
/// roles allows it, or forbids it when the list is inverted.
pub open spec fn must_remove(
    reactor: Option<u64>,
    author: Option<u64>,
    emoji: ReactionEmoji,
    misc: Option<MiscConfig>,
    member_roles: Option<Seq<u64>>,
) -> bool {
    match (reactor, author) {
        (Some(u), Some(a)) => {
            if u != a || !blocked_emoji(emoji) {
                false
            } else {
                match misc {
                    None => true,
                    Some(m) => {
                        let allowed = match m.self_reaction_roles {
                            Some(v) => v@,
                            None => Seq::<u64>::empty(),
                        };
                        let inverted = match m.invert_self_reaction_roles {
                            Some(b) => b,
                            None => false,
                        };
                        let matching = match member_roles {
                            Some(roles) => shares_role(roles, allowed),
                            None => false,
                        };
                        !(matching != inverted)
                    },
                }
            }
        },
        _ => false,
    }
}

/// The settings of the rule against approving one's own messages, with the
/// given allowed roles and inversion flag.
pub open spec fn rule_settings(roles: Option<Vec<u64>>, invert: Option<bool>, role: Option<u64>) -> MiscConfig {
    MiscConfig {
        self_reaction_roles: roles,
        invert_self_reaction_roles: invert,
        can_react_true_to_own_messages_role: role,
    }
}

/// The rule on a member's own ✅ / ❌: without settings the reaction always
/// goes; with settings and no inversion (unset or `false`, which act alike)
/// it stays exactly when the member holds one of the listed roles; an
/// inverted list turns that decision around. Reactions by someone else, or
/// with other emojis, always stay.
pub proof fn lemma_self_reaction_rule(
    reactor: Option<u64>,
    author: Option<u64>,
    emoji: ReactionEmoji,
    roles: Option<Vec<u64>>,
    role: Option<u64>,
    member_roles: Option<Seq<u64>>,
)
    ensures
        must_remove(reactor, author, emoji, Some(rule_settings(roles, Some(false), role)), member_roles)
            == must_remove(reactor, author, emoji, Some(rule_settings(roles, None, role)), member_roles),
        !(reactor is Some && reactor == author && blocked_emoji(emoji)) ==> !must_remove(
            reactor,
            author,
            emoji,
            Some(rule_settings(roles, Some(false), role)),
            member_roles,
        ) && !must_remove(reactor, author, emoji, Some(rule_settings(roles, Some(true), role)), member_roles)
            && !must_remove(reactor, author, emoji, None, member_roles),
        reactor is Some && reactor == author && blocked_emoji(emoji) ==> {
            let allowed = match roles {
                Some(v) => v@,
                None => Seq::<u64>::empty(),
            };
            let holds = match member_roles {
                Some(r) => exists|i: int| 0 <= i < r.len() && allowed.contains(#[trigger] r[i]),
                None => false,
            };
            &&& must_remove(reactor, author, emoji, None, member_roles)
            &&& must_remove(reactor, author, emoji, Some(rule_settings(roles, Some(false), role)), member_roles)
                == !holds
            &&& must_remove(reactor, author, emoji, Some(rule_settings(roles, Some(true), role)), member_roles)
                == holds
        },
{
}

/// Decides whether a new reaction must be taken off.
pub fn should_remove_reaction(
    reactor: Option<u64>,
    author: Option<u64>,
    emoji: &ReactionEmoji,
    misc: Option<&MiscConfig>,
    member_roles: Option<&Vec<u64>>,
) -> (r: bool)
    ensures
        r == must_remove(
            reactor,
            author,
            *emoji,
            match misc {
                Some(m) => Some(*m),
                None => None,
            },
            match member_roles {
                Some(v) => Some(v@),
                None => None,
            },
        ),
{
    let (u, a) = match (reactor, author) {
        (Some(u), Some(a)) => (u, a),
        _ => return false,
    };
    if u != a || !is_blocked_emoji(emoji) {
        return false;
    }
    match misc {
        None => true,
        Some(m) => {
            let empty: Vec<u64> = Vec::new();
            let allowed: &Vec<u64> = match &m.self_reaction_roles {
                Some(v) => v,
                None => &empty,
            };
            let inverted = match m.invert_self_reaction_roles {
                Some(b) => b,
                None => false,
            };
            let matching = match member_roles {
                Some(roles) => has_any_role(roles, allowed),
                None => false,
            };
            !(matching != inverted)
        },
    }
}

/// The older rule, once the reacted message is known to be the reactor's
/// own: the reaction stays only for a member holding the configured role.
pub fn should_remove_own_reaction(
    required_role: Option<u64>,
    member_roles: Option<&Vec<u64>>,
) -> (r: bool)
    ensures
        r == !(match (required_role, member_roles) {
            (Some(role), Some(roles)) => roles@.contains(role),
            _ => false,
        }),
{
    match (required_role, member_roles) {
        (Some(role), Some(roles)) => {
            let mut i: usize = 0;
            while i < roles.len()
                invariant
                    i <= roles@.len(),
                    member_roles == Some(roles),
                    required_role == Some(role),
                    forall|j: int| 0 <= j < i ==> roles@[j] != role,
                decreases roles@.len() - i,
            {
                if roles[i] == role {
                    assert(roles@.contains(role));
                    return false;
                }
                i = i + 1;
            }
            true
        },
        _ => true,
    }
}

} // verus!
