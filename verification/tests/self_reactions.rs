use alterbot::config::MiscConfig;
use alterbot::reactions::{is_blocked_emoji, should_remove_own_reaction, should_remove_reaction, ReactionEmoji};

fn check() -> ReactionEmoji {
    ReactionEmoji::Unicode("✅".to_string())
}

fn misc(roles: Option<Vec<u64>>, invert: Option<bool>) -> MiscConfig {
    MiscConfig { self_reaction_roles: roles, invert_self_reaction_roles: invert, can_react_true_to_own_messages_role: None }
}

#[test]
fn blocked_emojis() {
    assert!(is_blocked_emoji(&check()));
    assert!(is_blocked_emoji(&ReactionEmoji::Unicode("❌".to_string())));
    assert!(!is_blocked_emoji(&ReactionEmoji::Unicode("👍".to_string())));
    assert!(is_blocked_emoji(&ReactionEmoji::Custom(1494754728582709338)));
    assert!(is_blocked_emoji(&ReactionEmoji::Custom(1500871782477856969)));
    assert!(!is_blocked_emoji(&ReactionEmoji::Custom(1)));
    assert!(!is_blocked_emoji(&ReactionEmoji::Other));
}

#[test]
fn only_own_blocked_reactions_are_considered() {
    assert!(!should_remove_reaction(Some(1), Some(2), &check(), None, None));
    assert!(!should_remove_reaction(None, Some(2), &check(), None, None));
    assert!(!should_remove_reaction(Some(1), Some(1), &ReactionEmoji::Other, None, None));
    assert!(should_remove_reaction(Some(1), Some(1), &check(), None, None));
}

#[test]
fn listed_roles_allow_it() {
    let m = misc(Some(vec![10, 20]), None);
    assert!(!should_remove_reaction(Some(1), Some(1), &check(), Some(&m), Some(&vec![5, 20])));
    assert!(should_remove_reaction(Some(1), Some(1), &check(), Some(&m), Some(&vec![5])));
    assert!(should_remove_reaction(Some(1), Some(1), &check(), Some(&m), None));
}

#[test]
fn inverted_list_forbids_it() {
    let m = misc(Some(vec![10]), Some(true));
    assert!(should_remove_reaction(Some(1), Some(1), &check(), Some(&m), Some(&vec![10])));
    assert!(!should_remove_reaction(Some(1), Some(1), &check(), Some(&m), Some(&vec![5])));
    assert!(!should_remove_reaction(Some(1), Some(1), &check(), Some(&m), None));
}

#[test]
fn older_rule_needs_the_role() {
    assert!(should_remove_own_reaction(None, Some(&vec![1])));
    assert!(should_remove_own_reaction(Some(3), None));
    assert!(should_remove_own_reaction(Some(3), Some(&vec![1, 2])));
    assert!(!should_remove_own_reaction(Some(3), Some(&vec![1, 3])));
}
