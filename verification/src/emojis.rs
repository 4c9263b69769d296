//! The custom emojis the bot shows next to poll choices.

use vstd::prelude::*;

verus! {

/// A custom Discord emoji: its id and the markup that renders it.
pub struct BotEmoji {
    pub id: u64,
    pub text: &'static str,
}

/// Markup of the animated "yes" emoji.
pub open spec fn yes_markup() -> Seq<char> {
    "<a:yes_name:1501867651511746622>"@
}

/// Markup of the "no" emoji.
pub open spec fn no_markup() -> Seq<char> {
    "<:no_name:1501867649611858041>"@
}

/// Markup of the "hard no" emoji.
pub open spec fn hard_no_markup() -> Seq<char> {
    "<:hard_no_name:1501867648294715412>"@
}

pub fn yes() -> (e: BotEmoji)
    ensures
        e.id == 1501867651511746622u64,
        e.text@ == yes_markup(),
{
    BotEmoji { id: 1501867651511746622u64, text: "<a:yes_name:1501867651511746622>" }
}

pub fn no() -> (e: BotEmoji)
    ensures
        e.id == 1501867649611858041u64,
        e.text@ == no_markup(),
{
    BotEmoji { id: 1501867649611858041u64, text: "<:no_name:1501867649611858041>" }
}

pub fn hard_no() -> (e: BotEmoji)
    ensures
        e.id == 1501867648294715412u64,
        e.text@ == hard_no_markup(),
{
    BotEmoji { id: 1501867648294715412u64, text: "<:hard_no_name:1501867648294715412>" }
}

} // verus!
