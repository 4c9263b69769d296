//! The slash and context-menu commands the bot registers, and the order in
//! which each feature adds its own to the list.

use vstd::prelude::*;

verus! {

/// A command of the bot, by name; the Discord side of each lives with the
/// event loop.
#[derive(Clone, Copy, PartialEq, Eq, Structural, Debug)]
pub enum BotCommand {
    Info,
    AreWeThereYet,
    StartPoll,
    EndPoll,
    CheckPollStatus,
    Settings,
    ServerStatus,
    Quote,
}

/// Adds the Minecraft commands to `cmds`.
pub fn minecraft_commands(cmds: Vec<BotCommand>) -> (r: Vec<BotCommand>)
    ensures
        r@ == cmds@.push(BotCommand::ServerStatus),
{
    let mut cmds = cmds;
    cmds.push(BotCommand::ServerStatus);
    cmds
}

/// Adds the poll commands to `cmds`: start, end, then status.
pub fn poll_commands(cmds: Vec<BotCommand>) -> (r: Vec<BotCommand>)
    ensures
        r@ == cmds@.push(BotCommand::StartPoll).push(BotCommand::EndPoll).push(
            BotCommand::CheckPollStatus,
        ),
{
    let mut cmds = cmds;
    cmds.push(BotCommand::StartPoll);
    cmds.push(BotCommand::EndPoll);
    cmds.push(BotCommand::CheckPollStatus);
    cmds
}

/// Adds the quote command to `cmds`.
pub fn quote_commands(cmds: Vec<BotCommand>) -> (r: Vec<BotCommand>)
    ensures
        r@ == cmds@.push(BotCommand::Quote),
{
    let mut cmds = cmds;
    cmds.push(BotCommand::Quote);
    cmds
}

/// Adds the settings command (with its subcommands) to `cmds`.
pub fn settings_commands(cmds: Vec<BotCommand>) -> (r: Vec<BotCommand>)
    ensures
        r@ == cmds@.push(BotCommand::Settings),
{
    let mut cmds = cmds;
    cmds.push(BotCommand::Settings);
    cmds
}

/// The full list the bot registers: its own commands, then each feature's.
pub open spec fn all_commands() -> Seq<BotCommand> {
    seq![
        BotCommand::Info,
        BotCommand::AreWeThereYet,
        BotCommand::StartPoll,
        BotCommand::EndPoll,
        BotCommand::CheckPollStatus,
        BotCommand::Settings,
        BotCommand::ServerStatus,
        BotCommand::Quote,
    ]
}

/// Builds the list of commands the bot registers at start-up.
pub fn bot_commands() -> (r: Vec<BotCommand>)
    ensures
        r@ == all_commands(),
{
    let mut cmds: Vec<BotCommand> = Vec::new();
    cmds.push(BotCommand::Info);
    cmds.push(BotCommand::AreWeThereYet);
    let cmds = poll_commands(cmds);
    let cmds = settings_commands(cmds);
    let cmds = minecraft_commands(cmds);
    let cmds = quote_commands(cmds);
    assert(cmds@ =~= all_commands());
    cmds
}

/// Every command is registered exactly once.
pub proof fn lemma_commands_registered_once()
    ensures
        all_commands().no_duplicates(),
{
    let s = all_commands();
    assert forall|i: int, j: int| 0 <= i < s.len() && 0 <= j < s.len() && i != j implies s[i]
        != s[j] by {}
}

} // verus!
