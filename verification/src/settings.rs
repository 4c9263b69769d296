//! Replies of the server settings commands.

use vstd::prelude::*;
use crate::text::{signed_decimal, write_signed_decimal};

verus! {

/// Confirmation that poll results go to a channel (ids as stored, signed).
pub fn log_channel_set_text(channel_id: i64) -> (r: String)
    ensures
        r@ == "poll results will now be logged in <#"@ + signed_decimal(channel_id as int) + ">."@,
{
    let mut out = String::from_str("poll results will now be logged in <#");
    write_signed_decimal(&mut out, channel_id);
    out.append(">.");
    out
}

/// Confirmation that a user may no longer vote.
pub fn voter_banned_text(user_id: i64) -> (r: String)
    ensures
        r@ == "<@"@ + signed_decimal(user_id as int) + "> has been banned from voting in polls."@,
{
    let mut out = String::from_str("<@");
    write_signed_decimal(&mut out, user_id);
    out.append("> has been banned from voting in polls.");
    out
}

/// Reply to lifting a voting ban: whether a ban was removed decides it.
pub fn voter_unbanned_text(user_id: i64, rows_removed: u64) -> (r: String)
    ensures
        r@ == if rows_removed > 0 {
            "\u{2705} <@"@ + signed_decimal(user_id as int) + "> is now allowed to vote again."@
        } else {
            "\u{26A0}\u{FE0F} <@"@ + signed_decimal(user_id as int) + "> was not banned."@
        },
{
    if rows_removed > 0 {
        let mut out = String::from_str("\u{2705} <@");
        write_signed_decimal(&mut out, user_id);
        out.append("> is now allowed to vote again.");
        out
    } else {
        let mut out = String::from_str("\u{26A0}\u{FE0F} <@");
        write_signed_decimal(&mut out, user_id);
        out.append("> was not banned.");
        out
    }
}

} // verus!
