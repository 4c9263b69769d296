use alterbot::commands::{
    bot_commands, minecraft_commands, poll_commands, quote_commands, settings_commands, BotCommand,
};
use alterbot::emojis::{hard_no, no, yes};
use alterbot::settings::{log_channel_set_text, voter_banned_text, voter_unbanned_text};
use alterbot::quote::{create_username, quote_signature};
use alterbot::text::{chars_of, join_strings, parse_u64, same_text, split_chars, trim_text, u64_text};

#[test]
fn commands_are_added_in_order() {
    assert_eq!(minecraft_commands(vec![]), vec![BotCommand::ServerStatus]);
    assert_eq!(
        poll_commands(vec![BotCommand::Info]),
        vec![BotCommand::Info, BotCommand::StartPoll, BotCommand::EndPoll, BotCommand::CheckPollStatus]
    );
    assert_eq!(quote_commands(vec![]), vec![BotCommand::Quote]);
    assert_eq!(settings_commands(vec![]), vec![BotCommand::Settings]);
}

#[test]
fn every_command_registered_once() {
    let all = bot_commands();
    for (i, a) in all.iter().enumerate() {
        for b in all.iter().skip(i + 1) {
            assert_ne!(a, b);
        }
    }
    assert!(all.contains(&BotCommand::Quote));
    assert!(all.contains(&BotCommand::ServerStatus));
    assert!(all.contains(&BotCommand::StartPoll));
}

#[test]
fn emojis_carry_their_ids() {
    assert_eq!(yes().id, 1501867651511746622);
    assert_eq!(yes().text, "<a:yes_name:1501867651511746622>");
    assert_eq!(no().text, "<:no_name:1501867649611858041>");
    assert_eq!(hard_no().text, "<:hard_no_name:1501867648294715412>");
    assert_eq!(hard_no().id, 1501867648294715412);
}

#[test]
fn username_of_new_accounts() {
    assert_eq!(create_username("alice", None), "@alice");
}

#[test]
fn username_with_discriminator_is_padded() {
    assert_eq!(create_username("bot", Some(7)), "bot#0007");
    assert_eq!(create_username("bot", Some(1234)), "bot#1234");
    assert_eq!(create_username("bot", Some(42)), "bot#0042");
}

#[test]
fn quote_signature_prefixes_dash() {
    assert_eq!(quote_signature("Alice"), "- Alice");
}

#[test]
fn decimal_text() {
    assert_eq!(u64_text(0), "0");
    assert_eq!(u64_text(1234567890), "1234567890");
    assert_eq!(u64_text(u64::MAX), u64::MAX.to_string());
}

#[test]
fn parse_u64_like_std() {
    for s in ["0", "42", "+7", "", "-1", " 5", "18446744073709551615", "18446744073709551616", "12a", "+"] {
        assert_eq!(parse_u64(s), s.parse::<u64>().ok(), "input {s:?}");
    }
}

#[test]
fn parse_u64_round_trips_decimal() {
    for n in [0u64, 9, 10, 99, 1000, u64::MAX] {
        assert_eq!(parse_u64(&u64_text(n)), Some(n));
    }
}

#[test]
fn trim_like_std() {
    for s in ["  a b  ", "\tx\n", "", "   ", "é ", "\u{3000}y\u{3000}"] {
        assert_eq!(trim_text(s), s.trim());
    }
}

#[test]
fn split_and_join() {
    let parts = split_chars(&chars_of("a,b,,c"), ',');
    assert_eq!(parts, vec!["a", "b", "", "c"]);
    assert_eq!(join_strings(&parts, ","), "a,b,,c");
    assert_eq!(split_chars(&chars_of(""), ','), vec![""]);
}

#[test]
fn same_text_compares() {
    assert!(same_text("abc", "abc"));
    assert!(!same_text("abc", "abd"));
    assert!(!same_text("ab", "abc"));
}

#[test]
fn settings_replies() {
    assert_eq!(log_channel_set_text(123), "poll results will now be logged in <#123>.");
    assert_eq!(voter_banned_text(5), "<@5> has been banned from voting in polls.");
    assert_eq!(voter_unbanned_text(5, 1), "✅ <@5> is now allowed to vote again.");
    assert_eq!(voter_unbanned_text(5, 0), "⚠️ <@5> was not banned.");
}
