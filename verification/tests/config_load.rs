use alterbot::config::{
    registration_plan, web_bind_address, Config, ConfigError, ConfigKey, ConfigSource, DiscordToken,
    Registration, DEFAULT_WEB_PORT,
};

const TOKEN: &str = "Mjg4NzYwMjQxMzYzODc3ODg4.C_ikow.j3VupLBuE1QWZng3TMGH0z_UAwg";

fn empty() -> ConfigSource {
    ConfigSource {
        bot_token: None,
        bot_dev_guild_id: None,
        db_uri: None,
        web_tokens: None,
        web_port: None,
        misc_self_reaction_roles: None,
        misc_invert_self_reaction_roles: None,
        misc_can_react_true_to_own_messages_role: None,
    }
}

fn full_file() -> ConfigSource {
    ConfigSource {
        bot_token: Some(TOKEN.to_string()),
        bot_dev_guild_id: Some(11),
        db_uri: Some("postgres://file".to_string()),
        web_tokens: Some(vec!["a".to_string()]),
        web_port: Some(8080),
        ..empty()
    }
}

#[test]
fn tokens_are_checked() {
    assert!(DiscordToken::try_from(TOKEN.to_string()).is_ok());
    assert!(DiscordToken::try_from(format!("Bot {TOKEN}")).is_ok());
    let t = DiscordToken::try_from(TOKEN.to_string()).ok().unwrap();
    assert_eq!(t.as_ref(), TOKEN);
    for bad in ["", "abc", "a.b", "a..c", "a.b.c.d", ".b.c"] {
        match DiscordToken::try_from(bad.to_string()) {
            Err(m) => assert_eq!(m, "token error: The provided token was invalid"),
            Ok(_) => panic!("accepted {bad:?}"),
        }
    }
    assert_eq!(
        serenity::utils::validate_token("a.b.c").is_ok(),
        DiscordToken::try_from("a.b.c".to_string()).is_ok()
    );
}

#[test]
fn file_alone_is_enough() {
    let c = match Config::load(full_file(), empty()) {
        Ok(c) => c,
        Err(_) => panic!("refused"),
    };
    assert_eq!(c.bot.token.as_ref(), TOKEN);
    assert_eq!(c.bot.dev_guild_id, Some(11));
    assert_eq!(c.db.uri, "postgres://file");
    assert_eq!(c.web.tokens, vec!["a".to_string()]);
    assert_eq!(c.web.port, Some(8080));
    assert!(c.misc.is_none());
}

#[test]
fn environment_overrides_file() {
    let env = ConfigSource {
        db_uri: Some("postgres://env".to_string()),
        web_port: Some(9000),
        misc_invert_self_reaction_roles: Some(true),
        ..empty()
    };
    let c = match Config::load(full_file(), env) {
        Ok(c) => c,
        Err(_) => panic!("refused"),
    };
    assert_eq!(c.db.uri, "postgres://env");
    assert_eq!(c.web.port, Some(9000));
    assert_eq!(c.web.tokens, vec!["a".to_string()]);
    let misc = c.misc.expect("misc settings");
    assert_eq!(misc.invert_self_reaction_roles, Some(true));
    assert_eq!(misc.self_reaction_roles, None);
}

#[test]
fn missing_keys_are_reported_in_order() {
    match Config::load(empty(), empty()) {
        Err(ConfigError::Missing(k)) => assert_eq!(k, ConfigKey::BotToken),
        _ => panic!("expected a missing token"),
    }
    let only_token = ConfigSource { bot_token: Some(TOKEN.to_string()), ..empty() };
    match Config::load(only_token, empty()) {
        Err(ConfigError::Missing(k)) => assert_eq!(k, ConfigKey::DatabaseUri),
        _ => panic!("expected a missing uri"),
    }
    let no_web = ConfigSource { web_tokens: None, ..full_file() };
    match Config::load(no_web, empty()) {
        Err(ConfigError::Missing(k)) => assert_eq!(k, ConfigKey::WebTokens),
        _ => panic!("expected missing web tokens"),
    }
}

#[test]
fn bad_token_is_refused() {
    let env = ConfigSource { bot_token: Some("nope".to_string()), ..empty() };
    match Config::load(full_file(), env) {
        Err(ConfigError::InvalidToken(m)) => assert_eq!(m, "token error: The provided token was invalid"),
        _ => panic!("expected an invalid token"),
    }
}

#[test]
fn bind_address() {
    assert_eq!(web_bind_address(Some("1"), None), ([0, 0, 0, 0], DEFAULT_WEB_PORT));
    assert_eq!(web_bind_address(Some("0"), Some(81)), ([127, 0, 0, 1], 81));
    assert_eq!(web_bind_address(None, None), ([127, 0, 0, 1], 3000));
}

#[test]
fn registration() {
    assert_eq!(registration_plan(true, Some(5)), Registration::InGuild(5));
    assert_eq!(registration_plan(true, None), Registration::Skip);
    assert_eq!(registration_plan(false, Some(5)), Registration::Global);
}
