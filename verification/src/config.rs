//! The bot's configuration: its sections, the check of the Discord token,
//! and the start-up choices taken from it.

use vstd::prelude::*;
use crate::text::{split_on, starts_with, views};

verus! {

/// `s` without every leading `Bot ` (as `str::trim_start_matches("Bot ")`
/// strips them, repeatedly).
pub open spec fn strip_bot_prefix(s: Seq<char>) -> Seq<char>
    decreases s.len(),
{
    if s.len() >= 4 && starts_with(s, "Bot "@) {
        strip_bot_prefix(s.subrange(4, s.len() as int))
    } else {
        s
    }
}

/// Whether a token looks like a Discord token, as serenity checks it: after
/// any leading `Bot `, exactly three non-empty parts separated by dots.
pub open spec fn token_well_formed(token: Seq<char>) -> bool {
    let parts = split_on(strip_bot_prefix(token), '.');
    parts.len() == 3 && parts[0].len() > 0 && parts[1].len() > 0 && parts[2].len() > 0
}

/// `serenity::utils::validate_token`, as a yes or no.
#[verifier::external_body]
fn serenity_token_ok(token: &str) -> (r: bool)
    ensures
        r == token_well_formed(token@),
{
    serenity::utils::validate_token(token).is_ok()
}

/// The message a refused token gives: the prefix and serenity's
/// `InvalidToken` text.
pub open spec fn token_error_text() -> Seq<char> {
    "token error: The provided token was invalid"@
}

/// A Discord bot token that passed the format check.
#[derive(Debug, Clone)]
pub struct DiscordToken(String);

impl DiscordToken {
    /// The token text.
    pub closed spec fn text(&self) -> Seq<char> {
        self.0@
    }

    /// Accepts a token whose format is right; refuses any other with a
    /// message.
    pub fn try_from(value: String) -> (r: Result<DiscordToken, String>)
        ensures
            match r {
                Ok(t) => token_well_formed(value@) && t.text() == value@,
                Err(m) => !token_well_formed(value@) && m@ == token_error_text(),
            },
    {
        if !serenity_token_ok(value.as_str()) {
            return Err(String::from_str("token error: The provided token was invalid"));
        }
        Ok(DiscordToken(value))
    }

    /// The token text.
    pub fn as_ref(&self) -> (r: &str)
        ensures
            r@ == self.text(),
    {
        self.0.as_str()
    }
}

/// The bot section.
#[derive(Clone)]
pub struct BotConfig {
    pub token: DiscordToken,
    pub dev_guild_id: Option<u64>,
}

/// The web API section.
#[derive(Clone)]
pub struct WebConfig {
    pub tokens: Vec<String>,
    pub port: Option<u16>,
}

/// The database section.
#[derive(Clone)]
pub struct DatabaseConfig {
    pub uri: String,
}

/// Settings of the smaller features.
#[derive(Clone)]
pub struct MiscConfig {
    /// Roles whose members may (or, inverted, may not) react ✅ / ❌ to
    /// their own messages.
    pub self_reaction_roles: Option<Vec<u64>>,
    /// Whether `self_reaction_roles` lists the roles that may not.
    pub invert_self_reaction_roles: Option<bool>,
    /// The single role allowed to react to its own messages (older setting).
    pub can_react_true_to_own_messages_role: Option<u64>,
}

/// The whole configuration.
#[derive(Clone)]
pub struct Config {
    pub bot: BotConfig,
    pub db: DatabaseConfig,
    pub web: WebConfig,
    pub misc: Option<MiscConfig>,
}

/// The values one configuration source sets (the config file, or the
/// `ALTER_BOT__`-prefixed environment), key by key.
pub struct ConfigSource {
    pub bot_token: Option<String>,
    pub bot_dev_guild_id: Option<u64>,
    pub db_uri: Option<String>,
    pub web_tokens: Option<Vec<String>>,
    pub web_port: Option<u16>,
    pub misc_self_reaction_roles: Option<Vec<u64>>,
    pub misc_invert_self_reaction_roles: Option<bool>,
    pub misc_can_react_true_to_own_messages_role: Option<u64>,
}

/// A required key of the configuration.
#[derive(Clone, Copy, PartialEq, Eq, Structural, Debug)]
pub enum ConfigKey {
    BotToken,
    DatabaseUri,
    WebTokens,
}

/// Why the configuration could not be loaded.
pub enum ConfigError {
    /// A required key is set by no source.
    Missing(ConfigKey),
    /// The bot token is not a Discord token; the message says so.
    InvalidToken(String),
}

/// The value of a key when the environment is laid over the file: the
/// environment's where it sets the key, else the file's.
pub open spec fn layered<T>(env: Option<T>, file: Option<T>) -> Option<T> {
    match env {
        Some(v) => Some(v),
        None => file,
    }
}

/// The view of an optional text.
pub open spec fn text_view(o: Option<String>) -> Option<Seq<char>> {
    match o {
        Some(s) => Some(s@),
        None => None,
    }
}

/// The view of an optional list of texts.
pub open spec fn texts_view(o: Option<Vec<String>>) -> Option<Seq<Seq<char>>> {
    match o {
        Some(v) => Some(views(v@)),
        None => None,
    }
}

/// The view of an optional list of ids.
pub open spec fn ids_view(o: Option<Vec<u64>>) -> Option<Seq<u64>> {
    match o {
        Some(v) => Some(v@),
        None => None,
    }
}

/// The view of the optional settings of the smaller features.
pub open spec fn misc_view(m: Option<MiscConfig>) -> Option<(Option<Seq<u64>>, Option<bool>, Option<u64>)> {
    match m {
        Some(c) => Some(
            (
                ids_view(c.self_reaction_roles),
                c.invert_self_reaction_roles,
                c.can_react_true_to_own_messages_role,
            ),
        ),
        None => None,
    }
}

/// The settings of the smaller features that two sources give together:
/// none when neither sets any of their keys.
pub open spec fn layered_misc(env: ConfigSource, file: ConfigSource) -> Option<
    (Option<Seq<u64>>, Option<bool>, Option<u64>),
> {
    let roles = layered(ids_view(env.misc_self_reaction_roles), ids_view(file.misc_self_reaction_roles));
    let invert = layered(env.misc_invert_self_reaction_roles, file.misc_invert_self_reaction_roles);
    let role = layered(
        env.misc_can_react_true_to_own_messages_role,
        file.misc_can_react_true_to_own_messages_role,
    );
    if roles is None && invert is None && role is None {
        None
    } else {
        Some((roles, invert, role))
    }
}

/// Takes the environment's value where it has one, else the file's.
fn pick<T>(env: Option<T>, file: Option<T>) -> (r: Option<T>)
    ensures
        r == layered(env, file),
{
    match env {
        Some(v) => Some(v),
        None => file,
    }
}

impl Config {
    /// Builds the configuration from the config file's values with the
    /// environment's laid over them, checking the bot token; the first
    /// required key that no source sets, or a malformed token, is refused.
    pub fn load(file: ConfigSource, env: ConfigSource) -> (r: Result<Config, ConfigError>)
        ensures
            match r {
                Ok(c) => {
                    &&& layered(text_view(env.bot_token), text_view(file.bot_token)) == Some(
                        c.bot.token.text(),
                    )
                    &&& token_well_formed(c.bot.token.text())
                    &&& c.bot.dev_guild_id == layered(env.bot_dev_guild_id, file.bot_dev_guild_id)
                    &&& layered(text_view(env.db_uri), text_view(file.db_uri)) == Some(c.db.uri@)
                    &&& layered(texts_view(env.web_tokens), texts_view(file.web_tokens)) == Some(
                        views(c.web.tokens@),
                    )
                    &&& c.web.port == layered(env.web_port, file.web_port)
                    &&& misc_view(c.misc) == layered_misc(env, file)
                },
                Err(ConfigError::Missing(ConfigKey::BotToken)) => layered(
                    text_view(env.bot_token),
                    text_view(file.bot_token),
                ) is None,
                Err(ConfigError::InvalidToken(m)) => {
                    &&& layered(text_view(env.bot_token), text_view(file.bot_token)) matches Some(t)
                    &&& !token_well_formed(t)
                    &&& m@ == token_error_text()
                },
                Err(ConfigError::Missing(ConfigKey::DatabaseUri)) => {
                    &&& layered(text_view(env.bot_token), text_view(file.bot_token)) matches Some(t)
                    &&& token_well_formed(t)
                    &&& layered(text_view(env.db_uri), text_view(file.db_uri)) is None
                },
                Err(ConfigError::Missing(ConfigKey::WebTokens)) => {
                    &&& layered(text_view(env.bot_token), text_view(file.bot_token)) matches Some(t)
                    &&& token_well_formed(t)
                    &&& layered(text_view(env.db_uri), text_view(file.db_uri)) is Some
                    &&& layered(texts_view(env.web_tokens), texts_view(file.web_tokens)) is None
                },
            },
    {
        let token_text = match pick(env.bot_token, file.bot_token) {
            Some(t) => t,
            None => return Err(ConfigError::Missing(ConfigKey::BotToken)),
        };
        let token = match DiscordToken::try_from(token_text) {
            Ok(t) => t,
            Err(m) => return Err(ConfigError::InvalidToken(m)),
        };
        let uri = match pick(env.db_uri, file.db_uri) {
            Some(u) => u,
            None => return Err(ConfigError::Missing(ConfigKey::DatabaseUri)),
        };
        let tokens = match pick(env.web_tokens, file.web_tokens) {
            Some(t) => t,
            None => return Err(ConfigError::Missing(ConfigKey::WebTokens)),
        };
        let roles = pick(env.misc_self_reaction_roles, file.misc_self_reaction_roles);
        let invert = pick(env.misc_invert_self_reaction_roles, file.misc_invert_self_reaction_roles);
        let role = pick(
            env.misc_can_react_true_to_own_messages_role,
            file.misc_can_react_true_to_own_messages_role,
        );
        let misc = if roles.is_none() && invert.is_none() && role.is_none() {
            None
        } else {
            Some(
                MiscConfig {
                    self_reaction_roles: roles,
                    invert_self_reaction_roles: invert,
                    can_react_true_to_own_messages_role: role,
                },
            )
        };
        Ok(
            Config {
                bot: BotConfig {
                    token,
                    dev_guild_id: pick(env.bot_dev_guild_id, file.bot_dev_guild_id),
                },
                db: DatabaseConfig { uri },
                web: WebConfig { tokens, port: pick(env.web_port, file.web_port) },
                misc,
            },
        )
    }
}

/// Port the web API listens on when none is configured.
pub const DEFAULT_WEB_PORT: u16 = 3000;

/// Address the web API binds to: every interface inside a container (when
/// `IS_IN_CONTAINER` was `1` at build time), else the loopback interface;
/// the configured port or 3000.
pub fn web_bind_address(in_container: Option<&str>, port: Option<u16>) -> (r: ([u8; 4], u16))
    ensures
        r.0@ == (if in_container matches Some(v) && v@ == "1"@ {
            seq![0u8, 0u8, 0u8, 0u8]
        } else {
            seq![127u8, 0u8, 0u8, 1u8]
        }),
        r.1 == match port {
            Some(p) => p,
            None => DEFAULT_WEB_PORT,
        },
{
    let host: [u8; 4] = match in_container {
        Some(v) => if crate::text::same_text(v, "1") {
            [0, 0, 0, 0]
        } else {
            [127, 0, 0, 1]
        },
        None => [127, 0, 0, 1],
    };
    assert(host@ =~= (if in_container matches Some(v) && v@ == "1"@ {
        seq![0u8, 0u8, 0u8, 0u8]
    } else {
        seq![127u8, 0u8, 0u8, 1u8]
    }));
    let p = match port {
        Some(p) => p,
        None => DEFAULT_WEB_PORT,
    };
    (host, p)
}

/// Where the commands get registered at start-up.
#[derive(Clone, Copy, PartialEq, Eq, Structural, Debug)]
pub enum Registration {
    /// In the development guild only.
    InGuild(u64),
    /// Nowhere: a development build without a development guild.
    Skip,
    /// Globally.
    Global,
}

/// Development builds register in their guild (or nowhere, with a warning,
/// when none is configured); release builds register globally.
pub fn registration_plan(is_dev: bool, dev_guild_id: Option<u64>) -> (r: Registration)
    ensures
        r == (if is_dev {
            match dev_guild_id {
                Some(g) => Registration::InGuild(g),
                None => Registration::Skip,
            }
        } else {
            Registration::Global
        }),
{
    if is_dev {
        match dev_guild_id {
            Some(g) => Registration::InGuild(g),
            None => Registration::Skip,
        }
    } else {
        Registration::Global
    }
}

} // verus!
