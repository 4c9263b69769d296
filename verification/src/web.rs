//! Decisions of the web API: bearer authentication, request validation, and
//! the bodies of its responses.

use vstd::prelude::*;
use crate::text::{
    chars_of, chars_start_with, decimal, parse_u64, parsed_u64, same_text, starts_with, string_of,
    trim, trim_text, u64_text, write_decimal,
};

verus! {

/// The token of an `Authorization` header value: what follows `Bearer `.
pub open spec fn bearer_of(header: Seq<char>) -> Option<Seq<char>> {
    if starts_with(header, "Bearer "@) {
        Some(header.subrange(7, header.len() as int))
    } else {
        None
    }
}

/// Reads the token of a bearer `Authorization` header.
pub fn bearer_token(header: &str) -> (r: Option<String>)
    ensures
        match r {
            Some(t) => bearer_of(header@) == Some(t@),
            None => bearer_of(header@) is None,
        },
{
    let v = chars_of(header);
    let prefix = chars_of("Bearer ");
    proof {
        reveal_strlit("Bearer ");
    }
    if chars_start_with(&v, &prefix) {
        Some(string_of(&v, 7, v.len()))
    } else {
        None
    }
}

/// Whether `token` is one of the configured API tokens.
pub open spec fn token_known(tokens: Seq<String>, token: Seq<char>) -> bool {
    exists|i: int| 0 <= i < tokens.len() && #[trigger] tokens[i]@ == token
}

/// Whether `token` is one of the configured API tokens.
pub fn is_known_token(tokens: &Vec<String>, token: &str) -> (r: bool)
    ensures
        r == token_known(tokens@, token@),
{
    let mut i: usize = 0;
    while i < tokens.len()
        invariant
            i <= tokens@.len(),
            forall|j: int| 0 <= j < i ==> #[trigger] tokens@[j]@ != token@,
        decreases tokens@.len() - i,
    {
        if same_text(tokens[i].as_str(), token) {
            return true;
        }
        i = i + 1;
    }
    false
}

/// Why a request was refused by the bearer check.
#[derive(Clone, Copy, PartialEq, Eq, Structural, Debug)]
pub enum AuthError {
    /// No `Authorization` header, or one that is not `Bearer <token>`.
    MissingOrMalformed,
    /// A bearer token that is not configured.
    UnknownToken,
}

/// The outcome of the bearer check on a request's `Authorization` header
/// (`None` when absent or not visible ASCII).
pub open spec fn auth_outcome(tokens: Seq<String>, header: Option<Seq<char>>) -> Result<(), AuthError> {
    match header {
        Some(h) => match bearer_of(h) {
            Some(t) => if token_known(tokens, t) {
                Ok(())
            } else {
                Err(AuthError::UnknownToken)
            },
            None => Err(AuthError::MissingOrMalformed),
        },
        None => Err(AuthError::MissingOrMalformed),
    }
}

/// Checks a request's bearer token against the configured tokens.
pub fn require_bearer_auth(tokens: &Vec<String>, header: Option<&str>) -> (r: Result<(), AuthError>)
    ensures
        r == auth_outcome(
            tokens@,
            match header {
                Some(h) => Some(h@),
                None => None,
            },
        ),
{
    match header {
        Some(h) => match bearer_token(h) {
            Some(t) => {
                if is_known_token(tokens, t.as_str()) {
                    Ok(())
                } else {
                    Err(AuthError::UnknownToken)
                }
            },
            None => Err(AuthError::MissingOrMalformed),
        },
        None => Err(AuthError::MissingOrMalformed),
    }
}

/// Every configured token opens the API: the header `Bearer <token>` is
/// accepted, and a request without a header never is.
pub proof fn lemma_configured_token_accepted(tokens: Seq<String>, i: int)
    requires
        0 <= i < tokens.len(),
    ensures
        auth_outcome(tokens, Some("Bearer "@ + tokens[i]@)) == Ok::<(), AuthError>(()),
        auth_outcome(tokens, None) == Err::<(), AuthError>(AuthError::MissingOrMalformed),
{
    reveal_strlit("Bearer ");
    let h = "Bearer "@ + tokens[i]@;
    assert(h.subrange(0, 7) =~= "Bearer "@);
    assert(h.subrange(7, h.len() as int) =~= tokens[i]@);
    assert(bearer_of(h) == Some(tokens[i]@));
    assert(token_known(tokens, tokens[i]@));
}

/// Status code and message of a refused request.
pub fn auth_error_response(e: AuthError) -> (r: (u16, &'static str))
    ensures
        r.0 == 401,
        r.1@ == match e {
            AuthError::MissingOrMalformed => "Missing or invalid Authorization header format"@,
            AuthError::UnknownToken => "Invalid bearer token"@,
        },
{
    match e {
        AuthError::MissingOrMalformed => (401, "Missing or invalid Authorization header format"),
        AuthError::UnknownToken => (401, "Invalid bearer token"),
    }
}

/// The bot's connection status, as the `/status` endpoint reports it.
pub struct StatusResponse {
    pub status: String,
    pub active_shards: usize,
    pub version: String,
}

/// The status for a number of running shards: disconnected with none,
/// online otherwise.
pub fn status_response(active_shards: usize, version: &str) -> (r: StatusResponse)
    ensures
        r.active_shards == active_shards,
        r.version@ == version@,
        r.status@ == if active_shards == 0 {
            "disconnected"@
        } else {
            "online"@
        },
{
    if active_shards == 0 {
        StatusResponse {
            status: String::from_str("disconnected"),
            active_shards: 0,
            version: String::from_str(version),
        }
    } else {
        StatusResponse {
            status: String::from_str("online"),
            active_shards,
            version: String::from_str(version),
        }
    }
}

/// A request to post a message in a channel.
pub struct MessageRequest {
    pub channel_id: String,
    pub message: String,
    pub reply_to_id: Option<String>,
}

/// The reply to a dispatched message.
pub struct MessageResponse {
    pub success: bool,
    pub message: String,
}

/// Where a message goes: the channel, and the message it replies to.
#[derive(Clone, Copy, PartialEq, Eq, Structural, Debug)]
pub struct MessageTarget {
    pub channel_id: u64,
    pub reply_to: Option<u64>,
}

/// Why a message request was refused.
#[derive(Clone, Copy, PartialEq, Eq, Structural, Debug)]
pub enum MessageError {
    /// The channel id is not a number.
    BadChannelId,
    /// The id of the message to reply to is not a number.
    BadReplyId,
}

/// The target of a message request: the channel id, then the reply id if
/// given, each read as `u64`.
pub open spec fn message_target(channel: Seq<char>, reply_to: Option<Seq<char>>) -> Result<MessageTarget, MessageError> {
    match parsed_u64(channel) {
        None => Err(MessageError::BadChannelId),
        Some(c) => match reply_to {
            None => Ok(MessageTarget { channel_id: c, reply_to: None }),
            Some(t) => match parsed_u64(t) {
                None => Err(MessageError::BadReplyId),
                Some(m) => Ok(MessageTarget { channel_id: c, reply_to: Some(m) }),
            },
        },
    }
}

/// Reads where a message request should go.
pub fn plan_message(request: &MessageRequest) -> (r: Result<MessageTarget, MessageError>)
    ensures
        r == message_target(
            request.channel_id@,
            match request.reply_to_id {
                Some(t) => Some(t@),
                None => None,
            },
        ),
{
    let channel = match parse_u64(request.channel_id.as_str()) {
        Some(c) => c,
        None => return Err(MessageError::BadChannelId),
    };
    match &request.reply_to_id {
        None => Ok(MessageTarget { channel_id: channel, reply_to: None }),
        Some(t) => match parse_u64(t.as_str()) {
            None => Err(MessageError::BadReplyId),
            Some(m) => Ok(MessageTarget { channel_id: channel, reply_to: Some(m) }),
        },
    }
}

/// Text of a refused message request.
pub fn message_error_text(e: MessageError) -> (r: &'static str)
    ensures
        r@ == match e {
            MessageError::BadChannelId => "Invalid channel_id format"@,
            MessageError::BadReplyId => "Invalid reply_to_id format"@,
        },
{
    match e {
        MessageError::BadChannelId => "Invalid channel_id format",
        MessageError::BadReplyId => "Invalid reply_to_id format",
    }
}

/// Status code and message of a refused message request: a malformed id is
/// a bad request.
pub fn message_error_response(e: MessageError) -> (r: (u16, &'static str))
    ensures
        r.0 == 400,
        r.1@ == match e {
            MessageError::BadChannelId => "Invalid channel_id format"@,
            MessageError::BadReplyId => "Invalid reply_to_id format"@,
        },
{
    (400, message_error_text(e))
}

/// The reply to a message that was dispatched.
pub fn message_sent() -> (r: MessageResponse)
    ensures
        r.success,
        r.message@ == "Message dispatched successfully"@,
{
    MessageResponse { success: true, message: String::from_str("Message dispatched successfully") }
}

/// Body of an error reply of the API.
pub struct ErrorResponse {
    pub error: String,
}

/// An error of the API, with the text of its cause.
pub enum AppError {
    Serenity(String),
    Database(String),
    NotFound(String),
    Internal(String),
}

/// Status code and body of the reply to an error: a not-found error says
/// what was not found; the others hide their cause behind a fixed message.
pub open spec fn app_error_reply(e: AppError) -> (u16, Seq<char>) {
    match e {
        AppError::Serenity(_) => (500, "failed to request from discord"@),
        AppError::Database(_) => (500, "database operation failed"@),
        AppError::NotFound(m) => (404, m@),
        AppError::Internal(_) => (500, "an unexpected internal error occurred"@),
    }
}

impl AppError {
    /// The reply an error becomes.
    pub fn into_response(self) -> (r: (u16, ErrorResponse))
        ensures
            (r.0, r.1.error@) == app_error_reply(self),
    {
        match self {
            AppError::Serenity(_) => (500, ErrorResponse { error: String::from_str("failed to request from discord") }),
            AppError::Database(_) => (500, ErrorResponse { error: String::from_str("database operation failed") }),
            AppError::NotFound(m) => (404, ErrorResponse { error: m }),
            AppError::Internal(_) => (500, ErrorResponse { error: String::from_str("an unexpected internal error occurred") }),
        }
    }

    /// The error's own description.
    pub fn message(&self) -> (r: String)
        ensures
            r@ == match self {
                AppError::Serenity(m) => "discord api error: "@ + m@,
                AppError::Database(m) => "database error: "@ + m@,
                AppError::NotFound(m) => "not found: "@ + m@,
                AppError::Internal(_) => "internal server error"@,
            },
    {
        match self {
            AppError::Serenity(m) => {
                let mut out = String::from_str("discord api error: ");
                out.append(m.as_str());
                out
            },
            AppError::Database(m) => {
                let mut out = String::from_str("database error: ");
                out.append(m.as_str());
                out
            },
            AppError::NotFound(m) => {
                let mut out = String::from_str("not found: ");
                out.append(m.as_str());
                out
            },
            AppError::Internal(_) => String::from_str("internal server error"),
        }
    }
}

/// A guild the bot is in, as the API lists it.
pub struct GuildResponse {
    pub id: String,
    pub name: String,
    pub icon: Option<String>,
}

impl GuildResponse {
    /// Builds the listing entry of a guild from its id, name and icon hash.
    pub fn from_guild(id: u64, name: String, icon: Option<String>) -> (r: GuildResponse)
        ensures
            r.id@ == decimal(id as nat),
            r.name == name,
            r.icon == icon,
    {
        GuildResponse { id: u64_text(id), name, icon }
    }
}

/// A channel of a guild, as the API lists it.
pub struct ChannelResponse {
    pub id: String,
    pub name: String,
    pub kind: String,
    pub position: u16,
    pub parent_id: Option<String>,
}

impl ChannelResponse {
    /// Builds the listing entry of a channel from its id, name, kind name,
    /// position and parent category.
    pub fn from_channel(id: u64, name: String, kind: String, position: u16, parent_id: Option<u64>) -> (r: ChannelResponse)
        ensures
            r.id@ == decimal(id as nat),
            r.name == name,
            r.kind == kind,
            r.position == position,
            match parent_id {
                Some(p) => r.parent_id matches Some(t) && t@ == decimal(p as nat),
                None => r.parent_id is None,
            },
    {
        let parent = match parent_id {
            Some(p) => Some(u64_text(p)),
            None => None,
        };
        ChannelResponse { id: u64_text(id), name, kind, position, parent_id: parent }
    }
}


/// The ids a poll creation request names, once read.
#[derive(Clone, Copy, PartialEq, Eq, Structural, Debug)]
pub struct PollRequestIds {
    pub guild_id: u64,
    pub channel_id: u64,
    pub required_role_id: Option<u64>,
}

/// Why a poll creation request was refused.
#[derive(Clone, Copy, PartialEq, Eq, Structural, Debug)]
pub enum PollRequestError {
    TooFewOptions,
    BadGuildId,
    BadChannelId,
    BadRoleId,
}

/// The validation of a poll creation request, in order: at least two options,
/// then the guild id, the channel id and (unless absent or blank) the
/// required role id, each read as `u64`.
pub open spec fn poll_request_check(
    option_count: nat,
    guild_id: Seq<char>,
    channel_id: Seq<char>,
    role: Option<Seq<char>>,
) -> Result<PollRequestIds, PollRequestError> {
    if option_count < 2 {
        Err(PollRequestError::TooFewOptions)
    } else {
        match parsed_u64(guild_id) {
            None => Err(PollRequestError::BadGuildId),
            Some(g) => match parsed_u64(channel_id) {
                None => Err(PollRequestError::BadChannelId),
                Some(c) => match role {
                    Some(r) if trim(r).len() > 0 => match parsed_u64(r) {
                        None => Err(PollRequestError::BadRoleId),
                        Some(x) => Ok(PollRequestIds { guild_id: g, channel_id: c, required_role_id: Some(x) }),
                    },
                    _ => Ok(PollRequestIds { guild_id: g, channel_id: c, required_role_id: None }),
                },
            },
        }
    }
}

/// Checks a poll creation request.
pub fn check_poll_request(
    option_count: usize,
    guild_id: &str,
    channel_id: &str,
    required_role_id: Option<&str>,
) -> (r: Result<PollRequestIds, PollRequestError>)
    ensures
        r == poll_request_check(
            option_count as nat,
            guild_id@,
            channel_id@,
            match required_role_id {
                Some(x) => Some(x@),
                None => None,
            },
        ),
{
    if option_count < 2 {
        return Err(PollRequestError::TooFewOptions);
    }
    let g = match parse_u64(guild_id) {
        Some(g) => g,
        None => return Err(PollRequestError::BadGuildId),
    };
    let c = match parse_u64(channel_id) {
        Some(c) => c,
        None => return Err(PollRequestError::BadChannelId),
    };
    match required_role_id {
        Some(role) => {
            let t = trim_text(role);
            if t.unicode_len() > 0 {
                match parse_u64(role) {
                    None => Err(PollRequestError::BadRoleId),
                    Some(x) => Ok(PollRequestIds { guild_id: g, channel_id: c, required_role_id: Some(x) }),
                }
            } else {
                Ok(PollRequestIds { guild_id: g, channel_id: c, required_role_id: None })
            }
        },
        None => Ok(PollRequestIds { guild_id: g, channel_id: c, required_role_id: None }),
    }
}

/// Status code and message of a refused poll creation request.
pub fn poll_request_error_response(e: PollRequestError) -> (r: (u16, &'static str))
    ensures
        r.0 == 400,
        r.1@ == match e {
            PollRequestError::TooFewOptions => "at least two poll options are required"@,
            PollRequestError::BadGuildId => "invalid guild_id string format"@,
            PollRequestError::BadChannelId => "invalid channel_id string format"@,
            PollRequestError::BadRoleId => "invalid required_role_id string format"@,
        },
{
    match e {
        PollRequestError::TooFewOptions => (400, "at least two poll options are required"),
        PollRequestError::BadGuildId => (400, "invalid guild_id string format"),
        PollRequestError::BadChannelId => (400, "invalid channel_id string format"),
        PollRequestError::BadRoleId => (400, "invalid required_role_id string format"),
    }
}

/// A created poll, as the API returns it.
pub struct PollResponse {
    pub id: u128,
    pub title: String,
    pub channel_id: u64,
    pub guild_id: u64,
    pub ends_at: String,
    pub is_active: bool,
}

impl PollResponse {
    /// Builds the reply from a stored poll; the stored (signed) ids are read
    /// back as the unsigned Discord ids they came from.
    pub fn from_poll(
        id: u128,
        title: String,
        channel_id: i64,
        guild_id: i64,
        ends_at: String,
        is_active: bool,
    ) -> (r: PollResponse)
        ensures
            r.id == id,
            r.title == title,
            r.channel_id == channel_id as u64,
            r.guild_id == guild_id as u64,
            r.ends_at == ends_at,
            r.is_active == is_active,
    {
        PollResponse {
            id,
            title,
            channel_id: channel_id as u64,
            guild_id: guild_id as u64,
            ends_at,
            is_active,
        }
    }
}

} // verus!
