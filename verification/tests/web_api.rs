use alterbot::web::{
    auth_error_response, bearer_token, check_poll_request, is_known_token, message_error_response, message_error_text,
    message_sent, plan_message, poll_request_error_response, require_bearer_auth, status_response,
    AppError, AuthError, ChannelResponse, GuildResponse, MessageError, MessageRequest, MessageTarget,
    PollRequestError, PollRequestIds, PollResponse,
};

fn tokens() -> Vec<String> {
    vec!["s3cret".to_string(), "other".to_string()]
}

#[test]
fn bearer_header_is_read() {
    assert_eq!(bearer_token("Bearer abc"), Some("abc".to_string()));
    assert_eq!(bearer_token("Bearer "), Some(String::new()));
    assert_eq!(bearer_token("bearer abc"), None);
    assert_eq!(bearer_token("Basic abc"), None);
}

#[test]
fn known_tokens_authenticate() {
    assert!(is_known_token(&tokens(), "other"));
    assert!(!is_known_token(&tokens(), "nope"));
    assert_eq!(require_bearer_auth(&tokens(), Some("Bearer s3cret")), Ok(()));
    assert_eq!(require_bearer_auth(&tokens(), Some("Bearer nope")), Err(AuthError::UnknownToken));
    assert_eq!(require_bearer_auth(&tokens(), Some("Token s3cret")), Err(AuthError::MissingOrMalformed));
    assert_eq!(require_bearer_auth(&tokens(), None), Err(AuthError::MissingOrMalformed));
    assert_eq!(require_bearer_auth(&Vec::new(), Some("Bearer ")), Err(AuthError::UnknownToken));
}

#[test]
fn auth_errors_answer_401() {
    assert_eq!(auth_error_response(AuthError::MissingOrMalformed), (401, "Missing or invalid Authorization header format"));
    assert_eq!(auth_error_response(AuthError::UnknownToken), (401, "Invalid bearer token"));
}

#[test]
fn status_reflects_shards() {
    let s = status_response(0, "1.2.3");
    assert_eq!(s.status, "disconnected");
    assert_eq!(s.active_shards, 0);
    assert_eq!(s.version, "1.2.3");
    assert_eq!(status_response(2, "v").status, "online");
}

fn request(channel: &str, reply: Option<&str>) -> MessageRequest {
    MessageRequest { channel_id: channel.to_string(), message: "hi".to_string(), reply_to_id: reply.map(|r| r.to_string()) }
}

#[test]
fn message_targets() {
    assert_eq!(plan_message(&request("123", None)), Ok(MessageTarget { channel_id: 123, reply_to: None }));
    assert_eq!(plan_message(&request("123", Some("456"))), Ok(MessageTarget { channel_id: 123, reply_to: Some(456) }));
    assert_eq!(plan_message(&request("abc", Some("456"))), Err(MessageError::BadChannelId));
    assert_eq!(plan_message(&request("123", Some("x"))), Err(MessageError::BadReplyId));
    assert_eq!(message_error_text(MessageError::BadChannelId), "Invalid channel_id format");
    assert_eq!(message_error_text(MessageError::BadReplyId), "Invalid reply_to_id format");
    let ok = message_sent();
    assert!(ok.success);
    assert_eq!(ok.message, "Message dispatched successfully");
}

#[test]
fn app_errors_hide_their_cause() {
    let (code, body) = AppError::Database("boom".to_string()).into_response();
    assert_eq!((code, body.error.as_str()), (500, "database operation failed"));
    let (code, body) = AppError::NotFound("guild 1".to_string()).into_response();
    assert_eq!((code, body.error.as_str()), (404, "guild 1"));
    let (code, body) = AppError::Serenity("x".to_string()).into_response();
    assert_eq!((code, body.error.as_str()), (500, "failed to request from discord"));
    let (code, body) = AppError::Internal("x".to_string()).into_response();
    assert_eq!((code, body.error.as_str()), (500, "an unexpected internal error occurred"));
    assert_eq!(AppError::Database("boom".to_string()).message(), "database error: boom");
    assert_eq!(AppError::Serenity("e".to_string()).message(), "discord api error: e");
    assert_eq!(AppError::NotFound("g".to_string()).message(), "not found: g");
    assert_eq!(AppError::Internal("e".to_string()).message(), "internal server error");
}

#[test]
fn listing_entries_write_ids_in_decimal() {
    let g = GuildResponse::from_guild(81384788765712384, "Guild".to_string(), Some("abc".to_string()));
    assert_eq!(g.id, "81384788765712384");
    assert_eq!(g.name, "Guild");
    assert_eq!(g.icon, Some("abc".to_string()));
    let c = ChannelResponse::from_channel(5, "general".to_string(), "Text".to_string(), 3, Some(9));
    assert_eq!(c.id, "5");
    assert_eq!(c.parent_id, Some("9".to_string()));
    assert_eq!(c.position, 3);
    assert_eq!(ChannelResponse::from_channel(5, "x".to_string(), "Voice".to_string(), 0, None).parent_id, None);
}

#[test]
fn poll_requests_are_checked_in_order() {
    assert_eq!(check_poll_request(1, "x", "y", None), Err(PollRequestError::TooFewOptions));
    assert_eq!(check_poll_request(2, "x", "y", None), Err(PollRequestError::BadGuildId));
    assert_eq!(check_poll_request(2, "1", "y", None), Err(PollRequestError::BadChannelId));
    assert_eq!(check_poll_request(2, "1", "2", Some("r")), Err(PollRequestError::BadRoleId));
    assert_eq!(
        check_poll_request(2, "1", "2", Some("  ")),
        Ok(PollRequestIds { guild_id: 1, channel_id: 2, required_role_id: None })
    );
    assert_eq!(
        check_poll_request(3, "1", "2", Some("3")),
        Ok(PollRequestIds { guild_id: 1, channel_id: 2, required_role_id: Some(3) })
    );
    assert_eq!(poll_request_error_response(PollRequestError::TooFewOptions), (400, "at least two poll options are required"));
    assert_eq!(poll_request_error_response(PollRequestError::BadRoleId), (400, "invalid required_role_id string format"));
}

#[test]
fn poll_response_reads_ids_back_unsigned() {
    let p = PollResponse::from_poll(7, "T".to_string(), -1, 42, "2024-01-01T00:00:00Z".to_string(), true);
    assert_eq!(p.channel_id, u64::MAX);
    assert_eq!(p.guild_id, 42);
    assert_eq!(p.id, 7);
    assert!(p.is_active);
}

#[test]
fn bad_message_ids_are_bad_requests() {
    assert_eq!(message_error_response(MessageError::BadChannelId), (400, "Invalid channel_id format"));
    assert_eq!(message_error_response(MessageError::BadReplyId), (400, "Invalid reply_to_id format"));
}
