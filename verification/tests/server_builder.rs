use alterbot::server::{build_error_text, BuildError, WebServer, WebServerBuilder};

type Builder = WebServerBuilder<u8, u16, String, u32, u64>;

#[test]
fn builds_when_everything_is_set() {
    let server = WebServer::builder()
        .http(1u8)
        .shard_manager(2u16)
        .config_manager("cfg".to_string())
        .poll_cache(3u32)
        .db(4u64)
        .bind(([127, 0, 0, 1], 3000))
        .build();
    let server = match server {
        Ok(s) => s,
        Err(e) => panic!("{}", build_error_text(e)),
    };
    assert_eq!(server.state.http, 1);
    assert_eq!(server.state.shard_manager, 2);
    assert_eq!(server.state.config_manager, "cfg");
    assert_eq!(server.state.poll_cache, 3);
    assert_eq!(server.state.db, 4);
    assert_eq!(server.addr, ([127, 0, 0, 1], 3000));
}

#[test]
fn names_the_first_missing_part() {
    let empty = Builder::new();
    assert_eq!(empty.build().err(), Some(BuildError::MissingHttp));
    let no_addr = Builder::new().http(1).shard_manager(2).config_manager(String::new()).poll_cache(3).db(4);
    assert_eq!(no_addr.build().err(), Some(BuildError::MissingAddress));
    let no_db = Builder::new().http(1).shard_manager(2).config_manager(String::new()).bind(([0, 0, 0, 0], 1)).poll_cache(3);
    assert_eq!(no_db.build().err(), Some(BuildError::MissingDatabase));
    assert_eq!(build_error_text(BuildError::MissingDatabase), "db must be provided to WebServerBuilder");
    assert_eq!(build_error_text(BuildError::MissingHttp), "http must be provided to WebServerBuilder");
}
