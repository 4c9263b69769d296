use alterbot::minecraft::{
    extract_motd, mc_to_ansi, motd_block, player_count_text, players_text, status_port, MotdValue,
};

fn text(s: &str) -> MotdValue {
    MotdValue::Text(s.to_string())
}

#[test]
fn motd_from_components() {
    let v = MotdValue::Object(vec![
        ("extra".to_string(), MotdValue::Array(vec![text(" world"), MotdValue::Other, text("!")])),
        ("text".to_string(), text("hello")),
        ("bold".to_string(), MotdValue::Other),
    ]);
    assert_eq!(extract_motd(&v), "hello world!");
    assert_eq!(extract_motd(&text("plain")), "plain");
    assert_eq!(extract_motd(&MotdValue::Array(vec![text("a"), text("b")])), "ab");
    assert_eq!(extract_motd(&MotdValue::Other), "");
    let nested = MotdValue::Object(vec![(
        "extra".to_string(),
        MotdValue::Array(vec![MotdValue::Object(vec![("text".to_string(), text("deep"))])]),
    )]);
    assert_eq!(extract_motd(&nested), "deep");
}

#[test]
fn colour_codes_become_ansi() {
    assert_eq!(mc_to_ansi("§aGreen &lBold"), "\u{1b}[0;32mGreen \u{1b}[1mBold\u{1b}[0m");
    assert_eq!(mc_to_ansi("§zodd"), "§zodd\u{1b}[0m");
    assert_eq!(mc_to_ansi("end§"), "end§\u{1b}[0m");
    assert_eq!(mc_to_ansi("plain"), "plain\u{1b}[0m");
    assert_eq!(mc_to_ansi(""), "\u{1b}[0m");
}

#[test]
fn motd_block_wraps_in_ansi_code_block() {
    assert_eq!(motd_block(Some(&text("§cHi"))), "```ansi\n\u{1b}[0;31mHi\u{1b}[0m\n```");
    assert_eq!(motd_block(None), "```ansi\nno MOTD provided\u{1b}[0m\n```");
}

#[test]
fn player_list() {
    assert_eq!(players_text(None), "no players online (or hidden by server)");
    assert_eq!(players_text(Some(Vec::new())), "no players online (or hidden by server)");
    assert_eq!(players_text(Some(vec!["a".to_string(), "b".to_string()])), "a, b");
    let many: Vec<String> = (0..18).map(|i| format!("p{i}")).collect();
    let mut expected: Vec<String> = (0..15).map(|i| format!("p{i}")).collect();
    expected.push("...and 3 more".to_string());
    assert_eq!(players_text(Some(many)), expected.join(", "));
}

#[test]
fn counts_and_port() {
    assert_eq!(player_count_text(3, 20), "3/20");
    assert_eq!(status_port(None), 25565);
    assert_eq!(status_port(Some(25566)), 25566);
}
