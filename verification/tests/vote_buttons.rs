use alterbot::renderer::VoteChoice;
use alterbot::votes::{
    choice_from_label, gate_reply_text, option_vote_custom_id, read_option_vote, read_vote_button, uuid_string, vote_button_custom_id, vote_gate,
    vote_recorded_text, VoteGate,
};

#[test]
fn uuid_text_matches_uuid_crate() {
    let x: u128 = 0x0123456789abcdef0123456789abcdef;
    assert_eq!(uuid_string(x), "01234567-89ab-cdef-0123-456789abcdef");
    for v in [0u128, 1, u128::MAX, 0xdeadbeef << 64] {
        assert_eq!(uuid_string(v), uuid::Uuid::from_u128(v).to_string());
    }
}

#[test]
fn vote_button_round_trip() {
    let x: u128 = 0x5f2c3a1b_0000_4000_8000_00000000beef;
    for (c, label) in [(VoteChoice::Yes, "Yes"), (VoteChoice::No, "No"), (VoteChoice::HardNo, "HardNo")] {
        let id = vote_button_custom_id(c, x);
        assert_eq!(id, format!("vote_{}_{}", label, uuid::Uuid::from_u128(x)));
        let b = read_vote_button(&id).expect("a vote button");
        assert_eq!(b.choice_text, label);
        assert_eq!(b.poll_id, x);
        assert_eq!(choice_from_label(&b.choice_text), Some(c));
    }
}

#[test]
fn other_ids_are_not_vote_buttons() {
    assert!(read_vote_button("vote_Yes_notauuid").is_none());
    assert!(read_vote_button("vote_a_b_c").is_none());
    assert!(read_vote_button("rf_awty|1|0|v|u").is_none());
    assert!(read_vote_button("").is_none());
}

#[test]
fn simple_uuid_form_also_parses() {
    let b = read_vote_button("vote_Maybe_0123456789abcdef0123456789abcdef").unwrap();
    assert_eq!(b.choice_text, "Maybe");
    assert_eq!(b.poll_id, 0x0123456789abcdef0123456789abcdef);
    assert_eq!(choice_from_label("Maybe"), None);
}

#[test]
fn gate_checks_ban_first() {
    assert_eq!(vote_gate(true, Some(true)), VoteGate::Banned);
    assert_eq!(vote_gate(false, None), VoteGate::NotFound);
    assert_eq!(vote_gate(false, Some(false)), VoteGate::Ended);
    assert_eq!(vote_gate(false, Some(true)), VoteGate::Open);
}

#[test]
fn gate_replies() {
    assert_eq!(gate_reply_text(VoteGate::Banned), Some("you are banned from voting in this server.".to_string()));
    assert_eq!(gate_reply_text(VoteGate::Ended), Some("this poll has already ended".to_string()));
    assert_eq!(gate_reply_text(VoteGate::NotFound), Some("that poll wasn't found".to_string()));
    assert_eq!(gate_reply_text(VoteGate::Open), None);
    assert_eq!(vote_recorded_text("Yes"), "your vote for **Yes** has been recorded !");
}

#[test]
fn option_votes_carry_two_uuids() {
    let o: u128 = 0x11111111_2222_4333_8444_555555555555;
    let p: u128 = 0x99999999_8888_4777_8666_555555555555;
    let id = format!("vote_{}_{}", uuid::Uuid::from_u128(o), uuid::Uuid::from_u128(p));
    assert_eq!(read_option_vote(&id), Some((o, p)));
    assert_eq!(read_option_vote(&format!("vote_Yes_{}", uuid::Uuid::from_u128(p))), None);
    assert_eq!(read_option_vote("vote_x"), None);
}

#[test]
fn option_vote_ids_round_trip() {
    let o: u128 = 0xabcdef01_2345_4678_9abc_def012345678;
    let p: u128 = 7;
    let id = option_vote_custom_id(o, p);
    assert_eq!(id, format!("vote_{}_{}", uuid::Uuid::from_u128(o), uuid::Uuid::from_u128(p)));
    assert_eq!(read_option_vote(&id), Some((o, p)));
}
