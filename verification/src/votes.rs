//! Vote buttons: their custom ids, and what the bot decides when one is
//! pressed.

use vstd::prelude::*;
use crate::renderer::VoteChoice;
use crate::text::{
    chars_of, chars_start_with, decimal, is_digit, lemma_split_on_concat, lemma_split_on_without,
    push_char, same_text, split_chars, split_on, starts_with, views,
};

verus! {

/// The lowercase hexadecimal digit for `d` (below sixteen).
pub open spec fn hex_digit(d: nat) -> char {
    if d < 10 {
        ((48 + d) as u32) as char
    } else {
        ((87 + d) as u32) as char
    }
}

/// The last `n` hexadecimal digits of `x`, most significant first.
pub open spec fn hex_digits(x: nat, n: nat) -> Seq<char>
    decreases n,
{
    if n == 0 {
        Seq::<char>::empty()
    } else {
        hex_digits(x / 16, (n - 1) as nat).push(hex_digit(x % 16))
    }
}

/// A UUID as `uuid::Uuid` displays it: 32 lowercase hexadecimal digits of
/// its 128-bit value, grouped 8-4-4-4-12 by hyphens.
pub open spec fn uuid_text(x: u128) -> Seq<char> {
    let h = hex_digits(x as nat, 32);
    h.subrange(0, 8) + seq!['-'] + h.subrange(8, 12) + seq!['-'] + h.subrange(12, 16) + seq!['-']
        + h.subrange(16, 20) + seq!['-'] + h.subrange(20, 32)
}

/// What `uuid::Uuid::parse_str` gives for a text, as the 128-bit value of
/// the UUID.
pub uninterp spec fn parsed_uuid(s: Seq<char>) -> Option<u128>;

/// `uuid::Uuid::parse_str`, keeping the 128-bit value. The crate's
/// documentation promises that the formats it writes, the hyphenated one
/// among them, parse back.
#[verifier::external_body]
fn parse_uuid(s: &str) -> (r: Option<u128>)
    ensures
        r == parsed_uuid(s@),
        forall|x: u128| s@ == #[trigger] uuid_text(x) ==> r == Some(x),
{
    uuid::Uuid::parse_str(s).ok().map(|u| u.as_u128())
}

proof fn lemma_hex_digits_len(x: nat, n: nat)
    ensures
        hex_digits(x, n).len() == n,
    decreases n,
{
    if n > 0 {
        lemma_hex_digits_len(x / 16, (n - 1) as nat);
    }
}

/// Appends the last `n` hexadecimal digits of `x`.
fn push_hex_digits(out: &mut Vec<char>, x: u128, n: usize)
    ensures
        final(out)@ == old(out)@ + hex_digits(x as nat, n as nat),
    decreases n,
{
    if n > 0 {
        push_hex_digits(out, x / 16, n - 1);
        let d = (x % 16) as u8;
        let c: char = if d < 10 {
            (48u8 + d) as char
        } else {
            (87u8 + d) as char
        };
        out.push(c);
        assert(c == hex_digit((x % 16) as nat));
    }
}

/// Writes a UUID as `uuid::Uuid` displays it.
pub fn uuid_string(x: u128) -> (r: String)
    ensures
        r@ == uuid_text(x),
{
    let mut h: Vec<char> = Vec::new();
    push_hex_digits(&mut h, x, 32);
    assert(h@ =~= hex_digits(x as nat, 32));
    proof {
        lemma_hex_digits_len(x as nat, 32);
    }
    let mut out = String::new();
    crate::text::push_chars(&mut out, &h, 0, 8);
    push_char(&mut out, '-');
    crate::text::push_chars(&mut out, &h, 8, 12);
    push_char(&mut out, '-');
    crate::text::push_chars(&mut out, &h, 12, 16);
    push_char(&mut out, '-');
    crate::text::push_chars(&mut out, &h, 16, 20);
    push_char(&mut out, '-');
    crate::text::push_chars(&mut out, &h, 20, 32);
    assert(out@ =~= uuid_text(x));
    out
}


/// The label a vote button carries for a choice.
pub open spec fn choice_label(c: VoteChoice) -> Seq<char> {
    match c {
        VoteChoice::Yes => "Yes"@,
        VoteChoice::No => "No"@,
        VoteChoice::HardNo => "HardNo"@,
    }
}

/// The custom id of the button for `choice` in poll `poll_id`:
/// `vote_<label>_<uuid>`.
pub open spec fn vote_button_id(choice: VoteChoice, poll_id: u128) -> Seq<char> {
    "vote_"@ + choice_label(choice) + "_"@ + uuid_text(poll_id)
}

/// Writes the custom id of a vote button.
pub fn vote_button_custom_id(choice: VoteChoice, poll_id: u128) -> (r: String)
    ensures
        r@ == vote_button_id(choice, poll_id),
{
    let mut out = String::from_str("vote_");
    match choice {
        VoteChoice::Yes => out.append("Yes"),
        VoteChoice::No => out.append("No"),
        VoteChoice::HardNo => out.append("HardNo"),
    }
    out.append("_");
    let u = uuid_string(poll_id);
    out.append(u.as_str());
    out
}

/// The (choice text, poll id text) a custom id holds: for an id that starts
/// with `vote_` and splits at `_` into exactly three pieces, the second and
/// the third.
pub open spec fn vote_request_of(id: Seq<char>) -> Option<(Seq<char>, Seq<char>)> {
    let parts = split_on(id, '_');
    if starts_with(id, "vote_"@) && parts.len() == 3 {
        Some((parts[1], parts[2]))
    } else {
        None
    }
}

/// A pressed vote button: the choice text it names and the poll it belongs
/// to.
pub struct VoteButton {
    pub choice_text: String,
    pub poll_id: u128,
}

/// Reads a pressed button's custom id: `None` unless it is a vote button
/// whose poll id parses as a UUID.
pub fn read_vote_button(custom_id: &str) -> (r: Option<VoteButton>)
    ensures
        match vote_request_of(custom_id@) {
            None => r is None,
            Some((c, p)) => match parsed_uuid(p) {
                None => r is None,
                Some(u) => r matches Some(b) && b.choice_text@ == c && b.poll_id == u,
            },
        },
        forall|c: VoteChoice, x: u128| custom_id@ == #[trigger] vote_button_id(c, x) ==> (r matches Some(b)
            && b.choice_text@ == choice_label(c) && b.poll_id == x),
{
    let v = chars_of(custom_id);
    let prefix = chars_of("vote_");
    if !chars_start_with(&v, &prefix) {
        proof {
            lemma_vote_button_id_not_other(custom_id@);
        }
        return None;
    }
    let parts = split_chars(&v, '_');
    if parts.len() != 3 {
        proof {
            lemma_vote_button_id_not_other(custom_id@);
        }
        return None;
    }
    assert(views(parts@)[2] == parts@[2]@);
    match parse_uuid(parts[2].as_str()) {
        Some(u) => {
            proof {
                assert forall|c: VoteChoice, x: u128| custom_id@ == #[trigger] vote_button_id(c, x) implies u
                    == x && parts@[1]@ == choice_label(c) by {
                    lemma_vote_button_round_trip(c, x);
                }
            }
            Some(VoteButton { choice_text: parts[1].clone(), poll_id: u })
        },
        None => {
            proof {
                assert forall|c: VoteChoice, x: u128| custom_id@ == #[trigger] vote_button_id(c, x) implies false by {
                    lemma_vote_button_round_trip(c, x);
                }
            }
            None
        },
    }
}

proof fn lemma_vote_button_id_not_other(id: Seq<char>)
    ensures
        vote_request_of(id) is None ==> forall|c: VoteChoice, x: u128| id != #[trigger] vote_button_id(c, x),
{
    if vote_request_of(id) is None {
        assert forall|c: VoteChoice, x: u128| id != #[trigger] vote_button_id(c, x) by {
            if id == vote_button_id(c, x) {
                lemma_vote_button_round_trip(c, x);
            }
        }
    }
}

proof fn lemma_hex_digits_no_underscore(x: nat, n: nat)
    ensures
        !hex_digits(x, n).contains('_'),
        !hex_digits(x, n).contains('|'),
    decreases n,
{
    if n > 0 {
        lemma_hex_digits_no_underscore(x / 16, (n - 1) as nat);
        let h = hex_digits(x, n);
        let d = x % 16;
        assert(h == hex_digits(x / 16, (n - 1) as nat).push(hex_digit(d)));
        assert(hex_digit(d) != '_' && hex_digit(d) != '|');
        assert forall|i: int| 0 <= i < h.len() implies h[i] != '_' && h[i] != '|' by {
            if i < h.len() - 1 {
                assert(h[i] == hex_digits(x / 16, (n - 1) as nat)[i]);
            }
        }
    }
}

proof fn lemma_uuid_text_no_underscore(x: u128)
    ensures
        !uuid_text(x).contains('_'),
{
    lemma_hex_digits_no_underscore(x as nat, 32);
    lemma_hex_digits_len(x as nat, 32);
    let h = hex_digits(x as nat, 32);
    let u = uuid_text(x);
    if u.contains('_') {
        let i = choose|i: int| 0 <= i < u.len() && u[i] == '_';
        if i < 8 {
            assert(u[i] == h[i]);
        } else if i == 8 || i == 13 || i == 18 || i == 23 {
        } else if i < 13 {
            assert(u[i] == h[i - 1]);
        } else if i < 18 {
            assert(u[i] == h[i - 2]);
        } else if i < 23 {
            assert(u[i] == h[i - 3]);
        } else {
            assert(u[i] == h[i - 4]);
        }
    }
}

/// A vote button's custom id reads back as the choice label and the UUID
/// text it was written with.
pub proof fn lemma_vote_button_round_trip(choice: VoteChoice, poll_id: u128)
    ensures
        vote_request_of(vote_button_id(choice, poll_id)) == Some(
            (choice_label(choice), uuid_text(poll_id)),
        ),
{
    reveal_strlit("vote_");
    reveal_strlit("vote");
    reveal_strlit("_");
    reveal_strlit("Yes");
    reveal_strlit("No");
    reveal_strlit("HardNo");
    let label = choice_label(choice);
    let u = uuid_text(poll_id);
    lemma_uuid_text_no_underscore(poll_id);
    assert(!label.contains('_'));
    let head = "vote"@;
    assert(!head.contains('_'));
    let id = vote_button_id(choice, poll_id);
    assert(id =~= head + seq!['_'] + (label + seq!['_'] + u));
    lemma_split_on_without(head, '_');
    lemma_split_on_without(label, '_');
    lemma_split_on_without(u, '_');
    lemma_split_on_concat(label, u, '_');
    lemma_split_on_concat(head, label + seq!['_'] + u, '_');
    assert(split_on(id, '_') =~= seq![head, label, u]);
    assert(id.subrange(0, 5) =~= "vote_"@);
}

/// The custom id of the button for option `option` of poll `poll`:
/// `vote_<option uuid>_<poll uuid>`.
pub open spec fn option_vote_id(option: u128, poll: u128) -> Seq<char> {
    "vote_"@ + uuid_text(option) + "_"@ + uuid_text(poll)
}

/// Writes the custom id of an option's vote button.
pub fn option_vote_custom_id(option: u128, poll: u128) -> (r: String)
    ensures
        r@ == option_vote_id(option, poll),
{
    let mut out = String::from_str("vote_");
    let o = uuid_string(option);
    out.append(o.as_str());
    out.append("_");
    let p = uuid_string(poll);
    out.append(p.as_str());
    out
}

/// An option's vote button id reads back as the UUID texts it was written
/// with.
pub proof fn lemma_option_vote_round_trip(option: u128, poll: u128)
    ensures
        vote_request_of(option_vote_id(option, poll)) == Some((uuid_text(option), uuid_text(poll))),
{
    reveal_strlit("vote_");
    reveal_strlit("vote");
    reveal_strlit("_");
    let o = uuid_text(option);
    let u = uuid_text(poll);
    lemma_uuid_text_no_underscore(option);
    lemma_uuid_text_no_underscore(poll);
    let head = "vote"@;
    assert(!head.contains('_'));
    let id = option_vote_id(option, poll);
    assert(id =~= head + seq!['_'] + (o + seq!['_'] + u));
    lemma_split_on_without(head, '_');
    lemma_split_on_without(o, '_');
    lemma_split_on_without(u, '_');
    lemma_split_on_concat(o, u, '_');
    lemma_split_on_concat(head, o + seq!['_'] + u, '_');
    assert(split_on(id, '_') =~= seq![head, o, u]);
    assert(id.subrange(0, 5) =~= "vote_"@);
}

/// A pressed button of a poll with its own options: the option and the
/// poll, both read as UUIDs from `vote_<option>_<poll>`. An id written by
/// `option_vote_custom_id` reads back as the two ids it was written with.
pub fn read_option_vote(custom_id: &str) -> (r: Option<(u128, u128)>)
    ensures
        match vote_request_of(custom_id@) {
            None => r is None,
            Some((o, p)) => match (parsed_uuid(o), parsed_uuid(p)) {
                (Some(x), Some(y)) => r == Some((x, y)),
                _ => r is None,
            },
        },
        forall|o: u128, p: u128| custom_id@ == #[trigger] option_vote_id(o, p) ==> r == Some((o, p)),
{
    let v = chars_of(custom_id);
    let prefix = chars_of("vote_");
    proof {
        assert forall|o: u128, p: u128| custom_id@ == #[trigger] option_vote_id(o, p) implies vote_request_of(
            custom_id@,
        ) == Some((uuid_text(o), uuid_text(p))) by {
            lemma_option_vote_round_trip(o, p);
        }
    }
    if !chars_start_with(&v, &prefix) {
        return None;
    }
    let parts = split_chars(&v, '_');
    if parts.len() != 3 {
        return None;
    }
    assert(views(parts@)[1] == parts@[1]@);
    assert(views(parts@)[2] == parts@[2]@);
    match (parse_uuid(parts[1].as_str()), parse_uuid(parts[2].as_str())) {
        (Some(o), Some(p)) => Some((o, p)),
        _ => None,
    }
}

/// The choice a button label names.
pub fn choice_from_label(label: &str) -> (r: Option<VoteChoice>)
    ensures
        r == (if label@ == "Yes"@ {
            Some(VoteChoice::Yes)
        } else if label@ == "No"@ {
            Some(VoteChoice::No)
        } else if label@ == "HardNo"@ {
            Some(VoteChoice::HardNo)
        } else {
            None
        }),
{
    if same_text(label, "Yes") {
        Some(VoteChoice::Yes)
    } else if same_text(label, "No") {
        Some(VoteChoice::No)
    } else if same_text(label, "HardNo") {
        Some(VoteChoice::HardNo)
    } else {
        None
    }
}

/// What happens to a vote before it is recorded.
#[derive(Clone, Copy, PartialEq, Eq, Structural, Debug)]
pub enum VoteGate {
    /// The voter is banned from voting in this server.
    Banned,
    /// The poll exists but has closed.
    Ended,
    /// No poll has that id.
    NotFound,
    /// The vote may be recorded.
    Open,
}

/// Decides on a vote from whether the voter is banned and, if the poll
/// exists, whether it is still active. A ban is checked first.
pub fn vote_gate(is_banned: bool, poll_active: Option<bool>) -> (r: VoteGate)
    ensures
        r == (if is_banned {
            VoteGate::Banned
        } else {
            match poll_active {
                None => VoteGate::NotFound,
                Some(false) => VoteGate::Ended,
                Some(true) => VoteGate::Open,
            }
        }),
{
    if is_banned {
        VoteGate::Banned
    } else {
        match poll_active {
            None => VoteGate::NotFound,
            Some(false) => VoteGate::Ended,
            Some(true) => VoteGate::Open,
        }
    }
}

/// The ephemeral reply for a refused vote.
pub open spec fn gate_reply(g: VoteGate) -> Option<Seq<char>> {
    match g {
        VoteGate::Banned => Some("you are banned from voting in this server."@),
        VoteGate::Ended => Some("this poll has already ended"@),
        VoteGate::NotFound => Some("that poll wasn't found"@),
        VoteGate::Open => None,
    }
}

/// Text of the reply for a refused vote.
pub fn gate_reply_text(g: VoteGate) -> (r: Option<String>)
    ensures
        match r {
            Some(t) => gate_reply(g) == Some(t@),
            None => gate_reply(g) is None,
        },
{
    match g {
        VoteGate::Banned => Some(String::from_str("you are banned from voting in this server.")),
        VoteGate::Ended => Some(String::from_str("this poll has already ended")),
        VoteGate::NotFound => Some(String::from_str("that poll wasn't found")),
        VoteGate::Open => None,
    }
}

/// The follow-up that confirms a recorded vote.
pub fn vote_recorded_text(choice_text: &str) -> (r: String)
    ensures
        r@ == "your vote for **"@ + choice_text@ + "** has been recorded !"@,
{
    let mut out = String::from_str("your vote for **");
    out.append(choice_text);
    out.append("** has been recorded !");
    out
}

} // verus!
