//! Rendering of a Minecraft server status: the message of the day with its
//! colour codes turned into ANSI escapes, and the list of online players.

use vstd::prelude::*;
use crate::text::{chars_of, decimal, join_strings, join_with, same_text, u64_text, views, write_decimal};

verus! {

/// The part of a status description (a JSON text component) that the message
/// of the day is read from.
pub enum MotdValue {
    /// A JSON string.
    Text(String),
    /// A JSON object, as its fields in order.
    Object(Vec<(String, MotdValue)>),
    /// A JSON array.
    Array(Vec<MotdValue>),
    /// Any other JSON value.
    Other,
}

/// Index of the first field of `fields` named `key`.
pub open spec fn field_index(fields: Seq<(String, MotdValue)>, key: Seq<char>) -> Option<int>
    decreases fields.len(),
{
    if fields.len() == 0 {
        None
    } else if fields[0].0@ == key {
        Some(0)
    } else {
        match field_index(fields.drop_first(), key) {
            Some(i) => Some(i + 1),
            None => None,
        }
    }
}

/// The plain text of a description: a string as it is; an object's `text`
/// string followed by the text of every element of its `extra` array; the text
/// of every element of an array; nothing for anything else.
pub open spec fn motd_text(v: MotdValue) -> Seq<char>
    decreases v, 0nat,
{
    match v {
        MotdValue::Text(s) => s@,
        MotdValue::Object(fields) => {
            let head = match field_index(fields@, "text"@) {
                Some(i) => if 0 <= i < fields@.len() {
                    match fields@[i].1 {
                        MotdValue::Text(s) => s@,
                        _ => Seq::<char>::empty(),
                    }
                } else {
                    Seq::<char>::empty()
                },
                None => Seq::<char>::empty(),
            };
            let tail = match field_index(fields@, "extra"@) {
                Some(j) => if 0 <= j < fields@.len() {
                    match fields@[j].1 {
                        MotdValue::Array(items) => motd_list_text(items@),
                        _ => Seq::<char>::empty(),
                    }
                } else {
                    Seq::<char>::empty()
                },
                None => Seq::<char>::empty(),
            };
            head + tail
        },
        MotdValue::Array(items) => motd_list_text(items@),
        MotdValue::Other => Seq::<char>::empty(),
    }
}

/// The texts of `items`, one after the other.
pub open spec fn motd_list_text(items: Seq<MotdValue>) -> Seq<char>
    decreases items, 1nat,
{
    if items.len() == 0 {
        Seq::<char>::empty()
    } else {
        motd_list_text(items.subrange(0, items.len() - 1)) + motd_text(items[items.len() - 1])
    }
}


/// Index of the first field named `key`.
fn find_field(fields: &Vec<(String, MotdValue)>, key: &str) -> (r: Option<usize>)
    ensures
        match r {
            Some(i) => field_index(fields@, key@) == Some(i as int) && i < fields@.len(),
            None => field_index(fields@, key@) is None,
        },
{
    let mut i: usize = 0;
    assert(fields@.subrange(0, fields@.len() as int) =~= fields@);
    while i < fields.len()
        invariant
            i <= fields@.len(),
            field_index(fields@, key@) == match field_index(fields@.subrange(i as int, fields@.len() as int), key@) {
                Some(j) => Some(j + i),
                None => None::<int>,
            },
        decreases fields@.len() - i,
    {
        let ghost rest = fields@.subrange(i as int, fields@.len() as int);
        assert(rest[0] == fields@[i as int]);
        if same_text(fields[i].0.as_str(), key) {
            return Some(i);
        }
        assert(rest.drop_first() =~= fields@.subrange(i + 1, fields@.len() as int));
        i = i + 1;
    }
    None
}

/// The plain text of a status description.
pub fn extract_motd(value: &MotdValue) -> (r: String)
    ensures
        r@ == motd_text(*value),
    decreases value,
{
    match value {
        MotdValue::Text(s) => s.clone(),
        MotdValue::Object(fields) => {
            let mut out = String::new();
            match find_field(fields, "text") {
                Some(i) => {
                    match &fields[i].1 {
                        MotdValue::Text(t) => out.append(t.as_str()),
                        _ => {},
                    }
                },
                None => {},
            }
            let ghost head = out@;
            match find_field(fields, "extra") {
                Some(j) => {
                    match &fields[j].1 {
                        MotdValue::Array(items) => {
                            let mut k: usize = 0;
                            while k < items.len()
                                invariant
                                    k <= items@.len(),
                                    fields@[j as int].1 == MotdValue::Array(*items),
                                    *value == MotdValue::Object(*fields),
                                    j < fields@.len(),
                                    out@ == head + motd_list_text(items@.subrange(0, k as int)),
                                decreases items@.len() - k,
                            {
                                let ghost next = items@.subrange(0, k + 1);
                                assert(next.subrange(0, k as int) =~= items@.subrange(0, k as int));
                                assert(decreases_to!(*value => items@[k as int])) by {
                                    assert(decreases_to!(*value => (*value)->Object_0));
                                    assert((*value)->Object_0 == *fields);
                                    assert(decreases_to!(*fields => fields@));
                                    assert(decreases_to!(fields@ => fields@[j as int]));
                                    assert(decreases_to!(fields@[j as int] => fields@[j as int].1));
                                    assert(decreases_to!(fields@[j as int].1 => fields@[j as int].1->Array_0));
                                    assert(fields@[j as int].1->Array_0 == *items);
                                    assert(decreases_to!(*items => items@));
                                    assert(decreases_to!(items@ => items@[k as int]));
                                }
                                let part = extract_motd(&items[k]);
                                out.append(part.as_str());
                                k = k + 1;
                            }
                            assert(items@.subrange(0, items@.len() as int) =~= items@);
                        },
                        _ => {},
                    }
                },
                None => {},
            }
            out
        },
        MotdValue::Array(items) => {
            let mut out = String::new();
            let mut k: usize = 0;
            while k < items.len()
                invariant
                    k <= items@.len(),
                    *value == MotdValue::Array(*items),
                    out@ == motd_list_text(items@.subrange(0, k as int)),
                decreases items@.len() - k,
            {
                let ghost next = items@.subrange(0, k + 1);
                assert(next.subrange(0, k as int) =~= items@.subrange(0, k as int));
                assert(decreases_to!(*value => items@[k as int])) by {
                    assert(decreases_to!(*value => (*value)->Array_0));
                    assert((*value)->Array_0 == *items);
                    assert(decreases_to!(*items => items@));
                    assert(decreases_to!(items@ => items@[k as int]));
                }
                let part = extract_motd(&items[k]);
                out.append(part.as_str());
                k = k + 1;
            }
            assert(items@.subrange(0, items@.len() as int) =~= items@);
            out
        },
        MotdValue::Other => String::new(),
    }
}


/// The ANSI escape for a Minecraft formatting code, if the code is one the
/// renderer knows.
pub open spec fn ansi_for(code: char) -> Option<Seq<char>> {
    if code == '0' || code == '7' || code == '8' {
        Some("\u{001b}[0;30m"@)
    } else if code == '1' || code == '9' {
        Some("\u{001b}[0;34m"@)
    } else if code == '2' || code == 'a' {
        Some("\u{001b}[0;32m"@)
    } else if code == '3' || code == 'b' {
        Some("\u{001b}[0;36m"@)
    } else if code == '4' || code == 'c' {
        Some("\u{001b}[0;31m"@)
    } else if code == '5' || code == 'd' {
        Some("\u{001b}[0;35m"@)
    } else if code == '6' || code == 'e' {
        Some("\u{001b}[0;33m"@)
    } else if code == 'f' {
        Some("\u{001b}[0;37m"@)
    } else if code == 'l' {
        Some("\u{001b}[1m"@)
    } else if code == 'r' {
        Some("\u{001b}[0m"@)
    } else {
        None
    }
}

/// Whether `c` introduces a formatting code (`§` or `&`).
pub open spec fn is_code_marker(c: char) -> bool {
    c == '§' || c == '&'
}

/// `s` with each known formatting code replaced by its ANSI escape; an
/// unknown code, and a marker at the very end, are kept as they are.
pub open spec fn ansi_body(s: Seq<char>) -> Seq<char>
    decreases s.len(),
{
    if s.len() == 0 {
        Seq::<char>::empty()
    } else if is_code_marker(s[0]) {
        if s.len() == 1 {
            seq![s[0]]
        } else {
            match ansi_for(s[1]) {
                Some(esc) => esc + ansi_body(s.subrange(2, s.len() as int)),
                None => seq![s[0], s[1]] + ansi_body(s.subrange(2, s.len() as int)),
            }
        }
    } else {
        seq![s[0]] + ansi_body(s.subrange(1, s.len() as int))
    }
}

/// Text without any `§` or `&` passes through the conversion unchanged.
pub proof fn lemma_plain_text_unchanged(s: Seq<char>)
    requires
        forall|i: int| 0 <= i < s.len() ==> !is_code_marker(#[trigger] s[i]),
    ensures
        ansi_body(s) == s,
    decreases s.len(),
{
    if s.len() > 0 {
        let t = s.subrange(1, s.len() as int);
        assert forall|i: int| 0 <= i < t.len() implies !is_code_marker(#[trigger] t[i]) by {
            assert(t[i] == s[i + 1]);
        }
        lemma_plain_text_unchanged(t);
        assert(!is_code_marker(s[0]));
        assert(seq![s[0]] + t =~= s);
    }
}

/// The formatting codes of Minecraft that the converter knows: the sixteen
/// colours `0`-`9`, `a`-`f`, bold `l` and reset `r`.
pub open spec fn known_code(c: char) -> bool {
    ('0' <= c && c <= '9') || ('a' <= c && c <= 'f') || c == 'l' || c == 'r'
}

/// Whether `e` has the shape of an ANSI SGR escape: ESC, `[`, and a final
/// `m`.
pub open spec fn is_sgr_escape(e: Seq<char>) -> bool {
    e.len() >= 3 && e[0] == '\u{1b}' && e[1] == '[' && e.last() == 'm'
}

/// Every known formatting code becomes an ANSI escape (never text of its
/// own); a colour and its bright variant (`0`/`7`/`8`, `1`/`9`, `2`/`a`,
/// `3`/`b`, `4`/`c`, `5`/`d`, `6`/`e`) give the same escape, the eight
/// colour groups and bold differ from each other, and `r` is the reset.
/// After a marker, a known code is replaced by its escape and the rest is
/// converted on its own.
pub proof fn lemma_colour_codes(marker: char, code: char, rest: Seq<char>)
    ensures
        forall|c: char| known_code(c) ==> ((#[trigger] ansi_for(c)) matches Some(e) && is_sgr_escape(e)),
        forall|c: char| !known_code(c) ==> (#[trigger] ansi_for(c)) is None,
        ansi_for('0') == ansi_for('7') && ansi_for('7') == ansi_for('8'),
        ansi_for('1') == ansi_for('9'),
        ansi_for('2') == ansi_for('a'),
        ansi_for('3') == ansi_for('b'),
        ansi_for('4') == ansi_for('c'),
        ansi_for('5') == ansi_for('d'),
        ansi_for('6') == ansi_for('e'),
        ansi_for('r') == Some(ansi_reset()),
        ({
            let g = seq![ansi_for('0'), ansi_for('1'), ansi_for('2'), ansi_for('3'), ansi_for('4'),
                ansi_for('5'), ansi_for('6'), ansi_for('f'), ansi_for('l'), ansi_for('r')];
            forall|i: int, j: int| 0 <= i < j < g.len() ==> g[i] != g[j]
        }),
        is_code_marker(marker) && known_code(code) ==> ansi_body(seq![marker, code] + rest)
            == ansi_for(code)->0 + ansi_body(rest),
{
    reveal_strlit("\u{001b}[0;30m");
    reveal_strlit("\u{001b}[0;34m");
    reveal_strlit("\u{001b}[0;32m");
    reveal_strlit("\u{001b}[0;36m");
    reveal_strlit("\u{001b}[0;31m");
    reveal_strlit("\u{001b}[0;35m");
    reveal_strlit("\u{001b}[0;33m");
    reveal_strlit("\u{001b}[0;37m");
    reveal_strlit("\u{001b}[1m");
    reveal_strlit("\u{001b}[0m");
    let g = seq![ansi_for('0'), ansi_for('1'), ansi_for('2'), ansi_for('3'), ansi_for('4'),
        ansi_for('5'), ansi_for('6'), ansi_for('f'), ansi_for('l'), ansi_for('r')];
    assert forall|i: int, j: int| 0 <= i < j < g.len() implies g[i] != g[j] by {
        let a = g[i]->0;
        let b = g[j]->0;
        if a.len() == b.len() {
            if a.len() == 7 {
                assert(a[5] != b[5]);
            } else {
                assert(a[2] != b[2]);
            }
        }
    }
    if is_code_marker(marker) && known_code(code) {
        let t = seq![marker, code] + rest;
        assert(t.subrange(2, t.len() as int) =~= rest);
    }
}

/// The reset escape that ends every converted text.
pub open spec fn ansi_reset() -> Seq<char> {
    "\u{001b}[0m"@
}

fn ansi_code(code: char) -> (r: Option<&'static str>)
    ensures
        match r {
            Some(t) => ansi_for(code) == Some(t@),
            None => ansi_for(code) is None,
        },
{
    if code == '0' || code == '7' || code == '8' {
        Some("\u{001b}[0;30m")
    } else if code == '1' || code == '9' {
        Some("\u{001b}[0;34m")
    } else if code == '2' || code == 'a' {
        Some("\u{001b}[0;32m")
    } else if code == '3' || code == 'b' {
        Some("\u{001b}[0;36m")
    } else if code == '4' || code == 'c' {
        Some("\u{001b}[0;31m")
    } else if code == '5' || code == 'd' {
        Some("\u{001b}[0;35m")
    } else if code == '6' || code == 'e' {
        Some("\u{001b}[0;33m")
    } else if code == 'f' {
        Some("\u{001b}[0;37m")
    } else if code == 'l' {
        Some("\u{001b}[1m")
    } else if code == 'r' {
        Some("\u{001b}[0m")
    } else {
        None
    }
}

/// Converts Minecraft colour codes (`§a`, `&b`, ...) into the ANSI escapes
/// that Discord shows in an `ansi` code block, and resets the colour at the
/// end.
pub fn mc_to_ansi(input: &str) -> (r: String)
    ensures
        r@ == ansi_body(input@) + ansi_reset(),
{
    let v = chars_of(input);
    let n = v.len();
    let mut out = String::new();
    let mut i: usize = 0;
    assert(v@.subrange(0, n as int) =~= v@);
    while i < n
        invariant
            n == v@.len(),
            v@ == input@,
            i <= n,
            ansi_body(v@) == out@ + ansi_body(v@.subrange(i as int, n as int)),
        decreases n - i,
    {
        let ghost rest = v@.subrange(i as int, n as int);
        let c = v[i];
        assert(rest[0] == c);
        if c == '§' || c == '&' {
            if i + 1 < n {
                let next = v[i + 1];
                assert(rest[1] == next);
                assert(rest.subrange(2, rest.len() as int) =~= v@.subrange(i + 2, n as int));
                match ansi_code(next) {
                    Some(esc) => {
                        out.append(esc);
                    },
                    None => {
                        crate::text::push_char(&mut out, c);
                        crate::text::push_char(&mut out, next);
                    },
                }
                i = i + 2;
            } else {
                assert(rest =~= seq![c]);
                crate::text::push_char(&mut out, c);
                i = i + 1;
                assert(v@.subrange(i as int, n as int) =~= Seq::<char>::empty());
            }
        } else {
            assert(rest.subrange(1, rest.len() as int) =~= v@.subrange(i + 1, n as int));
            crate::text::push_char(&mut out, c);
            i = i + 1;
        }
    }
    assert(v@.subrange(n as int, n as int) =~= Seq::<char>::empty());
    out.append("\u{001b}[0m");
    assert(out@ =~= ansi_body(input@) + ansi_reset());
    out
}


/// The names shown in the player list: at most fifteen, followed by a count
/// of the rest when there are more.
pub open spec fn shown_players(names: Seq<Seq<char>>) -> Seq<Seq<char>> {
    if names.len() > 15 {
        names.subrange(0, 15).push("...and "@ + decimal((names.len() - 15) as nat) + " more"@)
    } else {
        names
    }
}

/// The "online players" field of a status: the sampled names joined with
/// commas, or a notice when the server shows none.
pub open spec fn players_field(sample: Option<Seq<Seq<char>>>) -> Seq<char> {
    match sample {
        Some(names) if names.len() > 0 => join_with(shown_players(names), ", "@),
        _ => "no players online (or hidden by server)"@,
    }
}

/// Text of the "online players" field for the sampled player names.
pub fn players_text(sample: Option<Vec<String>>) -> (r: String)
    ensures
        r@ == players_field(
            match sample {
                Some(v) => Some(views(v@)),
                None => None,
            },
        ),
{
    match sample {
        Some(names) => {
            if names.len() == 0 {
                return String::from_str("no players online (or hidden by server)");
            }
            let ghost all = views(names@);
            let mut names = names;
            if names.len() > 15 {
                let remaining = names.len() - 15;
                names.truncate(15);
                let mut more = String::from_str("...and ");
                write_decimal(&mut more, remaining as u64);
                more.append(" more");
                names.push(more);
                assert(views(names@) =~= shown_players(all));
            } else {
                assert(views(names@) =~= shown_players(all));
            }
            join_strings(&names, ", ")
        },
        None => String::from_str("no players online (or hidden by server)"),
    }
}

/// The message of the day as a Discord `ansi` code block: the description's
/// text (or a notice when there is none) with its colour codes converted.
pub open spec fn motd_block_text(description: Option<MotdValue>) -> Seq<char> {
    let raw = match description {
        Some(v) => motd_text(v),
        None => "no MOTD provided"@,
    };
    "```ansi\n"@ + ansi_body(raw) + ansi_reset() + "\n```"@
}

/// Builds the embed description of an online server from its status
/// description.
pub fn motd_block(description: Option<&MotdValue>) -> (r: String)
    ensures
        r@ == motd_block_text(
            match description {
                Some(v) => Some(*v),
                None => None,
            },
        ),
{
    let raw = match description {
        Some(v) => extract_motd(v),
        None => String::from_str("no MOTD provided"),
    };
    let colored = mc_to_ansi(raw.as_str());
    let mut out = String::from_str("```ansi\n");
    out.append(colored.as_str());
    out.append("\n```");
    assert(out@ =~= motd_block_text(
        match description {
            Some(v) => Some(*v),
            None => None,
        },
    ));
    out
}

/// The "players" field: online and maximum player counts.
pub fn player_count_text(online: usize, max: usize) -> (r: String)
    ensures
        r@ == decimal(online as nat) + "/"@ + decimal(max as nat),
{
    let mut out = u64_text(online as u64);
    out.append("/");
    write_decimal(&mut out, max as u64);
    out
}

/// The port to query: the one given, or Minecraft's default 25565.
pub fn status_port(port: Option<u16>) -> (r: u16)
    ensures
        r == match port {
            Some(p) => p,
            None => 25565u16,
        },
{
    match port {
        Some(p) => p,
        None => 25565,
    }
}

} // verus!
