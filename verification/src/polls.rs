//! Text of the poll messages: the open poll, the closed poll with its
//! results, the live status and the audit log, and the planning of a poll's
//! options before it is posted.

use vstd::prelude::*;
use crate::text::{
    trim_chars, push_chars,
    chars_of, string_of, utf8_len, utf8_len_capped, utf8_width, char_width, lemma_utf8_len_concat,
    decimal, join_strings, join_with, push_char, signed_decimal, trim, trim_text, views,
    write_decimal, write_signed_decimal, u64_text, split_on, split_chars,
};

verus! {

/// `char::from_u32`: the character with code point `v`, when `v` is a
/// Unicode scalar value (at most `0x10FFFF` and not a surrogate).
#[verifier::external_body]
fn char_from_u32(v: u32) -> (r: Option<char>)
    ensures
        r is Some <==> (v <= 0xD7FF || (0xE000 <= v && v <= 0x10FFFF)),
        r matches Some(c) ==> c as u32 == v,
{
    char::from_u32(v)
}

/// First code point of the regional indicator letters (🇦).
pub const REGIONAL_A: u32 = 0x1F1E6;

/// Largest option index whose marker can be computed without overflowing
/// `u32` (the marker is computed as `0x1F1E6 + index` in `u32`).
pub open spec fn marker_index_ok(index: nat) -> bool {
    index <= u32::MAX - 0x1F1E6 || index > u32::MAX
}

/// The marker of the option at `index`: the regional indicator letter
/// `0x1F1E6 + index` (🇦, 🇧, ...), or 🔹 when that is no character; an
/// index beyond `u32` counts as zero.
pub open spec fn choice_marker(index: nat) -> Seq<char> {
    let i: nat = if index <= u32::MAX {
        index
    } else {
        0
    };
    let code = 0x1F1E6 + i;
    if code <= 0x10FFFF {
        seq![code as char]
    } else {
        seq!['\u{1F539}']
    }
}

/// Appends the marker of the option at `index`.
pub fn push_choice_marker(s: &mut String, index: usize)
    requires
        marker_index_ok(index as nat),
    ensures
        final(s)@ == old(s)@ + choice_marker(index as nat),
{
    let i: u32 = if index <= u32::MAX as usize {
        index as u32
    } else {
        0
    };
    match char_from_u32(REGIONAL_A + i) {
        Some(c) => {
            push_char(s, c);
            proof {
                vstd::utf8::char_u32_cast(c, (REGIONAL_A + i) as u32);
            }
        },
        None => push_char(s, '\u{1F539}'),
    }
}

/// The emoji on the button of the option at `index`: the regional
/// indicator letter `0x1F1E6 + index` when that is a character (an index
/// beyond `u32` counts as zero).
pub open spec fn button_emoji_of(index: nat) -> Option<char> {
    let i: nat = if index <= u32::MAX {
        index
    } else {
        0
    };
    let code = 0x1F1E6 + i;
    if code <= 0x10FFFF {
        Some(code as char)
    } else {
        None
    }
}

/// The emoji for the button of the option at `index`.
pub fn button_emoji(index: usize) -> (r: Option<char>)
    requires
        marker_index_ok(index as nat),
    ensures
        r == button_emoji_of(index as nat),
{
    let i: u32 = if index <= u32::MAX as usize {
        index as u32
    } else {
        0
    };
    match char_from_u32(REGIONAL_A + i) {
        Some(c) => {
            proof {
                vstd::utf8::char_u32_cast(c, (REGIONAL_A + i) as u32);
            }
            Some(c)
        },
        None => None,
    }
}

/// The buttons of a message go in rows of at most five: row `k` holds the
/// buttons from `5k` up to (not including) `min(5k + 5, n)`.
pub open spec fn button_row(n: nat, k: nat) -> (nat, nat) {
    (5 * k, if 5 * k + 5 <= n {
        5 * k + 5
    } else {
        n
    })
}

/// The rows (first and past-last button) that `n` buttons are laid out in.
pub fn button_rows(n: usize) -> (r: Vec<(usize, usize)>)
    ensures
        r@.len() == (n as nat + 4) / 5,
        forall|k: int| 0 <= k < r@.len() ==> (#[trigger] r@[k].0 as nat, r@[k].1 as nat) == button_row(
            n as nat,
            k as nat,
        ),
{
    let mut rows: Vec<(usize, usize)> = Vec::new();
    let mut start: usize = 0;
    while start < n
        invariant
            start <= n,
            start == n || start == 5 * rows@.len(),
            rows@.len() == (start as nat + 4) / 5,
            forall|k: int| 0 <= k < rows@.len() ==> (#[trigger] rows@[k].0 as nat, rows@[k].1 as nat)
                == button_row(n as nat, k as nat),
        decreases n - start,
    {
        let end: usize = if n - start >= 5 {
            start + 5
        } else {
            n
        };
        assert(start == 5 * rows@.len());
        rows.push((start, end));
        start = end;
    }
    rows
}

/// A role mention, with the id as it is written: a role id stored as a
/// signed 64-bit number is written signed.
pub open spec fn role_mention(role: int) -> Seq<char> {
    "<@&"@ + signed_decimal(role) + ">"@
}

/// A Discord role id, as a number.
pub open spec fn role_of(role: Option<u64>) -> Option<int> {
    match role {
        Some(r) => Some(r as int),
        None => None,
    }
}

/// A stored (signed) role id, as a number.
pub open spec fn stored_role_of(role: Option<i64>) -> Option<int> {
    match role {
        Some(r) => Some(r as int),
        None => None,
    }
}

/// The lines naming the required role, if any: a blank line, a heading and
/// the mention.
pub open spec fn role_lines(role: Option<int>) -> Seq<Seq<char>> {
    match role {
        Some(r) => seq![Seq::<char>::empty(), "### **required role**"@, role_mention(r)],
        None => Seq::<Seq<char>>::empty(),
    }
}

fn push_role_lines(lines: &mut Vec<String>, role: Option<u64>)
    ensures
        views(final(lines)@) == views(old(lines)@) + role_lines(role_of(role)),
{
    match role {
        Some(r) => {
            lines.push(String::new());
            lines.push(String::from_str("### **required role**"));
            let mut m = String::from_str("<@&");
            write_decimal(&mut m, r);
            m.append(">");
            lines.push(m);
        },
        None => {},
    }
    assert(views(lines@) =~= views(old(lines)@) + role_lines(role_of(role)));
}

fn push_stored_role_lines(lines: &mut Vec<String>, role: Option<i64>)
    ensures
        views(final(lines)@) == views(old(lines)@) + role_lines(stored_role_of(role)),
{
    match role {
        Some(r) => {
            lines.push(String::new());
            lines.push(String::from_str("### **required role**"));
            let mut m = String::from_str("<@&");
            write_signed_decimal(&mut m, r);
            m.append(">");
            lines.push(m);
        },
        None => {},
    }
    assert(views(lines@) =~= views(old(lines)@) + role_lines(stored_role_of(role)));
}

/// One choice line of an open poll: marker and bold label.
pub open spec fn open_choice_line(index: nat, label: Seq<char>) -> Seq<char> {
    choice_marker(index) + " **"@ + label + "**"@
}

/// The choice lines of an open poll.
pub open spec fn open_choice_lines(labels: Seq<Seq<char>>) -> Seq<Seq<char>>
    decreases labels.len(),
{
    if labels.len() == 0 {
        Seq::<Seq<char>>::empty()
    } else {
        open_choice_lines(labels.drop_last()).push(
            open_choice_line((labels.len() - 1) as nat, labels.last()),
        )
    }
}

/// Description of an open poll: title, its choices, the required role and
/// when it ends (a relative Discord timestamp).
pub open spec fn open_poll_description(
    title: Seq<char>,
    ends_at: i64,
    labels: Seq<Seq<char>>,
    role: Option<u64>,
) -> Seq<char> {
    join_with(
        seq!["### "@ + title, Seq::<char>::empty(), "### **choices**"@] + open_choice_lines(labels)
            + role_lines(role_of(role)) + seq![
            Seq::<char>::empty(),
            "please cast your vote below.\nthis poll ends <t:"@ + signed_decimal(ends_at as int)
                + ":R>."@,
        ],
        "\n"@,
    )
}

/// Builds the description of an open poll; `ends_at` is the closing time in
/// seconds since the Unix epoch.
pub fn open_poll_description_text(
    title: &str,
    ends_at: i64,
    options: &Vec<String>,
    required_role: Option<u64>,
) -> (r: String)
    requires
        options@.len() <= u32::MAX - 0x1F1E6 + 1,
    ensures
        r@ == open_poll_description(title@, ends_at, views(options@), required_role),
{
    let mut lines: Vec<String> = Vec::new();
    let mut head = String::from_str("### ");
    head.append(title);
    lines.push(head);
    lines.push(String::new());
    lines.push(String::from_str("### **choices**"));
    let ghost base = views(lines@);
    assert(base =~= seq!["### "@ + title@, Seq::<char>::empty(), "### **choices**"@]);
    let mut i: usize = 0;
    while i < options.len()
        invariant
            i <= options@.len() <= u32::MAX - 0x1F1E6 + 1,
            views(lines@) == base + open_choice_lines(views(options@).subrange(0, i as int)),
        decreases options@.len() - i,
    {
        let mut line = String::new();
        push_choice_marker(&mut line, i);
        line.append(" **");
        line.append(options[i].as_str());
        line.append("**");
        let ghost sub = views(options@).subrange(0, i + 1);
        assert(sub.drop_last() =~= views(options@).subrange(0, i as int));
        assert(sub.last() == options@[i as int]@);
        assert(line@ =~= open_choice_line(i as nat, options@[i as int]@));
        assert(open_choice_lines(sub) == open_choice_lines(views(options@).subrange(0, i as int)).push(
            open_choice_line(i as nat, options@[i as int]@),
        ));
        let ghost prev = lines@;
        lines.push(line);
        assert(views(lines@) =~= views(prev).push(line@));
        assert(views(lines@) =~= base + open_choice_lines(sub));
        i = i + 1;
    }
    assert(views(options@).subrange(0, options@.len() as int) =~= views(options@));
    push_role_lines(&mut lines, required_role);
    lines.push(String::new());
    let mut last = String::from_str("please cast your vote below.\nthis poll ends <t:");
    write_signed_decimal(&mut last, ends_at);
    last.append(":R>.");
    let ghost before = views(lines@);
    lines.push(last);
    assert(views(lines@) =~= seq!["### "@ + title@, Seq::<char>::empty(), "### **choices**"@]
        + open_choice_lines(views(options@)) + role_lines(role_of(required_role)) + seq![
        Seq::<char>::empty(),
        "please cast your vote below.\nthis poll ends <t:"@ + signed_decimal(ends_at as int)
            + ":R>."@,
    ]);
    join_strings(&lines, "\n")
}

/// Footer of an open poll.
pub fn voters_footer(total_votes: u64) -> (r: String)
    ensures
        r@ == "current voters: "@ + decimal(total_votes as nat),
{
    let mut out = String::from_str("current voters: ");
    write_decimal(&mut out, total_votes);
    out
}


/// One choice line of a closed poll: marker and plain label.
pub open spec fn closed_choice_line(index: nat, label: Seq<char>) -> Seq<char> {
    choice_marker(index) + " "@ + label
}

/// The choice lines of a closed poll.
pub open spec fn closed_choice_lines(labels: Seq<Seq<char>>) -> Seq<Seq<char>>
    decreases labels.len(),
{
    if labels.len() == 0 {
        Seq::<Seq<char>>::empty()
    } else {
        closed_choice_lines(labels.drop_last()).push(
            closed_choice_line((labels.len() - 1) as nat, labels.last()),
        )
    }
}

/// Description of a closed poll: title, choices, required role and the
/// results chart.
pub open spec fn closed_poll_description(
    title: Seq<char>,
    labels: Seq<Seq<char>>,
    role: Option<i64>,
    chart: Seq<char>,
) -> Seq<char> {
    join_with(
        seq!["### "@ + title, Seq::<char>::empty(), "### **choices**"@] + closed_choice_lines(labels)
            + role_lines(stored_role_of(role)) + seq![Seq::<char>::empty(), "### **result**"@, chart],
        "\n"@,
    )
}

/// Builds the description of a closed poll from its option labels (in
/// stored order) and its results chart.
pub fn closed_poll_description_text(
    title: &str,
    labels: &Vec<String>,
    required_role: Option<i64>,
    chart: &str,
) -> (r: String)
    requires
        labels@.len() <= u32::MAX - 0x1F1E6 + 1,
    ensures
        r@ == closed_poll_description(title@, views(labels@), required_role, chart@),
{
    let mut lines: Vec<String> = Vec::new();
    let mut head = String::from_str("### ");
    head.append(title);
    lines.push(head);
    lines.push(String::new());
    lines.push(String::from_str("### **choices**"));
    let ghost base = views(lines@);
    assert(base =~= seq!["### "@ + title@, Seq::<char>::empty(), "### **choices**"@]);
    let mut i: usize = 0;
    while i < labels.len()
        invariant
            i <= labels@.len() <= u32::MAX - 0x1F1E6 + 1,
            views(lines@) == base + closed_choice_lines(views(labels@).subrange(0, i as int)),
        decreases labels@.len() - i,
    {
        let mut line = String::new();
        push_choice_marker(&mut line, i);
        line.append(" ");
        line.append(labels[i].as_str());
        let ghost sub = views(labels@).subrange(0, i + 1);
        assert(sub.drop_last() =~= views(labels@).subrange(0, i as int));
        assert(sub.last() == labels@[i as int]@);
        assert(line@ =~= closed_choice_line(i as nat, labels@[i as int]@));
        let ghost prev = lines@;
        lines.push(line);
        assert(views(lines@) =~= views(prev).push(line@));
        assert(views(lines@) =~= base + closed_choice_lines(sub));
        i = i + 1;
    }
    assert(views(labels@).subrange(0, labels@.len() as int) =~= views(labels@));
    push_stored_role_lines(&mut lines, required_role);
    lines.push(String::new());
    lines.push(String::from_str("### **result**"));
    lines.push(String::from_str(chart));
    assert(views(lines@) =~= seq!["### "@ + title@, Seq::<char>::empty(), "### **choices**"@]
        + closed_choice_lines(views(labels@)) + role_lines(stored_role_of(required_role)) + seq![
        Seq::<char>::empty(),
        "### **result**"@,
        chart@,
    ]);
    join_strings(&lines, "\n")
}

/// The voters of option `option` among `votes` (option id, voter id), in
/// the order the votes come.
pub open spec fn voters_of(votes: Seq<(u128, i64)>, option: u128) -> Seq<i64>
    decreases votes.len(),
{
    if votes.len() == 0 {
        Seq::<i64>::empty()
    } else {
        let rest = voters_of(votes.drop_last(), option);
        if votes.last().0 == option {
            rest.push(votes.last().1)
        } else {
            rest
        }
    }
}

/// The voters of one option, in vote order.
pub fn voters_for(votes: &Vec<(u128, i64)>, option: u128) -> (r: Vec<i64>)
    ensures
        r@ == voters_of(votes@, option),
{
    let mut out: Vec<i64> = Vec::new();
    let mut i: usize = 0;
    while i < votes.len()
        invariant
            i <= votes@.len(),
            out@ == voters_of(votes@.subrange(0, i as int), option),
        decreases votes@.len() - i,
    {
        assert(votes@.subrange(0, i + 1).drop_last() =~= votes@.subrange(0, i as int));
        if votes[i].0 == option {
            out.push(votes[i].1);
        }
        i = i + 1;
    }
    assert(votes@.subrange(0, votes@.len() as int) =~= votes@);
    out
}

/// Groups the votes by option: the voters of each option, options in the
/// given order.
pub fn group_voters(option_ids: &Vec<u128>, votes: &Vec<(u128, i64)>) -> (r: Vec<Vec<i64>>)
    ensures
        r@.len() == option_ids@.len(),
        forall|i: int| 0 <= i < r@.len() ==> #[trigger] r@[i]@ == voters_of(votes@, option_ids@[i]),
{
    let mut out: Vec<Vec<i64>> = Vec::new();
    let mut i: usize = 0;
    while i < option_ids.len()
        invariant
            i <= option_ids@.len(),
            out@.len() == i,
            forall|j: int| 0 <= j < i ==> #[trigger] out@[j]@ == voters_of(votes@, option_ids@[j]),
        decreases option_ids@.len() - i,
    {
        out.push(voters_for(votes, option_ids[i]));
        i = i + 1;
    }
    out
}

/// The voter lines of one option in the live status: `nobody yet`, or a
/// bullet per voter name.
pub open spec fn voter_lines(names: Seq<Seq<char>>) -> Seq<Seq<char>> {
    if names.len() == 0 {
        seq!["nobody yet"@]
    } else {
        names.map_values(|n: Seq<char>| "- "@ + n)
    }
}

/// The breakdown block of one option in the live status.
pub open spec fn breakdown_block(index: nat, label: Seq<char>, names: Seq<Seq<char>>) -> Seq<Seq<char>> {
    seq![open_choice_line(index, label)] + voter_lines(names) + seq![Seq::<char>::empty()]
}

/// The breakdown blocks of all options.
pub open spec fn breakdown_blocks(options: Seq<(Seq<char>, Seq<Seq<char>>)>) -> Seq<Seq<char>>
    decreases options.len(),
{
    if options.len() == 0 {
        Seq::<Seq<char>>::empty()
    } else {
        breakdown_blocks(options.drop_last()) + breakdown_block(
            (options.len() - 1) as nat,
            options.last().0,
            options.last().1,
        )
    }
}

/// The views of (label, voter names) pairs.
pub open spec fn option_views(v: Seq<(String, Vec<String>)>) -> Seq<(Seq<char>, Seq<Seq<char>>)> {
    v.map_values(|o: (String, Vec<String>)| (o.0@, views(o.1@)))
}

/// Description of the live status of a poll: the chart, each option with
/// who voted for it, and the required role.
pub open spec fn live_status_description(
    chart: Seq<char>,
    options: Seq<(Seq<char>, Seq<Seq<char>>)>,
    role: Option<i64>,
) -> Seq<char> {
    join_with(
        seq!["### live results"@, chart, Seq::<char>::empty(), "### **voter breakdown**"@]
            + breakdown_blocks(options) + match role {
            Some(r) => seq!["### **required role**"@, role_mention(r as int)],
            None => Seq::<Seq<char>>::empty(),
        },
        "\n"@,
    )
}

/// Builds the live status description from the chart and, per option in
/// stored order, its label and the display names of its voters.
pub fn live_status_description_text(
    chart: &str,
    options: &Vec<(String, Vec<String>)>,
    required_role: Option<i64>,
) -> (r: String)
    requires
        options@.len() <= u32::MAX - 0x1F1E6 + 1,
    ensures
        r@ == live_status_description(chart@, option_views(options@), required_role),
{
    let mut lines: Vec<String> = Vec::new();
    lines.push(String::from_str("### live results"));
    lines.push(String::from_str(chart));
    lines.push(String::new());
    lines.push(String::from_str("### **voter breakdown**"));
    let ghost base = views(lines@);
    assert(base =~= seq!["### live results"@, chart@, Seq::<char>::empty(), "### **voter breakdown**"@]);
    let ghost ov = option_views(options@);
    let mut i: usize = 0;
    while i < options.len()
        invariant
            i <= options@.len() <= u32::MAX - 0x1F1E6 + 1,
            ov == option_views(options@),
            views(lines@) == base + breakdown_blocks(ov.subrange(0, i as int)),
        decreases options@.len() - i,
    {
        let ghost start = views(lines@);
        let mut head = String::new();
        push_choice_marker(&mut head, i);
        head.append(" **");
        head.append(options[i].0.as_str());
        head.append("**");
        assert(head@ =~= open_choice_line(i as nat, options@[i as int].0@));
        lines.push(head);
        assert(views(lines@) =~= start.push(open_choice_line(i as nat, options@[i as int].0@)));
        let names = &options[i].1;
        if names.len() == 0 {
            lines.push(String::from_str("nobody yet"));
            assert(views(names@).len() == 0);
            assert(views(lines@) =~= start.push(open_choice_line(i as nat, options@[i as int].0@))
                + voter_lines(views(names@)));
        } else {
            let mut k: usize = 0;
            assert(views(names@).subrange(0, 0).map_values(|n: Seq<char>| "- "@ + n) =~= Seq::<Seq<char>>::empty());
            while k < names.len()
                invariant
                    i < options@.len(),
                    k <= names@.len(),
                    views(lines@) == start.push(open_choice_line(i as nat, options@[i as int].0@))
                        + views(names@).subrange(0, k as int).map_values(|n: Seq<char>| "- "@ + n),
                decreases names@.len() - k,
            {
                let mut item = String::from_str("- ");
                item.append(names[k].as_str());
                let ghost prev = lines@;
                lines.push(item);
                assert(views(names@).subrange(0, k + 1).map_values(|n: Seq<char>| "- "@ + n)
                    =~= views(names@).subrange(0, k as int).map_values(|n: Seq<char>| "- "@ + n).push(
                    "- "@ + names@[k as int]@,
                ));
                assert(views(lines@) =~= views(prev).push(item@));
                k = k + 1;
            }
            assert(views(names@).subrange(0, names@.len() as int) =~= views(names@));
            assert(views(lines@) =~= start.push(open_choice_line(i as nat, options@[i as int].0@))
                + voter_lines(views(names@)));
        }
        let ghost mid = lines@;
        assert(names@ == options@[i as int].1@);
        lines.push(String::new());
        assert(views(lines@) =~= views(mid).push(Seq::<char>::empty()));
        let ghost sub = ov.subrange(0, i + 1);
        assert(sub.drop_last() =~= ov.subrange(0, i as int));
        assert(sub.last() == (options@[i as int].0@, views(options@[i as int].1@)));
        assert(views(lines@) =~= start + breakdown_block(
            i as nat,
            options@[i as int].0@,
            views(options@[i as int].1@),
        ));
        assert(views(lines@) =~= base + breakdown_blocks(sub));
        i = i + 1;
    }
    assert(ov.subrange(0, options@.len() as int) =~= ov);
    match required_role {
        Some(r) => {
            lines.push(String::from_str("### **required role**"));
            let mut m = String::from_str("<@&");
            write_signed_decimal(&mut m, r);
            m.append(">");
            lines.push(m);
        },
        None => {},
    }
    assert(views(lines@) =~= seq![
        "### live results"@,
        chart@,
        Seq::<char>::empty(),
        "### **voter breakdown**"@,
    ] + breakdown_blocks(ov) + match required_role {
        Some(r) => seq!["### **required role**"@, role_mention(r as int)],
        None => Seq::<Seq<char>>::empty(),
    });
    join_strings(&lines, "\n")
}

/// Title of the live status embed.
pub fn live_status_title(title: &str) -> (r: String)
    ensures
        r@ == "live status: "@ + title@,
{
    let mut out = String::from_str("live status: ");
    out.append(title);
    out
}


/// The names of one option's voters, one per line.
pub open spec fn name_lines(names: Seq<Seq<char>>) -> Seq<char>
    decreases names.len(),
{
    if names.len() == 0 {
        Seq::<char>::empty()
    } else {
        name_lines(names.drop_last()) + names.last() + "\n"@
    }
}

/// Every voter of an option is listed, in order, one per line: one name
/// gives its line, and the lines of two lists of names are the lines of the
/// first followed by those of the second. So each listed voter adds their
/// name and a newline to the log.
pub proof fn lemma_name_lines_list_every_name(a: Seq<Seq<char>>, b: Seq<Seq<char>>, x: Seq<char>)
    ensures
        name_lines(Seq::<Seq<char>>::empty()) == Seq::<char>::empty(),
        name_lines(seq![x]) == x + "\n"@,
        name_lines(a + b) == name_lines(a) + name_lines(b),
        name_lines(a.push(x)).len() == name_lines(a).len() + x.len() + 1,
    decreases b.len(),
{
    reveal_strlit("\n");
    assert(name_lines(Seq::<Seq<char>>::empty()) == Seq::<char>::empty());
    assert(seq![x].drop_last() =~= Seq::<Seq<char>>::empty());
    assert(seq![x].last() == x);
    assert(name_lines(seq![x]) == name_lines(seq![x].drop_last()) + seq![x].last() + "\n"@);
    assert(Seq::<char>::empty() + x + "\n"@ =~= x + "\n"@);
    if b.len() == 0 {
        assert(a + b =~= a);
        assert(name_lines(a) + name_lines(b) =~= name_lines(a));
    } else {
        lemma_name_lines_list_every_name(a, b.drop_last(), x);
        assert((a + b).drop_last() =~= a + b.drop_last());
        assert((a + b).last() == b.last());
        assert(name_lines(a + b) =~= name_lines(a) + name_lines(b));
    }
    assert(a.push(x).drop_last() =~= a);
}

/// The block of one option in the audit log: label, rule, its voters (or a
/// note that nobody voted), and a blank line unless it is the last option.
pub open spec fn audit_block(index: nat, count: nat, label: Seq<char>, names: Seq<Seq<char>>) -> Seq<char> {
    label + "\n----\n"@ + (if names.len() == 0 {
        "no one voted for this\n"@
    } else {
        name_lines(names)
    }) + (if index + 1 < count {
        "\n"@
    } else {
        Seq::<char>::empty()
    })
}

/// The blocks of the first options, out of `count`.
pub open spec fn audit_blocks(options: Seq<(Seq<char>, Seq<Seq<char>>)>, count: nat) -> Seq<char>
    decreases options.len(),
{
    if options.len() == 0 {
        Seq::<char>::empty()
    } else {
        audit_blocks(options.drop_last(), count) + audit_block(
            (options.len() - 1) as nat,
            count,
            options.last().0,
            options.last().1,
        )
    }
}

/// The audit log of a closed poll before any truncation.
pub open spec fn audit_log_text(title: Seq<char>, options: Seq<(Seq<char>, Seq<Seq<char>>)>) -> Seq<char> {
    "**poll closed: "@ + title + "**\n*the following votes were cast:*\n```text\n"@ + audit_blocks(
        options,
        options.len(),
    ) + "```"@
}

/// Builds the audit log of a closed poll: per option (label and voter
/// names, in stored order) the list of who voted for it.
pub fn audit_log_raw(title: &str, options: &Vec<(String, Vec<String>)>) -> (r: String)
    ensures
        r@ == audit_log_text(title@, option_views(options@)),
{
    let ghost ov = option_views(options@);
    let n = options.len();
    let mut out = String::from_str("**poll closed: ");
    out.append(title);
    out.append("**\n*the following votes were cast:*\n```text\n");
    let ghost head = out@;
    let mut i: usize = 0;
    while i < n
        invariant
            n == options@.len(),
            i <= n,
            ov == option_views(options@),
            out@ == head + audit_blocks(ov.subrange(0, i as int), n as nat),
        decreases n - i,
    {
        let ghost start = out@;
        out.append(options[i].0.as_str());
        out.append("\n----\n");
        let names = &options[i].1;
        assert(names@ == options@[i as int].1@);
        if names.len() == 0 {
            out.append("no one voted for this\n");
        } else {
            let ghost mid = out@;
            let mut k: usize = 0;
            assert(views(names@).subrange(0, 0) =~= Seq::<Seq<char>>::empty());
            while k < names.len()
                invariant
                    k <= names@.len(),
                    out@ == mid + name_lines(views(names@).subrange(0, k as int)),
                decreases names@.len() - k,
            {
                assert(views(names@).subrange(0, k + 1).drop_last() =~= views(names@).subrange(0, k as int));
                out.append(names[k].as_str());
                out.append("\n");
                k = k + 1;
            }
            assert(views(names@).subrange(0, names@.len() as int) =~= views(names@));
        }
        if i + 1 < n {
            out.append("\n");
        }
        let ghost sub = ov.subrange(0, i + 1);
        assert(sub.drop_last() =~= ov.subrange(0, i as int));
        assert(sub.last() == (options@[i as int].0@, views(options@[i as int].1@)));
        assert(out@ =~= start + audit_block(i as nat, n as nat, options@[i as int].0@, views(names@)));
        i = i + 1;
    }
    assert(ov.subrange(0, n as int) =~= ov);
    out.append("```");
    out
}

/// Limit above which the audit log is cut short.
pub const AUDIT_LOG_LIMIT: usize = 1950;

/// Length the audit log is cut to.
pub const AUDIT_LOG_CUT: usize = 1900;

/// The longest prefix of `s` that UTF-8 encodes in at most `n` bytes.
pub open spec fn prefix_within(s: Seq<char>, n: nat) -> Seq<char>
    decreases s.len(),
{
    if s.len() == 0 || utf8_width(s[0]) > n {
        Seq::<char>::empty()
    } else {
        seq![s[0]] + prefix_within(s.drop_first(), (n - utf8_width(s[0])) as nat)
    }
}

/// The audit log as it is sent: kept when it is at most 1950 bytes long,
/// else cut to 1900 bytes with a note.
pub open spec fn audit_log_sent(s: Seq<char>) -> Seq<char> {
    if utf8_len(s) > AUDIT_LOG_LIMIT {
        prefix_within(s, AUDIT_LOG_CUT as nat) + "\n... [truncated due to discord message limit]\n```"@
    } else {
        s
    }
}

proof fn lemma_prefix_within_bound(s: Seq<char>, n: nat)
    ensures
        utf8_len(prefix_within(s, n)) <= n,
    decreases s.len(),
{
    if s.len() > 0 && utf8_width(s[0]) <= n {
        let t = s.drop_first();
        let m = (n - utf8_width(s[0])) as nat;
        lemma_prefix_within_bound(t, m);
        let p = seq![s[0]] + prefix_within(t, m);
        assert(p[0] == s[0]);
        assert(p.drop_first() =~= prefix_within(t, m));
    }
}

proof fn lemma_ascii_len(s: Seq<char>)
    requires
        forall|i: int| 0 <= i < s.len() ==> (#[trigger] s[i] as u32) <= 0x7F,
    ensures
        utf8_len(s) == s.len(),
    decreases s.len(),
{
    if s.len() > 0 {
        let t = s.drop_first();
        assert forall|i: int| 0 <= i < t.len() implies (#[trigger] t[i] as u32) <= 0x7F by {
            assert(t[i] == s[i + 1]);
        }
        lemma_ascii_len(t);
        assert((s[0] as u32) <= 0x7F);
    }
}

/// The audit log as sent never exceeds 1950 bytes, whether it was kept
/// whole or cut.
pub proof fn lemma_audit_log_fits(s: Seq<char>)
    ensures
        utf8_len(audit_log_sent(s)) <= AUDIT_LOG_LIMIT,
{
    if utf8_len(s) > AUDIT_LOG_LIMIT {
        let note = "\n... [truncated due to discord message limit]\n```"@;
        reveal_strlit("\n... [truncated due to discord message limit]\n```");
        assert(note.len() == 49);
        assert forall|i: int| 0 <= i < note.len() implies (#[trigger] note[i] as u32) <= 0x7F by {
        }
        lemma_ascii_len(note);
        lemma_prefix_within_bound(s, AUDIT_LOG_CUT as nat);
        lemma_utf8_len_concat(prefix_within(s, AUDIT_LOG_CUT as nat), note);
    }
}

/// Number of characters of `prefix_within(v, n)` and its byte length.
fn prefix_within_len(v: &Vec<char>, n: usize) -> (r: (usize, usize))
    requires
        n <= usize::MAX - 4,
    ensures
        r.0 as nat == prefix_within(v@, n as nat).len(),
        r.1 as nat == utf8_len(prefix_within(v@, n as nat)),
        r.0 <= v@.len(),
        prefix_within(v@, n as nat) == v@.subrange(0, r.0 as int),
{
    let mut i: usize = 0;
    let mut used: usize = 0;
    assert(v@.subrange(0, 0) =~= Seq::<char>::empty());
    assert(v@.subrange(0, v@.len() as int) =~= v@);
    while i < v.len() && used + char_width(v[i]) <= n
        invariant
            i <= v@.len(),
            n <= usize::MAX - 4,
            used <= n,
            used as nat == utf8_len(v@.subrange(0, i as int)),
            prefix_within(v@, n as nat) == v@.subrange(0, i as int) + prefix_within(
                v@.subrange(i as int, v@.len() as int),
                (n - used) as nat,
            ),
        decreases v@.len() - i,
    {
        let w = char_width(v[i]);
        let ghost rest = v@.subrange(i as int, v@.len() as int);
        assert(rest[0] == v@[i as int]);
        assert(rest.drop_first() =~= v@.subrange(i + 1, v@.len() as int));
        proof {
            crate::text::lemma_utf8_len_push(v@.subrange(0, i as int), v@[i as int]);
            assert(v@.subrange(0, i as int).push(v@[i as int]) =~= v@.subrange(0, i + 1));
            assert(v@.subrange(0, i as int) + (seq![rest[0]] + prefix_within(
                rest.drop_first(),
                (n - used - w) as nat,
            )) =~= v@.subrange(0, i + 1) + prefix_within(rest.drop_first(), (n - used - w) as nat));
        }
        used = used + w;
        i = i + 1;
    }
    proof {
        let rest = v@.subrange(i as int, v@.len() as int);
        if i < v@.len() {
            assert(rest[0] == v@[i as int]);
        }
        assert(prefix_within(rest, (n - used) as nat) =~= Seq::<char>::empty());
        assert(v@.subrange(0, i as int) + Seq::<char>::empty() =~= v@.subrange(0, i as int));
    }
    (i, used)
}

/// Cuts the audit log to Discord's message size, as it is sent: a log over
/// 1950 bytes keeps its longest prefix of whole characters within 1900
/// bytes, followed by a note; the result is never over 1950 bytes.
pub fn truncate_audit_log(log: String) -> (r: String)
    ensures
        r@ == audit_log_sent(log@),
        utf8_len(r@) <= AUDIT_LOG_LIMIT,
{
    proof {
        lemma_audit_log_fits(log@);
    }
    let v = chars_of(log.as_str());
    let len = utf8_len_capped(&v, AUDIT_LOG_LIMIT + 1);
    if len > AUDIT_LOG_LIMIT {
        let (k, _) = prefix_within_len(&v, AUDIT_LOG_CUT);
        let mut out = string_of(&v, 0, k);
        out.append("\n... [truncated due to discord message limit]\n```");
        out
    } else {
        log
    }
}

/// The old poll embed of a yes / no / hard-no poll.
pub open spec fn yes_no_poll_description(title: Seq<char>, ends_at: i64) -> Seq<char> {
    join_with(
        seq![
            "### "@ + title,
            Seq::<char>::empty(),
            "### **choices**"@,
            crate::emojis::yes_markup() + " yes"@,
            crate::emojis::no_markup() + " no"@,
            crate::emojis::hard_no_markup() + " hard no"@,
            Seq::<char>::empty(),
            "please cast your vote below.\nthis poll ends <t:"@ + signed_decimal(ends_at as int)
                + ":R>."@,
        ],
        "\n"@,
    )
}

/// Builds the description of an open yes / no / hard-no poll.
pub fn yes_no_poll_description_text(title: &str, ends_at: i64) -> (r: String)
    ensures
        r@ == yes_no_poll_description(title@, ends_at),
{
    let mut lines: Vec<String> = Vec::new();
    let mut head = String::from_str("### ");
    head.append(title);
    lines.push(head);
    lines.push(String::new());
    lines.push(String::from_str("### **choices**"));
    let mut y = String::from_str(crate::emojis::yes().text);
    y.append(" yes");
    lines.push(y);
    let mut n = String::from_str(crate::emojis::no().text);
    n.append(" no");
    lines.push(n);
    let mut h = String::from_str(crate::emojis::hard_no().text);
    h.append(" hard no");
    lines.push(h);
    lines.push(String::new());
    let mut last = String::from_str("please cast your vote below.\nthis poll ends <t:");
    write_signed_decimal(&mut last, ends_at);
    last.append(":R>.");
    lines.push(last);
    assert(views(lines@) =~= seq![
        "### "@ + title@,
        Seq::<char>::empty(),
        "### **choices**"@,
        crate::emojis::yes_markup() + " yes"@,
        crate::emojis::no_markup() + " no"@,
        crate::emojis::hard_no_markup() + " hard no"@,
        Seq::<char>::empty(),
        "please cast your vote below.\nthis poll ends <t:"@ + signed_decimal(ends_at as int)
            + ":R>."@,
    ]);
    join_strings(&lines, "\n")
}

/// The results description of a closed yes / no / hard-no poll.
pub open spec fn yes_no_results_description(title: Seq<char>, chart: Seq<char>) -> Seq<char> {
    "### "@ + title + "\n\n### **choices**\n"@ + crate::emojis::yes_markup() + " yes\n"@
        + crate::emojis::no_markup() + " no\n"@ + crate::emojis::hard_no_markup()
        + " hard no\n\n### **result**\n"@ + chart
}

/// Builds the results description of a closed yes / no / hard-no poll.
pub fn yes_no_results_description_text(title: &str, chart: &str) -> (r: String)
    ensures
        r@ == yes_no_results_description(title@, chart@),
{
    let mut out = String::from_str("### ");
    out.append(title);
    out.append("\n\n### **choices**\n");
    out.append(crate::emojis::yes().text);
    out.append(" yes\n");
    out.append(crate::emojis::no().text);
    out.append(" no\n");
    out.append(crate::emojis::hard_no().text);
    out.append(" hard no\n\n### **result**\n");
    out.append(chart);
    out
}

/// Title of the embed that replaces a yes / no / hard-no poll when it
/// closes.
pub fn poll_closed_title(title: &str) -> (r: String)
    ensures
        r@ == "poll closed: "@ + title@,
{
    let mut out = String::from_str("poll closed: ");
    out.append(title);
    out
}


/// The options a poll is posted with: each choice text trimmed, empty ones
/// dropped, each kept one with its position among all the choices (which
/// picks its marker).
pub open spec fn planned_options(choices: Seq<Seq<char>>) -> Seq<(nat, Seq<char>)>
    decreases choices.len(),
{
    if choices.len() == 0 {
        Seq::<(nat, Seq<char>)>::empty()
    } else {
        let kept = planned_options(choices.drop_last());
        let label = trim(choices.last());
        if label.len() == 0 {
            kept
        } else {
            kept.push(((choices.len() - 1) as nat, label))
        }
    }
}

/// Each planned option is a non-blank choice trimmed, taken at its own
/// position; positions only grow, so no two options share a marker.
pub proof fn lemma_planned_options_shape(choices: Seq<Seq<char>>)
    ensures
        forall|k: int|
            0 <= k < planned_options(choices).len() ==> {
                let (pos, label) = #[trigger] planned_options(choices)[k];
                &&& pos < choices.len()
                &&& label == trim(choices[pos as int])
                &&& label.len() > 0
            },
        forall|k: int, l: int|
            0 <= k < l < planned_options(choices).len() ==> (#[trigger] planned_options(choices)[k]).0
                < (#[trigger] planned_options(choices)[l]).0,
    decreases choices.len(),
{
    if choices.len() > 0 {
        let prev = choices.drop_last();
        lemma_planned_options_shape(prev);
        let kept = planned_options(prev);
        assert forall|k: int| 0 <= k < kept.len() implies (#[trigger] kept[k]).0 < prev.len()
            && choices[kept[k].0 as int] == prev[kept[k].0 as int] by {
        }
    }
}

/// No choice is lost: every choice whose trimmed text is not empty is
/// planned, trimmed, at its own position; so the plan is empty exactly when
/// every choice is blank.
pub proof fn lemma_plan_keeps_every_choice(choices: Seq<Seq<char>>)
    ensures
        forall|p: int|
            0 <= p < choices.len() && trim(#[trigger] choices[p]).len() > 0 ==> exists|k: int|
                0 <= k < planned_options(choices).len() && planned_options(choices)[k] == (
                    p as nat,
                    trim(choices[p]),
                ),
        (planned_options(choices).len() == 0) <==> (forall|p: int|
            0 <= p < choices.len() ==> trim(#[trigger] choices[p]).len() == 0),
    decreases choices.len(),
{
    lemma_planned_options_shape(choices);
    if choices.len() > 0 {
        let prev = choices.drop_last();
        lemma_plan_keeps_every_choice(prev);
        let kept = planned_options(prev);
        let last = (choices.len() - 1) as int;
        assert forall|p: int|
            0 <= p < choices.len() && trim(#[trigger] choices[p]).len() > 0 implies exists|k: int|
                0 <= k < planned_options(choices).len() && planned_options(choices)[k] == (
                    p as nat,
                    trim(choices[p]),
                ) by {
            if p < last {
                assert(prev[p] == choices[p]);
                assert(trim(prev[p]).len() > 0);
                let k = choose|k: int| 0 <= k < kept.len() && kept[k] == (p as nat, trim(prev[p]));
                assert(planned_options(choices)[k] == kept[k]);
            } else {
                assert(planned_options(choices)[kept.len() as int] == (p as nat, trim(choices[p])));
            }
        }
        if planned_options(choices).len() == 0 {
            assert forall|p: int| 0 <= p < choices.len() implies trim(#[trigger] choices[p]).len() == 0 by {
                if trim(choices[p]).len() > 0 {
                    let k = choose|k: int|
                        0 <= k < planned_options(choices).len() && planned_options(choices)[k] == (
                            p as nat,
                            trim(choices[p]),
                        );
                }
            }
        }
        if forall|p: int| 0 <= p < choices.len() ==> trim(#[trigger] choices[p]).len() == 0 {
            assert forall|p: int| 0 <= p < prev.len() implies trim(#[trigger] prev[p]).len() == 0 by {
                assert(prev[p] == choices[p]);
            }
            assert(trim(choices[last]).len() == 0);
        }
    }
}

/// Why a poll could not be planned.
#[derive(Clone, Copy, PartialEq, Eq, Structural, Debug)]
pub enum PollPlanError {
    /// Every choice was blank.
    NoValidOptions,
}

/// The message of a planning error.
pub fn plan_error_text(e: PollPlanError) -> (r: String)
    ensures
        r@ == "a poll must have at least one valid option"@,
{
    match e {
        PollPlanError::NoValidOptions => String::from_str("a poll must have at least one valid option"),
    }
}

/// The views of (position, label) pairs.
pub open spec fn plan_views(v: Seq<(usize, String)>) -> Seq<(nat, Seq<char>)> {
    v.map_values(|p: (usize, String)| (p.0 as nat, p.1@))
}

/// Plans the options of a new poll from its choice texts: the trimmed,
/// non-blank ones with their positions; an error when none is left.
pub fn plan_poll_options(choices: &Vec<String>) -> (r: Result<Vec<(usize, String)>, PollPlanError>)
    ensures
        match r {
            Ok(v) => plan_views(v@) == planned_options(views(choices@)) && v@.len() > 0,
            Err(e) => e == PollPlanError::NoValidOptions && planned_options(views(choices@)).len() == 0,
        },
{
    let ghost cv = views(choices@);
    let mut out: Vec<(usize, String)> = Vec::new();
    let mut i: usize = 0;
    while i < choices.len()
        invariant
            i <= choices@.len(),
            cv == views(choices@),
            plan_views(out@) == planned_options(cv.subrange(0, i as int)),
        decreases choices@.len() - i,
    {
        let ghost sub = cv.subrange(0, i + 1);
        assert(sub.drop_last() =~= cv.subrange(0, i as int));
        assert(sub.last() == choices@[i as int]@);
        let label = trim_text(choices[i].as_str());
        if label.unicode_len() > 0 {
            let ghost prev = out@;
            out.push((i, label));
            assert(plan_views(out@) =~= plan_views(prev).push((i as nat, label@)));
        }
        i = i + 1;
    }
    assert(cv.subrange(0, choices@.len() as int) =~= cv);
    if out.len() == 0 {
        Err(PollPlanError::NoValidOptions)
    } else {
        Ok(out)
    }
}

/// Position of the last `c` in `s`.
pub open spec fn last_index_of(s: Seq<char>, c: char) -> Option<nat>
    decreases s.len(),
{
    if s.len() == 0 {
        None
    } else if s.last() == c {
        Some((s.len() - 1) as nat)
    } else {
        last_index_of(s.drop_last(), c)
    }
}

/// What a choice written as `label` or `label : weight` reads as: the text
/// trimmed and split at its last colon, so that a label may itself hold
/// colons; the label is trimmed and the text after the last colon is the raw
/// weight. Blank input and a blank label are refused.
pub open spec fn choice_parts(s: Seq<char>) -> Option<(Seq<char>, Option<Seq<char>>)> {
    let t = trim(s);
    if t.len() == 0 {
        None
    } else {
        match last_index_of(t, ':') {
            Some(i) => {
                let label = trim(t.subrange(0, i as int));
                if label.len() == 0 {
                    None
                } else {
                    Some((label, Some(t.subrange(i as int + 1, t.len() as int))))
                }
            },
            None => Some((t, None)),
        }
    }
}

/// A choice as typed in the poll form: its label and the text of its weight,
/// if one was given.
pub struct ChoiceParts {
    pub text: String,
    pub weight_text: Option<String>,
}

/// Splits a typed choice into label and weight text.
pub fn parse_choice(s: &str) -> (r: Option<ChoiceParts>)
    ensures
        match r {
            Some(p) => choice_parts(s@) == Some(
                (
                    p.text@,
                    match p.weight_text {
                        Some(w) => Some(w@),
                        None => None,
                    },
                ),
            ),
            None => choice_parts(s@) is None,
        },
{
    let trimmed = trim_text(s);
    let t = chars_of(trimmed.as_str());
    if t.len() == 0 {
        return None;
    }
    let n = t.len();
    let mut i: usize = n;
    assert(t@.subrange(0, n as int) =~= t@);
    while i > 0 && t[i - 1] != ':'
        invariant
            i <= n,
            n == t@.len(),
            last_index_of(t@, ':') == last_index_of(t@.subrange(0, i as int), ':'),
        decreases i,
    {
        let ghost pre = t@.subrange(0, i as int);
        assert(pre.drop_last() =~= t@.subrange(0, i - 1));
        assert(pre.last() == t@[i - 1]);
        i = i - 1;
    }
    let ghost pre = t@.subrange(0, i as int);
    if i > 0 {
        assert(pre.last() == t@[i - 1]);
        assert(last_index_of(t@, ':') == Some((i - 1) as nat));
        let head = string_of(&t, 0, i - 1);
        let label_chars = chars_of(head.as_str());
        let label = trim_chars(&label_chars);
        if label.unicode_len() == 0 {
            return None;
        }
        let weight = string_of(&t, i, n);
        Some(ChoiceParts { text: label, weight_text: Some(weight) })
    } else {
        assert(pre.len() == 0);
        assert(last_index_of(t@, ':') is None);
        Some(ChoiceParts { text: trimmed, weight_text: None })
    }
}

/// The view of an optional text.
pub open spec fn opt_view(o: Option<String>) -> Option<Seq<char>> {
    match o {
        Some(s) => Some(s@),
        None => None,
    }
}

/// The choice texts of the poll form, in order: the first two options, the
/// third when given, then each comma-separated piece of the bulk field,
/// trimmed.
pub open spec fn modal_inputs(
    opt_1: Seq<char>,
    opt_2: Seq<char>,
    opt_3: Option<Seq<char>>,
    bulk: Option<Seq<char>>,
) -> Seq<Seq<char>> {
    seq![opt_1, opt_2] + (match opt_3 {
        Some(o) => seq![o],
        None => Seq::<Seq<char>>::empty(),
    }) + (match bulk {
        Some(b) => split_on(b, ',').map_values(|p: Seq<char>| trim(p)),
        None => Seq::<Seq<char>>::empty(),
    })
}

/// The choices that read as a label (with an optional weight text), in
/// order; texts that do not read as a choice are left out.
pub open spec fn parsed_choices(inputs: Seq<Seq<char>>) -> Seq<(Seq<char>, Option<Seq<char>>)>
    decreases inputs.len(),
{
    if inputs.len() == 0 {
        Seq::<(Seq<char>, Option<Seq<char>>)>::empty()
    } else {
        let rest = parsed_choices(inputs.drop_last());
        match choice_parts(inputs.last()) {
            Some(p) => rest.push(p),
            None => rest,
        }
    }
}

/// The views of parsed choices.
pub open spec fn choice_views(v: Seq<ChoiceParts>) -> Seq<(Seq<char>, Option<Seq<char>>)> {
    v.map_values(|p: ChoiceParts| (p.text@, opt_view(p.weight_text)))
}

/// The form a new poll is described with.
pub struct NewPollModal {
    pub title: String,
    /// First option, `name : weight`.
    pub opt_1: String,
    /// Second option, `name : weight`.
    pub opt_2: String,
    /// Optional third option.
    pub opt_3: Option<String>,
    /// Further options, comma separated.
    pub opt_bulk: Option<String>,
}

impl NewPollModal {
    /// The choice texts of the form, in order.
    pub open spec fn inputs(&self) -> Seq<Seq<char>> {
        modal_inputs(self.opt_1@, self.opt_2@, opt_view(self.opt_3), opt_view(self.opt_bulk))
    }

    /// Gathers the choice texts of the form.
    pub fn choice_inputs(&self) -> (r: Vec<String>)
        ensures
            views(r@) == self.inputs(),
    {
        let mut out: Vec<String> = Vec::new();
        out.push(self.opt_1.clone());
        out.push(self.opt_2.clone());
        match &self.opt_3 {
            Some(o) => out.push(o.clone()),
            None => {},
        }
        let ghost head = views(out@);
        match &self.opt_bulk {
            Some(b) => {
                let chars = chars_of(b.as_str());
                let parts = split_chars(&chars, ',');
                let ghost pv = split_on(b@, ',');
                let mut i: usize = 0;
                while i < parts.len()
                    invariant
                        i <= parts@.len(),
                        views(parts@) == pv,
                        views(out@) == head + pv.subrange(0, i as int).map_values(
                            |p: Seq<char>| trim(p),
                        ),
                    decreases parts@.len() - i,
                {
                    let piece = trim_text(parts[i].as_str());
                    let ghost prev = out@;
                    out.push(piece);
                    assert(views(out@) =~= views(prev).push(piece@));
                    assert(pv.subrange(0, i + 1).map_values(|p: Seq<char>| trim(p)) =~= pv.subrange(
                        0,
                        i as int,
                    ).map_values(|p: Seq<char>| trim(p)).push(trim(pv[i as int])));
                    assert(views(parts@)[i as int] == parts@[i as int]@);
                    i = i + 1;
                }
                assert(pv.subrange(0, pv.len() as int) =~= pv);
            },
            None => {},
        }
        assert(views(out@) =~= self.inputs());
        out
    }

    /// The choices of the form: each text that reads as a choice, in order.
    pub fn choices(&self) -> (r: Vec<ChoiceParts>)
        ensures
            choice_views(r@) == parsed_choices(self.inputs()),
    {
        let inputs = self.choice_inputs();
        let ghost iv = views(inputs@);
        let mut out: Vec<ChoiceParts> = Vec::new();
        let mut i: usize = 0;
        while i < inputs.len()
            invariant
                i <= inputs@.len(),
                iv == views(inputs@),
                choice_views(out@) == parsed_choices(iv.subrange(0, i as int)),
            decreases inputs@.len() - i,
        {
            let ghost sub = iv.subrange(0, i + 1);
            assert(sub.drop_last() =~= iv.subrange(0, i as int));
            assert(sub.last() == inputs@[i as int]@);
            match parse_choice(inputs[i].as_str()) {
                Some(p) => {
                    let ghost prev = out@;
                    out.push(p);
                    assert(choice_views(out@) =~= choice_views(prev).push(
                        (out@[out@.len() - 1].text@, opt_view(out@[out@.len() - 1].weight_text)),
                    ));
                },
                None => {},
            }
            i = i + 1;
        }
        assert(iv.subrange(0, inputs@.len() as int) =~= iv);
        out
    }
}

/// `s` with every `,` turned into `.`.
pub open spec fn comma_to_point(s: Seq<char>) -> Seq<char> {
    s.map_values(|c: char| if c == ',' { '.' } else { c })
}

/// The text a typed weight is read from as a number: trimmed, with a
/// decimal comma turned into a point (`1,5` reads as `1.5`).
pub fn weight_literal(raw: &str) -> (r: String)
    ensures
        r@ == comma_to_point(trim(raw@)),
{
    let t0 = trim_text(raw);
    decimal_point(t0.as_str())
}

/// `s.replace(',', ".")`.
pub fn decimal_point(s: &str) -> (r: String)
    ensures
        r@ == comma_to_point(s@),
{
    let v = chars_of(s);
    let mut out = String::new();
    let mut i: usize = 0;
    while i < v.len()
        invariant
            i <= v@.len(),
            out@ == comma_to_point(v@.subrange(0, i as int)),
        decreases v@.len() - i,
    {
        let c = v[i];
        if c == ',' {
            push_char(&mut out, '.');
        } else {
            push_char(&mut out, c);
        }
        assert(comma_to_point(v@.subrange(0, i + 1)) =~= comma_to_point(v@.subrange(0, i as int)).push(
            if c == ',' { '.' } else { c },
        ));
        i = i + 1;
    }
    assert(v@.subrange(0, v@.len() as int) =~= v@);
    out
}

} // verus!
