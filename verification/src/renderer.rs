//! The results chart of a yes / no / hard-no poll: one bar per choice, a
//! weighted outcome (a hard no counts one and a half) and the vote total.
//!
//! Every score is a multiple of one half, so the chart is computed exactly
//! in half points.

use vstd::prelude::*;
use crate::emojis;
use crate::text::{decimal, push_char, write_decimal};

verus! {

/// A ballot in a yes / no / hard-no poll.
#[derive(Clone, Copy, PartialEq, Eq, Structural, Debug)]
pub enum VoteChoice {
    Yes,
    No,
    HardNo,
}

/// How many ballots of `votes` chose `choice`.
pub open spec fn count_choice(votes: Seq<(i64, VoteChoice)>, choice: VoteChoice) -> nat
    decreases votes.len(),
{
    if votes.len() == 0 {
        0
    } else {
        count_choice(votes.drop_last(), choice) + if votes.last().1 == choice {
            1nat
        } else {
            0nat
        }
    }
}

/// A score given in half points, written as Rust prints the `f64` it stands
/// for: `3` for three, `3.5` for three and a half.
pub open spec fn half_points_text(h: nat) -> Seq<char> {
    if h % 2 == 0 {
        decimal(h / 2)
    } else {
        decimal(h / 2) + ".5"@
    }
}

/// Number of filled cells of a ten-cell bar for `score` against the largest
/// score `max` (both in half points): ten times their ratio, rounded half away
/// from zero.
pub open spec fn filled_cells(score: nat, max: nat) -> nat {
    (20 * score + max) / (2 * max)
}

/// `n` copies of `c`.
pub open spec fn repeat(c: char, n: nat) -> Seq<char> {
    Seq::new(n, |_i: int| c)
}

/// A ten-cell bar with `filled` dark cells.
pub open spec fn bar(filled: nat) -> Seq<char> {
    "["@ + repeat('▓', filled) + repeat('░', (10 - filled) as nat) + "]"@
}

pub open spec fn max_nat(a: nat, b: nat) -> nat {
    if a >= b {
        a
    } else {
        b
    }
}

/// The largest of the three bar scores, at least one point (two half points).
pub open spec fn chart_max(y: nat, n: nat, h: nat) -> nat {
    max_nat(max_nat(max_nat(2 * y, 2 * n), 3 * h), 2)
}

/// Weighted total of the "no" side in half points: a no counts one point, a
/// hard no one and a half.
pub open spec fn no_side(n: nat, h: nat) -> nat {
    2 * n + 3 * h
}

/// The outcome line: passed when the yes side outweighs the no side,
/// failed when the no side outweighs it, a tie otherwise.
/// Whether the poll passes: the yes side outweighs the no side.
pub open spec fn passes(y: nat, n: nat, h: nat) -> bool {
    2 * y > no_side(n, h)
}

/// Whether the poll fails: the no side outweighs the yes side.
pub open spec fn fails(y: nat, n: nat, h: nat) -> bool {
    no_side(n, h) > 2 * y
}

pub open spec fn outcome_text(y: nat, n: nat, h: nat) -> Seq<char> {
    let yes = 2 * y;
    let no = no_side(n, h);
    if passes(y, n, h) {
        "**passed** (yes "@ + half_points_text(yes) + " vs no "@ + half_points_text(no) + ")"@
    } else if fails(y, n, h) {
        "**failed** (yes "@ + half_points_text(yes) + " vs no "@ + half_points_text(no) + ")"@
    } else {
        "**tie** (score: "@ + half_points_text(yes) + ")"@
    }
}

/// The full chart for `y` yes, `n` no and `h` hard-no ballots.
pub open spec fn chart_text(y: nat, n: nat, h: nat) -> Seq<char> {
    let m = chart_max(y, n, h);
    let t = y + n + h;
    emojis::yes_markup() + " "@ + bar(filled_cells(2 * y, m)) + " | "@ + decimal(y) + " votes\n"@
        + emojis::no_markup() + " "@ + bar(filled_cells(2 * n, m)) + " | "@ + decimal(n)
        + " votes\n"@ + emojis::hard_no_markup() + " "@ + bar(filled_cells(3 * h, m)) + " | "@
        + decimal(h) + " votes (weighted 1,5)\n\n**outcome:**\n"@ + outcome_text(y, n, h)
        + "\n\n*"@ + decimal(t) + " votes from "@ + decimal(t) + " users*"@
}

/// Every ballot is counted once, under its own choice.
pub proof fn lemma_counts_cover_ballots(votes: Seq<(i64, VoteChoice)>)
    ensures
        count_choice(votes, VoteChoice::Yes) + count_choice(votes, VoteChoice::No) + count_choice(
            votes,
            VoteChoice::HardNo,
        ) == votes.len(),
    decreases votes.len(),
{
    if votes.len() > 0 {
        lemma_counts_cover_ballots(votes.drop_last());
    }
}

/// The bars of a chart: none has more than ten cells, a choice nobody took
/// has an empty bar, and the choice with the largest score, when it has any
/// ballot, has a full bar.
pub proof fn lemma_chart_bars(y: nat, n: nat, h: nat)
    ensures
        filled_cells(2 * y, chart_max(y, n, h)) <= 10,
        filled_cells(2 * n, chart_max(y, n, h)) <= 10,
        filled_cells(3 * h, chart_max(y, n, h)) <= 10,
        y == 0 ==> filled_cells(2 * y, chart_max(y, n, h)) == 0,
        n == 0 ==> filled_cells(2 * n, chart_max(y, n, h)) == 0,
        h == 0 ==> filled_cells(3 * h, chart_max(y, n, h)) == 0,
        y > 0 && 2 * y == chart_max(y, n, h) ==> filled_cells(2 * y, chart_max(y, n, h)) == 10,
        n > 0 && 2 * n == chart_max(y, n, h) ==> filled_cells(2 * n, chart_max(y, n, h)) == 10,
        h > 0 && 3 * h == chart_max(y, n, h) ==> filled_cells(3 * h, chart_max(y, n, h)) == 10,
{
    let m = chart_max(y, n, h);
    assert(m >= 2);
    assert forall|score: nat| score <= m implies #[trigger] filled_cells(score, m) <= 10 by {
        assert((20 * score + m) / (2 * m) <= 10) by (nonlinear_arith)
            requires
                score <= m,
                m >= 2,
        ;
    }
    assert(filled_cells(0, m) == 0) by {
        assert((20 * 0 + m) / (2 * m) == 0) by (nonlinear_arith)
            requires
                m >= 2,
        ;
    }
    assert(filled_cells(m, m) == 10) by {
        assert((20 * m + m) / (2 * m) == 10) by (nonlinear_arith)
            requires
                m >= 2,
        ;
    }
}

/// The voters who chose `choice`, in ballot order.
pub open spec fn voters_choosing(votes: Seq<(i64, VoteChoice)>, choice: VoteChoice) -> Seq<i64>
    decreases votes.len(),
{
    if votes.len() == 0 {
        Seq::<i64>::empty()
    } else {
        let rest = voters_choosing(votes.drop_last(), choice);
        if votes.last().1 == choice {
            rest.push(votes.last().0)
        } else {
            rest
        }
    }
}

/// The voters of one choice of a yes / no / hard-no poll, for its audit log.
pub fn voters_for_choice(votes: &[(i64, VoteChoice)], choice: VoteChoice) -> (r: Vec<i64>)
    ensures
        r@ == voters_choosing(votes@, choice),
{
    let mut out: Vec<i64> = Vec::new();
    let mut i: usize = 0;
    while i < votes.len()
        invariant
            i <= votes@.len(),
            out@ == voters_choosing(votes@.subrange(0, i as int), choice),
        decreases votes@.len() - i,
    {
        assert(votes@.subrange(0, i + 1).drop_last() =~= votes@.subrange(0, i as int));
        if votes[i].1 == choice {
            out.push(votes[i].0);
        }
        i = i + 1;
    }
    assert(votes@.subrange(0, votes@.len() as int) =~= votes@);
    out
}

/// The choices of the ballots, in ballot order.
pub open spec fn choices_of(votes: Seq<(i64, VoteChoice)>) -> Seq<VoteChoice> {
    votes.map_values(|e: (i64, VoteChoice)| e.1)
}

proof fn lemma_count_is_multiplicity(votes: Seq<(i64, VoteChoice)>, c: VoteChoice)
    ensures
        count_choice(votes, c) == choices_of(votes).to_multiset().count(c),
    decreases votes.len(),
{
    broadcast use vstd::multiset::group_multiset_axioms;
    broadcast use vstd::seq_lib::group_to_multiset_ensures;

    if votes.len() == 0 {
        assert(choices_of(votes) =~= Seq::<VoteChoice>::empty());
        assert(choices_of(votes).to_multiset() =~= vstd::multiset::Multiset::<VoteChoice>::empty());
    } else {
        let prev = votes.drop_last();
        lemma_count_is_multiplicity(prev, c);
        assert(choices_of(votes) =~= choices_of(prev).push(votes.last().1));
        vstd::seq_lib::to_multiset_build(choices_of(prev), votes.last().1);
    }
}

/// The chart does not depend on who voted or in which order: ballots with
/// the same choices, each as often, give the same counts and the same chart.
pub proof fn lemma_chart_ignores_order(v1: Seq<(i64, VoteChoice)>, v2: Seq<(i64, VoteChoice)>)
    requires
        choices_of(v1).to_multiset() == choices_of(v2).to_multiset(),
    ensures
        count_choice(v1, VoteChoice::Yes) == count_choice(v2, VoteChoice::Yes),
        count_choice(v1, VoteChoice::No) == count_choice(v2, VoteChoice::No),
        count_choice(v1, VoteChoice::HardNo) == count_choice(v2, VoteChoice::HardNo),
        chart_text(
            count_choice(v1, VoteChoice::Yes),
            count_choice(v1, VoteChoice::No),
            count_choice(v1, VoteChoice::HardNo),
        ) == chart_text(
            count_choice(v2, VoteChoice::Yes),
            count_choice(v2, VoteChoice::No),
            count_choice(v2, VoteChoice::HardNo),
        ),
{
    lemma_count_is_multiplicity(v1, VoteChoice::Yes);
    lemma_count_is_multiplicity(v2, VoteChoice::Yes);
    lemma_count_is_multiplicity(v1, VoteChoice::No);
    lemma_count_is_multiplicity(v2, VoteChoice::No);
    lemma_count_is_multiplicity(v1, VoteChoice::HardNo);
    lemma_count_is_multiplicity(v2, VoteChoice::HardNo);
}

/// One more ballot counts once, under its own choice.
proof fn lemma_count_push(votes: Seq<(i64, VoteChoice)>, b: (i64, VoteChoice), c: VoteChoice)
    ensures
        count_choice(votes.push(b), c) == count_choice(votes, c) + if b.1 == c {
            1nat
        } else {
            0nat
        },
{
    assert(votes.push(b).drop_last() =~= votes);
}

/// A passed poll stays passed when a yes is added; a failed poll stays
/// failed when a no or a hard no is added.
pub proof fn lemma_outcome_monotone(votes: Seq<(i64, VoteChoice)>, u: i64)
    ensures
        passes(
            count_choice(votes, VoteChoice::Yes),
            count_choice(votes, VoteChoice::No),
            count_choice(votes, VoteChoice::HardNo),
        ) ==> passes(
            count_choice(votes.push((u, VoteChoice::Yes)), VoteChoice::Yes),
            count_choice(votes.push((u, VoteChoice::Yes)), VoteChoice::No),
            count_choice(votes.push((u, VoteChoice::Yes)), VoteChoice::HardNo),
        ),
        fails(
            count_choice(votes, VoteChoice::Yes),
            count_choice(votes, VoteChoice::No),
            count_choice(votes, VoteChoice::HardNo),
        ) ==> fails(
            count_choice(votes.push((u, VoteChoice::No)), VoteChoice::Yes),
            count_choice(votes.push((u, VoteChoice::No)), VoteChoice::No),
            count_choice(votes.push((u, VoteChoice::No)), VoteChoice::HardNo),
        ),
        fails(
            count_choice(votes, VoteChoice::Yes),
            count_choice(votes, VoteChoice::No),
            count_choice(votes, VoteChoice::HardNo),
        ) ==> fails(
            count_choice(votes.push((u, VoteChoice::HardNo)), VoteChoice::Yes),
            count_choice(votes.push((u, VoteChoice::HardNo)), VoteChoice::No),
            count_choice(votes.push((u, VoteChoice::HardNo)), VoteChoice::HardNo),
        ),
{
    let y = VoteChoice::Yes;
    let n = VoteChoice::No;
    let h = VoteChoice::HardNo;
    lemma_count_push(votes, (u, y), y);
    lemma_count_push(votes, (u, y), n);
    lemma_count_push(votes, (u, y), h);
    lemma_count_push(votes, (u, n), y);
    lemma_count_push(votes, (u, n), n);
    lemma_count_push(votes, (u, n), h);
    lemma_count_push(votes, (u, h), y);
    lemma_count_push(votes, (u, h), n);
    lemma_count_push(votes, (u, h), h);
}

/// Appends `n` copies of `c`.
fn push_repeat(s: &mut String, c: char, n: u64)
    ensures
        final(s)@ == old(s)@ + repeat(c, n as nat),
{
    let mut i: u64 = 0;
    while i < n
        invariant
            i <= n,
            s@ == old(s)@ + repeat(c, i as nat),
        decreases n - i,
    {
        push_char(s, c);
        assert(repeat(c, (i + 1) as nat) =~= repeat(c, i as nat).push(c));
        i = i + 1;
    }
}

/// Appends a ten-cell bar for `score` against `max` (half points).
fn push_bar(s: &mut String, score: u64, max: u64)
    requires
        2 <= max,
        score <= max,
        max <= 0x1_0000_0000_0000,
    ensures
        final(s)@ == old(s)@ + bar(filled_cells(score as nat, max as nat)),
        filled_cells(score as nat, max as nat) <= 10,
{
    let filled: u64 = (20 * score + max) / (2 * max);
    assert(filled <= 10) by (nonlinear_arith)
        requires
            filled == (20 * score + max) / (2 * max),
            score <= max,
            2 <= max,
    ;
    s.append("[");
    push_repeat(s, '▓', filled);
    push_repeat(s, '░', 10 - filled);
    s.append("]");
}

/// Appends a score given in half points.
fn push_half_points(s: &mut String, h: u64)
    ensures
        final(s)@ == old(s)@ + half_points_text(h as nat),
{
    write_decimal(s, h / 2);
    if h % 2 == 1 {
        s.append(".5");
    }
}

/// The results chart of a yes / no / hard-no poll, from its ballots (voter
/// id and choice).
#[verifier::rlimit(40)]
pub fn generate_results_chart(votes: &[(i64, VoteChoice)]) -> (r: String)
    requires
        votes@.len() <= i32::MAX,
    ensures
        r@ == chart_text(
            count_choice(votes@, VoteChoice::Yes),
            count_choice(votes@, VoteChoice::No),
            count_choice(votes@, VoteChoice::HardNo),
        ),
{
    let mut y: u64 = 0;
    let mut n: u64 = 0;
    let mut h: u64 = 0;
    let mut i: usize = 0;
    while i < votes.len()
        invariant
            i <= votes@.len() <= i32::MAX,
            y == count_choice(votes@.subrange(0, i as int), VoteChoice::Yes),
            n == count_choice(votes@.subrange(0, i as int), VoteChoice::No),
            h == count_choice(votes@.subrange(0, i as int), VoteChoice::HardNo),
            y + n + h == i,
        decreases votes@.len() - i,
    {
        assert(votes@.subrange(0, i + 1).drop_last() =~= votes@.subrange(0, i as int));
        match votes[i].1 {
            VoteChoice::Yes => y = y + 1,
            VoteChoice::No => n = n + 1,
            VoteChoice::HardNo => h = h + 1,
        }
        i = i + 1;
    }
    assert(votes@.subrange(0, votes@.len() as int) =~= votes@);
    let mut m: u64 = 2;
    if 2 * y > m {
        m = 2 * y;
    }
    if 2 * n > m {
        m = 2 * n;
    }
    if 3 * h > m {
        m = 3 * h;
    }
    assert(m == chart_max(y as nat, n as nat, h as nat));
    let total = y + n + h;
    let mut s = String::new();
    let e_yes = emojis::yes();
    let e_no = emojis::no();
    let e_hard = emojis::hard_no();
    s.append(e_yes.text);
    s.append(" ");
    push_bar(&mut s, 2 * y, m);
    s.append(" | ");
    write_decimal(&mut s, y);
    s.append(" votes\n");
    s.append(e_no.text);
    s.append(" ");
    push_bar(&mut s, 2 * n, m);
    s.append(" | ");
    write_decimal(&mut s, n);
    s.append(" votes\n");
    s.append(e_hard.text);
    s.append(" ");
    push_bar(&mut s, 3 * h, m);
    s.append(" | ");
    write_decimal(&mut s, h);
    s.append(" votes (weighted 1,5)\n\n**outcome:**\n");
    let ghost before_outcome = s@;
    let yes_side = 2 * y;
    let no_total = 2 * n + 3 * h;
    if yes_side > no_total {
        s.append("**passed** (yes ");
        push_half_points(&mut s, yes_side);
        s.append(" vs no ");
        push_half_points(&mut s, no_total);
        s.append(")");
    } else if no_total > yes_side {
        s.append("**failed** (yes ");
        push_half_points(&mut s, yes_side);
        s.append(" vs no ");
        push_half_points(&mut s, no_total);
        s.append(")");
    } else {
        s.append("**tie** (score: ");
        push_half_points(&mut s, yes_side);
        s.append(")");
    }
    assert(s@ =~= before_outcome + outcome_text(y as nat, n as nat, h as nat));
    s.append("\n\n*");
    write_decimal(&mut s, total);
    s.append(" votes from ");
    write_decimal(&mut s, total);
    s.append(" users*");
    assert(s@ =~= chart_text(y as nat, n as nat, h as nat));
    s
}

} // verus!
