use alterbot::emojis::{hard_no, no, yes};
use alterbot::renderer::{generate_results_chart, voters_for_choice, VoteChoice};

fn bar(filled: usize) -> String {
    format!("[{}{}]", "▓".repeat(filled), "░".repeat(10 - filled))
}

fn chart(bars: [usize; 3], counts: [u64; 3], outcome: &str, total: u64) -> String {
    format!(
        "{} {} | {} votes\n{} {} | {} votes\n{} {} | {} votes (weighted 1,5)\n\n**outcome:**\n{}\n\n*{} votes from {} users*",
        yes().text,
        bar(bars[0]),
        counts[0],
        no().text,
        bar(bars[1]),
        counts[1],
        hard_no().text,
        bar(bars[2]),
        counts[2],
        outcome,
        total,
        total
    )
}

#[test]
fn chart_mixed_votes_fail_on_weighted_no() {
    let votes = vec![
        (1, VoteChoice::Yes),
        (2, VoteChoice::No),
        (3, VoteChoice::Yes),
        (4, VoteChoice::HardNo),
    ];
    let expected = chart([10, 5, 8], [2, 1, 1], "**failed** (yes 2 vs no 2.5)", 4);
    assert_eq!(generate_results_chart(&votes), expected);
}

#[test]
fn chart_without_votes_is_a_tie() {
    let expected = chart([0, 0, 0], [0, 0, 0], "**tie** (score: 0)", 0);
    assert_eq!(generate_results_chart(&[]), expected);
}

#[test]
fn chart_unanimous_yes_passes() {
    let votes = vec![(1, VoteChoice::Yes), (2, VoteChoice::Yes), (3, VoteChoice::Yes)];
    let expected = chart([10, 0, 0], [3, 0, 0], "**passed** (yes 3 vs no 0)", 3);
    assert_eq!(generate_results_chart(&votes), expected);
}

#[test]
fn chart_one_hard_no_outweighs_one_yes() {
    let votes = vec![(1, VoteChoice::HardNo), (2, VoteChoice::Yes)];
    let expected = chart([7, 0, 10], [1, 0, 1], "**failed** (yes 1 vs no 1.5)", 2);
    assert_eq!(generate_results_chart(&votes), expected);
}

#[test]
fn chart_half_point_tie() {
    let votes = vec![
        (1, VoteChoice::Yes),
        (2, VoteChoice::Yes),
        (3, VoteChoice::Yes),
        (4, VoteChoice::HardNo),
        (5, VoteChoice::HardNo),
    ];
    let expected = chart([10, 0, 10], [3, 0, 2], "**tie** (score: 3)", 5);
    assert_eq!(generate_results_chart(&votes), expected);
}

#[test]
fn chart_order_of_ballots_does_not_matter() {
    let a = vec![(1, VoteChoice::No), (2, VoteChoice::Yes), (3, VoteChoice::HardNo)];
    let b = vec![(3, VoteChoice::HardNo), (1, VoteChoice::No), (2, VoteChoice::Yes)];
    assert_eq!(generate_results_chart(&a), generate_results_chart(&b));
}

#[test]
fn chart_odd_no_side_prints_half() {
    // one no and three hard no: no side 1 + 4.5 = 5.5
    let votes = vec![
        (1, VoteChoice::No),
        (2, VoteChoice::HardNo),
        (3, VoteChoice::HardNo),
        (4, VoteChoice::HardNo),
        (5, VoteChoice::Yes),
    ];
    // max score 4.5: yes 1/4.5*10 = 2.2 -> 2, no 2.2 -> 2, hard no 10
    let expected = chart([2, 2, 10], [1, 1, 3], "**failed** (yes 1 vs no 5.5)", 5);
    assert_eq!(generate_results_chart(&votes), expected);
}

#[test]
fn adding_a_yes_keeps_a_pass() {
    let mut votes = vec![(1, VoteChoice::Yes), (2, VoteChoice::Yes), (3, VoteChoice::HardNo)];
    assert!(generate_results_chart(&votes).contains("**passed**"));
    votes.push((4, VoteChoice::Yes));
    assert!(generate_results_chart(&votes).contains("**passed**"));
}

#[test]
fn adding_a_no_keeps_a_failure() {
    let mut votes = vec![(1, VoteChoice::Yes), (2, VoteChoice::HardNo)];
    assert!(generate_results_chart(&votes).contains("**failed**"));
    votes.push((3, VoteChoice::No));
    assert!(generate_results_chart(&votes).contains("**failed**"));
    votes.push((4, VoteChoice::HardNo));
    assert!(generate_results_chart(&votes).contains("**failed**"));
}

#[test]
fn voters_are_grouped_by_choice() {
    let votes = vec![(1, VoteChoice::Yes), (2, VoteChoice::No), (3, VoteChoice::Yes)];
    assert_eq!(voters_for_choice(&votes, VoteChoice::Yes), vec![1, 3]);
    assert_eq!(voters_for_choice(&votes, VoteChoice::No), vec![2]);
    assert!(voters_for_choice(&votes, VoteChoice::HardNo).is_empty());
}
