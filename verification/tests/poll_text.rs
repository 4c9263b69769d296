use alterbot::emojis::{hard_no, no, yes};
use alterbot::polls::{
    audit_log_raw, button_emoji, button_rows, closed_poll_description_text, decimal_point, group_voters,
    live_status_description_text, live_status_title, open_poll_description_text, parse_choice,
    plan_error_text, plan_poll_options, poll_closed_title, truncate_audit_log, voters_footer,
    voters_for, weight_literal, yes_no_poll_description_text, yes_no_results_description_text,
    NewPollModal, PollPlanError,
};

fn strings(v: &[&str]) -> Vec<String> {
    v.iter().map(|s| s.to_string()).collect()
}

#[test]
fn open_poll_description_lists_choices() {
    let d = open_poll_description_text("Lunch", 1700000000, &strings(&["Pizza", "Tacos"]), Some(42));
    assert_eq!(
        d,
        "### Lunch\n\n### **choices**\n🇦 **Pizza**\n🇧 **Tacos**\n\n### **required role**\n<@&42>\n\nplease cast your vote below.\nthis poll ends <t:1700000000:R>."
    );
}

#[test]
fn open_poll_description_without_role() {
    let d = open_poll_description_text("T", -5, &strings(&["x"]), None);
    assert_eq!(d, "### T\n\n### **choices**\n🇦 **x**\n\nplease cast your vote below.\nthis poll ends <t:-5:R>.");
}

#[test]
fn closed_poll_description_shows_result() {
    let d = closed_poll_description_text("Lunch", &strings(&["Pizza", "Tacos", "Soup"]), None, "CHART");
    assert_eq!(d, "### Lunch\n\n### **choices**\n🇦 Pizza\n🇧 Tacos\n🇨 Soup\n\n### **result**\nCHART");
}

#[test]
fn footer_counts_voters() {
    assert_eq!(voters_footer(3), "current voters: 3");
}

#[test]
fn votes_are_grouped_by_option() {
    let votes = vec![(1u128, 10i64), (2, 20), (1, 30)];
    assert_eq!(voters_for(&votes, 1), vec![10, 30]);
    assert_eq!(group_voters(&vec![2, 1, 3], &votes), vec![vec![20], vec![10, 30], vec![]]);
}

#[test]
fn live_status_lists_voters() {
    let options = vec![
        ("Pizza".to_string(), strings(&["ann", "bob"])),
        ("Tacos".to_string(), Vec::new()),
    ];
    let d = live_status_description_text("C", &options, Some(9));
    assert_eq!(
        d,
        "### live results\nC\n\n### **voter breakdown**\n🇦 **Pizza**\n- ann\n- bob\n\n🇧 **Tacos**\nnobody yet\n\n### **required role**\n<@&9>"
    );
    assert_eq!(live_status_title("Lunch"), "live status: Lunch");
}

#[test]
fn audit_log_lists_who_voted() {
    let options = vec![
        ("Pizza".to_string(), strings(&["ann"])),
        ("Tacos".to_string(), Vec::new()),
    ];
    assert_eq!(
        audit_log_raw("Lunch", &options),
        "**poll closed: Lunch**\n*the following votes were cast:*\n```text\nPizza\n----\nann\n\nTacos\n----\nno one voted for this\n```"
    );
}

#[test]
fn short_audit_log_is_kept() {
    let s = "a".repeat(1950);
    assert_eq!(truncate_audit_log(s.clone()), s);
}

#[test]
fn long_audit_log_is_cut() {
    let s = "a".repeat(2000);
    let cut = truncate_audit_log(s);
    assert_eq!(cut, format!("{}\n... [truncated due to discord message limit]\n```", "a".repeat(1900)));
    assert!(cut.len() <= 1950);
}

#[test]
fn cut_keeps_whole_characters() {
    // byte 1900 falls inside an "é": the cut stops before that character
    let s = format!("a{}", "é".repeat(1000));
    let cut = truncate_audit_log(s);
    assert_eq!(cut, format!("a{}\n... [truncated due to discord message limit]\n```", "é".repeat(949)));
    assert!(cut.len() <= 1950);
}

#[test]
fn yes_no_poll_texts() {
    assert_eq!(
        yes_no_poll_description_text("Q", 12),
        format!(
            "### Q\n\n### **choices**\n{} yes\n{} no\n{} hard no\n\nplease cast your vote below.\nthis poll ends <t:12:R>.",
            yes().text,
            no().text,
            hard_no().text
        )
    );
    assert_eq!(
        yes_no_results_description_text("Q", "C"),
        format!(
            "### Q\n\n### **choices**\n{} yes\n{} no\n{} hard no\n\n### **result**\nC",
            yes().text,
            no().text,
            hard_no().text
        )
    );
    assert_eq!(poll_closed_title("Q"), "poll closed: Q");
}

#[test]
fn plan_keeps_non_blank_choices_with_positions() {
    let plan = plan_poll_options(&strings(&[" Pizza ", "  ", "Tacos"])).unwrap();
    assert_eq!(plan, vec![(0, "Pizza".to_string()), (2, "Tacos".to_string())]);
}

#[test]
fn plan_of_blank_choices_fails() {
    assert_eq!(plan_poll_options(&strings(&["", " "])), Err(PollPlanError::NoValidOptions));
    assert_eq!(plan_error_text(PollPlanError::NoValidOptions), "a poll must have at least one valid option");
}

#[test]
fn choices_split_at_last_colon() {
    let p = parse_choice("  Pizza : 1,5 ").unwrap();
    assert_eq!(p.text, "Pizza");
    assert_eq!(p.weight_text, Some(" 1,5".to_string()));
    let q = parse_choice("a:b:2").unwrap();
    assert_eq!(q.text, "a:b");
    assert_eq!(q.weight_text, Some("2".to_string()));
    let u = parse_choice("time: 10:30 : 1,5").unwrap();
    assert_eq!(u.text, "time: 10:30");
    assert_eq!(u.weight_text, Some(" 1,5".to_string()));
    let t = parse_choice("Tacos").unwrap();
    assert_eq!(t.text, "Tacos");
    assert_eq!(t.weight_text, None);
    assert!(parse_choice("   ").is_none());
    assert!(parse_choice(" : 2").is_none());
}

#[test]
fn weight_text_uses_decimal_point() {
    assert_eq!(weight_literal(" 1,5 "), "1.5");
    assert_eq!(decimal_point("1,2,3"), "1.2.3");
}

#[test]
fn form_choices_in_order() {
    let form = NewPollModal {
        title: "Lunch".to_string(),
        opt_1: "Yes : 1.0".to_string(),
        opt_2: "No".to_string(),
        opt_3: None,
        opt_bulk: Some("Maybe:1, Pizza:1,  ,Tacos".to_string()),
    };
    assert_eq!(form.choice_inputs(), strings(&["Yes : 1.0", "No", "Maybe:1", "Pizza:1", "", "Tacos"]));
    let got: Vec<(String, Option<String>)> =
        form.choices().into_iter().map(|c| (c.text, c.weight_text)).collect();
    assert_eq!(
        got,
        vec![
            ("Yes".to_string(), Some(" 1.0".to_string())),
            ("No".to_string(), None),
            ("Maybe".to_string(), Some("1".to_string())),
            ("Pizza".to_string(), Some("1".to_string())),
            ("Tacos".to_string(), None),
        ]
    );
}

#[test]
fn form_third_option_counts() {
    let form = NewPollModal {
        title: "T".to_string(),
        opt_1: "a".to_string(),
        opt_2: "b".to_string(),
        opt_3: Some("c".to_string()),
        opt_bulk: None,
    };
    assert_eq!(form.choice_inputs(), strings(&["a", "b", "c"]));
}

#[test]
fn button_emojis_are_regional_letters() {
    assert_eq!(button_emoji(0), Some('🇦'));
    assert_eq!(button_emoji(2), Some('🇨'));
    assert_eq!(button_emoji(0x10FFFF - 0x1F1E6 + 1), None);
}

#[test]
fn buttons_go_in_rows_of_five() {
    assert_eq!(button_rows(0), vec![]);
    assert_eq!(button_rows(5), vec![(0, 5)]);
    assert_eq!(button_rows(7), vec![(0, 5), (5, 7)]);
    assert_eq!(button_rows(10), vec![(0, 5), (5, 10)]);
}

#[test]
fn stored_role_ids_are_written_signed() {
    let d = closed_poll_description_text("T", &strings(&["x"]), Some(-7), "C");
    assert_eq!(d, "### T\n\n### **choices**\n🇦 x\n\n### **required role**\n<@&-7>\n\n### **result**\nC");
    let options = vec![("x".to_string(), Vec::new())];
    assert_eq!(
        live_status_description_text("C", &options, Some(-7)),
        "### live results\nC\n\n### **voter breakdown**\n🇦 **x**\nnobody yet\n\n### **required role**\n<@&-7>"
    );
}
