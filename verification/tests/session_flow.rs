use bills::menu::MainMenu;
use bills::session::{add_bill, get_bill_amount, get_input, run_program};
use bills::store::Bills;

fn lines(input: &[&str]) -> Vec<String> {
    input.iter().map(|s| s.to_string()).collect()
}

fn menu_block() -> Vec<String> {
    lines(&[
        "",
        "== Bill Manager ==",
        "1. Add Bill",
        "2. View Bills",
        "3. Remove Bill",
        "4. Update Bill",
        "",
        "Enter selection: ",
    ])
}

#[test]
fn menu_tokens_select_the_four_actions() {
    assert!(matches!(MainMenu::from_str("1"), Some(MainMenu::AddBill)));
    assert!(matches!(MainMenu::from_str("2"), Some(MainMenu::ViewBill)));
    assert!(matches!(MainMenu::from_str("3"), Some(MainMenu::RemoveBill)));
    assert!(matches!(MainMenu::from_str("4"), Some(MainMenu::UpdateBill)));
    assert!(MainMenu::from_str("5").is_none());
    assert!(MainMenu::from_str("9").is_none());
    assert!(MainMenu::from_str("").is_none());
    assert!(MainMenu::from_str("11").is_none());
    assert!(MainMenu::from_str("add").is_none());
}

#[test]
fn end_to_end_add_then_view_then_exit() {
    let input = lines(&["1\n", "rent\n", "1200\n", "2\n", "\n"]);
    let out = run_program(&input);
    let mut expected: Vec<String> = menu_block();
    expected.push("Bill name:".to_string());
    expected.push("Amount:".to_string());
    expected.extend(menu_block());
    expected.push("name:\"rent\", amount:1200".to_string());
    expected.extend(menu_block());
    assert_eq!(out, expected);
    assert!(out
        .iter()
        .any(|l| l.contains("rent") && l.contains("1200")));
}

#[test]
fn unknown_token_exits_like_a_blank_line() {
    let by_token = run_program(&lines(&["9\n"]));
    let by_blank = run_program(&lines(&["\n"]));
    let by_eof = run_program(&lines(&[]));
    assert_eq!(by_token, by_blank);
    assert_eq!(by_token, by_eof);
    assert_eq!(by_token, menu_block());
    assert!(!by_token.iter().any(|l| l.contains("Fail")));
    assert!(!by_token.iter().any(|l| l.contains("Success")));
    assert!(!by_token.iter().any(|l| l.contains("name:")));
}

#[test]
fn abandoning_add_at_the_name_prompt_changes_nothing() {
    let input = lines(&["1\n", "rent\n", "1200\n"]);
    let mut store = Bills::new();
    let mut cursor: usize = 0;
    let mut out: Vec<String> = Vec::new();
    // drive one add to fill the store
    let tok = get_input(&input, &mut cursor).unwrap();
    assert_eq!(tok, "1");
    add_bill(&mut store, &input, &mut cursor, &mut out);
    let before: Vec<String> = store.get_all().iter().map(|b| b.line()).collect();
    // an empty line at the name prompt abandons the action
    let empty = lines(&["\n"]);
    let mut cursor2: usize = 0;
    add_bill(&mut store, &empty, &mut cursor2, &mut out);
    let after: Vec<String> = store.get_all().iter().map(|b| b.line()).collect();
    assert_eq!(before, after);
}

#[test]
fn malformed_amounts_retry_and_then_accept() {
    let input = lines(&["abc\n", "1.2.3\n", "1200\n"]);
    let mut cursor: usize = 0;
    let mut out: Vec<String> = Vec::new();
    let got = get_bill_amount(&input, &mut cursor, &mut out);
    assert_eq!(got.as_deref(), Some("1200"));
    assert_eq!(out, vec!["Amount:", "Error", "Error"]);
    assert_eq!(cursor, 3);
}

#[test]
fn empty_line_at_the_amount_prompt_abandons() {
    let input = lines(&["abc\n", "\n", "1200\n"]);
    let mut cursor: usize = 0;
    let mut out: Vec<String> = Vec::new();
    let got = get_bill_amount(&input, &mut cursor, &mut out);
    assert!(got.is_none());
    assert_eq!(out, vec!["Amount:", "Error"]);
    assert_eq!(cursor, 2);
}

#[test]
fn remove_and_update_report_success_and_failure() {
    let input = lines(&[
        "1\n", "rent\n", "1200\n", // add rent
        "3\n", "water\n", // remove a missing name
        "4\n", "rent\n", "1300\n", // update rent
        "2\n", // view
        "3\n", "rent\n", // remove rent
        "3\n", "rent\n", // remove it again
        "\n",
    ]);
    let out = run_program(&input);
    let fails = out.iter().filter(|l| l.as_str() == "Fail").count();
    let successes = out.iter().filter(|l| l.as_str() == "Success").count();
    assert_eq!(fails, 2);
    assert_eq!(successes, 2);
    assert!(out.iter().any(|l| l.as_str() == "name:\"rent\", amount:1300"));
}

#[test]
fn update_reads_the_amount_before_reporting_a_miss() {
    let input = lines(&["4\n", "gone\n", "77\n", "\n"]);
    let out = run_program(&input);
    assert!(out.iter().any(|l| l.as_str() == "Fail"));
    assert!(!out.iter().any(|l| l.as_str() == "Success"));
}
