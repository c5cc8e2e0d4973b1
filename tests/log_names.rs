use http_log_helper::collect::{collect_test_contents, matches_test};
use http_log_helper::extract::extract_test_name;
use http_log_helper::render::{render_saved, render_shown};
use http_log_helper::tally::{classify, list_report, tally_test_names, NameKind, TestRow};
use http_log_helper::text::{is_text_less, same_text};

fn names(list: &[&str]) -> Vec<String> {
    list.iter().map(|s| s.to_string()).collect()
}

fn files(list: &[(&str, &str)]) -> Vec<(String, String)> {
    list.iter().map(|(n, c)| (n.to_string(), c.to_string())).collect()
}

fn row_count(rows: &[TestRow], name: &str) -> Option<usize> {
    rows.iter().find(|r| r.test_name == name).map(|r| r.found_count)
}

#[test]
fn no_underscore_gives_nothing() {
    assert_eq!(extract_test_name("request.log"), None);
    assert_eq!(extract_test_name(""), None);
    assert_eq!(extract_test_name("abc"), None);
}

#[test]
fn one_underscore_gives_nothing() {
    assert_eq!(extract_test_name("req_login.log"), None);
    assert_eq!(extract_test_name("_"), None);
    assert_eq!(extract_test_name("login_"), None);
}

#[test]
fn name_between_two_underscores() {
    assert_eq!(extract_test_name("req_login_001.log"), Some("login"));
}

#[test]
fn name_between_first_and_last_underscore() {
    assert_eq!(extract_test_name("a_b_c_d.log"), Some("b_c"));
}

#[test]
fn adjacent_underscores_give_empty_name() {
    assert_eq!(extract_test_name("a__b.log"), Some(""));
    assert_eq!(extract_test_name("__"), Some(""));
}

#[test]
fn leading_and_trailing_underscores() {
    assert_eq!(extract_test_name("_x_"), Some("x"));
    assert_eq!(extract_test_name("_login_.log"), Some("login"));
}

#[test]
fn name_with_wide_characters() {
    assert_eq!(extract_test_name("é_ünï_ß.log"), Some("ünï"));
}

#[test]
fn classify_sorts_names() {
    assert!(matches!(classify("x_alpha_1.log"), NameKind::Listed("alpha")));
    assert!(matches!(classify("w_no-test_1.log"), NameKind::Excluded));
    assert!(matches!(classify("plain.log"), NameKind::Unnamed));
}

#[test]
fn tally_counts_and_skips_no_test() {
    let input = names(&["x_alpha_1.log", "y_alpha_2.log", "z_beta_1.log", "w_no-test_1.log"]);
    let rows = tally_test_names(&input);
    assert_eq!(rows.len(), 2);
    assert_eq!(row_count(&rows, "alpha"), Some(2));
    assert_eq!(row_count(&rows, "beta"), Some(1));
    assert_eq!(row_count(&rows, "no-test"), None);
}

#[test]
fn tally_counts_empty_name() {
    let input = names(&["a__b.log", "c__d.log", "e_f.log"]);
    let rows = tally_test_names(&input);
    assert_eq!(rows.len(), 1);
    assert_eq!(row_count(&rows, ""), Some(2));
}

#[test]
fn tally_skips_unnamed_files() {
    let input = names(&["readme.md", "one_two.log", "a_b_c.log"]);
    let rows = tally_test_names(&input);
    assert_eq!(rows.len(), 1);
    assert_eq!(row_count(&rows, "b"), Some(1));
}

#[test]
fn report_total_is_row_count() {
    let input = names(&["x_alpha_1.log", "y_alpha_2.log", "z_beta_1.log", "w_no-test_1.log"]);
    let report = list_report(&input);
    assert_eq!(report.total, 2);
    assert_eq!(report.total, report.rows.len());
}

#[test]
fn report_json_round_trip() {
    let input = names(&["x_alpha_1.log", "y_alpha_2.log", "z_beta_1.log"]);
    let report = list_report(&input);
    let mut rows = Vec::new();
    for row in &report.rows {
        let mut obj = serde_json::Map::new();
        obj.insert("test_name".to_string(), serde_json::Value::from(row.test_name.clone()));
        obj.insert("found_count".to_string(), serde_json::Value::from(row.found_count));
        rows.push(serde_json::Value::Object(obj));
    }
    let mut top = serde_json::Map::new();
    top.insert("rows".to_string(), serde_json::Value::Array(rows));
    top.insert("total".to_string(), serde_json::Value::from(report.total));
    let text = serde_json::to_string_pretty(&serde_json::Value::Object(top)).unwrap();
    let back: serde_json::Value = serde_json::from_str(&text).unwrap();
    let total = back["total"].as_u64().unwrap();
    let len = back["rows"].as_array().unwrap().len() as u64;
    assert_eq!(total, len);
    assert_eq!(total, 2);
}

#[test]
fn tally_twice_is_the_same() {
    let input = names(&["x_alpha_1.log", "y_alpha_2.log", "z_beta_1.log", "q_gamma_1.log"]);
    let first = tally_test_names(&input);
    let second = tally_test_names(&input);
    assert_eq!(first.len(), second.len());
    for (a, b) in first.iter().zip(second.iter()) {
        assert_eq!(a.test_name, b.test_name);
        assert_eq!(a.found_count, b.found_count);
    }
}

#[test]
fn tally_ignores_order_of_discovery() {
    let input = names(&["x_alpha_1.log", "y_alpha_2.log", "z_beta_1.log", "q_gamma_1.log"]);
    let reordered = names(&["q_gamma_1.log", "z_beta_1.log", "y_alpha_2.log", "x_alpha_1.log"]);
    let first = tally_test_names(&input);
    let second = tally_test_names(&reordered);
    assert_eq!(first.len(), second.len());
    for row in &first {
        assert_eq!(row_count(&second, &row.test_name), Some(row.found_count));
    }
}

#[test]
fn empty_tree_gives_nothing() {
    let report = list_report(&Vec::new());
    assert_eq!(report.total, 0);
    assert!(report.rows.is_empty());
    let entries = collect_test_contents(&Vec::new(), "alpha");
    assert!(entries.is_empty());
    assert_eq!(render_saved(&entries), "");
    assert_eq!(render_shown(&entries), "");
}

#[test]
fn collect_gathers_matching_files_by_name() {
    let input = files(&[
        ("y_alpha_2.log", "second"),
        ("z_beta_1.log", "beta"),
        ("w_no-test_1.log", "none"),
        ("x_alpha_1.log", "first"),
    ]);
    let entries = collect_test_contents(&input, "alpha");
    assert_eq!(
        entries,
        files(&[("x_alpha_1.log", "first"), ("y_alpha_2.log", "second")])
    );
}

#[test]
fn collect_matches_exactly() {
    let input = files(&[("a_Alpha_1.log", "upper"), ("b_alphabet_1.log", "longer"), ("c_alpha_1.log", "hit")]);
    let entries = collect_test_contents(&input, "alpha");
    assert_eq!(entries, files(&[("c_alpha_1.log", "hit")]));
}

#[test]
fn collect_later_file_of_same_name_wins() {
    let input = files(&[("x_alpha_1.log", "old"), ("x_alpha_1.log", "new")]);
    let entries = collect_test_contents(&input, "alpha");
    assert_eq!(entries, files(&[("x_alpha_1.log", "new")]));
}

#[test]
fn collect_can_gather_no_test_files() {
    let input = files(&[("w_no-test_1.log", "none")]);
    let entries = collect_test_contents(&input, "no-test");
    assert_eq!(entries, files(&[("w_no-test_1.log", "none")]));
}

#[test]
fn collect_gathers_empty_name() {
    let input = files(&[("a__b.log", "empty"), ("a_x_b.log", "x")]);
    let entries = collect_test_contents(&input, "");
    assert_eq!(entries, files(&[("a__b.log", "empty")]));
}

#[test]
fn matches_test_needs_exact_name() {
    assert!(matches_test("x_alpha_1.log", "alpha"));
    assert!(!matches_test("x_alpha_1.log", "alph"));
    assert!(!matches_test("x_alpha.log", "alpha"));
}

#[test]
fn saved_report_text() {
    let entries = files(&[("x_alpha_1.log", "GET /"), ("y_alpha_2.log", "POST /")]);
    assert_eq!(
        render_saved(&entries),
        "Test: x_alpha_1.log\nContent:\nGET /\n\nTest: y_alpha_2.log\nContent:\nPOST /\n\n"
    );
}

#[test]
fn shown_report_text() {
    let entries = files(&[("x_alpha_1.log", "GET /")]);
    assert_eq!(
        render_shown(&entries),
        "-- x_alpha_1.log --\n\nGET /\n\n-- End of x_alpha_1.log --\n"
    );
}

#[test]
fn text_order_and_equality() {
    assert!(is_text_less("a", "b"));
    assert!(is_text_less("ab", "abc"));
    assert!(!is_text_less("abc", "ab"));
    assert!(!is_text_less("a", "a"));
    assert!(is_text_less("Z", "a"));
    assert!(is_text_less("z", "é"));
    assert!(same_text("héllo", "héllo"));
    assert!(!same_text("hello", "hell"));
    assert!(!same_text("hello", "hellp"));
}
