use nipa_results::report::{
    heading_line, outcome_line, paint, plan, report_lines, rule_line, sort_records, totals_line,
    ReportLine,
};
use nipa_results::test::Test;
use nipa_results::walk::{visit, Visit};

fn leaf(patch: u8, test: &str, result: i64) -> Test {
    Test { patch, result, test: test.to_string() }
}

fn triples(records: &Vec<Test>) -> Vec<(String, u8, i64)> {
    records.iter().map(|r| (r.test.clone(), r.patch, r.result)).collect()
}

#[test]
fn records_are_sorted_by_test_then_by_patch_number() {
    let mut records = vec![
        leaf(10, "beta", 1),
        leaf(2, "beta", 2),
        leaf(1, "alpha", 3),
        leaf(3, "alpha", 4),
        leaf(2, "alpha", 5),
    ];
    sort_records(&mut records);
    assert_eq!(
        triples(&records),
        vec![
            ("alpha".to_string(), 1, 3),
            ("alpha".to_string(), 2, 5),
            ("alpha".to_string(), 3, 4),
            ("beta".to_string(), 2, 2),
            ("beta".to_string(), 10, 1),
        ]
    );
}

#[test]
fn sorting_keeps_like_runs_in_the_order_in_which_they_came() {
    let mut records = vec![
        leaf(1, "b", 10),
        leaf(1, "a", 20),
        leaf(1, "b", 30),
        leaf(1, "a", 40),
        leaf(1, "b", 50),
    ];
    let mut expected = triples(&records);
    expected.sort_by(|x, y| (x.0.clone(), x.1).cmp(&(y.0.clone(), y.1)));
    sort_records(&mut records);
    assert_eq!(triples(&records), expected);
    assert_eq!(
        triples(&records).iter().map(|t| t.2).collect::<Vec<i64>>(),
        vec![20, 40, 10, 30, 50]
    );
}

#[test]
fn sorting_the_empty_and_the_sorted_list_changes_nothing() {
    let mut none: Vec<Test> = Vec::new();
    sort_records(&mut none);
    assert!(none.is_empty());
    let mut sorted = vec![leaf(1, "a", 0), leaf(2, "a", 0), leaf(1, "b", 0)];
    let before = triples(&sorted);
    sort_records(&mut sorted);
    assert_eq!(triples(&sorted), before);
}

#[test]
fn plan_lists_each_run_below_the_name_of_its_test() {
    let records = vec![leaf(1, "alpha", 0), leaf(2, "alpha", 1), leaf(1, "beta", 0)];
    assert_eq!(
        plan(&records),
        vec![
            ReportLine::Heading("alpha".to_string()),
            ReportLine::Outcome(1, 0),
            ReportLine::Outcome(2, 1),
            ReportLine::Heading("beta".to_string()),
            ReportLine::Outcome(1, 0),
            ReportLine::Rule,
            ReportLine::Totals(3, 2, 1),
        ]
    );
}

#[test]
fn plan_of_no_records_is_rule_and_totals() {
    assert_eq!(plan(&Vec::new()), vec![ReportLine::Rule, ReportLine::Totals(0, 0, 0)]);
}

#[test]
fn plan_repeats_a_heading_where_the_test_changes_back() {
    let records = vec![leaf(1, "a", 0), leaf(1, "b", 0), leaf(2, "a", 5)];
    assert_eq!(
        plan(&records),
        vec![
            ReportLine::Heading("a".to_string()),
            ReportLine::Outcome(1, 0),
            ReportLine::Heading("b".to_string()),
            ReportLine::Outcome(1, 0),
            ReportLine::Heading("a".to_string()),
            ReportLine::Outcome(2, 5),
            ReportLine::Rule,
            ReportLine::Totals(3, 2, 1),
        ]
    );
}

#[test]
fn lines_are_written_around_their_painted_parts() {
    assert_eq!(heading_line("alpha"), "alpha:");
    assert_eq!(outcome_line(12, "404"), "\t\t12\t\t\t404");
    assert_eq!(rule_line(), "==============================================");
    assert_eq!(rule_line().len(), 46);
    assert_eq!(
        totals_line("TOTAL", 3, "Pass", 2, "FAIL", 1),
        "TOTAL: 3,\tPass: 2,\tFAIL: 1"
    );
}

#[test]
fn painted_lines_without_colors_are_the_plain_lines() {
    colored::control::set_override(false);
    assert_eq!(paint(&ReportLine::Heading("alpha".to_string())), "alpha:");
    assert_eq!(paint(&ReportLine::Outcome(2, 0)), "\t\t2\t\t\t0");
    assert_eq!(paint(&ReportLine::Outcome(2, -7)), "\t\t2\t\t\t-7");
    assert_eq!(paint(&ReportLine::Rule), "==============================================");
    assert_eq!(paint(&ReportLine::Totals(3, 2, 1)), "TOTAL: 3,\tPass: 2,\tFAIL: 1");
    let mut records = vec![leaf(2, "alpha", 1), leaf(1, "alpha", 0)];
    assert_eq!(
        report_lines(&mut records),
        vec![
            "alpha:".to_string(),
            "\t\t1\t\t\t0".to_string(),
            "\t\t2\t\t\t1".to_string(),
            "==============================================".to_string(),
            "TOTAL: 2,\tPass: 1,\tFAIL: 1".to_string(),
        ]
    );
    assert_eq!(records[0].patch, 1);
    colored::control::unset_override();
}

#[test]
fn report_has_one_line_for_each_planned_line() {
    let mut records = vec![leaf(1, "b", 0), leaf(1, "a", 1), leaf(2, "a", 0)];
    let lines = report_lines(&mut records);
    assert_eq!(lines.len(), plan(&records).len());
    assert_eq!(lines.len(), 7);
    assert!(lines[0].ends_with(":"));
    assert!(lines[1].starts_with("\t\t1\t\t\t"));
    assert_eq!(lines[5], "==============================================");
}

#[test]
fn walk_records_leaves_and_descends_into_directories() {
    assert_eq!(visit("retcode", false), Visit::Record);
    assert_eq!(visit("retcode", true), Visit::Record);
    assert_eq!(visit("summary", false), Visit::Pass);
    assert_eq!(visit("12", true), Visit::Descend);
    assert_eq!(visit("retcode2", false), Visit::Pass);
    assert_eq!(visit("Retcode", true), Visit::Descend);
    assert_eq!(visit("", false), Visit::Pass);
}
