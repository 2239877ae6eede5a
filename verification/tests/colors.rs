use nipa_results::report::{paint, ReportLine};

#[test]
fn painted_lines_with_colors_carry_escape_sequences() {
    colored::control::set_override(true);
    let heading = paint(&ReportLine::Heading("alpha".to_string()));
    assert_eq!(heading, "\u{1b}[1malpha\u{1b}[0m:");
    let pass = paint(&ReportLine::Outcome(2, 0));
    assert_eq!(pass, "\t\t2\t\t\t\u{1b}[32m0\u{1b}[0m");
    let fail = paint(&ReportLine::Outcome(2, 1));
    assert_eq!(fail, "\t\t2\t\t\t\u{1b}[31m1\u{1b}[0m");
    let totals = paint(&ReportLine::Totals(3, 2, 1));
    assert_eq!(
        totals,
        "\u{1b}[1mTOTAL\u{1b}[0m: 3,\t\u{1b}[1;32mPass\u{1b}[0m: 2,\t\u{1b}[1;31mFAIL\u{1b}[0m: 1"
    );
    colored::control::unset_override();
}
