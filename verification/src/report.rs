//! The text report: every run, test by test, and the totals. The lines are
//! laid out here; the colors come from the `colored` crate.

use crate::model::{leaves_of, same_run};
use crate::test::{Leaf, Test};
use crate::text::{
    decimal, decimal_text, lemma_before_total, lemma_before_transitive, precedes,
    signed_decimal_text, text_before,
};
use colored::{ColoredString, Colorize};
use vstd::prelude::*;

verus! {

/// `colored::ColoredString`: a text together with the color and style in
/// which it is to be written. Nothing of its inside is known here.
#[verifier::external_type_specification]
#[verifier::external_body]
pub struct ExColoredString(colored::ColoredString);

/// `ColoredString::from`, for a `&str`: the text with no color and no style.
/// Nothing is claimed of the result.
#[verifier::external_body]
fn plain(text: &str) -> (painted: ColoredString) {
    ColoredString::from(text)
}

/// `Colorize::bold` on a `ColoredString`. Nothing is claimed of the result.
#[verifier::external_body]
fn bold(text: ColoredString) -> (painted: ColoredString) {
    text.bold()
}

/// `Colorize::red` on a `ColoredString`. Nothing is claimed of the result.
#[verifier::external_body]
fn red(text: ColoredString) -> (painted: ColoredString) {
    text.red()
}

/// `Colorize::green` on a `ColoredString`. Nothing is claimed of the result.
#[verifier::external_body]
fn green(text: ColoredString) -> (painted: ColoredString) {
    text.green()
}

/// `ToString::to_string` on a `ColoredString`, which formats it by its
/// `Display`. Whether the result carries escape sequences depends on the
/// environment of the process, so nothing is claimed of it.
#[verifier::external_body]
fn shown(text: &ColoredString) -> (written: String) {
    text.to_string()
}

/// The order of the report: by test name, and within a test by patch id as
/// a number.
pub open spec fn leaf_before(a: Leaf, b: Leaf) -> bool {
    text_before(a.test, b.test) || (a.test == b.test && a.patch < b.patch)
}

/// No leaf stands behind one that it comes before.
pub open spec fn in_report_order(leaves: Seq<Leaf>) -> bool {
    forall|i: int, j: int| 0 <= i < j < leaves.len() ==> !leaf_before(leaves[j], leaves[i])
}

/// The leaves of the same test and patch as `k`, in the order in which they
/// stand in `leaves`.
pub open spec fn runs_like(leaves: Seq<Leaf>, k: Leaf) -> Seq<Leaf> {
    leaves.filter(|l: Leaf| same_run(l, k))
}

/// Whatever lies between two ordered leaves is ordered against one of them.
proof fn lemma_leaf_between(x: Leaf, z: Leaf, a: Leaf)
    requires
        leaf_before(x, a),
    ensures
        leaf_before(x, z) || leaf_before(z, a),
{
    lemma_before_total(x.test, z.test);
    if text_before(z.test, x.test) {
        if text_before(x.test, a.test) {
            lemma_before_transitive(z.test, x.test, a.test);
        }
    }
}

/// Decides the report order of two records.
fn leaf_precedes(a: &Test, b: &Test) -> (r: bool)
    ensures
        r == leaf_before(a@, b@),
{
    if precedes(a.test.as_str(), b.test.as_str()) {
        true
    } else if precedes(b.test.as_str(), a.test.as_str()) {
        false
    } else {
        proof {
            lemma_before_total(a.test@, b.test@);
        }
        a.patch < b.patch
    }
}

/// Moving the leaf at `i` down to its place `j` among the ordered leaves
/// before it keeps them ordered, and keeps every group of like runs as it
/// was.
proof fn lemma_moved(cur: Seq<Leaf>, j: int, i: int)
    requires
        0 <= j <= i < cur.len(),
        forall|a: int, b: int| 0 <= a < b < i ==> !leaf_before(cur[b], cur[a]),
        forall|t: int| j <= t < i ==> leaf_before(cur[i], cur[t]),
        j == 0 || !leaf_before(cur[i], cur[j - 1]),
    ensures
        forall|a: int, b: int|
            0 <= a < b < i + 1 ==> !leaf_before(
                cur.remove(i).insert(j, cur[i])[b],
                cur.remove(i).insert(j, cur[i])[a],
            ),
        forall|k: Leaf| runs_like(cur.remove(i).insert(j, cur[i]), k) == runs_like(cur, k),
        cur.remove(i).insert(j, cur[i]).to_multiset() == cur.to_multiset(),
        j == i ==> cur.remove(i).insert(j, cur[i]) == cur,
{
    let x = cur[i];
    let new = cur.remove(i).insert(j, x);
    assert forall|a: int| 0 <= a < j implies !leaf_before(x, cur[a]) by {
        if a < j - 1 && leaf_before(x, cur[a]) {
            lemma_leaf_between(x, cur[j - 1], cur[a]);
        }
    }
    let head = cur.subrange(0, j);
    let mid = cur.subrange(j, i);
    let tail = cur.subrange(i + 1, cur.len() as int);
    assert(cur =~= head + mid + seq![x] + tail);
    assert(new =~= head + seq![x] + mid + tail);
    assert forall|k: Leaf| runs_like(new, k) == runs_like(cur, k) by {
        let like = |l: Leaf| same_run(l, k);
        if same_run(x, k) {
            mid.lemma_all_neg_filter_empty(like);
        } else {
            seq![x].lemma_all_neg_filter_empty(like);
        }
    }
    vstd::seq_lib::to_multiset_remove(cur, i);
    vstd::seq_lib::to_multiset_insert(cur.remove(i), j, x);
    assert(cur.to_multiset().remove(x).insert(x) =~= cur.to_multiset()) by {
        broadcast use vstd::seq_lib::group_to_multiset_ensures;
    }
}

/// Puts the records in the order of the report: by test name, then by patch
/// id. Runs of the same test and patch keep the order in which they came.
pub fn sort_records(records: &mut Vec<Test>)
    ensures
        in_report_order(leaves_of(final(records)@)),
        forall|k: Leaf|
            runs_like(leaves_of(final(records)@), k) == runs_like(leaves_of(old(records)@), k),
        leaves_of(final(records)@).to_multiset() == leaves_of(old(records)@).to_multiset(),
        final(records).len() == old(records).len(),
{
    let ghost orig = leaves_of(records@);
    let mut i: usize = 0;
    while i < records.len()
        invariant
            i <= records.len(),
            records.len() == orig.len(),
            forall|a: int, b: int|
                0 <= a < b < i ==> !leaf_before(leaves_of(records@)[b], leaves_of(records@)[a]),
            forall|k: Leaf| runs_like(leaves_of(records@), k) == runs_like(orig, k),
            leaves_of(records@).to_multiset() == orig.to_multiset(),
        decreases records.len() - i,
    {
        let ghost cur = leaves_of(records@);
        let mut j: usize = i;
        while j > 0 && leaf_precedes(&records[i], &records[j - 1])
            invariant
                j <= i < records.len(),
                cur == leaves_of(records@),
                forall|t: int| j <= t < i ==> leaf_before(cur[i as int], cur[t]),
            decreases j,
        {
            j -= 1;
        }
        proof {
            lemma_moved(cur, j as int, i as int);
        }
        if j < i {
            let x = records.remove(i);
            records.insert(j, x);
            assert(leaves_of(records@) =~= cur.remove(i as int).insert(j as int, cur[i as int]));
        }
        i += 1;
    }
}

/// One line of the report, before it is colored.
#[derive(Clone, Debug, PartialEq, Eq)]
pub enum ReportLine {
    /// The name of a test, above its runs.
    Heading(String),
    /// One run: the patch id and the exit code.
    Outcome(u8, i64),
    /// The rule between the runs and the totals.
    Rule,
    /// The totals: all runs, those that passed, those that failed.
    Totals(usize, usize, usize),
}

/// A [`ReportLine`] with the name of its test as a sequence of characters.
pub enum ReportLineView {
    Heading(Seq<char>),
    Outcome(u8, i64),
    Rule,
    Totals(usize, usize, usize),
}

impl View for ReportLine {
    type V = ReportLineView;

    open spec fn view(&self) -> ReportLineView {
        match self {
            ReportLine::Heading(test) => ReportLineView::Heading(test@),
            ReportLine::Outcome(patch, code) => ReportLineView::Outcome(*patch, *code),
            ReportLine::Rule => ReportLineView::Rule,
            ReportLine::Totals(total, pass, fail) => ReportLineView::Totals(*total, *pass, *fail),
        }
    }
}

/// The views of a list of report lines.
pub open spec fn line_views(lines: Seq<ReportLine>) -> Seq<ReportLineView> {
    lines.map_values(|l: ReportLine| l@)
}

/// The lines of the runs: one per leaf, and above each leaf whose test
/// differs from that of the leaf before it, the name of its test.
pub open spec fn run_lines(leaves: Seq<Leaf>) -> Seq<ReportLineView>
    decreases leaves.len(),
{
    if leaves.len() == 0 {
        Seq::empty()
    } else {
        let front = leaves.drop_last();
        let leaf = leaves.last();
        let heading = if front.len() == 0 || front.last().test != leaf.test {
            seq![ReportLineView::Heading(leaf.test)]
        } else {
            Seq::empty()
        };
        run_lines(front) + heading + seq![ReportLineView::Outcome(leaf.patch, leaf.result)]
    }
}

/// How many leaves passed: exit code zero.
pub open spec fn passed(leaves: Seq<Leaf>) -> nat
    decreases leaves.len(),
{
    if leaves.len() == 0 {
        0
    } else {
        passed(leaves.drop_last()) + if leaves.last().result == 0 {
            1nat
        } else {
            0nat
        }
    }
}

/// The whole report: the lines of the runs, a rule, and the totals.
pub open spec fn report_of(leaves: Seq<Leaf>) -> Seq<ReportLineView> {
    run_lines(leaves) + seq![
        ReportLineView::Rule,
        ReportLineView::Totals(
            leaves.len() as usize,
            passed(leaves) as usize,
            (leaves.len() - passed(leaves)) as usize,
        ),
    ]
}

/// No more leaves pass than there are.
pub proof fn lemma_passed_bound(leaves: Seq<Leaf>)
    ensures
        passed(leaves) <= leaves.len(),
    decreases leaves.len(),
{
    if leaves.len() > 0 {
        lemma_passed_bound(leaves.drop_last());
    }
}

/// Lays out the report of `records`, taken in the order in which they stand.
pub fn plan(records: &Vec<Test>) -> (lines: Vec<ReportLine>)
    ensures
        line_views(lines@) == report_of(leaves_of(records@)),
{
    let ghost leaves = leaves_of(records@);
    let mut lines: Vec<ReportLine> = Vec::new();
    let mut pass: usize = 0;
    let mut i: usize = 0;
    while i < records.len()
        invariant
            i <= records.len(),
            leaves == leaves_of(records@),
            line_views(lines@) == run_lines(leaves.take(i as int)),
            pass == passed(leaves.take(i as int)),
            pass <= i,
        decreases records.len() - i,
    {
        let record = &records[i];
        let ghost next = leaves.take(i + 1);
        proof {
            assert(next.drop_last() =~= leaves.take(i as int));
        }
        let fresh = i == 0 || !crate::text::same_text(
            records[i - 1].test.as_str(),
            record.test.as_str(),
        );
        if fresh {
            lines.push(ReportLine::Heading(record.test.clone()));
        }
        lines.push(ReportLine::Outcome(record.patch, record.result));
        if record.result == 0 {
            pass += 1;
        }
        i += 1;
    }
    assert(leaves.take(i as int) =~= leaves);
    lines.push(ReportLine::Rule);
    lines.push(ReportLine::Totals(records.len(), pass, records.len() - pass));
    lines
}

/// The heading of a test, for its name as it was painted.
pub open spec fn heading_text(painted: Seq<char>) -> Seq<char> {
    painted + ":"@
}

/// The line of a run, for its exit code as it was painted.
pub open spec fn outcome_text(patch: u8, painted: Seq<char>) -> Seq<char> {
    "\t\t"@ + decimal(patch as nat) + "\t\t\t"@ + painted
}

/// The rule between the runs and the totals.
pub open spec fn rule_text() -> Seq<char> {
    "=============================================="@
}

/// The totals, for the three labels as they were painted.
pub open spec fn totals_text(
    all: Seq<char>,
    total: usize,
    passing: Seq<char>,
    pass: usize,
    failing: Seq<char>,
    fail: usize,
) -> Seq<char> {
    all + ": "@ + decimal(total as nat) + ",\t"@ + passing + ": "@ + decimal(pass as nat)
        + ",\t"@ + failing + ": "@ + decimal(fail as nat)
}

/// Writes the heading of a test.
pub fn heading_line(painted: &str) -> (line: String)
    ensures
        line@ == heading_text(painted@),
{
    let mut line = String::from_str(painted);
    line.append(":");
    line
}

/// Writes the line of a run.
pub fn outcome_line(patch: u8, painted: &str) -> (line: String)
    ensures
        line@ == outcome_text(patch, painted@),
{
    let mut line = String::from_str("\t\t");
    line.append(decimal_text(patch as u64).as_str());
    line.append("\t\t\t");
    line.append(painted);
    line
}

/// Writes the rule.
pub fn rule_line() -> (line: String)
    ensures
        line@ == rule_text(),
{
    String::from_str("==============================================")
}

/// Writes the totals.
pub fn totals_line(
    all: &str,
    total: usize,
    passing: &str,
    pass: usize,
    failing: &str,
    fail: usize,
) -> (line: String)
    ensures
        line@ == totals_text(all@, total, passing@, pass, failing@, fail),
{
    let mut line = String::from_str(all);
    line.append(": ");
    line.append(decimal_text(total as u64).as_str());
    line.append(",\t");
    line.append(passing);
    line.append(": ");
    line.append(decimal_text(pass as u64).as_str());
    line.append(",\t");
    line.append(failing);
    line.append(": ");
    line.append(decimal_text(fail as u64).as_str());
    line
}

/// `text` is the heading of a test, however its name was painted.
pub open spec fn is_heading(text: Seq<char>) -> bool {
    exists|painted: Seq<char>| text == #[trigger] heading_text(painted)
}

/// `text` is the line of a run under `patch`, however its exit code was
/// painted.
pub open spec fn is_outcome(patch: u8, text: Seq<char>) -> bool {
    exists|painted: Seq<char>| text == #[trigger] outcome_text(patch, painted)
}

/// `text` is the line of the totals, however its labels were painted.
pub open spec fn is_totals(total: usize, pass: usize, fail: usize, text: Seq<char>) -> bool {
    exists|all: Seq<char>, passing: Seq<char>, failing: Seq<char>|
        text == #[trigger] totals_text(all, total, passing, pass, failing, fail)
}

/// `text` is what `line` may come out as, however its colored parts were
/// painted: the heading of a test ends in a colon, the line of a run holds
/// its patch id before its painted exit code, the rule is the rule, and the
/// totals hold their three counts behind their three painted labels.
pub open spec fn paints(line: ReportLineView, text: Seq<char>) -> bool {
    match line {
        ReportLineView::Heading(_) => is_heading(text),
        ReportLineView::Outcome(patch, _) => is_outcome(patch, text),
        ReportLineView::Rule => text == rule_text(),
        ReportLineView::Totals(total, pass, fail) => is_totals(total, pass, fail, text),
    }
}

/// Writes one line of the report: test names and labels in bold, the exit
/// code of a run that passed in green and of any other in red.
pub fn paint(line: &ReportLine) -> (text: String)
    ensures
        paints(line@, text@),
{
    match line {
        ReportLine::Heading(test) => {
            let name = shown(&bold(plain(test.as_str())));
            let text = heading_line(name.as_str());
            text
        },
        ReportLine::Outcome(patch, code) => {
            let number = signed_decimal_text(*code);
            let painted = if *code != 0 {
                shown(&red(plain(number.as_str())))
            } else {
                shown(&green(plain(number.as_str())))
            };
            let text = outcome_line(*patch, painted.as_str());
            text
        },
        ReportLine::Rule => rule_line(),
        ReportLine::Totals(total, pass, fail) => {
            let all = shown(&bold(plain("TOTAL")));
            let passing = shown(&green(bold(plain("Pass"))));
            let failing = shown(&red(bold(plain("FAIL"))));
            let text = totals_line(
                all.as_str(),
                *total,
                passing.as_str(),
                *pass,
                failing.as_str(),
                *fail,
            );
            text
        },
    }
}

/// The report of `records` as lines of text, after putting the records in
/// the order of the report.
pub fn report_lines(records: &mut Vec<Test>) -> (lines: Vec<String>)
    ensures
        in_report_order(leaves_of(final(records)@)),
        forall|k: Leaf|
            runs_like(leaves_of(final(records)@), k) == runs_like(leaves_of(old(records)@), k),
        leaves_of(final(records)@).to_multiset() == leaves_of(old(records)@).to_multiset(),
        lines.len() == report_of(leaves_of(final(records)@)).len(),
        forall|i: int|
            0 <= i < lines.len() ==> paints(
                report_of(leaves_of(final(records)@))[i],
                (#[trigger] lines[i])@,
            ),
{
    sort_records(records);
    let planned = plan(records);
    let ghost report = report_of(leaves_of(records@));
    let mut lines: Vec<String> = Vec::new();
    let mut i: usize = 0;
    while i < planned.len()
        invariant
            i <= planned.len(),
            line_views(planned@) == report,
            lines.len() == i,
            forall|j: int| 0 <= j < i ==> paints(report[j], (#[trigger] lines[j])@),
        decreases planned.len() - i,
    {
        let text = paint(&planned[i]);
        lines.push(text);
        i += 1;
    }
    lines
}

} // verus!
