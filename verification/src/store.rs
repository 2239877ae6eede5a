//! The result store: for each test name, the exit code of each patch.

use crate::model::{
    failing, failures, leaves_of, passes, passing, runs_of, store_of, texts, with_leaf, Results,
};
use crate::order::{
    lemma_patch_total, lemma_sorted_names_of, lemma_sorted_patches_of, patch_before, patch_precedes,
    patches_ascending, sorted_names, sorted_patches,
};
use crate::table::{
    distinct_keys, has_key, hits, keys_where, lemma_table_counts, lemma_table_entry,
    lemma_table_insert, lemma_table_update, position_of, table,
};
use crate::test::Test;
use crate::text::{
    ascending, chars_before, chars_of, decimal, lemma_before_total, lemma_before_transitive,
    text_before,
};
use vstd::prelude::*;

verus! {

/// The runs of one test, in tab order.
struct TestRuns {
    name: String,
    runs: Vec<(u8, i64)>,
}

/// Exit codes by test name and patch id, built once from the leaves of a
/// result tree and read-only afterwards.
pub struct ResultStore {
    rows: Vec<TestRuns>,
}

spec fn run_patches(runs: Seq<(u8, i64)>) -> Seq<u8> {
    runs.map_values(|e: (u8, i64)| e.0)
}

spec fn runs_in_order(runs: Seq<(u8, i64)>) -> bool {
    forall|i: int, j: int|
        0 <= i < j < runs.len() ==> patch_before((#[trigger] runs[i]).0, (#[trigger] runs[j]).0)
}

spec fn row_names(rows: Seq<TestRuns>) -> Seq<Seq<char>> {
    rows.map_values(|r: TestRuns| r.name@)
}

spec fn row_entries(rows: Seq<TestRuns>) -> Seq<(Seq<char>, Map<u8, i64>)> {
    rows.map_values(|r: TestRuns| (r.name@, table(r.runs@)))
}

spec fn rows_in_order(rows: Seq<TestRuns>) -> bool {
    forall|i: int, j: int|
        0 <= i < j < rows.len() ==> text_before(
            (#[trigger] rows[i]).name@,
            (#[trigger] rows[j]).name@,
        )
}

spec fn rows_sound(rows: Seq<TestRuns>) -> bool {
    &&& rows_in_order(rows)
    &&& forall|i: int|
        0 <= i < rows.len() ==> (#[trigger] rows[i]).runs.len() > 0 && runs_in_order(
            rows[i].runs@,
        )
}

/// Where `patch` stands in `runs`, or where it would have to be put.
fn find_run(runs: &Vec<(u8, i64)>, patch: u8) -> (at: (usize, bool))
    requires
        runs_in_order(runs@),
    ensures
        at.0 <= runs.len(),
        forall|j: int| 0 <= j < at.0 ==> patch_before((#[trigger] runs[j]).0, patch),
        at.1 ==> at.0 < runs.len() && runs[at.0 as int].0 == patch,
        !at.1 ==> forall|j: int|
            at.0 <= j < runs.len() ==> patch_before(patch, (#[trigger] runs[j]).0),
        at.1 == has_key(runs@, patch),
{
    let mut i: usize = 0;
    while i < runs.len()
        invariant
            i <= runs.len(),
            runs_in_order(runs@),
            forall|j: int| 0 <= j < i ==> patch_before((#[trigger] runs[j]).0, patch),
        decreases runs.len() - i,
    {
        let p = runs[i].0;
        if p == patch {
            return (i, true);
        }
        if patch_precedes(patch, p) {
            proof {
                assert forall|j: int| i <= j < runs.len() implies patch_before(
                    patch,
                    (#[trigger] runs[j]).0,
                ) by {
                    if j > i {
                        lemma_before_transitive(
                            decimal(patch as nat),
                            decimal(p as nat),
                            decimal(runs[j].0 as nat),
                        );
                    }
                }
            }
            return (i, false);
        }
        proof {
            lemma_patch_total(p, patch);
        }
        i += 1;
    }
    (i, false)
}

/// Records `code` for `patch`, in place of an earlier code for it.
fn put_run(runs: &mut Vec<(u8, i64)>, patch: u8, code: i64)
    requires
        runs_in_order(old(runs)@),
    ensures
        runs_in_order(final(runs)@),
        final(runs).len() > 0,
        table(final(runs)@) == table(old(runs)@).insert(patch, code),
{
    let (pos, found) = find_run(runs, patch);
    if found {
        proof {
            lemma_table_update(runs@, pos as int, code);
        }
        runs.set(pos, (patch, code));
    } else {
        proof {
            lemma_table_insert(runs@, pos as int, patch, code);
        }
        runs.insert(pos, (patch, code));
    }
}

/// Where the test named `name` stands in `rows`, or where it would have to be
/// put.
fn find_row(rows: &Vec<TestRuns>, name: &str) -> (at: (usize, bool))
    requires
        rows_in_order(rows@),
    ensures
        at.0 <= rows.len(),
        forall|j: int| 0 <= j < at.0 ==> text_before((#[trigger] rows[j]).name@, name@),
        at.1 ==> at.0 < rows.len() && rows[at.0 as int].name@ == name@,
        !at.1 ==> forall|j: int|
            at.0 <= j < rows.len() ==> text_before(name@, (#[trigger] rows[j]).name@),
        at.1 == has_key(row_entries(rows@), name@),
{
    let wanted = chars_of(name);
    let mut i: usize = 0;
    while i < rows.len()
        invariant
            i <= rows.len(),
            rows_in_order(rows@),
            wanted@ == name@,
            forall|j: int| 0 <= j < i ==> text_before((#[trigger] rows[j]).name@, name@),
        decreases rows.len() - i,
    {
        let here = chars_of(rows[i].name.as_str());
        if chars_before(&wanted, &here) {
            proof {
                assert forall|j: int| i <= j < rows.len() implies text_before(
                    name@,
                    (#[trigger] rows[j]).name@,
                ) by {
                    if j > i {
                        lemma_before_transitive(name@, rows[i as int].name@, rows[j].name@);
                    }
                }
            }
            return (i, false);
        }
        if !chars_before(&here, &wanted) {
            proof {
                lemma_before_total(here@, wanted@);
                assert(row_entries(rows@)[i as int].0 == name@);
            }
            return (i, true);
        }
        i += 1;
    }
    (i, false)
}

/// Records one leaf in `rows`.
fn put_leaf(rows: &mut Vec<TestRuns>, leaf: &Test)
    requires
        rows_sound(old(rows)@),
    ensures
        rows_sound(final(rows)@),
        table(row_entries(final(rows)@)) == with_leaf(table(row_entries(old(rows)@)), leaf@),
{
    let (pos, found) = find_row(rows, leaf.test.as_str());
    let ghost before = rows@;
    let ghost entries = row_entries(before);
    if found {
        let mut row = rows.remove(pos);
        put_run(&mut row.runs, leaf.patch, leaf.result);
        let ghost now = table(row.runs@);
        rows.insert(pos, row);
        proof {
            assert(row_entries(rows@) =~= entries.update(pos as int, (entries[pos as int].0, now)));
            lemma_table_update(entries, pos as int, now);
        }
    } else {
        let mut runs: Vec<(u8, i64)> = Vec::new();
        runs.push((leaf.patch, leaf.result));
        let row = TestRuns { name: leaf.test.clone(), runs };
        let ghost now = table(row.runs@);
        proof {
            lemma_table_insert(Seq::<(u8, i64)>::empty(), 0, leaf.patch, leaf.result);
            assert(Seq::<(u8, i64)>::empty().insert(0, (leaf.patch, leaf.result)) =~= row.runs@);
            assert(table(Seq::<(u8, i64)>::empty()) =~= Map::<u8, i64>::empty());
            lemma_table_insert(entries, pos as int, leaf.test@, now);
        }
        rows.insert(pos, row);
        proof {
            assert(row_entries(rows@) =~= entries.insert(pos as int, (leaf.test@, now)));
        }
    }
}

proof fn lemma_runs_model(runs: Seq<(u8, i64)>)
    requires
        runs_in_order(runs),
    ensures
        distinct_keys(runs),
        table(runs).dom().finite(),
        table(runs).dom().len() == runs.len(),
        run_patches(runs).to_set() == table(runs).dom(),
        patches_ascending(run_patches(runs)),
        run_patches(runs) == sorted_patches(table(runs).dom()),
        passes(table(runs)) == hits(runs, passing()),
        failures(table(runs)) == hits(runs, failing()),
{
    lemma_table_counts(runs, passing());
    lemma_table_counts(runs, failing());
    let ps = run_patches(runs);
    assert forall|p: u8| ps.to_set().contains(p) == table(runs).dom().contains(p) by {
        if has_key(runs, p) {
            let i = position_of(runs, p);
            assert(ps[i] == p);
        }
    }
    assert(ps.to_set() =~= table(runs).dom());
    lemma_sorted_patches_of(ps);
}

proof fn lemma_rows_model(rows: Seq<TestRuns>)
    requires
        rows_sound(rows),
    ensures
        distinct_keys(row_entries(rows)),
        table(row_entries(rows)).dom().finite(),
        table(row_entries(rows)).dom().len() == rows.len(),
        row_names(rows).to_set() == table(row_entries(rows)).dom(),
        ascending(row_names(rows)),
        row_names(rows) == sorted_names(table(row_entries(rows)).dom()),
        forall|i: int|
            0 <= i < rows.len() ==> table(row_entries(rows)).dom().contains(
                (#[trigger] rows[i]).name@,
            ) && table(row_entries(rows))[rows[i].name@] == table(rows[i].runs@),
{
    let es = row_entries(rows);
    let ns = row_names(rows);
    lemma_table_counts(es, |m: Map<u8, i64>| true);
    assert forall|n: Seq<char>| ns.to_set().contains(n) == table(es).dom().contains(n) by {
        if ns.contains(n) {
            let i = choose|i: int| 0 <= i < ns.len() && ns[i] == n;
            assert(es[i].0 == n);
        }
        if has_key(es, n) {
            let i = position_of(es, n);
            assert(ns[i] == n);
        }
    }
    lemma_sorted_names_of(ns);
    assert forall|i: int| 0 <= i < rows.len() implies table(es).dom().contains(
        (#[trigger] rows[i]).name@,
    ) && table(es)[rows[i].name@] == table(rows[i].runs@) by {
        lemma_table_entry(es, i);
    }
}

/// How many of `runs` hold an exit code that is zero, or that is not.
fn count_runs(runs: &Vec<(u8, i64)>, zero: bool) -> (n: usize)
    ensures
        n == hits(runs@, if zero { passing() } else { failing() }),
{
    let ghost pred = if zero { passing() } else { failing() };
    let mut n: usize = 0;
    let mut i: usize = 0;
    while i < runs.len()
        invariant
            i <= runs.len(),
            n <= i,
            pred == (if zero { passing() } else { failing() }),
            n == hits(runs@.take(i as int), pred),
        decreases runs.len() - i,
    {
        proof {
            let next = runs@.take(i + 1);
            assert(next.drop_last() =~= runs@.take(i as int));
        }
        if (runs[i].1 == 0) == zero {
            n += 1;
        }
        i += 1;
    }
    assert(runs@.take(i as int) =~= runs@);
    n
}

impl View for ResultStore {
    type V = Results;

    closed spec fn view(&self) -> Results {
        table(row_entries(self.rows@))
    }
}

impl ResultStore {
    #[verifier::type_invariant]
    spec fn sound(self) -> bool {
        rows_sound(self.rows@)
    }

    /// Builds the store from the leaves of a result tree, taken in order: a
    /// later leaf for the same test and patch overwrites an earlier one.
    pub fn build(records: &Vec<Test>) -> (store: ResultStore)
        ensures
            store@ == store_of(leaves_of(records@)),
    {
        let mut rows: Vec<TestRuns> = Vec::new();
        let ghost leaves = leaves_of(records@);
        let mut i: usize = 0;
        while i < records.len()
            invariant
                i <= records.len(),
                leaves == leaves_of(records@),
                rows_sound(rows@),
                table(row_entries(rows@)) == store_of(leaves.take(i as int)),
            decreases records.len() - i,
        {
            put_leaf(&mut rows, &records[i]);
            proof {
                let next = leaves.take(i + 1);
                assert(next.drop_last() =~= leaves.take(i as int));
            }
            i += 1;
        }
        assert(leaves.take(i as int) =~= leaves);
        ResultStore { rows }
    }
    /// How many tests the store knows.
    pub fn test_count(&self) -> (n: usize)
        ensures
            self@.dom().finite(),
            n == self@.dom().len(),
            n == sorted_names(self@.dom()).len(),
    {
        proof {
            use_type_invariant(self);
            lemma_rows_model(self.rows@);
        }
        self.rows.len()
    }

    /// The name at position `index` of the sorted list of tests.
    pub fn test_name(&self, index: usize) -> (name: Option<&str>)
        ensures
            match name {
                Some(n) => index < sorted_names(self@.dom()).len() && n@ == sorted_names(
                    self@.dom(),
                )[index as int],
                None => index >= sorted_names(self@.dom()).len(),
            },
    {
        proof {
            use_type_invariant(self);
            lemma_rows_model(self.rows@);
        }
        if index < self.rows.len() {
            Some(self.rows[index].name.as_str())
        } else {
            None
        }
    }

    /// The names of all tests in lexicographic order.
    pub fn test_names_sorted(&self) -> (names: Vec<String>)
        ensures
            texts(names@) == sorted_names(self@.dom()),
            ascending(texts(names@)),
            texts(names@).to_set() == self@.dom(),
    {
        proof {
            use_type_invariant(self);
            lemma_rows_model(self.rows@);
        }
        let mut names: Vec<String> = Vec::new();
        let mut i: usize = 0;
        while i < self.rows.len()
            invariant
                i <= self.rows.len(),
                texts(names@) == row_names(self.rows@).take(i as int),
            decreases self.rows.len() - i,
        {
            let name = self.rows[i].name.clone();
            let ghost listed = texts(names@);
            names.push(name);
            assert(listed.push(self.rows[i as int].name@) =~= row_names(self.rows@).take(i + 1));
            i += 1;
        }
        assert(row_names(self.rows@).take(i as int) =~= row_names(self.rows@));
        names
    }

    /// The patch ids recorded for `test`, in the order of their decimal text;
    /// none for a test that the store does not know.
    pub fn patches_sorted(&self, test: &str) -> (patches: Vec<u8>)
        ensures
            patches@ == sorted_patches(runs_of(self@, test@).dom()),
            patches_ascending(patches@),
            patches@.to_set() == runs_of(self@, test@).dom(),
    {
        proof {
            use_type_invariant(self);
        }
        let (pos, found) = find_row(&self.rows, test);
        let mut patches: Vec<u8> = Vec::new();
        if !found {
            proof {
                assert(patches@.to_set() =~= Set::<u8>::empty());
                lemma_sorted_patches_of(patches@);
            }
            return patches;
        }
        let runs = &self.rows[pos].runs;
        proof {
            lemma_runs_model(runs@);
        }
        let mut i: usize = 0;
        while i < runs.len()
            invariant
                i <= runs.len(),
                patches@ == run_patches(runs@).take(i as int),
            decreases runs.len() - i,
        {
            patches.push(runs[i].0);
            i += 1;
        }
        patches
    }

    /// How many patches were recorded for `test`.
    pub fn total_count(&self, test: &str) -> (n: usize)
        ensures
            runs_of(self@, test@).dom().finite(),
            n == runs_of(self@, test@).dom().len(),
            self@.dom().contains(test@) <==> n > 0,
    {
        proof {
            use_type_invariant(self);
        }
        let (pos, found) = find_row(&self.rows, test);
        if found {
            proof {
                lemma_runs_model(self.rows[pos as int].runs@);
            }
            self.rows[pos].runs.len()
        } else {
            0
        }
    }

    /// How many patches of `test` passed.
    pub fn pass_count(&self, test: &str) -> (n: usize)
        ensures
            n == passes(runs_of(self@, test@)),
    {
        proof {
            use_type_invariant(self);
        }
        let (pos, found) = find_row(&self.rows, test);
        if found {
            proof {
                lemma_runs_model(self.rows[pos as int].runs@);
            }
            count_runs(&self.rows[pos].runs, true)
        } else {
            assert(keys_where(Map::<u8, i64>::empty(), passing()) =~= Set::<u8>::empty());
            0
        }
    }

    /// How many patches of `test` failed.
    pub fn fail_count(&self, test: &str) -> (n: usize)
        ensures
            n == failures(runs_of(self@, test@)),
    {
        proof {
            use_type_invariant(self);
        }
        let (pos, found) = find_row(&self.rows, test);
        if found {
            proof {
                lemma_runs_model(self.rows[pos as int].runs@);
            }
            count_runs(&self.rows[pos].runs, false)
        } else {
            assert(keys_where(Map::<u8, i64>::empty(), failing()) =~= Set::<u8>::empty());
            0
        }
    }

    /// The exit code recorded for `test` under `patch`, if there is one.
    pub fn exit_code(&self, test: &str, patch: u8) -> (code: Option<i64>)
        ensures
            code == if runs_of(self@, test@).dom().contains(patch) {
                Some(self@[test@][patch])
            } else {
                None
            },
    {
        proof {
            use_type_invariant(self);
        }
        let (pos, found) = find_row(&self.rows, test);
        if !found {
            return None;
        }
        let runs = &self.rows[pos].runs;
        let (at, known) = find_run(runs, patch);
        if known {
            Some(runs[at].1)
        } else {
            None
        }
    }
}

} // verus!
