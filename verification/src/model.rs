//! The mathematical model of a result store, and what holds of every store
//! that is built from the leaves of a result tree.

use crate::order::sorted_names;
use crate::table::keys_where;
use crate::test::{Leaf, Test};
use vstd::prelude::*;

verus! {

/// The predicate of a passing exit code.
pub open spec fn passing() -> spec_fn(i64) -> bool {
    |code: i64| code == 0
}

/// The predicate of a failing exit code.
pub open spec fn failing() -> spec_fn(i64) -> bool {
    |code: i64| code != 0
}

/// What a result store holds: test name to patch id to exit code.
pub type Results = Map<Seq<char>, Map<u8, i64>>;

/// The runs recorded for test `t`; none where the store does not know `t`.
pub open spec fn runs_of(m: Results, t: Seq<char>) -> Map<u8, i64> {
    if m.dom().contains(t) {
        m[t]
    } else {
        Map::empty()
    }
}

/// The store after one more leaf: its exit code stands under its test and
/// patch, in place of an earlier one for the same pair.
pub open spec fn with_leaf(m: Results, leaf: Leaf) -> Results {
    m.insert(leaf.test, runs_of(m, leaf.test).insert(leaf.patch, leaf.result))
}

/// The store that a list of leaves builds, taken in order.
pub open spec fn store_of(leaves: Seq<Leaf>) -> Results
    decreases leaves.len(),
{
    if leaves.len() == 0 {
        Map::empty()
    } else {
        with_leaf(store_of(leaves.drop_last()), leaves.last())
    }
}

/// The leaves that a list of records stands for.
pub open spec fn leaves_of(records: Seq<Test>) -> Seq<Leaf> {
    records.map_values(|t: Test| t@)
}

/// How many patches of `runs` passed: exit code zero.
pub open spec fn passes(runs: Map<u8, i64>) -> nat {
    keys_where(runs, passing()).len()
}

/// How many patches of `runs` failed: exit code other than zero.
pub open spec fn failures(runs: Map<u8, i64>) -> nat {
    keys_where(runs, failing()).len()
}

/// The texts of a sequence of strings.
pub open spec fn texts(names: Seq<String>) -> Seq<Seq<char>> {
    names.map_values(|s: String| s@)
}

/// The store holds `code` for `test` under `patch`.
pub open spec fn holds(m: Results, test: Seq<char>, patch: u8, code: i64) -> bool {
    m.dom().contains(test) && m[test].dom().contains(patch) && m[test][patch] == code
}

/// The (test, patch) pairs for which the store holds an exit code.
pub open spec fn entries(m: Results) -> Set<(Seq<char>, u8)> {
    Set::new(|e: (Seq<char>, u8)| m.dom().contains(e.0) && m[e.0].dom().contains(e.1))
}

/// Two leaves of the same test under the same patch.
pub open spec fn same_run(a: Leaf, b: Leaf) -> bool {
    a.test == b.test && a.patch == b.patch
}

/// No two leaves are of the same test under the same patch.
pub open spec fn distinct_leaves(leaves: Seq<Leaf>) -> bool {
    forall|i: int, j: int| 0 <= i < j < leaves.len() ==> !same_run(leaves[i], leaves[j])
}

/// The (test, patch) pairs that occur among `leaves`.
pub open spec fn leaf_runs(leaves: Seq<Leaf>) -> Set<(Seq<char>, u8)> {
    leaves.map_values(|l: Leaf| (l.test, l.patch)).to_set()
}

/// The test names that occur among `leaves`.
pub open spec fn leaf_tests(leaves: Seq<Leaf>) -> Set<Seq<char>> {
    leaves.map_values(|l: Leaf| l.test).to_set()
}

/// Every test of the store has at least one patch, and there are finitely
/// many tests.
pub open spec fn well_formed(m: Results) -> bool {
    &&& m.dom().finite()
    &&& forall|t: Seq<char>| #[trigger]
        m.dom().contains(t) ==> m[t].dom().finite() && m[t].dom().len() > 0
}

/// One more leaf adds its run to the store and leaves every other run as it
/// was.
pub proof fn lemma_with_leaf(m: Results, leaf: Leaf)
    ensures
        entries(with_leaf(m, leaf)) == entries(m).insert((leaf.test, leaf.patch)),
        with_leaf(m, leaf).dom() == m.dom().insert(leaf.test),
        holds(with_leaf(m, leaf), leaf.test, leaf.patch, leaf.result),
        forall|t: Seq<char>, p: u8, c: i64| #[trigger]
            holds(m, t, p, c) && !(t == leaf.test && p == leaf.patch) ==> holds(
                with_leaf(m, leaf),
                t,
                p,
                c,
            ),
{
}

/// The store holds a run for exactly the (test, patch) pairs of its leaves,
/// and knows exactly their tests.
pub proof fn lemma_store_entries(leaves: Seq<Leaf>)
    ensures
        entries(store_of(leaves)) == leaf_runs(leaves),
        store_of(leaves).dom() == leaf_tests(leaves),
        entries(store_of(leaves)).finite(),
        entries(store_of(leaves)).len() <= leaves.len(),
        well_formed(store_of(leaves)),
    decreases leaves.len(),
{
    let runs = leaves.map_values(|l: Leaf| (l.test, l.patch));
    let tests = leaves.map_values(|l: Leaf| l.test);
    if leaves.len() == 0 {
        assert(runs.to_set() =~= Set::<(Seq<char>, u8)>::empty());
    } else {
        let front = leaves.drop_last();
        let last = leaves.last();
        let m = store_of(front);
        lemma_store_entries(front);
        lemma_with_leaf(m, last);
        let front_runs = front.map_values(|l: Leaf| (l.test, l.patch));
        let front_tests = front.map_values(|l: Leaf| l.test);
        assert(runs =~= front_runs.push((last.test, last.patch)));
        assert(tests =~= front_tests.push(last.test));
        front_runs.lemma_push_to_set_commute((last.test, last.patch));
        front_tests.lemma_push_to_set_commute(last.test);
    }
}

/// A leaf that no later leaf overwrites is what the store holds for its test
/// and patch.
pub proof fn lemma_last_leaf_wins(leaves: Seq<Leaf>, i: int)
    requires
        0 <= i < leaves.len(),
        forall|j: int| i < j < leaves.len() ==> !same_run(leaves[i], leaves[j]),
    ensures
        holds(store_of(leaves), leaves[i].test, leaves[i].patch, leaves[i].result),
    decreases leaves.len(),
{
    let front = leaves.drop_last();
    if i < leaves.len() - 1 {
        lemma_last_leaf_wins(front, i);
    }
}

/// From leaves of which no two are of the same test under the same patch,
/// the store holds exactly one run for each leaf, with that leaf's exit code.
pub proof fn lemma_every_leaf_held(leaves: Seq<Leaf>)
    requires
        distinct_leaves(leaves),
    ensures
        entries(store_of(leaves)).finite(),
        entries(store_of(leaves)).len() == leaves.len(),
        forall|i: int|
            0 <= i < leaves.len() ==> holds(
                store_of(leaves),
                (#[trigger] leaves[i]).test,
                leaves[i].patch,
                leaves[i].result,
            ),
    decreases leaves.len(),
{
    lemma_store_entries(leaves);
    assert forall|i: int| 0 <= i < leaves.len() implies holds(
        store_of(leaves),
        (#[trigger] leaves[i]).test,
        leaves[i].patch,
        leaves[i].result,
    ) by {
        lemma_last_leaf_wins(leaves, i);
    }
    if leaves.len() > 0 {
        let front = leaves.drop_last();
        let last = leaves.last();
        lemma_every_leaf_held(front);
        lemma_store_entries(front);
        lemma_with_leaf(store_of(front), last);
        let front_runs = front.map_values(|l: Leaf| (l.test, l.patch));
        if front_runs.contains((last.test, last.patch)) {
            let i = choose|i: int|
                0 <= i < front_runs.len() && front_runs[i] == (last.test, last.patch);
            assert(same_run(leaves[i], leaves[leaves.len() - 1]));
        }
    }
}

/// Of the patches recorded for a test, those that passed and those that
/// failed are all of them.
pub proof fn lemma_pass_fail_total(runs: Map<u8, i64>)
    ensures
        runs.dom().finite(),
        passes(runs) + failures(runs) == runs.dom().len(),
        passes(runs) <= runs.dom().len(),
{
    <u8 as vstd::set_lib::FiniteFull>::full_properties();
    vstd::set_lib::lemma_set_subset_finite(Set::<u8>::full(), runs.dom());
    let a = keys_where(runs, passing());
    let b = keys_where(runs, failing());
    assert(a + b =~= runs.dom());
    vstd::set_lib::lemma_set_disjoint_lens(a, b);
}

/// The sorted list of test names depends on which leaves there are, not on
/// the order in which they were recorded.
pub proof fn lemma_names_ignore_order(a: Seq<Leaf>, b: Seq<Leaf>)
    requires
        a.to_multiset() == b.to_multiset(),
    ensures
        store_of(a).dom() == store_of(b).dom(),
        sorted_names(store_of(a).dom()) == sorted_names(store_of(b).dom()),
{
    lemma_store_entries(a);
    lemma_store_entries(b);
    lemma_same_tests(a, b);
    lemma_same_tests(b, a);
}

proof fn lemma_same_tests(a: Seq<Leaf>, b: Seq<Leaf>)
    requires
        a.to_multiset() == b.to_multiset(),
    ensures
        leaf_tests(a).subset_of(leaf_tests(b)),
{
    broadcast use vstd::seq_lib::group_to_multiset_ensures;

    let x = a.map_values(|l: Leaf| l.test);
    let y = b.map_values(|l: Leaf| l.test);
    assert forall|t: Seq<char>| x.to_set().contains(t) implies y.to_set().contains(t) by {
        let i = choose|i: int| 0 <= i < x.len() && x[i] == t;
        assert(b.to_multiset().count(a[i]) > 0);
        let j = choose|j: int| 0 <= j < b.len() && b[j] == a[i];
        assert(y[j] == t);
    }
}

} // verus!
