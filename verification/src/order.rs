//! The two sorted listings of a result store: test names in lexicographic
//! order, and patch ids in the lexicographic order of their decimal text
//! (so 10 comes before 2, as it does on the tab strip).

use crate::text::{
    ascending, decimal, decimal_text, digit_char, lemma_before_asymmetric, lemma_before_irreflexive,
    lemma_before_total, lemma_before_transitive, precedes, text_before,
};
use vstd::prelude::*;

verus! {

/// Patch `p` comes before patch `q`: the decimal text of `p` comes before
/// that of `q`.
pub open spec fn patch_before(p: u8, q: u8) -> bool {
    text_before(decimal(p as nat), decimal(q as nat))
}

/// The decimal texts of a sequence of patch ids.
pub open spec fn patch_texts(ps: Seq<u8>) -> Seq<Seq<char>> {
    ps.map_values(|p: u8| decimal(p as nat))
}

/// A sequence of patch ids in strictly ascending text order.
pub open spec fn patches_ascending(ps: Seq<u8>) -> bool {
    forall|i: int, j: int| 0 <= i < j < ps.len() ==> patch_before(ps[i], ps[j])
}

/// The names of `names` in strictly ascending lexicographic order.
pub open spec fn sorted_names(names: Set<Seq<char>>) -> Seq<Seq<char>> {
    choose|s: Seq<Seq<char>>| ascending(s) && s.to_set() == names
}

/// The patch ids of `ps` in strictly ascending text order.
pub open spec fn sorted_patches(ps: Set<u8>) -> Seq<u8> {
    choose|s: Seq<u8>| patches_ascending(s) && s.to_set() == ps
}

/// An ascending sequence holds no name twice.
pub proof fn lemma_ascending_distinct(s: Seq<Seq<char>>)
    requires
        ascending(s),
    ensures
        s.no_duplicates(),
{
    assert forall|i: int, j: int| 0 <= i < s.len() && 0 <= j < s.len() && i != j implies s[i]
        != s[j] by {
        if s[i] == s[j] {
            lemma_before_irreflexive(s[i]);
        }
    }
}

/// Two ascending sequences over the same set of names are the same sequence.
pub proof fn lemma_ascending_unique(a: Seq<Seq<char>>, b: Seq<Seq<char>>)
    requires
        ascending(a),
        ascending(b),
        a.to_set() == b.to_set(),
    ensures
        a == b,
    decreases a.len(),
{
    if a.len() == 0 {
        if b.len() > 0 {
            assert(b.to_set().contains(b[0]));
        }
    } else {
        assert(a.to_set().contains(a[0]));
        let j = choose|j: int| 0 <= j < b.len() && b[j] == a[0];
        assert(b.to_set().contains(b[0]));
        let i = choose|i: int| 0 <= i < a.len() && a[i] == b[0];
        if j > 0 {
            if i > 0 {
                lemma_before_asymmetric(a[0], b[0]);
            }
        }
        let x = a.drop_first();
        let y = b.drop_first();
        assert forall|n: Seq<char>| x.to_set().contains(n) == y.to_set().contains(n) by {
            if x.contains(n) {
                let p = choose|p: int| 0 <= p < x.len() && x[p] == n;
                lemma_before_irreflexive(a[0]);
                assert(a.to_set().contains(a[p + 1]));
                let q = choose|q: int| 0 <= q < b.len() && b[q] == n;
                assert(y[q - 1] == n);
            }
            if y.contains(n) {
                let q = choose|q: int| 0 <= q < y.len() && y[q] == n;
                lemma_before_irreflexive(b[0]);
                assert(b.to_set().contains(b[q + 1]));
                let p = choose|p: int| 0 <= p < a.len() && a[p] == n;
                assert(x[p - 1] == n);
            }
        }
        assert(x.to_set() =~= y.to_set());
        lemma_ascending_unique(x, y);
        assert(b =~= seq![b[0]] + y);
    }
}

/// The ascending listing of the names of an ascending sequence is that
/// sequence.
pub proof fn lemma_sorted_names_of(s: Seq<Seq<char>>)
    requires
        ascending(s),
    ensures
        sorted_names(s.to_set()) == s,
{
    let t = sorted_names(s.to_set());
    lemma_ascending_unique(t, s);
}

/// A name that is not in an ascending sequence has its place in it.
proof fn lemma_place(s: Seq<Seq<char>>, x: Seq<char>) -> (pos: int)
    requires
        ascending(s),
        !s.contains(x),
    ensures
        0 <= pos <= s.len(),
        ascending(s.insert(pos, x)),
        s.insert(pos, x).to_set() == s.to_set().insert(x),
    decreases s.len(),
{
    let pos = if s.len() == 0 {
        0
    } else {
        let last = s.last();
        lemma_before_total(last, x);
        if text_before(last, x) {
            assert forall|j: int| 0 <= j < s.len() implies text_before(s[j], x) by {
                if j < s.len() - 1 {
                    lemma_before_transitive(s[j], last, x);
                }
            }
            s.len() as int
        } else {
            let front = s.drop_last();
            let at = lemma_place(front, x);
            let t = front.insert(at, x);
            assert(s.insert(at, x) =~= t.push(last));
            at
        }
    };
    let w = s.insert(pos, x);
    assert forall|n: Seq<char>| w.to_set().contains(n) == s.to_set().insert(x).contains(n) by {
        if n == x {
            assert(w[pos] == x);
        }
        if s.contains(n) {
            let a = choose|a: int| 0 <= a < s.len() && s[a] == n;
            let i = if a < pos { a } else { a + 1 };
            assert(w[i] == n);
        }
    }
    pos
}

/// Every finite set of names has its ascending listing, which holds each
/// name of the set once.
pub proof fn lemma_sorted_names(names: Set<Seq<char>>)
    requires
        names.finite(),
    ensures
        ascending(sorted_names(names)),
        sorted_names(names).to_set() == names,
        sorted_names(names).len() == names.len(),
        forall|i: int|
            0 <= i < sorted_names(names).len() ==> names.contains(
                #[trigger] sorted_names(names)[i],
            ),
    decreases names.len(),
{
    if names.len() == 0 {
        let w = Seq::<Seq<char>>::empty();
        assert(ascending(w) && w.to_set() == names);
    } else {
        let x = names.choose();
        let rest = names.remove(x);
        lemma_sorted_names(rest);
        let s = sorted_names(rest);
        let pos = lemma_place(s, x);
    }
    let t = sorted_names(names);
    lemma_ascending_distinct(t);
    t.unique_seq_to_set();
}

/// Different numbers have different decimal texts.
pub proof fn lemma_decimal_injective(a: nat, b: nat)
    requires
        decimal(a) == decimal(b),
    ensures
        a == b,
    decreases a,
{
    lemma_decimal_length(b);
    if a >= 10 {
        let x = decimal(a / 10);
        let y = decimal(b / 10);
        let c = digit_char((a % 10) as int);
        let d = digit_char((b % 10) as int);
        assert(x.push(c).drop_last() =~= x);
        assert(y.push(d).drop_last() =~= y);
        assert(y.push(d).last() == d);
        lemma_decimal_injective(a / 10, b / 10);
    } else {
        let d = digit_char(b as int);
        assert(seq![d][0] == d);
    }
}

/// A number below ten is written with one digit, any other with more.
proof fn lemma_decimal_length(n: nat)
    ensures
        n < 10 <==> decimal(n).len() == 1,
        decimal(n).len() >= 1,
    decreases n,
{
    if n >= 10 {
        lemma_decimal_length(n / 10);
    }
}

/// A patch never comes before itself.
pub proof fn lemma_patch_before_differs(p: u8, q: u8)
    requires
        patch_before(p, q),
    ensures
        p != q,
{
}

/// Any two different patches are ordered one way or the other.
pub proof fn lemma_patch_total(p: u8, q: u8)
    ensures
        p == q || patch_before(p, q) || patch_before(q, p),
{
    lemma_before_total(decimal(p as nat), decimal(q as nat));
    if decimal(p as nat) == decimal(q as nat) {
        lemma_decimal_injective(p as nat, q as nat);
    }
}

/// A patch id that is not in an ascending sequence has its place in it.
proof fn lemma_place_patch(s: Seq<u8>, x: u8) -> (pos: int)
    requires
        patches_ascending(s),
        !s.contains(x),
    ensures
        0 <= pos <= s.len(),
        patches_ascending(s.insert(pos, x)),
        s.insert(pos, x).to_set() == s.to_set().insert(x),
    decreases s.len(),
{
    let pos = if s.len() == 0 {
        0
    } else {
        let last = s.last();
        lemma_patch_total(last, x);
        if patch_before(last, x) {
            assert forall|j: int| 0 <= j < s.len() implies patch_before(s[j], x) by {
                if j < s.len() - 1 {
                    assert(patch_before(s[j], s[s.len() - 1]));
                    lemma_before_transitive(
                        decimal(s[j] as nat),
                        decimal(last as nat),
                        decimal(x as nat),
                    );
                }
            }
            s.len() as int
        } else {
            let front = s.drop_last();
            let at = lemma_place_patch(front, x);
            let t = front.insert(at, x);
            assert(s.insert(at, x) =~= t.push(last));
            at
        }
    };
    let w = s.insert(pos, x);
    assert forall|n: u8| w.to_set().contains(n) == s.to_set().insert(x).contains(n) by {
        if n == x {
            assert(w[pos] == x);
        }
        if s.contains(n) {
            let a = choose|a: int| 0 <= a < s.len() && s[a] == n;
            let i = if a < pos { a } else { a + 1 };
            assert(w[i] == n);
        }
    }
    pos
}

/// Every set of patch ids has its ascending listing, which holds each id of
/// the set once.
pub proof fn lemma_sorted_patches(ps: Set<u8>)
    ensures
        ps.finite(),
        patches_ascending(sorted_patches(ps)),
        sorted_patches(ps).to_set() == ps,
        sorted_patches(ps).len() == ps.len(),
    decreases ps.len(),
{
    <u8 as vstd::set_lib::FiniteFull>::full_properties();
    vstd::set_lib::lemma_set_subset_finite(Set::<u8>::full(), ps);
    if ps.len() == 0 {
        let w = Seq::<u8>::empty();
        assert(patches_ascending(w) && w.to_set() == ps);
    } else {
        let x = ps.choose();
        let rest = ps.remove(x);
        lemma_sorted_patches(rest);
        let s = sorted_patches(rest);
        let pos = lemma_place_patch(s, x);
    }
    let t = sorted_patches(ps);
    assert forall|i: int, j: int| 0 <= i < t.len() && 0 <= j < t.len() && i != j implies t[i]
        != t[j] by {
        if i < j {
            lemma_patch_before_differs(t[i], t[j]);
        } else {
            lemma_patch_before_differs(t[j], t[i]);
        }
    }
    t.unique_seq_to_set();
}

/// Two ascending sequences over the same set of patch ids are the same
/// sequence.
pub proof fn lemma_patches_unique(a: Seq<u8>, b: Seq<u8>)
    requires
        patches_ascending(a),
        patches_ascending(b),
        a.to_set() == b.to_set(),
    ensures
        a == b,
{
    let x = patch_texts(a);
    let y = patch_texts(b);
    assert forall|i: int, j: int| 0 <= i < j < x.len() implies text_before(x[i], x[j]) by {
        assert(patch_before(a[i], a[j]));
    }
    assert forall|i: int, j: int| 0 <= i < j < y.len() implies text_before(y[i], y[j]) by {
        assert(patch_before(b[i], b[j]));
    }
    assert forall|n: Seq<char>| x.to_set().contains(n) == y.to_set().contains(n) by {
        if x.contains(n) {
            let p = choose|p: int| 0 <= p < x.len() && x[p] == n;
            assert(a.to_set().contains(a[p]));
            let q = choose|q: int| 0 <= q < b.len() && b[q] == a[p];
            assert(y[q] == n);
        }
        if y.contains(n) {
            let q = choose|q: int| 0 <= q < y.len() && y[q] == n;
            assert(b.to_set().contains(b[q]));
            let p = choose|p: int| 0 <= p < a.len() && a[p] == b[q];
            assert(x[p] == n);
        }
    }
    assert(x.to_set() =~= y.to_set());
    lemma_ascending_unique(x, y);
    assert forall|i: int| 0 <= i < a.len() implies a[i] == b[i] by {
        assert(x[i] == y[i]);
        lemma_decimal_injective(a[i] as nat, b[i] as nat);
    }
}

/// The ascending listing of the ids of an ascending sequence is that
/// sequence.
pub proof fn lemma_sorted_patches_of(s: Seq<u8>)
    requires
        patches_ascending(s),
    ensures
        sorted_patches(s.to_set()) == s,
{
    let t = sorted_patches(s.to_set());
    lemma_patches_unique(t, s);
}

/// Decides whether patch `p` comes before patch `q` on the tab strip.
pub fn patch_precedes(p: u8, q: u8) -> (r: bool)
    ensures
        r == patch_before(p, q),
{
    let a = decimal_text(p as u64);
    let b = decimal_text(q as u64);
    precedes(a.as_str(), b.as_str())
}

} // verus!
