//! Entries in ascending order of their keys, each key once.
use crate::text;
use vstd::prelude::*;

verus! {

/// The keys of a list of entries.
pub open spec fn keys<V>(list: Seq<(Seq<char>, V)>) -> Seq<Seq<char>> {
    list.map_values(|e: (Seq<char>, V)| e.0)
}

/// Giving another value to a key leaves every other entry as it was.
pub proof fn lemma_updated<V>(before: Seq<(Seq<char>, V)>, i: int, k: Seq<char>, v: V)
    requires
        0 <= i < before.len(),
        text::ascending(keys(before)),
        before[i].0 == k,
    ensures
        forall|e: (Seq<char>, V)|
            before.update(i, (k, v)).contains(e) <==> (if e.0 == k {
                e.1 == v
            } else {
                before.contains(e)
            }),
{
    let after = before.update(i, (k, v));
    let names = keys(before);
    assert forall|e: (Seq<char>, V)|
        after.contains(e) <==> (if e.0 == k {
            e.1 == v
        } else {
            before.contains(e)
        }) by {
        text::lemma_precedes_irreflexive(k);
        assert(after[i] == (k, v));
        if after.contains(e) {
            let j = choose|j: int| 0 <= j < after.len() && after[j] == e;
            if j != i {
                assert(before[j] == e);
                assert(names[i] == k);
                assert(names[j] == e.0);
                assert(e.0 != k);
            }
        }
        if e.0 != k && before.contains(e) {
            let j = choose|j: int| 0 <= j < before.len() && before[j] == e;
            assert(after[j] == e);
        }
    }
}

/// A new key in its place keeps the order, and leaves every other entry as it was.
pub proof fn lemma_inserted<V>(before: Seq<(Seq<char>, V)>, i: int, k: Seq<char>, v: V)
    requires
        0 <= i <= before.len(),
        text::ascending(keys(before)),
        forall|j: int| 0 <= j < i ==> text::precedes(#[trigger] keys(before)[j], k),
        i < before.len() ==> text::precedes(k, keys(before)[i]),
    ensures
        text::ascending(keys(before.insert(i, (k, v)))),
        forall|e: (Seq<char>, V)|
            before.insert(i, (k, v)).contains(e) <==> (if e.0 == k {
                e.1 == v
            } else {
                before.contains(e)
            }),
{
    let after = before.insert(i, (k, v));
    let names = keys(before);
    let next = keys(after);
    assert(next == names.insert(i, k));
    assert forall|j: int| i <= j < names.len() implies text::precedes(k, #[trigger] names[j]) by {
        if j > i {
            assert(text::precedes(names[i], names[j]));
            text::lemma_precedes_transitive(k, names[i], names[j]);
        }
    }
    assert forall|a: int, b: int| 0 <= a < b < next.len() implies text::precedes(
        #[trigger] next[a],
        #[trigger] next[b],
    ) by {
        if a < i && b < i {
            assert(text::precedes(names[a], names[b]));
        } else if a < i && b > i {
            assert(text::precedes(names[a], names[b - 1]));
        } else if a > i {
            assert(text::precedes(names[a - 1], names[b - 1]));
        } else if a == i {
            assert(text::precedes(k, names[b - 1]));
        } else {
            assert(text::precedes(names[a], k));
        }
    }
    assert forall|e: (Seq<char>, V)|
        after.contains(e) <==> (if e.0 == k {
            e.1 == v
        } else {
            before.contains(e)
        }) by {
        text::lemma_precedes_irreflexive(k);
        assert(after[i] == (k, v));
        if after.contains(e) {
            let j = choose|j: int| 0 <= j < after.len() && after[j] == e;
            if j < i {
                assert(before[j] == e);
                assert(names[j] == e.0);
                assert(e.0 != k);
            } else if j > i {
                assert(before[j - 1] == e);
                assert(names[j - 1] == e.0);
                assert(e.0 != k);
            }
        }
        if e.0 != k && before.contains(e) {
            let j = choose|j: int| 0 <= j < before.len() && before[j] == e;
            if j < i {
                assert(after[j] == e);
            } else {
                assert(after[j + 1] == e);
            }
        }
    }
}

} // verus!
