//! Lists of places: what is picked out of a longer list, and in which order.

use crate::unique::{firsts, is_first};
use vstd::prelude::*;

verus! {

/// The places below `n` that are wanted: all of them, each once, in order.
pub open spec fn are_the_places(at: Seq<int>, n: int, wanted: spec_fn(int) -> bool) -> bool {
    &&& forall|k: int| 0 <= k < at.len() ==> 0 <= #[trigger] at[k] < n && wanted(at[k])
    &&& forall|k: int, m: int| 0 <= k < m < at.len() ==> #[trigger] at[k] < #[trigger] at[m]
    &&& forall|i: int| 0 <= i < n && #[trigger] wanted(i) ==> at.contains(i)
}

/// One place more, which is wanted.
pub proof fn lemma_one_wanted(at: Seq<int>, n: int, wanted: spec_fn(int) -> bool)
    requires
        are_the_places(at, n, wanted),
        n >= 0,
    ensures
        wanted(n) ==> are_the_places(at.push(n), n + 1, wanted),
        !wanted(n) ==> are_the_places(at, n + 1, wanted),
{
    if wanted(n) {
        let more = at.push(n);
        assert forall|i: int| 0 <= i < n + 1 && #[trigger] wanted(i) implies more.contains(i) by {
            if i < n {
                let k = choose|k: int| 0 <= k < at.len() && at[k] == i;
                assert(more[k] == i);
            } else {
                assert(more[at.len() as int] == i);
            }
        }
    }
}

/// Two conditions that agree below `n` pick the same places.
pub proof fn lemma_wanted_alike(
    at: Seq<int>,
    n: int,
    wanted: spec_fn(int) -> bool,
    other: spec_fn(int) -> bool,
)
    requires
        are_the_places(at, n, wanted),
        forall|i: int| 0 <= i < n ==> #[trigger] wanted(i) == #[trigger] other(i),
    ensures
        are_the_places(at, n, other),
{
    assert forall|k: int| 0 <= k < at.len() implies 0 <= #[trigger] at[k] < n && other(at[k]) by {
        assert(wanted(at[k]));
    }
    assert forall|i: int| 0 <= i < n && #[trigger] other(i) implies at.contains(i) by {
        assert(wanted(i));
    }
}

/// There is one list of the places that are wanted: two such lists are the same.
pub proof fn law_places_are_listed_in_one_way(
    a: Seq<int>,
    b: Seq<int>,
    n: int,
    wanted: spec_fn(int) -> bool,
)
    requires
        are_the_places(a, n, wanted),
        are_the_places(b, n, wanted),
    ensures
        a == b,
    decreases a.len(),
{
    if a.len() == 0 {
        if b.len() > 0 {
            assert(wanted(b[0]));
            assert(a.contains(b[0]));
        }
        assert(a =~= b);
    } else {
        assert(wanted(a.last()));
        assert(b.contains(a.last()));
        let k = choose|k: int| 0 <= k < b.len() && b[k] == a.last();
        assert(wanted(b.last()));
        assert(a.contains(b.last()));
        let m = choose|m: int| 0 <= m < a.len() && a[m] == b.last();
        if k < b.len() - 1 {
            assert(b[k] < b[b.len() - 1]);
            if m < a.len() - 1 {
                assert(a[m] < a[a.len() - 1]);
            }
            assert(false);
        }
        let last = a.last();
        let c = a.drop_last();
        let d = b.drop_last();
        assert(are_the_places(c, last, wanted)) by {
            lemma_without_last(a, n, wanted);
        }
        assert(are_the_places(d, last, wanted)) by {
            lemma_without_last(b, n, wanted);
        }
        law_places_are_listed_in_one_way(c, d, last, wanted);
        assert(a =~= c.push(last));
        assert(b =~= d.push(last));
    }
}

proof fn lemma_without_last(a: Seq<int>, n: int, wanted: spec_fn(int) -> bool)
    requires
        are_the_places(a, n, wanted),
        a.len() > 0,
    ensures
        are_the_places(a.drop_last(), a.last(), wanted),
{
    let c = a.drop_last();
    assert forall|k: int| 0 <= k < c.len() implies 0 <= #[trigger] c[k] < a.last() && wanted(
        c[k],
    ) by {
        assert(c[k] == a[k]);
        assert(a[k] < a[a.len() - 1]);
    }
    assert forall|k: int, m: int| 0 <= k < m < c.len() implies #[trigger] c[k] < #[trigger] c[m] by {
        assert(c[k] == a[k] && c[m] == a[m]);
    }
    assert forall|i: int| 0 <= i < a.last() && #[trigger] wanted(i) implies c.contains(i) by {
        assert(a[a.len() - 1] < n);
        assert(a.contains(i));
        let k = choose|k: int| 0 <= k < a.len() && a[k] == i;
        assert(c[k] == i);
    }
}

/// No earlier key is the same.
pub open spec fn comes_first(keys: Seq<Seq<char>>) -> spec_fn(int) -> bool {
    |i: int| forall|j: int| 0 <= j < i ==> #[trigger] keys[j] != keys[i]
}

/// Of values with keys the first one under each key is kept, and no other, in
/// the order in which they come.
pub proof fn law_first_of_each_is_kept<T>(values: Seq<T>, keys: Seq<Seq<char>>)
    requires
        values.len() == keys.len(),
    ensures
        exists|at: Seq<int>|
            {
                &&& #[trigger] are_the_places(
                    at,
                    values.len() as int,
                    comes_first(keys),
                )
                &&& firsts(values, keys) == at.map_values(|i: int| values[i])
            },
{
    let at = lemma_first_places(values, keys);
}

proof fn lemma_first_places<T>(values: Seq<T>, keys: Seq<Seq<char>>) -> (at: Seq<int>)
    requires
        values.len() == keys.len(),
    ensures
        are_the_places(
            at,
            values.len() as int,
            comes_first(keys),
        ),
        firsts(values, keys) == at.map_values(|i: int| values[i]),
    decreases values.len(),
{
    let wanted = comes_first(keys);
    if values.len() == 0 {
        let at = Seq::<int>::empty();
        assert(firsts(values, keys) =~= at.map_values(|i: int| values[i]));
        at
    } else {
        let n = values.len() - 1;
        let a = values.drop_last();
        let b = keys.drop_last();
        let shorter = lemma_first_places(a, b);
        let narrow = comes_first(b);
        assert forall|i: int| 0 <= i < n implies #[trigger] narrow(i) == #[trigger] wanted(i) by {
            assert(b[i] == keys[i]);
            if narrow(i) {
                assert forall|j: int| 0 <= j < i implies #[trigger] keys[j] != keys[i] by {
                    assert(b[j] == keys[j]);
                }
            }
            if wanted(i) {
                assert forall|j: int| 0 <= j < i implies #[trigger] b[j] != b[i] by {
                    assert(b[j] == keys[j]);
                }
            }
        }
        lemma_wanted_alike(shorter, n, narrow, wanted);
        lemma_one_wanted(shorter, n, wanted);
        assert(is_first(keys, n) == wanted(n));
        assert(firsts(a, b) == shorter.map_values(|i: int| a[i]));
        if wanted(n) {
            let at = shorter.push(n);
            assert(firsts(values, keys) =~= at.map_values(|i: int| values[i]));
            at
        } else {
            assert(firsts(values, keys) =~= shorter.map_values(|i: int| values[i]));
            shorter
        }
    }
}

} // verus!
