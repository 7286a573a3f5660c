//! Keeping the first of several values with one key.

use crate::text::views;
use vstd::hash_set::StringHashSet;
use vstd::prelude::*;

verus! {

/// No key before `i` equals the one at `i`.
pub open spec fn is_first(keys: Seq<Seq<char>>, i: int) -> bool {
    forall|j: int| 0 <= j < i ==> #[trigger] keys[j] != keys[i]
}

/// The values whose key no earlier value has, in order.
pub open spec fn firsts<T>(values: Seq<T>, keys: Seq<Seq<char>>) -> Seq<T>
    decreases values.len(),
{
    if values.len() == 0 {
        Seq::empty()
    } else {
        let before = firsts(values.drop_last(), keys.drop_last());
        if is_first(keys, values.len() - 1) {
            before.push(values.last())
        } else {
            before
        }
    }
}

/// For each key, whether it is the first of its kind.
pub fn mark_firsts(keys: &Vec<String>) -> (r: Vec<bool>)
    ensures
        r@.len() == keys@.len(),
        forall|i: int| 0 <= i < r@.len() ==> #[trigger] r@[i] == is_first(views(keys@), i),
{
    let ghost all = views(keys@);
    let mut seen = StringHashSet::new();
    let mut marks: Vec<bool> = Vec::new();
    let mut i: usize = 0;
    while i < keys.len()
        invariant
            i <= keys@.len(),
            all == views(keys@),
            marks@.len() == i,
            forall|j: int| 0 <= j < i ==> seen@.contains(#[trigger] all[j]),
            forall|k: Seq<char>|
                seen@.contains(k) ==> exists|j: int| 0 <= j < i && #[trigger] all[j] == k,
            forall|j: int| 0 <= j < i ==> #[trigger] marks@[j] == is_first(all, j),
        decreases keys@.len() - i,
    {
        assert(all[i as int] == keys@[i as int]@);
        let known = seen.contains(keys[i].as_str());
        assert(known == !is_first(all, i as int));
        let ghost before = seen@;
        seen.insert(keys[i].clone());
        assert forall|k: Seq<char>| seen@.contains(k) implies exists|j: int|
            0 <= j < i + 1 && #[trigger] all[j] == k by {
            if before.contains(k) {
                let j = choose|j: int| 0 <= j < i && #[trigger] all[j] == k;
                assert(0 <= j < i + 1 && all[j] == k);
            } else {
                assert(all[i as int] == k);
            }
        }
        marks.push(!known);
        i += 1;
    }
    marks
}

/// What one more value adds to the first ones.
pub proof fn lemma_firsts_step<T>(values: Seq<T>, keys: Seq<Seq<char>>, i: int)
    requires
        0 <= i < values.len() == keys.len(),
    ensures
        firsts(values.take(i + 1), keys.take(i + 1)) == if is_first(keys, i) {
            firsts(values.take(i), keys.take(i)).push(values[i])
        } else {
            firsts(values.take(i), keys.take(i))
        },
{
    let v = values.take(i + 1);
    let k = keys.take(i + 1);
    assert(v.drop_last() == values.take(i));
    assert(k.drop_last() == keys.take(i));
    assert(v.last() == values[i]);
    assert(is_first(k, i) == is_first(keys, i)) by {
        assert(forall|j: int| 0 <= j <= i ==> #[trigger] k[j] == keys[j]);
        if is_first(k, i) {
            assert forall|j: int| 0 <= j < i implies #[trigger] keys[j] != keys[i] by {
                assert(k[j] == keys[j]);
            }
        }
    }
}

/// Of several values with one key exactly one stays: the keys of the values
/// that stay are pairwise different, and every key of the list is among them.
pub proof fn law_firsts_are_unique(keys: Seq<Seq<char>>)
    ensures
        forall|i: int, j: int|
            0 <= i < j < firsts(keys, keys).len() ==> #[trigger] firsts(keys, keys)[i]
                != #[trigger] firsts(keys, keys)[j],
        forall|i: int|
            0 <= i < keys.len() ==> firsts(keys, keys).contains(#[trigger] keys[i]),
        forall|k: Seq<char>| firsts(keys, keys).contains(k) ==> keys.contains(k),
    decreases keys.len(),
{
    if keys.len() > 0 {
        let shorter = keys.drop_last();
        let before = firsts(shorter, shorter);
        let all = firsts(keys, keys);
        let last = keys.last();
        law_firsts_are_unique(shorter);
        assert(forall|j: int| 0 <= j < keys.len() - 1 ==> #[trigger] shorter[j] == keys[j]);
        if is_first(keys, keys.len() - 1) {
            assert(all == before.push(last));
            assert forall|i: int, j: int| 0 <= i < j < all.len() implies #[trigger] all[i]
                != #[trigger] all[j] by {
                if j == all.len() - 1 {
                    assert(before.contains(before[i]));
                    assert(shorter.contains(before[i]));
                    let at = choose|at: int| 0 <= at < shorter.len() && shorter[at] == before[i];
                    assert(keys[at] == before[i]);
                } else {
                    assert(before[i] != before[j]);
                }
            }
        } else {
            assert(all == before);
            let at = choose|at: int| 0 <= at < keys.len() - 1 && #[trigger] keys[at] == last;
            assert(shorter[at] == last);
        }
        assert forall|i: int| 0 <= i < keys.len() implies all.contains(#[trigger] keys[i]) by {
            if i < keys.len() - 1 {
                assert(before.contains(shorter[i]));
                let at = choose|at: int| 0 <= at < before.len() && before[at] == shorter[i];
                assert(all[at] == keys[i]);
            } else if is_first(keys, i) {
                assert(all[all.len() - 1] == keys[i]);
            } else {
                let at = choose|at: int| 0 <= at < keys.len() - 1 && #[trigger] keys[at] == last;
                assert(before.contains(shorter[at]));
            }
        }
        assert forall|k: Seq<char>| all.contains(k) implies keys.contains(k) by {
            let at = choose|at: int| 0 <= at < all.len() && all[at] == k;
            if at < before.len() {
                assert(before[at] == k);
                assert(before.contains(k));
                assert(shorter.contains(k));
                let j = choose|j: int| 0 <= j < shorter.len() && shorter[j] == k;
                assert(keys[j] == k);
            } else {
                assert(keys[keys.len() - 1] == k);
            }
        }
    }
}

/// The texts of `values` that are not blank, each only where it first stands.
pub open spec fn distinct_texts(values: Seq<Seq<char>>) -> Seq<Seq<char>> {
    firsts(spoken(values), spoken(values))
}

/// The texts that are not blank.
pub open spec fn spoken(values: Seq<Seq<char>>) -> Seq<Seq<char>>
    decreases values.len(),
{
    if values.len() == 0 {
        Seq::empty()
    } else if crate::text::trim(values.last()).len() == 0 {
        spoken(values.drop_last())
    } else {
        spoken(values.drop_last()).push(values.last())
    }
}

/// The texts of `values` that are not blank, each only where it first stands.
pub fn unique_strings(values: &Vec<String>) -> (r: Vec<String>)
    ensures
        views(r@) == distinct_texts(views(values@)),
{
    let ghost all = views(values@);
    let mut full: Vec<String> = Vec::new();
    let mut i: usize = 0;
    while i < values.len()
        invariant
            i <= values@.len(),
            all == views(values@),
            views(full@) == spoken(all.take(i as int)),
        decreases values@.len() - i,
    {
        assert(all[i as int] == values@[i as int]@);
        assert(all.take(i + 1).drop_last() == all.take(i as int));
        let bare = crate::text::trimmed(values[i].as_str());
        let ghost before = full@;
        if !bare.as_str().is_empty() {
            full.push(values[i].clone());
            assert(views(full@) == views(before).push(all[i as int]));
        }
        i += 1;
    }
    assert(all.take(i as int) == all);
    let marks = mark_firsts(&full);
    let ghost texts = views(full@);
    let mut out: Vec<String> = Vec::new();
    let mut k: usize = 0;
    assert(views(out@) == Seq::<Seq<char>>::empty());
    while k < full.len()
        invariant
            k <= full@.len() == marks@.len(),
            texts == views(full@),
            forall|j: int| 0 <= j < marks@.len() ==> #[trigger] marks@[j] == is_first(texts, j),
            views(out@) == firsts(texts.take(k as int), texts.take(k as int)),
        decreases full@.len() - k,
    {
        proof {
            lemma_firsts_step(texts, texts, k as int);
        }
        assert(texts[k as int] == full@[k as int]@);
        let ghost before = out@;
        if marks[k] {
            out.push(full[k].clone());
            assert(views(out@) == views(before).push(texts[k as int]));
        }
        k += 1;
    }
    assert(texts.take(k as int) == texts);
    out
}

} // verus!
