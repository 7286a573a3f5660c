//! Putting rows in order by keys.

use crate::order::{comes_before, lemma_order, lemma_order_chain, text_before};
use vstd::prelude::*;
use vstd::utf8::{encode_utf8, encode_utf8_decode_utf8};

verus! {

/// What a row is ordered by: a number that may be missing, and comes first
/// where it is; a number; a text; a number; a text.
#[derive(Debug, Clone, PartialEq, Eq)]
pub struct SortKey {
    pub group: Option<i64>,
    pub rank: i64,
    pub name: String,
    pub id: i64,
    pub text_id: String,
}

/// What a [`SortKey`] holds.
pub struct KeyView {
    pub group: Option<i64>,
    pub rank: i64,
    pub name: Seq<char>,
    pub id: i64,
    pub text_id: Seq<char>,
}

impl View for SortKey {
    type V = KeyView;

    open spec fn view(&self) -> KeyView {
        KeyView {
            group: self.group,
            rank: self.rank,
            name: self.name@,
            id: self.id,
            text_id: self.text_id@,
        }
    }
}

/// What the keys of a list hold.
pub open spec fn key_views(list: Seq<SortKey>) -> Seq<KeyView> {
    Seq::new(list.len(), |i: int| list[i]@)
}

/// An optional number comes before another: nothing comes before everything.
pub open spec fn group_before(a: Option<i64>, b: Option<i64>) -> bool {
    match (a, b) {
        (None, Some(_)) => true,
        (Some(x), Some(y)) => x < y,
        _ => false,
    }
}

/// The key `a` comes before the key `b`.
pub open spec fn key_before(a: KeyView, b: KeyView) -> bool {
    if a.group != b.group {
        group_before(a.group, b.group)
    } else if a.rank != b.rank {
        a.rank < b.rank
    } else if a.name != b.name {
        text_before(a.name, b.name)
    } else if a.id != b.id {
        a.id < b.id
    } else {
        text_before(a.text_id, b.text_id)
    }
}

/// Whether the key `a` comes before the key `b`.
pub fn comes_first(a: &SortKey, b: &SortKey) -> (r: bool)
    ensures
        r == key_before(a@, b@),
{
    let (same_group, group_first) = match (a.group, b.group) {
        (None, None) => (true, false),
        (None, Some(_)) => (false, true),
        (Some(_), None) => (false, false),
        (Some(x), Some(y)) => (x == y, x < y),
    };
    if !same_group {
        return group_first;
    }
    if a.rank != b.rank {
        return a.rank < b.rank;
    }
    if !crate::text::same(a.name.as_str(), b.name.as_str()) {
        return comes_before(a.name.as_str(), b.name.as_str());
    }
    if a.id != b.id {
        return a.id < b.id;
    }
    comes_before(a.text_id.as_str(), b.text_id.as_str())
}

/// Where the row at `row` goes among rows that are in order: behind all that do
/// not come after it.
pub open spec fn key_place(keys: Seq<KeyView>, order: Seq<int>, row: int) -> int
    decreases order.len(),
{
    if order.len() == 0 {
        0
    } else if key_before(keys[row], keys[order.last()]) {
        key_place(keys, order.drop_last(), row)
    } else {
        order.len() as int
    }
}

/// The places of the first `count` rows in the order of their keys; rows with
/// one key as they were.
pub open spec fn ordered(keys: Seq<KeyView>, count: nat) -> Seq<int>
    decreases count,
{
    if count == 0 {
        Seq::empty()
    } else {
        let before = ordered(keys, (count - 1) as nat);
        before.insert(key_place(keys, before, count - 1), count - 1)
    }
}

/// The places of all rows in the order of their keys.
pub open spec fn in_key_order(keys: Seq<KeyView>) -> Seq<int> {
    ordered(keys, keys.len())
}

/// The places in a list.
pub open spec fn place_list(list: Seq<usize>) -> Seq<int> {
    Seq::new(list.len(), |i: int| list[i] as int)
}

/// The places of all rows in the order of `keys`.
pub fn sort_by_keys(keys: &Vec<SortKey>) -> (r: Vec<usize>)
    ensures
        place_list(r@) == in_key_order(key_views(keys@)),
        r@.len() == keys@.len(),
        forall|j: int| 0 <= j < r@.len() ==> #[trigger] r@[j] < keys@.len(),
{
    let ghost all = key_views(keys@);
    let mut order: Vec<usize> = Vec::new();
    let mut i: usize = 0;
    assert(place_list(order@) == Seq::<int>::empty());
    while i < keys.len()
        invariant
            i <= keys@.len(),
            all == key_views(keys@),
            order@.len() == i,
            forall|j: int| 0 <= j < order@.len() ==> #[trigger] order@[j] < i,
            place_list(order@) == ordered(all, i as nat),
        decreases keys@.len() - i,
    {
        let ghost before = place_list(order@);
        let ghost old_order = order@;
        let mut k: usize = order.len();
        assert(before.take(k as int) == before);
        while k > 0 && comes_first(&keys[i], &keys[order[k - 1]])
            invariant
                k <= order@.len(),
                i < keys@.len(),
                all == key_views(keys@),
                before == place_list(order@),
                forall|j: int| 0 <= j < order@.len() ==> #[trigger] order@[j] < i,
                key_place(all, before, i as int) == key_place(
                    all,
                    before.take(k as int),
                    i as int,
                ),
            decreases k,
        {
            assert(before.take(k as int).last() == order@[k - 1] as int);
            assert(before.take(k as int).drop_last() == before.take(k - 1));
            assert(all[order@[k - 1] as int] == keys@[order@[k - 1] as int]@);
            k -= 1;
        }
        assert(k > 0 ==> before.take(k as int).last() == order@[k - 1] as int);
        order.insert(k, i);
        assert(place_list(order@) == before.insert(k as int, i as int));
        assert forall|j: int| 0 <= j < order@.len() implies #[trigger] order@[j] < i + 1 by {
            if j < k {
                assert(order@[j] == old_order[j]);
            } else if j > k {
                assert(order@[j] == old_order[j - 1]);
            }
        }
        i += 1;
    }
    order
}

proof fn lemma_key_place(keys: Seq<KeyView>, order: Seq<int>, row: int)
    ensures
        0 <= key_place(keys, order, row) <= order.len(),
    decreases order.len(),
{
    if order.len() > 0 {
        lemma_key_place(keys, order.drop_last(), row);
    }
}

/// Putting rows in order gives each row a place: none is lost and none stands
/// twice.
pub proof fn law_ordered_is_complete(keys: Seq<KeyView>, count: nat)
    ensures
        ordered(keys, count).len() == count,
        forall|row: int| 0 <= row < count ==> ordered(keys, count).contains(row),
        forall|j: int| 0 <= j < count ==> 0 <= #[trigger] ordered(keys, count)[j] < count,
        ordered(keys, count).no_duplicates(),
    decreases count,
{
    if count > 0 {
        let shorter = (count - 1) as nat;
        let before = ordered(keys, shorter);
        let all = ordered(keys, count);
        law_ordered_is_complete(keys, shorter);
        lemma_key_place(keys, before, count - 1);
        let place = key_place(keys, before, count - 1);
        assert(all == before.insert(place, count - 1));
        assert forall|row: int| 0 <= row < count implies all.contains(row) by {
            if row == count - 1 {
                assert(all[place] == row);
            } else {
                assert(before.contains(row));
                let k = choose|k: int| 0 <= k < before.len() && before[k] == row;
                if k < place {
                    assert(all[k] == row);
                } else {
                    assert(all[k + 1] == row);
                }
            }
        }
        assert forall|j: int| 0 <= j < count implies 0 <= #[trigger] all[j] < count by {
            if j < place {
                assert(all[j] == before[j]);
            } else if j > place {
                assert(all[j] == before[j - 1]);
            }
        }
        assert forall|i: int, j: int|
            0 <= i < all.len() && 0 <= j < all.len() && i != j implies all[i] != all[j] by {
            let x = if i < place {
                i
            } else {
                i - 1
            };
            let y = if j < place {
                j
            } else {
                j - 1
            };
            if i != place && j != place {
                assert(all[i] == before[x] && all[j] == before[y]);
                assert(before[x] != before[y]);
            } else if i != place {
                assert(all[i] == before[x] && all[j] == count - 1);
            } else {
                assert(all[j] == before[y] && all[i] == count - 1);
            }
        }
    }
}

proof fn lemma_text_order(a: Seq<char>, b: Seq<char>)
    ensures
        !(text_before(a, b) && text_before(b, a)),
        a == b ==> !text_before(a, b),
        a != b ==> text_before(a, b) || text_before(b, a),
{
    lemma_order(encode_utf8(a), encode_utf8(b));
    lemma_order(encode_utf8(b), encode_utf8(a));
    encode_utf8_decode_utf8(a);
    encode_utf8_decode_utf8(b);
}

proof fn lemma_text_chain(a: Seq<char>, b: Seq<char>, c: Seq<char>)
    requires
        text_before(a, b),
        text_before(b, c),
    ensures
        text_before(a, c),
{
    lemma_order_chain(encode_utf8(a), encode_utf8(b), encode_utf8(c));
}

/// Of two keys at most one comes before the other, and of two that differ one
/// does.
pub proof fn lemma_key_order(a: KeyView, b: KeyView)
    ensures
        !(key_before(a, b) && key_before(b, a)),
        a != b ==> key_before(a, b) || key_before(b, a),
{
    lemma_text_order(a.name, b.name);
    lemma_text_order(a.text_id, b.text_id);
}

proof fn lemma_key_chain(a: KeyView, b: KeyView, c: KeyView)
    requires
        key_before(a, b),
        key_before(b, c),
    ensures
        key_before(a, c),
{
    if a.name != b.name && b.name != c.name && text_before(a.name, b.name) && text_before(
        b.name,
        c.name,
    ) {
        lemma_text_chain(a.name, b.name, c.name);
        lemma_text_order(a.name, c.name);
    }
    if text_before(a.text_id, b.text_id) && text_before(b.text_id, c.text_id) {
        lemma_text_chain(a.text_id, b.text_id, c.text_id);
    }
}

proof fn lemma_key_not_before(a: KeyView, b: KeyView, c: KeyView)
    requires
        !key_before(b, a),
        !key_before(c, b),
    ensures
        !key_before(c, a),
{
    lemma_key_order(a, b);
    lemma_key_order(b, c);
    lemma_key_order(c, a);
    if key_before(c, a) && a != b && b != c {
        lemma_key_chain(a, b, c);
    }
}

proof fn lemma_key_place_cut(keys: Seq<KeyView>, order: Seq<int>, row: int)
    ensures
        ({
            let place = key_place(keys, order, row);
            &&& 0 <= place <= order.len()
            &&& place > 0 ==> !key_before(keys[row], keys[order[place - 1]])
            &&& forall|k: int|
                place <= k < order.len() ==> key_before(keys[row], keys[#[trigger] order[k]])
        }),
    decreases order.len(),
{
    if order.len() > 0 && key_before(keys[row], keys[order.last()]) {
        lemma_key_place_cut(keys, order.drop_last(), row);
        let place = key_place(keys, order, row);
        assert(place > 0 ==> order.drop_last()[place - 1] == order[place - 1]);
        assert forall|k: int| place <= k < order.len() implies key_before(
            keys[row],
            keys[#[trigger] order[k]],
        ) by {
            if k < order.len() - 1 {
                assert(order.drop_last()[k] == order[k]);
            }
        }
    }
}

/// Rows that were put in order are in order: none comes before one that stands
/// in front of it.
pub proof fn law_ordered_is_sorted(keys: Seq<KeyView>, count: nat)
    ensures
        forall|i: int, j: int|
            0 <= i < j < count ==> !key_before(
                keys[#[trigger] ordered(keys, count)[j]],
                keys[#[trigger] ordered(keys, count)[i]],
            ),
    decreases count,
{
    if count > 0 {
        let shorter = (count - 1) as nat;
        let row = count - 1;
        let before = ordered(keys, shorter);
        let all = ordered(keys, count);
        law_ordered_is_sorted(keys, shorter);
        law_ordered_is_complete(keys, shorter);
        lemma_key_place_cut(keys, before, row);
        let place = key_place(keys, before, row);
        assert(all == before.insert(place, row));
        assert forall|i: int, j: int| 0 <= i < j < count implies !key_before(
            keys[#[trigger] all[j]],
            keys[#[trigger] all[i]],
        ) by {
            if j < place {
                assert(all[i] == before[i] && all[j] == before[j]);
            } else if j == place {
                assert(all[i] == before[i]);
                if i < place - 1 {
                    assert(!key_before(keys[before[place - 1]], keys[before[i]]));
                    lemma_key_not_before(keys[before[i]], keys[before[place - 1]], keys[row]);
                }
            } else if i < place {
                assert(all[i] == before[i] && all[j] == before[j - 1]);
            } else if i == place {
                assert(all[j] == before[j - 1]);
                lemma_key_order(keys[row], keys[before[j - 1]]);
            } else {
                assert(all[i] == before[i - 1] && all[j] == before[j - 1]);
            }
        }
    }
}

} // verus!
