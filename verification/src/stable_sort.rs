//! Stable sorting by an integer key.
use vstd::prelude::*;

verus! {

/// A value with a key that sequences of such values are sorted by.
pub trait SortKey: Sized {
    /// The key.
    spec fn sort_key(self) -> u64;
}

/// A value whose key can be read.
pub trait ReadSortKey: SortKey {
    /// Reads the key.
    fn read_sort_key(&self) -> (result: u64)
        ensures
            result == self.sort_key(),
    ;
}

/// Whether the keys never fall.
pub open spec fn is_sorted<T: SortKey>(items: Seq<T>) -> bool {
    forall|i: int, j: int|
        0 <= i <= j < items.len() ==> (#[trigger] items[i]).sort_key() <= (
        #[trigger] items[j]).sort_key()
}

/// `item` put behind everything in a sorted `items` whose key is not greater.
pub open spec fn put_in_place<T: SortKey>(items: Seq<T>, item: T) -> Seq<T>
    decreases items.len(),
{
    if items.len() == 0 || items.last().sort_key() <= item.sort_key() {
        items.push(item)
    } else {
        put_in_place(items.drop_last(), item).push(items.last())
    }
}

/// `items` in the order of their keys, those of one key in the order they had.
pub open spec fn stable_sort<T: SortKey>(items: Seq<T>) -> Seq<T>
    decreases items.len(),
{
    if items.len() == 0 {
        Seq::empty()
    } else {
        put_in_place(stable_sort(items.drop_last()), items.last())
    }
}

/// The items of one key, in order.
pub open spec fn of_key<T: SortKey>(items: Seq<T>, key: u64) -> Seq<T> {
    items.filter(|item: T| item.sort_key() == key)
}

proof fn lemma_of_key_push<T: SortKey>(items: Seq<T>, item: T, key: u64)
    ensures
        of_key(items.push(item), key) == if item.sort_key() == key {
            of_key(items, key).push(item)
        } else {
            of_key(items, key)
        },
{
    reveal(Seq::filter);
    assert(items.push(item).drop_last() =~= items);
}

proof fn lemma_of_key_last<T: SortKey>(items: Seq<T>, key: u64)
    requires
        items.len() > 0,
    ensures
        of_key(items, key) == if items.last().sort_key() == key {
            of_key(items.drop_last(), key).push(items.last())
        } else {
            of_key(items.drop_last(), key)
        },
{
    reveal(Seq::filter);
}

proof fn lemma_of_key_add<T: SortKey>(a: Seq<T>, b: Seq<T>, key: u64)
    ensures
        of_key(a + b, key) == of_key(a, key) + of_key(b, key),
{
    Seq::filter_distributes_over_add(a, b, |item: T| item.sort_key() == key);
}

proof fn lemma_of_key_holds<T: SortKey>(items: Seq<T>, i: int)
    requires
        0 <= i < items.len(),
    ensures
        of_key(items, items[i].sort_key()).len() > 0,
    decreases items.len(),
{
    lemma_of_key_last(items, items[i].sort_key());
    if i < items.len() - 1 {
        lemma_of_key_holds(items.drop_last(), i);
    }
}

proof fn lemma_of_key_has_key<T: SortKey>(items: Seq<T>, key: u64)
    ensures
        of_key(items, key).len() > 0 ==> exists|i: int|
            0 <= i < items.len() && (#[trigger] items[i]).sort_key() == key,
    decreases items.len(),
{
    reveal(Seq::filter);
    if items.len() > 0 {
        lemma_of_key_last(items, key);
        if items.last().sort_key() == key {
            assert(items[items.len() - 1].sort_key() == key);
        } else {
            lemma_of_key_has_key(items.drop_last(), key);
            if of_key(items, key).len() > 0 {
                let i = choose|i: int|
                    0 <= i < items.drop_last().len() && (
                    #[trigger] items.drop_last()[i]).sort_key() == key;
                assert(items[i].sort_key() == key);
            }
        }
    }
}

proof fn lemma_put_in_place<T: SortKey>(items: Seq<T>, item: T)
    requires
        is_sorted(items),
    ensures
        is_sorted(put_in_place(items, item)),
        put_in_place(items, item).len() == items.len() + 1,
        forall|i: int|
            0 <= i <= items.len() ==> (#[trigger] put_in_place(items, item)[i]).sort_key()
                <= if items.len() > 0 && items.last().sort_key() > item.sort_key() {
                items.last().sort_key()
            } else {
                item.sort_key()
            },
        forall|key: u64| #[trigger]
            of_key(put_in_place(items, item), key) == of_key(items.push(item), key),
    decreases items.len(),
{
    if items.len() == 0 || items.last().sort_key() <= item.sort_key() {
    } else {
        let rest = items.drop_last();
        assert(is_sorted(rest)) by {
            assert forall|i: int, j: int| 0 <= i <= j < rest.len() implies (
            #[trigger] rest[i]).sort_key() <= (#[trigger] rest[j]).sort_key() by {
                assert(rest[i] == items[i] && rest[j] == items[j]);
            }
        }
        lemma_put_in_place(rest, item);
        if rest.len() > 0 {
            assert(rest.last() == items[items.len() - 2]);
        }
        let placed = put_in_place(rest, item);
        assert forall|key: u64| #[trigger]
            of_key(put_in_place(items, item), key) == of_key(items.push(item), key) by {
            lemma_of_key_push(placed, items.last(), key);
            lemma_of_key_push(rest, item, key);
            lemma_of_key_push(items, item, key);
            lemma_of_key_last(items, key);
            assert(of_key(placed, key) == of_key(rest.push(item), key));
        }
    }
}

/// Sorting puts the keys in order, keeps the number of items, and leaves the
/// items of any one key exactly as they followed each other.
pub proof fn law_stable_sort<T: SortKey>(items: Seq<T>)
    ensures
        is_sorted(stable_sort(items)),
        stable_sort(items).len() == items.len(),
        forall|key: u64| #[trigger] of_key(stable_sort(items), key) == of_key(items, key),
    decreases items.len(),
{
    reveal(Seq::filter);
    if items.len() > 0 {
        let rest = items.drop_last();
        law_stable_sort(rest);
        lemma_put_in_place(stable_sort(rest), items.last());
        assert forall|key: u64| #[trigger]
            of_key(stable_sort(items), key) == of_key(items, key) by {
            lemma_of_key_push(stable_sort(rest), items.last(), key);
            lemma_of_key_last(items, key);
            assert(of_key(stable_sort(rest), key) == of_key(rest, key));
            assert(of_key(put_in_place(stable_sort(rest), items.last()), key) == of_key(
                stable_sort(rest).push(items.last()),
                key,
            ));
        }
    }
}

/// Sorting brings in nothing new.
pub proof fn lemma_stable_sort_elements<T: SortKey>(items: Seq<T>)
    ensures
        forall|i: int|
            0 <= i < stable_sort(items).len() ==> items.contains(#[trigger] stable_sort(items)[i]),
    decreases items.len(),
{
    if items.len() > 0 {
        let rest = items.drop_last();
        lemma_stable_sort_elements(rest);
        lemma_put_in_place_elements(stable_sort(rest), items.last());
        assert forall|i: int| 0 <= i < stable_sort(items).len() implies items.contains(
            #[trigger] stable_sort(items)[i],
        ) by {
            let item = stable_sort(items)[i];
            if item == items.last() {
                assert(items[items.len() - 1] == item);
            } else {
                assert(stable_sort(rest).contains(item));
                let k = choose|k: int|
                    0 <= k < stable_sort(rest).len() && stable_sort(rest)[k] == item;
                assert(rest.contains(stable_sort(rest)[k]));
                let j = choose|j: int| 0 <= j < rest.len() && rest[j] == item;
                assert(items[j] == item);
            }
        }
    }
}

proof fn lemma_put_in_place_elements<T: SortKey>(items: Seq<T>, item: T)
    ensures
        forall|i: int|
            0 <= i < put_in_place(items, item).len() ==> (#[trigger] put_in_place(items, item)[i])
                == item || items.contains(put_in_place(items, item)[i]),
    decreases items.len(),
{
    if items.len() == 0 || items.last().sort_key() <= item.sort_key() {
        assert forall|i: int| 0 <= i < put_in_place(items, item).len() implies (
        #[trigger] put_in_place(items, item)[i]) == item || items.contains(
            put_in_place(items, item)[i],
        ) by {
            if i < items.len() {
                assert(items[i] == put_in_place(items, item)[i]);
            }
        }
    } else {
        let rest = items.drop_last();
        lemma_put_in_place_elements(rest, item);
        assert forall|i: int| 0 <= i < put_in_place(items, item).len() implies (
        #[trigger] put_in_place(items, item)[i]) == item || items.contains(
            put_in_place(items, item)[i],
        ) by {
            let found = put_in_place(items, item)[i];
            if i < put_in_place(rest, item).len() {
                assert(found == put_in_place(rest, item)[i]);
                if found != item {
                    let k = choose|k: int| 0 <= k < rest.len() && rest[k] == found;
                    assert(items[k] == found);
                }
            } else {
                assert(found == items[items.len() - 1]);
            }
        }
    }
}

/// There is one way only to sort stably: two sorted sequences that agree on the
/// items of every key are equal.
pub proof fn law_stable_sort_is_unique<T: SortKey>(a: Seq<T>, b: Seq<T>)
    requires
        is_sorted(a),
        is_sorted(b),
        forall|key: u64| #[trigger] of_key(a, key) == of_key(b, key),
    ensures
        a == b,
    decreases a.len(),
{
    reveal(Seq::filter);
    if a.len() == 0 {
        if b.len() > 0 {
            lemma_of_key_holds(b, 0);
            assert(of_key(a, b[0].sort_key()) == of_key(b, b[0].sort_key()));
        }
        assert(a =~= b);
    } else {
        let key_a = a.last().sort_key();
        lemma_of_key_holds(a, a.len() - 1);
        assert(of_key(a, key_a) == of_key(b, key_a));
        lemma_of_key_has_key(b, key_a);
        let i = choose|i: int| 0 <= i < b.len() && (#[trigger] b[i]).sort_key() == key_a;
        let key_b = b.last().sort_key();
        assert(b[i].sort_key() <= b[b.len() - 1].sort_key());
        lemma_of_key_holds(b, b.len() - 1);
        assert(of_key(a, key_b) == of_key(b, key_b));
        lemma_of_key_has_key(a, key_b);
        let j = choose|j: int| 0 <= j < a.len() && (#[trigger] a[j]).sort_key() == key_b;
        assert(a[j].sort_key() <= a[a.len() - 1].sort_key());
        assert(key_a == key_b);
        lemma_of_key_last(a, key_a);
        lemma_of_key_last(b, key_a);
        assert(of_key(a, key_a).last() == a.last());
        assert(of_key(b, key_a).last() == b.last());
        let a_rest = a.drop_last();
        let b_rest = b.drop_last();
        lemma_prefix_is_sorted(a);
        lemma_prefix_is_sorted(b);
        assert forall|key: u64| #[trigger] of_key(a_rest, key) == of_key(b_rest, key) by {
            lemma_of_key_last(a, key);
            lemma_of_key_last(b, key);
            assert(of_key(a, key) == of_key(b, key));
            if key == key_a {
                assert(of_key(a_rest, key) =~= of_key(a, key).drop_last());
                assert(of_key(b_rest, key) =~= of_key(b, key).drop_last());
            }
        }
        law_stable_sort_is_unique(a_rest, b_rest);
        assert(a =~= a_rest.push(a.last()));
        assert(b =~= b_rest.push(b.last()));
    }
}

proof fn lemma_prefix_is_sorted<T: SortKey>(items: Seq<T>)
    requires
        is_sorted(items),
        items.len() > 0,
    ensures
        is_sorted(items.drop_last()),
{
    let rest = items.drop_last();
    assert forall|i: int, j: int| 0 <= i <= j < rest.len() implies (#[trigger] rest[i]).sort_key()
        <= (#[trigger] rest[j]).sort_key() by {
        assert(rest[i] == items[i] && rest[j] == items[j]);
    }
}

/// Sorting commutes with a map that keeps the keys.
pub proof fn lemma_stable_sort_map<T: SortKey, U: SortKey>(items: Seq<T>, f: spec_fn(T) -> U)
    requires
        forall|item: T| (#[trigger] f(item)).sort_key() == item.sort_key(),
    ensures
        stable_sort(items.map_values(f)) == stable_sort(items).map_values(f),
    decreases items.len(),
{
    if items.len() > 0 {
        lemma_stable_sort_map(items.drop_last(), f);
        lemma_put_in_place_map(stable_sort(items.drop_last()), items.last(), f);
        assert(items.map_values(f).drop_last() =~= items.drop_last().map_values(f));
    } else {
        assert(stable_sort(items.map_values(f)) =~= stable_sort(items).map_values(f));
    }
}

proof fn lemma_put_in_place_map<T: SortKey, U: SortKey>(
    items: Seq<T>,
    item: T,
    f: spec_fn(T) -> U,
)
    requires
        forall|item: T| (#[trigger] f(item)).sort_key() == item.sort_key(),
    ensures
        put_in_place(items.map_values(f), f(item)) == put_in_place(items, item).map_values(f),
    decreases items.len(),
{
    if items.len() == 0 || items.last().sort_key() <= item.sort_key() {
        assert(put_in_place(items.map_values(f), f(item)) =~= put_in_place(items, item).map_values(
            f,
        ));
    } else {
        lemma_put_in_place_map(items.drop_last(), item, f);
        assert(items.map_values(f).drop_last() =~= items.drop_last().map_values(f));
        assert(put_in_place(items.map_values(f), f(item)) =~= put_in_place(items, item).map_values(
            f,
        ));
    }
}

/// Merges two sorted sequences, items of the left one first among equals.
fn merge<T: ReadSortKey>(left: Vec<T>, right: Vec<T>) -> (result: Vec<T>)
    requires
        is_sorted(left@),
        is_sorted(right@),
        left@.len() + right@.len() <= usize::MAX,
    ensures
        is_sorted(result@),
        forall|key: u64| #[trigger]
            of_key(result@, key) == of_key(left@, key) + of_key(right@, key),
{
    let ghost left_0 = left@;
    let ghost right_0 = right@;
    let mut left = left;
    let mut right = right;
    let mut backwards: Vec<T> = Vec::with_capacity(left.len() + right.len());
    let ghost mut merged = Seq::<T>::empty();
    proof {
        reveal(Seq::filter);
        assert(backwards@ =~= merged.reverse());
        assert forall|key: u64|
            #![trigger of_key(merged, key)]
            of_key(left@, key) + of_key(right@, key) + of_key(merged, key) == of_key(left_0, key)
                + of_key(right_0, key) by {
            assert(of_key(merged, key) =~= Seq::<T>::empty());
            assert(of_key(left@, key) + of_key(right@, key) + of_key(merged, key) =~= of_key(
                left_0,
                key,
            ) + of_key(right_0, key));
        }
    }
    while left.len() > 0 || right.len() > 0
        invariant
            is_sorted(left@),
            is_sorted(right@),
            is_sorted(merged),
            backwards@ == merged.reverse(),
            forall|i: int, j: int|
                0 <= i < left@.len() && 0 <= j < merged.len() ==> (
                #[trigger] left@[i]).sort_key() <= (#[trigger] merged[j]).sort_key(),
            forall|i: int, j: int|
                0 <= i < right@.len() && 0 <= j < merged.len() ==> (
                #[trigger] right@[i]).sort_key() <= (#[trigger] merged[j]).sort_key(),
            forall|key: u64|
                #![trigger of_key(merged, key)]
                of_key(left@, key) + of_key(right@, key) + of_key(merged, key) == of_key(
                    left_0,
                    key,
                ) + of_key(right_0, key),
        decreases left@.len() + right@.len(),
    {
        let from_left: bool = if left.len() == 0 {
            false
        } else if right.len() == 0 {
            true
        } else {
            left[left.len() - 1].read_sort_key() > right[right.len() - 1].read_sort_key()
        };
        let ghost left_1 = left@;
        let ghost right_1 = right@;
        let ghost merged_1 = merged;
        if from_left {
            match left.pop() {
                Some(item) => {
                    proof {
                        merged = seq![item] + merged_1;
                        lemma_prefix_is_sorted(left_1);
                        assert forall|key: u64|
                            #![trigger of_key(merged, key)]
                            of_key(left@, key) + of_key(right@, key) + of_key(merged, key)
                                == of_key(left_0, key) + of_key(right_0, key) by {
                            lemma_of_key_add(seq![item], merged_1, key);
                            lemma_of_key_last(left_1, key);
                            lemma_of_key_last(seq![item], key);
                            reveal(Seq::filter);
                            assert(of_key(seq![item].drop_last(), key) =~= Seq::<T>::empty());
                            if item.sort_key() == key {
                                assert(of_key(right@, key).len() == 0) by {
                                    lemma_of_key_has_key(right@, key);
                                    if of_key(right@, key).len() > 0 {
                                        let i = choose|i: int|
                                            0 <= i < right@.len() && (
                                            #[trigger] right@[i]).sort_key() == key;
                                        assert(right@[i].sort_key() <= right@[right@.len()
                                            - 1].sort_key());
                                    }
                                }
                            }
                            assert(of_key(merged_1, key) == of_key(merged_1, key));
                            assert(of_key(left@, key) + of_key(right@, key) + of_key(merged, key)
                                =~= of_key(left_1, key) + of_key(right_1, key) + of_key(
                                merged_1,
                                key,
                            ));
                        }
                    }
                    backwards.push(item);
                    proof {
                        assert(backwards@ =~= merged.reverse());
                        assert forall|i: int, j: int|
                            0 <= i < right@.len() && 0 <= j < merged.len() implies (
                        #[trigger] right@[i]).sort_key() <= (#[trigger] merged[j]).sort_key() by {
                            assert(right@[i].sort_key() <= right@[right@.len() - 1].sort_key());
                            if j > 0 {
                                assert(merged[j] == merged_1[j - 1]);
                            }
                        }
                        assert forall|i: int, j: int|
                            0 <= i < left@.len() && 0 <= j < merged.len() implies (
                        #[trigger] left@[i]).sort_key() <= (#[trigger] merged[j]).sort_key() by {
                            assert(left@[i] == left_1[i]);
                            assert(left_1[i].sort_key() <= left_1[left_1.len() - 1].sort_key());
                            if j > 0 {
                                assert(merged[j] == merged_1[j - 1]);
                            }
                        }
                        assert forall|i: int, j: int| 0 <= i <= j < merged.len() implies (
                        #[trigger] merged[i]).sort_key() <= (#[trigger] merged[j]).sort_key() by {
                            assert(item == left_1[left_1.len() - 1]);
                            if i > 0 {
                                assert(merged[i] == merged_1[i - 1]);
                            }
                            if j > 0 {
                                assert(merged[j] == merged_1[j - 1]);
                            }
                        }
                    }
                },
                None => {},
            }
        } else {
            match right.pop() {
                Some(item) => {
                    proof {
                        merged = seq![item] + merged_1;
                        lemma_prefix_is_sorted(right_1);
                        assert forall|key: u64|
                            #![trigger of_key(merged, key)]
                            of_key(left@, key) + of_key(right@, key) + of_key(merged, key)
                                == of_key(left_0, key) + of_key(right_0, key) by {
                            lemma_of_key_add(seq![item], merged_1, key);
                            lemma_of_key_last(right_1, key);
                            lemma_of_key_last(seq![item], key);
                            reveal(Seq::filter);
                            assert(of_key(seq![item].drop_last(), key) =~= Seq::<T>::empty());
                            assert(of_key(merged_1, key) == of_key(merged_1, key));
                            assert(of_key(left@, key) + of_key(right@, key) + of_key(merged, key)
                                =~= of_key(left_1, key) + of_key(right_1, key) + of_key(
                                merged_1,
                                key,
                            ));
                        }
                    }
                    backwards.push(item);
                    proof {
                        assert(backwards@ =~= merged.reverse());
                        assert forall|i: int, j: int|
                            0 <= i < left@.len() && 0 <= j < merged.len() implies (
                        #[trigger] left@[i]).sort_key() <= (#[trigger] merged[j]).sort_key() by {
                            assert(left@[i].sort_key() <= left@[left@.len() - 1].sort_key());
                            if j > 0 {
                                assert(merged[j] == merged_1[j - 1]);
                            }
                        }
                        assert forall|i: int, j: int|
                            0 <= i < right@.len() && 0 <= j < merged.len() implies (
                        #[trigger] right@[i]).sort_key() <= (#[trigger] merged[j]).sort_key() by {
                            assert(right@[i] == right_1[i]);
                            assert(right_1[i].sort_key() <= right_1[right_1.len() - 1].sort_key());
                            if j > 0 {
                                assert(merged[j] == merged_1[j - 1]);
                            }
                        }
                        assert forall|i: int, j: int| 0 <= i <= j < merged.len() implies (
                        #[trigger] merged[i]).sort_key() <= (#[trigger] merged[j]).sort_key() by {
                            assert(item == right_1[right_1.len() - 1]);
                            if i > 0 {
                                assert(merged[i] == merged_1[i - 1]);
                            }
                            if j > 0 {
                                assert(merged[j] == merged_1[j - 1]);
                            }
                        }
                    }
                },
                None => {},
            }
        }
    }
    let result = reversed(backwards);
    proof {
        reveal(Seq::filter);
        assert(result@ =~= merged);
        assert forall|key: u64| #[trigger]
            of_key(result@, key) == of_key(left_0, key) + of_key(right_0, key) by {
            assert(of_key(left@, key) =~= Seq::<T>::empty());
            assert(of_key(right@, key) =~= Seq::<T>::empty());
            assert(of_key(merged, key) =~= of_key(left@, key) + of_key(right@, key) + of_key(
                merged,
                key,
            ));
        }
    }
    result
}

/// The items in the opposite order.
fn reversed<T>(items: Vec<T>) -> (result: Vec<T>)
    ensures
        result@ == items@.reverse(),
{
    let ghost items_0 = items@;
    let mut items = items;
    let mut result: Vec<T> = Vec::with_capacity(items.len());
    while items.len() > 0
        invariant
            items@.len() + result@.len() == items_0.len(),
            items@ == items_0.take(items@.len() as int),
            result@ == items_0.reverse().take(result@.len() as int),
        decreases items@.len(),
    {
        match items.pop() {
            Some(item) => {
                result.push(item);
                proof {
                    assert(items@ =~= items_0.take(items@.len() as int));
                    assert(result@ =~= items_0.reverse().take(result@.len() as int));
                }
            },
            None => {},
        }
    }
    proof {
        assert(result@ =~= items_0.reverse());
    }
    result
}

/// Puts the items in the opposite order.
pub fn reverse<T>(items: &mut Vec<T>)
    ensures
        final(items)@ == old(items)@.reverse(),
{
    let mut taken: Vec<T> = Vec::new();
    core::mem::swap(items, &mut taken);
    *items = reversed(taken);
}

/// Whether the keys already never fall.
fn in_order<T: ReadSortKey>(items: &Vec<T>) -> (result: bool)
    ensures
        result == is_sorted(items@),
{
    let mut i: usize = 1;
    while i < items.len()
        invariant
            1 <= i,
            i <= items@.len() || items@.len() == 0,
            forall|a: int, b: int|
                0 <= a <= b < i && b < items@.len() ==> (#[trigger] items@[a]).sort_key() <= (
                #[trigger] items@[b]).sort_key(),
        decreases items@.len() - i,
    {
        if items[i - 1].read_sort_key() > items[i].read_sort_key() {
            proof {
                assert(items@[i - 1].sort_key() > items@[i as int].sort_key());
            }
            return false;
        }
        proof {
            assert forall|a: int, b: int| 0 <= a <= b < i + 1 && b < items@.len() implies (
            #[trigger] items@[a]).sort_key() <= (#[trigger] items@[b]).sort_key() by {
                if b == i && a < i {
                    assert(items@[a].sort_key() <= items@[i - 1].sort_key());
                }
            }
        }
        i = i + 1;
    }
    true
}

fn sorted<T: ReadSortKey>(items: Vec<T>) -> (result: Vec<T>)
    ensures
        result@ == stable_sort(items@),
    decreases items@.len(),
{
    proof {
        law_stable_sort(items@);
    }
    if in_order(&items) {
        proof {
            law_stable_sort_is_unique(items@, stable_sort(items@));
        }
        return items;
    }
    let ghost items_0 = items@;
    let mut left = items;
    let middle: usize = left.len() / 2;
    proof {
        if items_0.len() <= 1 {
            assert(is_sorted(items_0));
        }
    }
    let right = left.split_off(middle);
    let ghost left_0 = left@;
    let ghost right_0 = right@;
    let left = sorted(left);
    let right = sorted(right);
    proof {
        law_stable_sort(left_0);
        law_stable_sort(right_0);
    }
    let result = merge(left, right);
    proof {
        assert(items_0 =~= left_0 + right_0);
        assert forall|key: u64| #[trigger]
            of_key(result@, key) == of_key(stable_sort(items_0), key) by {
            lemma_of_key_add(left_0, right_0, key);
            assert(of_key(left@, key) == of_key(left_0, key));
            assert(of_key(right@, key) == of_key(right_0, key));
            assert(of_key(stable_sort(items_0), key) == of_key(items_0, key));
        }
        law_stable_sort_is_unique(result@, stable_sort(items_0));
    }
    result
}

/// Sorts `items` by their keys, keeping the order of those with one key.
pub fn sort_by_key<T: ReadSortKey>(items: &mut Vec<T>)
    ensures
        final(items)@ == stable_sort(old(items)@),
{
    let mut taken: Vec<T> = Vec::new();
    core::mem::swap(items, &mut taken);
    *items = sorted(taken);
}

} // verus!
