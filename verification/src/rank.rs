//! Ranking of a snapshot's processes by CPU or by memory.
//!
//! A ranking lists the processes from the largest key down. Processes with
//! equal keys keep the order in which the snapshot holds them.

use vstd::prelude::*;
use vstd::seq_lib::*;
use crate::snapshot::ProcessInfo;

verus! {

/// The key by which the process list is ranked.
#[derive(Clone, Copy, Debug, PartialEq, Eq, Structural)]
pub enum SortOrder {
    ByCpu,
    ByMemory,
}

/// The number by which `order` ranks `process`: larger comes first.
pub open spec fn rank_key(process: ProcessInfo, order: SortOrder) -> int {
    match order {
        SortOrder::ByCpu => process.cpu_usage.order_key(),
        SortOrder::ByMemory => process.memory_bytes as int,
    }
}

/// Whether no process of `list` is followed by one with a larger key.
pub open spec fn sorted_descending(list: Seq<ProcessInfo>, order: SortOrder) -> bool {
    forall|i: int, j: int|
        0 <= i < j < list.len() ==> rank_key(#[trigger] list[i], order) >= rank_key(
            #[trigger] list[j],
            order,
        )
}

/// Where `item` enters `ranked` when it came before all of `ranked` in the
/// snapshot: behind the processes with a larger key, ahead of the others.
pub open spec fn insertion_index(item: ProcessInfo, ranked: Seq<ProcessInfo>, order: SortOrder) -> int
    decreases ranked.len(),
{
    if ranked.len() == 0 || rank_key(ranked[0], order) <= rank_key(item, order) {
        0
    } else {
        1 + insertion_index(item, ranked.drop_first(), order)
    }
}

/// The ranking of `list` under `order`: the last process ranks alone, and each
/// earlier one enters the ranking of those behind it at its insertion index.
pub open spec fn stable_rank(list: Seq<ProcessInfo>, order: SortOrder) -> Seq<ProcessInfo>
    decreases list.len(),
{
    if list.len() == 0 {
        list
    } else {
        let rest = stable_rank(list.drop_first(), order);
        rest.insert(insertion_index(list[0], rest, order), list[0])
    }
}

/// The test "ranks under `order` with key `key`".
pub open spec fn has_key(order: SortOrder, key: int) -> spec_fn(ProcessInfo) -> bool {
    |process: ProcessInfo| rank_key(process, order) == key
}

/// The processes of `list` whose key is `key`, in the order of `list`.
pub open spec fn with_key(list: Seq<ProcessInfo>, order: SortOrder, key: int) -> Seq<ProcessInfo> {
    list.filter(has_key(order, key))
}

/// The insertion index lies within the list, everything before it has a
/// larger key than `item`, and the process at it, if any, has not.
pub proof fn lemma_insertion_index_bounds(item: ProcessInfo, ranked: Seq<ProcessInfo>, order: SortOrder)
    ensures
        0 <= insertion_index(item, ranked, order) <= ranked.len(),
        forall|j: int|
            0 <= j < insertion_index(item, ranked, order) ==> rank_key(#[trigger] ranked[j], order)
                > rank_key(item, order),
        insertion_index(item, ranked, order) < ranked.len() ==> rank_key(
            ranked[insertion_index(item, ranked, order)],
            order,
        ) <= rank_key(item, order),
    decreases ranked.len(),
{
    if ranked.len() == 0 || rank_key(ranked[0], order) <= rank_key(item, order) {
    } else {
        let tail = ranked.drop_first();
        lemma_insertion_index_bounds(item, tail, order);
        let at = insertion_index(item, tail, order);
        assert forall|j: int| 0 <= j < at + 1 implies rank_key(#[trigger] ranked[j], order)
            > rank_key(item, order) by {
            if j > 0 {
                assert(ranked[j] == tail[j - 1]);
            }
        }
        if at + 1 < ranked.len() {
            assert(ranked[at + 1] == tail[at]);
        }
    }
}

/// An index within the list that has only larger keys before it, and no
/// larger key at it, is the insertion index.
pub proof fn lemma_insertion_index_unique(
    item: ProcessInfo,
    ranked: Seq<ProcessInfo>,
    order: SortOrder,
    at: int,
)
    requires
        0 <= at <= ranked.len(),
        forall|j: int| 0 <= j < at ==> rank_key(#[trigger] ranked[j], order) > rank_key(item, order),
        at < ranked.len() ==> rank_key(ranked[at], order) <= rank_key(item, order),
    ensures
        insertion_index(item, ranked, order) == at,
    decreases ranked.len(),
{
    if ranked.len() == 0 || rank_key(ranked[0], order) <= rank_key(item, order) {
        if at > 0 {
            assert(rank_key(ranked[0], order) > rank_key(item, order));
        }
    } else {
        let tail = ranked.drop_first();
        assert(at > 0);
        assert forall|j: int| 0 <= j < at - 1 implies rank_key(#[trigger] tail[j], order)
            > rank_key(item, order) by {
            assert(tail[j] == ranked[j + 1]);
        }
        if at - 1 < tail.len() {
            assert(tail[at - 1] == ranked[at]);
        }
        lemma_insertion_index_unique(item, tail, order, at - 1);
    }
}

/// Entering a sorted ranking at the insertion index leaves it sorted.
pub proof fn lemma_insert_keeps_sorted(item: ProcessInfo, ranked: Seq<ProcessInfo>, order: SortOrder)
    requires
        sorted_descending(ranked, order),
    ensures
        sorted_descending(ranked.insert(insertion_index(item, ranked, order), item), order),
{
    lemma_insertion_index_bounds(item, ranked, order);
    let at = insertion_index(item, ranked, order);
    let after = ranked.insert(at, item);
    assert forall|i: int, j: int| 0 <= i < j < after.len() implies rank_key(
        #[trigger] after[i],
        order,
    ) >= rank_key(#[trigger] after[j], order) by {
        if j < at {
            assert(after[i] == ranked[i] && after[j] == ranked[j]);
        } else if j == at {
            assert(after[i] == ranked[i]);
        } else if i < at {
            assert(after[i] == ranked[i] && after[j] == ranked[j - 1]);
        } else if i == at {
            assert(after[j] == ranked[j - 1]);
            if j - 1 > at {
                assert(rank_key(ranked[at], order) >= rank_key(ranked[j - 1], order));
            }
        } else {
            assert(after[i] == ranked[i - 1] && after[j] == ranked[j - 1]);
        }
    }
}

/// Entering a ranking at the insertion index puts `item` ahead of the
/// processes with its own key and changes nothing among the others.
pub proof fn lemma_insert_keeps_order_within_key(
    item: ProcessInfo,
    ranked: Seq<ProcessInfo>,
    order: SortOrder,
    key: int,
)
    ensures
        with_key(ranked.insert(insertion_index(item, ranked, order), item), order, key) == if rank_key(
            item,
            order,
        ) == key {
            seq![item] + with_key(ranked, order, key)
        } else {
            with_key(ranked, order, key)
        },
{
    lemma_insertion_index_bounds(item, ranked, order);
    let at = insertion_index(item, ranked, order);
    let test = has_key(order, key);
    let ahead = ranked.take(at);
    let behind = ranked.skip(at);
    assert(ranked == ahead + behind);
    assert(ranked.insert(at, item) == ahead.push(item) + behind);
    Seq::filter_distributes_over_add(ahead, behind, test);
    Seq::filter_distributes_over_add(ahead.push(item), behind, test);
    ahead.lemma_filter_push(item, test);
    if rank_key(item, order) == key {
        assert(ahead.all(|p: ProcessInfo| !test(p))) by {
            assert forall|j: int| 0 <= j < ahead.len() implies !test(#[trigger] ahead[j]) by {
                assert(ahead[j] == ranked[j]);
            }
        }
        ahead.lemma_all_neg_filter_empty(test);
        assert(ahead.filter(test) == Seq::<ProcessInfo>::empty());
        assert(ahead.filter(test).push(item) + behind.filter(test) == seq![item] + (ahead.filter(
            test,
        ) + behind.filter(test)));
    }
}

/// A ranking holds the processes of the list, each as often as the list does.
pub proof fn lemma_rank_keeps_processes(list: Seq<ProcessInfo>, order: SortOrder)
    ensures
        stable_rank(list, order).to_multiset() == list.to_multiset(),
        stable_rank(list, order).len() == list.len(),
    decreases list.len(),
{
    if list.len() > 0 {
        let rest = stable_rank(list.drop_first(), order);
        lemma_rank_keeps_processes(list.drop_first(), order);
        lemma_insertion_index_bounds(list[0], rest, order);
        to_multiset_insert(rest, insertion_index(list[0], rest, order), list[0]);
        to_multiset_insert(list.drop_first(), 0, list[0]);
        assert(list.drop_first().insert(0, list[0]) == list);
    }
}

/// A ranking runs from the largest key down.
pub proof fn lemma_rank_is_sorted(list: Seq<ProcessInfo>, order: SortOrder)
    ensures
        sorted_descending(stable_rank(list, order), order),
    decreases list.len(),
{
    if list.len() > 0 {
        lemma_rank_is_sorted(list.drop_first(), order);
        lemma_insert_keeps_sorted(list[0], stable_rank(list.drop_first(), order), order);
    }
}

/// Ranking is stable: the processes that share a key stand in the ranking in
/// the order in which the list holds them.
pub proof fn lemma_rank_is_stable(list: Seq<ProcessInfo>, order: SortOrder, key: int)
    ensures
        with_key(stable_rank(list, order), order, key) == with_key(list, order, key),
    decreases list.len(),
{
    if list.len() > 0 {
        let test = has_key(order, key);
        let first = Seq::<ProcessInfo>::empty().push(list[0]);
        lemma_rank_is_stable(list.drop_first(), order, key);
        lemma_insert_keeps_order_within_key(
            list[0],
            stable_rank(list.drop_first(), order),
            order,
            key,
        );
        assert(list == first + list.drop_first());
        Seq::filter_distributes_over_add(first, list.drop_first(), test);
        Seq::<ProcessInfo>::empty().lemma_filter_push(list[0], test);
        assert(Seq::<ProcessInfo>::empty().filter(test) == Seq::<ProcessInfo>::empty()) by {
            Seq::<ProcessInfo>::empty().lemma_filter_len(test);
        }
        assert(first == seq![list[0]]);
    }
}

/// A list that already runs from the largest key down is its own ranking.
pub proof fn lemma_rank_of_sorted(list: Seq<ProcessInfo>, order: SortOrder)
    requires
        sorted_descending(list, order),
    ensures
        stable_rank(list, order) == list,
    decreases list.len(),
{
    if list.len() > 0 {
        let tail = list.drop_first();
        assert forall|i: int, j: int| 0 <= i < j < tail.len() implies rank_key(
            #[trigger] tail[i],
            order,
        ) >= rank_key(#[trigger] tail[j], order) by {
            assert(tail[i] == list[i + 1] && tail[j] == list[j + 1]);
        }
        lemma_rank_of_sorted(tail, order);
        if tail.len() > 0 {
            assert(tail[0] == list[1]);
            assert(rank_key(list[0], order) >= rank_key(list[1], order));
        }
        assert(tail.insert(0, list[0]) == list);
    }
}

/// Ranking a ranking under the same order changes nothing.
pub proof fn lemma_rank_is_idempotent(list: Seq<ProcessInfo>, order: SortOrder)
    ensures
        stable_rank(stable_rank(list, order), order) == stable_rank(list, order),
{
    lemma_rank_is_sorted(list, order);
    lemma_rank_of_sorted(stable_rank(list, order), order);
}

/// The processes of a list that have a given key: the first process of the
/// list where it has that key, then those of the rest.
proof fn lemma_head_leads_its_key(list: Seq<ProcessInfo>, order: SortOrder, key: int)
    requires
        list.len() > 0,
    ensures
        with_key(list, order, key) == if rank_key(list[0], order) == key {
            seq![list[0]] + with_key(list.drop_first(), order, key)
        } else {
            with_key(list.drop_first(), order, key)
        },
{
    assert(list == seq![list[0]] + list.drop_first());
    list.drop_first().lemma_filter_prepend(list[0], has_key(order, key));
    assert(Seq::<ProcessInfo>::empty() + with_key(list.drop_first(), order, key) == with_key(
        list.drop_first(),
        order,
        key,
    ));
}

/// The first process of a sorted list has a key no smaller than that of the
/// first process of a list that holds, for every key, the same processes.
proof fn lemma_head_key_is_largest(a: Seq<ProcessInfo>, b: Seq<ProcessInfo>, order: SortOrder)
    requires
        a.len() > 0,
        b.len() > 0,
        sorted_descending(a, order),
        forall|key: int| with_key(a, order, key) == #[trigger] with_key(b, order, key),
    ensures
        rank_key(a[0], order) >= rank_key(b[0], order),
{
    let key = rank_key(b[0], order);
    lemma_head_leads_its_key(b, order, key);
    let shared = with_key(a, order, key);
    assert(shared == with_key(b, order, key));
    assert(shared[0] == b[0]);
    assert(shared.contains(b[0]));
    a.lemma_filter_contains_rev(has_key(order, key), b[0]);
    let found = choose|found: int| 0 <= found < a.len() && a[found] == b[0];
    if found > 0 {
        assert(rank_key(a[0], order) >= rank_key(a[found], order));
    }
}

/// The ranking is the one list that runs from the largest key down and
/// holds, for every key, the processes with that key in the order of the
/// list that is ranked.
pub proof fn lemma_rank_is_the_stable_sorting(
    list: Seq<ProcessInfo>,
    ranked: Seq<ProcessInfo>,
    order: SortOrder,
)
    requires
        sorted_descending(ranked, order),
        forall|key: int| with_key(ranked, order, key) == #[trigger] with_key(list, order, key),
    ensures
        ranked == stable_rank(list, order),
{
    let expected = stable_rank(list, order);
    lemma_rank_is_sorted(list, order);
    assert forall|key: int| with_key(ranked, order, key) == #[trigger] with_key(
        expected,
        order,
        key,
    ) by {
        lemma_rank_is_stable(list, order, key);
    }
    lemma_sorted_lists_agree_key_by_key(ranked, expected, order);
}

/// Two lists that run from the largest key down and hold, for every key,
/// the same processes in the same order are the same list.
pub proof fn lemma_sorted_lists_agree_key_by_key(
    a: Seq<ProcessInfo>,
    b: Seq<ProcessInfo>,
    order: SortOrder,
)
    requires
        sorted_descending(a, order),
        sorted_descending(b, order),
        forall|key: int| with_key(a, order, key) == #[trigger] with_key(b, order, key),
    ensures
        a == b,
    decreases a.len() + b.len(),
{
    if a.len() == 0 || b.len() == 0 {
        if a.len() > 0 {
            lemma_head_leads_its_key(a, order, rank_key(a[0], order));
            assert(with_key(a, order, rank_key(a[0], order)).len() > 0);
            assert(with_key(b, order, rank_key(a[0], order)).len() > 0);
            b.lemma_filter_len(has_key(order, rank_key(a[0], order)));
        }
        if b.len() > 0 {
            lemma_head_leads_its_key(b, order, rank_key(b[0], order));
            assert(with_key(b, order, rank_key(b[0], order)).len() > 0);
            assert(with_key(a, order, rank_key(b[0], order)).len() > 0);
            a.lemma_filter_len(has_key(order, rank_key(b[0], order)));
        }
        assert(a == b);
    } else {
        lemma_head_key_is_largest(a, b, order);
        lemma_head_key_is_largest(b, a, order);
        let head = rank_key(a[0], order);
        lemma_head_leads_its_key(a, order, head);
        lemma_head_leads_its_key(b, order, head);
        assert(with_key(a, order, head)[0] == a[0]);
        assert(with_key(b, order, head)[0] == b[0]);
        assert(a[0] == b[0]);
        let a_tail = a.drop_first();
        let b_tail = b.drop_first();
        assert forall|i: int, j: int| 0 <= i < j < a_tail.len() implies rank_key(
            #[trigger] a_tail[i],
            order,
        ) >= rank_key(#[trigger] a_tail[j], order) by {
            assert(a_tail[i] == a[i + 1] && a_tail[j] == a[j + 1]);
        }
        assert forall|i: int, j: int| 0 <= i < j < b_tail.len() implies rank_key(
            #[trigger] b_tail[i],
            order,
        ) >= rank_key(#[trigger] b_tail[j], order) by {
            assert(b_tail[i] == b[i + 1] && b_tail[j] == b[j + 1]);
        }
        assert forall|key: int| with_key(a_tail, order, key) == #[trigger] with_key(
            b_tail,
            order,
            key,
        ) by {
            lemma_head_leads_its_key(a, order, key);
            lemma_head_leads_its_key(b, order, key);
            assert(with_key(a, order, key) == with_key(b, order, key));
            if key == head {
                let rest_a = with_key(a_tail, order, key);
                let rest_b = with_key(b_tail, order, key);
                assert((seq![a[0]] + rest_a).drop_first() == rest_a);
                assert((seq![b[0]] + rest_b).drop_first() == rest_b);
            }
        }
        lemma_sorted_lists_agree_key_by_key(a_tail, b_tail, order);
        assert(a == seq![a[0]] + a_tail);
        assert(b == seq![b[0]] + b_tail);
    }
}

/// Whether no two processes of `list` have the same key.
pub open spec fn keys_distinct(list: Seq<ProcessInfo>, order: SortOrder) -> bool {
    forall|i: int, j: int|
        0 <= i < j < list.len() ==> rank_key(#[trigger] list[i], order) != rank_key(
            #[trigger] list[j],
            order,
        )
}

/// A ranking of processes with distinct keys has distinct keys.
pub proof fn lemma_rank_keeps_keys_distinct(list: Seq<ProcessInfo>, order: SortOrder)
    requires
        keys_distinct(list, order),
    ensures
        keys_distinct(stable_rank(list, order), order),
    decreases list.len(),
{
    if list.len() > 0 {
        let tail = list.drop_first();
        let rest = stable_rank(tail, order);
        let at = insertion_index(list[0], rest, order);
        let ranked = rest.insert(at, list[0]);
        assert forall|i: int, j: int| 0 <= i < j < tail.len() implies rank_key(
            #[trigger] tail[i],
            order,
        ) != rank_key(#[trigger] tail[j], order) by {
            assert(tail[i] == list[i + 1] && tail[j] == list[j + 1]);
        }
        lemma_rank_keeps_keys_distinct(tail, order);
        lemma_rank_keeps_processes(tail, order);
        lemma_insertion_index_bounds(list[0], rest, order);
        assert forall|k: int| 0 <= k < rest.len() implies rank_key(#[trigger] rest[k], order)
            != rank_key(list[0], order) by {
            assert(rest.contains(rest[k]));
            to_multiset_contains(rest, rest[k]);
            to_multiset_contains(tail, rest[k]);
            let found = choose|found: int| 0 <= found < tail.len() && tail[found] == rest[k];
            assert(tail[found] == list[found + 1]);
        }
        assert forall|i: int, j: int| 0 <= i < j < ranked.len() implies rank_key(
            #[trigger] ranked[i],
            order,
        ) != rank_key(#[trigger] ranked[j], order) by {
            let before = if i < at {
                i
            } else {
                i - 1
            };
            let behind = if j < at {
                j
            } else {
                j - 1
            };
            if i != at {
                assert(ranked[i] == rest[before]);
            }
            if j != at {
                assert(ranked[j] == rest[behind]);
            }
        }
    }
}

/// Two lists that run from the largest key down and hold the same processes
/// are the same list, where no two of the processes share a key.
pub proof fn lemma_sorted_lists_agree(a: Seq<ProcessInfo>, b: Seq<ProcessInfo>, order: SortOrder)
    requires
        sorted_descending(a, order),
        sorted_descending(b, order),
        keys_distinct(a, order),
        a.to_multiset() == b.to_multiset(),
    ensures
        a == b,
    decreases a.len(),
{
    to_multiset_len(a);
    to_multiset_len(b);
    if a.len() > 0 {
        assert(a.contains(a[0]) && b.contains(b[0]));
        to_multiset_contains(a, a[0]);
        to_multiset_contains(b, a[0]);
        to_multiset_contains(b, b[0]);
        to_multiset_contains(a, b[0]);
        let in_b = choose|k: int| 0 <= k < b.len() && b[k] == a[0];
        let in_a = choose|k: int| 0 <= k < a.len() && a[k] == b[0];
        assert(rank_key(b[0], order) >= rank_key(b[in_b], order));
        assert(rank_key(a[0], order) >= rank_key(a[in_a], order));
        assert(in_a == 0);
        let a_tail = a.drop_first();
        let b_tail = b.drop_first();
        assert forall|i: int, j: int| 0 <= i < j < a_tail.len() implies rank_key(
            #[trigger] a_tail[i],
            order,
        ) >= rank_key(#[trigger] a_tail[j], order) && rank_key(a_tail[i], order) != rank_key(
            a_tail[j],
            order,
        ) by {
            assert(a_tail[i] == a[i + 1] && a_tail[j] == a[j + 1]);
        }
        assert forall|i: int, j: int| 0 <= i < j < b_tail.len() implies rank_key(
            #[trigger] b_tail[i],
            order,
        ) >= rank_key(#[trigger] b_tail[j], order) by {
            assert(b_tail[i] == b[i + 1] && b_tail[j] == b[j + 1]);
        }
        to_multiset_remove(a, 0);
        to_multiset_remove(b, 0);
        assert(a.remove(0) == a_tail);
        assert(b.remove(0) == b_tail);
        lemma_sorted_lists_agree(a_tail, b_tail, order);
        assert(a == b) by {
            assert(a == seq![a[0]] + a_tail);
            assert(b == seq![b[0]] + b_tail);
        }
    } else {
        assert(a == b);
    }
}

/// Where no two processes share a key, the ranking depends on which
/// processes the list holds and not on the order in which it holds them.
pub proof fn lemma_rank_ignores_listing_order(
    list: Seq<ProcessInfo>,
    shuffled: Seq<ProcessInfo>,
    order: SortOrder,
)
    requires
        keys_distinct(list, order),
        list.to_multiset() == shuffled.to_multiset(),
    ensures
        stable_rank(list, order) == stable_rank(shuffled, order),
{
    lemma_rank_keeps_processes(list, order);
    lemma_rank_keeps_processes(shuffled, order);
    lemma_rank_is_sorted(list, order);
    lemma_rank_is_sorted(shuffled, order);
    lemma_rank_keeps_keys_distinct(list, order);
    lemma_sorted_lists_agree(stable_rank(list, order), stable_rank(shuffled, order), order);
}

/// Ranking under one order, then under another, then under the first again
/// gives the first ranking, where no two processes share a key of the first
/// order.
pub proof fn lemma_rank_round_trip(list: Seq<ProcessInfo>, order: SortOrder, via: SortOrder)
    requires
        keys_distinct(list, order),
    ensures
        stable_rank(stable_rank(stable_rank(list, order), via), order) == stable_rank(list, order),
{
    let first = stable_rank(list, order);
    lemma_rank_keeps_processes(list, order);
    lemma_rank_keeps_processes(first, via);
    lemma_rank_ignores_listing_order(list, stable_rank(first, via), order);
}

/// Computes the key of `process` under `order`.
fn key_of(process: &ProcessInfo, order: SortOrder) -> (key: i128)
    ensures
        key == rank_key(*process, order),
{
    match order {
        SortOrder::ByCpu => process.cpu_usage.ranking_key() as i128,
        SortOrder::ByMemory => process.memory_bytes as i128,
    }
}

/// Finds the insertion index of `item` by walking `ranked` from its head.
fn find_insertion_index(item: &ProcessInfo, ranked: &Vec<ProcessInfo>, order: SortOrder) -> (at: usize)
    ensures
        at == insertion_index(*item, ranked@, order),
        at <= ranked@.len(),
{
    let key = key_of(item, order);
    let mut at: usize = 0;
    while at < ranked.len() && key_of(&ranked[at], order) > key
        invariant
            at <= ranked@.len(),
            key == rank_key(*item, order),
            forall|j: int| 0 <= j < at ==> rank_key(#[trigger] ranked@[j], order) > key,
        decreases ranked@.len() - at,
    {
        at += 1;
    }
    proof {
        lemma_insertion_index_unique(*item, ranked@, order, at as int);
    }
    at
}

/// Ranks `processes` under `order`, from the largest key down; processes with
/// equal keys keep their order. The snapshot's list is left as it is.
pub fn rank(processes: &Vec<ProcessInfo>, order: SortOrder) -> (ranked: Vec<ProcessInfo>)
    ensures
        ranked@ == stable_rank(processes@, order),
        ranked@.len() == processes@.len(),
        ranked@.to_multiset() == processes@.to_multiset(),
        sorted_descending(ranked@, order),
        forall|key: int| with_key(ranked@, order, key) == #[trigger] with_key(processes@, order, key),
{
    let mut ranked: Vec<ProcessInfo> = Vec::new();
    let mut left: usize = processes.len();
    while left > 0
        invariant
            left <= processes@.len(),
            ranked@ == stable_rank(processes@.subrange(left as int, processes@.len() as int), order),
        decreases left,
    {
        left -= 1;
        let item = processes[left].clone();
        let at = find_insertion_index(&item, &ranked, order);
        proof {
            let behind = processes@.subrange(left as int, processes@.len() as int);
            assert(behind.drop_first() == processes@.subrange(
                left as int + 1,
                processes@.len() as int,
            ));
            assert(behind[0] == item);
        }
        ranked.insert(at, item);
    }
    proof {
        assert(processes@.subrange(0, processes@.len() as int) == processes@);
        lemma_rank_keeps_processes(processes@, order);
        lemma_rank_is_sorted(processes@, order);
        assert forall|key: int| with_key(ranked@, order, key) == #[trigger] with_key(
            processes@,
            order,
            key,
        ) by {
            lemma_rank_is_stable(processes@, order, key);
        }
    }
    ranked
}

} // verus!
