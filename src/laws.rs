//! What holds of every scan, stated over the model of [`crate::scan`].
use vstd::prelude::*;
use crate::scan::{ScanView, Slot, count_probing, online_of};

verus! {

/// How many times `a` stands at a `Reachable` slot.
pub open spec fn count_reachable(addresses: Seq<String>, slots: Seq<Slot>, a: String) -> nat
    decreases slots.len(),
{
    if slots.len() == 0 || addresses.len() == 0 {
        0
    } else {
        count_reachable(addresses.drop_last(), slots.drop_last(), a) + if slots.last() is Reachable
            && addresses.last() == a { 1nat } else { 0nat }
    }
}

/// Every address in the result was in the request, and the result is no
/// longer than the request.
pub proof fn lemma_online_from_request(addresses: Seq<String>, slots: Seq<Slot>)
    requires
        addresses.len() == slots.len(),
    ensures
        online_of(addresses, slots).len() <= addresses.len(),
        forall|k: int|
            0 <= k < online_of(addresses, slots).len() ==> addresses.contains(
                #[trigger] online_of(addresses, slots)[k],
            ),
    decreases slots.len(),
{
    if slots.len() > 0 {
        let a = addresses.drop_last();
        let s = slots.drop_last();
        lemma_online_from_request(a, s);
        let rest = online_of(a, s);
        let r = online_of(addresses, slots);
        assert forall|k: int| 0 <= k < r.len() implies addresses.contains(#[trigger] r[k]) by {
            if k < rest.len() {
                assert(r[k] == rest[k]);
                let j = choose|j: int| 0 <= j < a.len() && a[j] == rest[k];
                assert(addresses[j] == r[k]);
            } else {
                assert(r[k] == addresses[addresses.len() - 1]);
            }
        }
    }
}

/// When every probe answers as a fixed predicate says, the result is exactly
/// the request filtered by that predicate: the same addresses, in input order,
/// with their repeats.
pub proof fn lemma_online_matches_probe(
    addresses: Seq<String>,
    slots: Seq<Slot>,
    reachable: spec_fn(String) -> bool,
)
    requires
        addresses.len() == slots.len(),
        forall|i: int|
            0 <= i < slots.len() ==> #[trigger] slots[i] == if reachable(addresses[i]) {
                Slot::Reachable
            } else {
                Slot::Unreachable
            },
    ensures
        online_of(addresses, slots) == addresses.filter(reachable),
    decreases slots.len(),
{
    reveal(Seq::filter);
    if slots.len() > 0 {
        let a = addresses.drop_last();
        let s = slots.drop_last();
        assert forall|i: int| 0 <= i < s.len() implies #[trigger] s[i] == if reachable(a[i]) {
            Slot::Reachable
        } else {
            Slot::Unreachable
        } by {
            assert(s[i] == slots[i]);
        }
        lemma_online_matches_probe(a, s, reachable);
        assert(slots.last() == slots[slots.len() - 1]);
    }
}

/// A scan of an empty request is finished from the start, holds no permit,
/// and has an empty result.
pub proof fn lemma_empty_request(v: ScanView)
    requires
        v.wf(),
        v.addresses.len() == 0,
    ensures
        v.finished(),
        v.launched == 0,
        v.in_flight == 0,
        v.online() == Seq::<String>::empty(),
{
}

/// When no probe connected, the result is empty.
pub proof fn lemma_all_unreachable(addresses: Seq<String>, slots: Seq<Slot>)
    requires
        addresses.len() == slots.len(),
        forall|i: int| 0 <= i < slots.len() ==> !(#[trigger] slots[i] is Reachable),
    ensures
        online_of(addresses, slots) == Seq::<String>::empty(),
    decreases slots.len(),
{
    if slots.len() > 0 {
        let s = slots.drop_last();
        assert forall|i: int| 0 <= i < s.len() implies !(#[trigger] s[i] is Reachable) by {
            assert(s[i] == slots[i]);
        }
        lemma_all_unreachable(addresses.drop_last(), s);
        assert(slots.last() == slots[slots.len() - 1]);
    }
}

/// In every well-formed scan, the probes holding a permit are no more than
/// the capacity.
pub proof fn lemma_within_capacity(v: ScanView)
    requires
        v.wf(),
    ensures
        count_probing(v.slots) <= v.capacity,
{
}

/// An address occurs in the result once for each time it occurs in the
/// request with a connected probe.
pub proof fn lemma_online_count(addresses: Seq<String>, slots: Seq<Slot>, a: String)
    requires
        addresses.len() == slots.len(),
    ensures
        online_of(addresses, slots).to_multiset().count(a) == count_reachable(addresses, slots, a),
    decreases slots.len(),
{
    broadcast use vstd::seq_lib::group_to_multiset_ensures;

    if slots.len() > 0 {
        lemma_online_count(addresses.drop_last(), slots.drop_last(), a);
    }
}

proof fn lemma_count_reachable_at(addresses: Seq<String>, slots: Seq<Slot>, i: int)
    requires
        addresses.len() == slots.len(),
        0 <= i < slots.len(),
        slots[i] is Reachable,
    ensures
        count_reachable(addresses, slots, addresses[i]) >= 1,
    decreases slots.len(),
{
    if i < slots.len() - 1 {
        lemma_count_reachable_at(addresses.drop_last(), slots.drop_last(), i);
    }
}

/// A reachable address given twice in the request is reported twice.
pub proof fn lemma_duplicates_kept(addresses: Seq<String>, slots: Seq<Slot>, i: int, j: int)
    requires
        addresses.len() == slots.len(),
        0 <= i < j < slots.len(),
        addresses[i] == addresses[j],
        slots[i] is Reachable,
        slots[j] is Reachable,
    ensures
        online_of(addresses, slots).to_multiset().count(addresses[i]) >= 2,
{
    lemma_online_count(addresses, slots, addresses[i]);
    lemma_count_reachable_twice(addresses, slots, i, j);
}

proof fn lemma_count_reachable_twice(addresses: Seq<String>, slots: Seq<Slot>, i: int, j: int)
    requires
        addresses.len() == slots.len(),
        0 <= i < j < slots.len(),
        addresses[i] == addresses[j],
        slots[i] is Reachable,
        slots[j] is Reachable,
    ensures
        count_reachable(addresses, slots, addresses[i]) >= 2,
    decreases slots.len(),
{
    if j == slots.len() - 1 {
        lemma_count_reachable_at(addresses.drop_last(), slots.drop_last(), i);
    } else {
        lemma_count_reachable_twice(addresses.drop_last(), slots.drop_last(), i, j);
    }
}

} // verus!
