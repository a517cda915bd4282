//! Why pushes converge: what the requests of a push do to the table of a
//! device, and what that means for the pushes that follow.
//!
//! A device is taken to keep its table as a map from key to entry, to write
//! an entry under its key, and to take the drop of a key that it does not
//! hold as done. The store and the device may differ only on the unsettled
//! keys; a push that is applied in full leaves the device with exactly the
//! desired set, and a push that is applied in part leaves them differing
//! only on keys that are unsettled afterwards.

use crate::entries::{entries_wf, entry_index, has_entry, to_delete};
use crate::sync::{
    lemma_filters_agree, operation_key, operations, plan_deletes, plan_operations, plan_upserts,
    with_unsettled, TableOperation,
};
use crate::types::{TableEntry, TableKey};
use vstd::prelude::*;

verus! {

/// The table of a device.
pub type DeviceTable = Map<TableKey, TableEntry>;

/// A well-formed set of entries as a table.
pub open spec fn table_of(entries: Seq<TableEntry>) -> DeviceTable {
    Map::new(|k: TableKey| has_entry(entries, k), |k: TableKey| entries[entry_index(entries, k)])
}

/// The table of a device after it has applied a request.
pub open spec fn apply_operation(table: DeviceTable, operation: TableOperation) -> DeviceTable {
    match operation {
        TableOperation::Delete(key) => table.remove(key),
        TableOperation::Upsert(entry) => table.insert(entry.key, entry),
    }
}

/// The table of a device after it has applied requests in order.
pub open spec fn apply_operations(table: DeviceTable, requests: Seq<TableOperation>) -> DeviceTable
    decreases requests.len(),
{
    if requests.len() == 0 {
        table
    } else {
        apply_operation(apply_operations(table, requests.drop_last()), requests.last())
    }
}

/// Whether the table of a device is what the store holds for it, but for the
/// unsettled keys.
pub open spec fn agrees_but_for(
    table: DeviceTable,
    snapshot: Seq<TableEntry>,
    unsettled: Seq<TableKey>,
) -> bool {
    forall|k: TableKey|
        !unsettled.contains(k) ==> (#[trigger] table.contains_key(k) <==> has_entry(snapshot, k))
            && (table.contains_key(k) ==> table[k] == table_of(snapshot)[k])
}

/// An element is picked by a test exactly when it is in the sequence and
/// passes the test.
pub proof fn lemma_filter_membership<A>(s: Seq<A>, p: spec_fn(A) -> bool, x: A)
    ensures
        s.filter(p).contains(x) <==> s.contains(x) && p(x),
{
    if s.filter(p).contains(x) {
        s.lemma_filter_contains_rev(p, x);
        let i = choose|i: int| 0 <= i < s.filter(p).len() && s.filter(p)[i] == x;
        s.lemma_filter_pred(p, i);
    }
    if s.contains(x) && p(x) {
        let i = choose|i: int| 0 <= i < s.len() && s[i] == x;
        s.lemma_filter_contains(p, i);
    }
}

/// What a push writes: the entries of the desired set that the store does
/// not hold in identical form or whose key is unsettled.
pub proof fn lemma_plan_upserts_membership(
    current: Seq<TableEntry>,
    unsettled: Seq<TableKey>,
    desired: Seq<TableEntry>,
    e: TableEntry,
)
    ensures
        plan_upserts(current, unsettled, desired).contains(e) <==> desired.contains(e) && (
        !current.contains(e) || unsettled.contains(e.key)),
{
    lemma_filter_membership(
        desired,
        |e: TableEntry| !current.contains(e) || unsettled.contains(e.key),
        e,
    );
}

/// What a push drops: the keys that the desired set does not have and that
/// the store holds or that are unsettled.
pub proof fn lemma_plan_deletes_membership(
    current: Seq<TableEntry>,
    unsettled: Seq<TableKey>,
    desired: Seq<TableEntry>,
    k: TableKey,
)
    ensures
        plan_deletes(current, unsettled, desired).contains(k) <==> !has_entry(desired, k) && (
        has_entry(current, k) || unsettled.contains(k)),
        to_delete(current, desired).contains(k) <==> !has_entry(desired, k) && has_entry(
            current,
            k,
        ),
{
    let gone = |e: TableEntry| !has_entry(desired, e.key);
    let extra = |k: TableKey| !has_entry(desired, k) && !has_entry(current, k);
    let kept = current.filter(gone);
    let first = to_delete(current, desired);
    let second = unsettled.filter(extra);
    assert(first == kept.map_values(|e: TableEntry| e.key));
    lemma_filter_membership(unsettled, extra, k);
    if first.contains(k) {
        let i = choose|i: int| 0 <= i < first.len() && first[i] == k;
        assert(kept.contains(kept[i]));
        lemma_filter_membership(current, gone, kept[i]);
        let j = choose|j: int| 0 <= j < current.len() && current[j] == kept[i];
        assert(current[j].key == k);
    }
    if !has_entry(desired, k) && has_entry(current, k) {
        let j = entry_index(current, k);
        lemma_filter_membership(current, gone, current[j]);
        let i = choose|i: int| 0 <= i < kept.len() && kept[i] == current[j];
        assert(first[i] == k);
    }
    let all = plan_deletes(current, unsettled, desired);
    assert(all == first + second);
    if all.contains(k) {
        let i = choose|i: int| 0 <= i < all.len() && all[i] == k;
        if i < first.len() {
            assert(first[i] == k);
        } else {
            assert(second[i - first.len()] == k);
        }
    }
    if first.contains(k) {
        let i = choose|i: int| 0 <= i < first.len() && first[i] == k;
        assert(all[i] == k);
    }
    if second.contains(k) {
        let i = choose|i: int| 0 <= i < second.len() && second[i] == k;
        assert(all[first.len() + i] == k);
    }
}

/// The requests of a push are its drops, each as a request, and then its
/// writes, each as a request.
pub proof fn lemma_operations_index(deletes: Seq<TableKey>, upserts: Seq<TableEntry>, i: int)
    requires
        0 <= i < deletes.len() + upserts.len(),
    ensures
        operations(deletes, upserts).len() == deletes.len() + upserts.len(),
        i < deletes.len() ==> operations(deletes, upserts)[i] == TableOperation::Delete(deletes[i]),
        i >= deletes.len() ==> operations(deletes, upserts)[i] == TableOperation::Upsert(
            upserts[i - deletes.len()],
        ),
{
}

/// Requests that do not concern a key leave the device's entry for that key
/// as it was.
pub proof fn lemma_apply_leaves_other_keys(
    table: DeviceTable,
    requests: Seq<TableOperation>,
    k: TableKey,
)
    requires
        forall|i: int| 0 <= i < requests.len() ==> operation_key(#[trigger] requests[i]) != k,
    ensures
        apply_operations(table, requests).contains_key(k) == table.contains_key(k),
        table.contains_key(k) ==> apply_operations(table, requests)[k] == table[k],
    decreases requests.len(),
{
    if requests.len() > 0 {
        let rest = requests.drop_last();
        assert forall|i: int| 0 <= i < rest.len() implies operation_key(#[trigger] rest[i])
            != k by {
            assert(rest[i] == requests[i]);
        }
        lemma_apply_leaves_other_keys(table, rest, k);
        assert(operation_key(requests[requests.len() - 1]) != k);
    }
}

/// Of the requests that concern a key, the last one decides what the device
/// holds for that key.
pub proof fn lemma_apply_last_decides(
    table: DeviceTable,
    requests: Seq<TableOperation>,
    k: TableKey,
    last: int,
)
    requires
        0 <= last < requests.len(),
        operation_key(requests[last]) == k,
        forall|i: int| last < i < requests.len() ==> operation_key(#[trigger] requests[i]) != k,
    ensures
        match requests[last] {
            TableOperation::Delete(_) => !apply_operations(table, requests).contains_key(k),
            TableOperation::Upsert(entry) => apply_operations(table, requests).contains_key(k)
                && apply_operations(table, requests)[k] == entry,
        },
    decreases requests.len(),
{
    if last < requests.len() - 1 {
        let rest = requests.drop_last();
        assert forall|i: int| last < i < rest.len() implies operation_key(#[trigger] rest[i])
            != k by {
            assert(rest[i] == requests[i]);
        }
        assert(rest[last] == requests[last]);
        lemma_apply_last_decides(table, rest, k, last);
        assert(operation_key(requests[requests.len() - 1]) != k);
    }
}

/// Among requests of which one concerns a key, one is the last to do so.
pub proof fn lemma_last_request_for(requests: Seq<TableOperation>, k: TableKey) -> (last: int)
    requires
        exists|i: int| 0 <= i < requests.len() && operation_key(#[trigger] requests[i]) == k,
    ensures
        0 <= last < requests.len(),
        operation_key(requests[last]) == k,
        forall|i: int| last < i < requests.len() ==> operation_key(#[trigger] requests[i]) != k,
    decreases requests.len(),
{
    let end = requests.len() - 1;
    if operation_key(requests[end]) == k {
        end
    } else {
        let rest = requests.drop_last();
        let w = choose|i: int|
            0 <= i < requests.len() && operation_key(#[trigger] requests[i]) == k;
        assert(rest[w] == requests[w]);
        let last = lemma_last_request_for(rest, k);
        assert(rest[last] == requests[last]);
        assert forall|i: int| last < i < requests.len() implies operation_key(
            #[trigger] requests[i],
        ) != k by {
            if i < end {
                assert(rest[i] == requests[i]);
            }
        }
        last
    }
}

/// A push that a device applies in full leaves the device with exactly the
/// desired set, provided that the device held what the store holds for it
/// but for the unsettled keys.
pub proof fn lemma_push_reaches_desired(
    table: DeviceTable,
    snapshot: Seq<TableEntry>,
    unsettled: Seq<TableKey>,
    desired: Seq<TableEntry>,
)
    requires
        entries_wf(snapshot),
        entries_wf(desired),
        agrees_but_for(table, snapshot, unsettled),
    ensures
        apply_operations(table, plan_operations(snapshot, unsettled, desired)) == table_of(desired),
{
    let deletes = plan_deletes(snapshot, unsettled, desired);
    let upserts = plan_upserts(snapshot, unsettled, desired);
    let requests = plan_operations(snapshot, unsettled, desired);
    let after = apply_operations(table, requests);
    assert(requests.len() == deletes.len() + upserts.len());
    assert forall|k: TableKey|
        #![trigger after.dom().contains(k)]
        #![trigger table_of(desired).dom().contains(k)]
        after.dom().contains(k) == table_of(desired).dom().contains(k) && (after.dom().contains(k)
            ==> after[k] == table_of(desired)[k]) by {
        lemma_plan_deletes_membership(snapshot, unsettled, desired, k);
        if exists|i: int| 0 <= i < requests.len() && operation_key(#[trigger] requests[i]) == k {
            let last = lemma_last_request_for(requests, k);
            lemma_apply_last_decides(table, requests, k, last);
            lemma_operations_index(deletes, upserts, last);
            if last < deletes.len() {
                assert(deletes.contains(deletes[last]));
            } else {
                let e = upserts[last - deletes.len()];
                assert(upserts.contains(e));
                lemma_plan_upserts_membership(snapshot, unsettled, desired, e);
                let j = choose|j: int| 0 <= j < desired.len() && desired[j] == e;
                assert(desired[j].key == k);
            }
        } else {
            lemma_apply_leaves_other_keys(table, requests, k);
            if has_entry(desired, k) {
                let e = desired[entry_index(desired, k)];
                assert(desired.contains(e));
                lemma_plan_upserts_membership(snapshot, unsettled, desired, e);
                if upserts.contains(e) {
                    let i = choose|i: int| 0 <= i < upserts.len() && upserts[i] == e;
                    lemma_operations_index(deletes, upserts, deletes.len() + i);
                    assert(operation_key(requests[deletes.len() + i]) == k);
                }
                assert(snapshot.contains(e) && !unsettled.contains(k));
                let j = choose|j: int| 0 <= j < snapshot.len() && snapshot[j] == e;
                assert(snapshot[j].key == k);
                assert(table.contains_key(k));
            } else {
                if deletes.contains(k) {
                    let i = choose|i: int| 0 <= i < deletes.len() && deletes[i] == k;
                    lemma_operations_index(deletes, upserts, i);
                    assert(operation_key(requests[i]) == k);
                }
                assert(!has_entry(snapshot, k) && !unsettled.contains(k));
                assert(table.contains_key(k) <==> has_entry(snapshot, k));
            }
        }
    }
    assert(after =~= table_of(desired));
}

/// The unsettled keys after a failed push are those from before and the
/// keys of the requests.
pub proof fn lemma_with_unsettled_membership(
    unsettled: Seq<TableKey>,
    requests: Seq<TableOperation>,
    k: TableKey,
)
    ensures
        with_unsettled(unsettled, requests).contains(k) <==> unsettled.contains(k) || exists|
            i: int,
        |
            0 <= i < requests.len() && operation_key(#[trigger] requests[i]) == k,
    decreases requests.len(),
{
    if requests.len() > 0 {
        let rest = requests.drop_last();
        let before = with_unsettled(unsettled, rest);
        let key = operation_key(requests.last());
        lemma_with_unsettled_membership(unsettled, rest, k);
        let out = with_unsettled(unsettled, requests);
        if out.contains(k) {
            if before.contains(k) {
                if !unsettled.contains(k) {
                    let i = choose|i: int|
                        0 <= i < rest.len() && operation_key(#[trigger] rest[i]) == k;
                    assert(requests[i] == rest[i]);
                }
            } else {
                let j = choose|j: int| 0 <= j < out.len() && out[j] == k;
                assert(out == before.push(key));
                if j < before.len() {
                    assert(before[j] == k);
                }
                assert(operation_key(requests[requests.len() - 1]) == k);
            }
        }
        if unsettled.contains(k) {
            assert(before.contains(k));
            if !before.contains(key) {
                let j = choose|j: int| 0 <= j < before.len() && before[j] == k;
                assert(before.push(key)[j] == k);
            }
        }
        if exists|i: int| 0 <= i < requests.len() && operation_key(#[trigger] requests[i]) == k {
            let i = choose|i: int|
                0 <= i < requests.len() && operation_key(#[trigger] requests[i]) == k;
            if i < rest.len() {
                assert(rest[i] == requests[i]);
                assert(before.contains(k));
                if !before.contains(key) {
                    let j = choose|j: int| 0 <= j < before.len() && before[j] == k;
                    assert(before.push(key)[j] == k);
                }
            } else {
                assert(key == k);
                if !before.contains(key) {
                    assert(before.push(key)[before.len() as int] == k);
                }
            }
        }
    }
}

/// A push that a device applies in part, whatever part, leaves the device
/// holding what the store holds for it but for the keys that are unsettled
/// once the push has failed.
pub proof fn lemma_part_of_a_push_stays_unsettled(
    table: DeviceTable,
    snapshot: Seq<TableEntry>,
    unsettled: Seq<TableKey>,
    requests: Seq<TableOperation>,
    applied: int,
)
    requires
        agrees_but_for(table, snapshot, unsettled),
        0 <= applied <= requests.len(),
    ensures
        agrees_but_for(
            apply_operations(table, requests.take(applied)),
            snapshot,
            with_unsettled(unsettled, requests),
        ),
{
    let part = requests.take(applied);
    let after = apply_operations(table, part);
    let marked = with_unsettled(unsettled, requests);
    assert forall|k: TableKey| !marked.contains(k) implies (#[trigger] after.contains_key(k)
        <==> has_entry(snapshot, k)) && (after.contains_key(k) ==> after[k] == table_of(
        snapshot,
    )[k]) by {
        lemma_with_unsettled_membership(unsettled, requests, k);
        assert forall|i: int| 0 <= i < part.len() implies operation_key(#[trigger] part[i])
            != k by {
            assert(part[i] == requests[i]);
        }
        lemma_apply_leaves_other_keys(table, part, k);
        assert(table.contains_key(k) <==> has_entry(snapshot, k));
    }
}

/// Keys that fail a test may be added to the unsettled keys without a change
/// to the unsettled keys that pass it.
pub proof fn lemma_with_unsettled_filter(
    unsettled: Seq<TableKey>,
    requests: Seq<TableOperation>,
    test: spec_fn(TableKey) -> bool,
)
    requires
        forall|i: int|
            0 <= i < requests.len() && !unsettled.contains(operation_key(#[trigger] requests[i]))
                ==> !test(operation_key(requests[i])),
    ensures
        with_unsettled(unsettled, requests).filter(test) == unsettled.filter(test),
    decreases requests.len(),
{
    if requests.len() > 0 {
        let rest = requests.drop_last();
        let before = with_unsettled(unsettled, rest);
        let key = operation_key(requests.last());
        assert forall|i: int|
            0 <= i < rest.len() && !unsettled.contains(
                operation_key(#[trigger] rest[i]),
            ) implies !test(operation_key(rest[i])) by {
            assert(rest[i] == requests[i]);
        }
        lemma_with_unsettled_filter(unsettled, rest, test);
        if !before.contains(key) {
            lemma_with_unsettled_membership(unsettled, rest, key);
            assert(operation_key(requests[requests.len() - 1]) == key);
            before.lemma_filter_push(key, test);
        }
    }
}

/// After a failed push, the next push to the same desired set sends the same
/// requests again, in the same order: the store was left as it was, and the
/// keys that have become unsettled are those of these very requests.
pub proof fn lemma_failed_push_is_repeated(
    current: Seq<TableEntry>,
    unsettled: Seq<TableKey>,
    desired: Seq<TableEntry>,
)
    requires
        entries_wf(current),
        entries_wf(desired),
    ensures
        plan_operations(
            current,
            with_unsettled(unsettled, plan_operations(current, unsettled, desired)),
            desired,
        ) == plan_operations(current, unsettled, desired),
{
    let deletes = plan_deletes(current, unsettled, desired);
    let upserts = plan_upserts(current, unsettled, desired);
    let requests = plan_operations(current, unsettled, desired);
    let marked = with_unsettled(unsettled, requests);
    assert(requests.len() == deletes.len() + upserts.len());
    let before = |e: TableEntry| !current.contains(e) || unsettled.contains(e.key);
    let after = |e: TableEntry| !current.contains(e) || marked.contains(e.key);
    assert forall|i: int| 0 <= i < desired.len() implies after(#[trigger] desired[i]) == before(
        desired[i],
    ) by {
        let e = desired[i];
        lemma_with_unsettled_membership(unsettled, requests, e.key);
        if marked.contains(e.key) && !unsettled.contains(e.key) {
            let j = choose|j: int|
                0 <= j < requests.len() && operation_key(#[trigger] requests[j]) == e.key;
            lemma_operations_index(deletes, upserts, j);
            if j < deletes.len() {
                assert(deletes.contains(deletes[j]));
                lemma_plan_deletes_membership(current, unsettled, desired, e.key);
                assert(desired[i].key == e.key);
            } else {
                let other = upserts[j - deletes.len()];
                assert(upserts.contains(other));
                lemma_plan_upserts_membership(current, unsettled, desired, other);
                let a = choose|a: int| 0 <= a < desired.len() && desired[a] == other;
                assert(desired[a].key == desired[i].key);
            }
        }
    }
    lemma_filters_agree(desired, after, before);
    let test = |k: TableKey| !has_entry(desired, k) && !has_entry(current, k);
    assert forall|i: int|
        0 <= i < requests.len() && !unsettled.contains(
            operation_key(#[trigger] requests[i]),
        ) implies !test(operation_key(requests[i])) by {
        lemma_operations_index(deletes, upserts, i);
        if i < deletes.len() {
            assert(deletes.contains(deletes[i]));
            lemma_plan_deletes_membership(current, unsettled, desired, deletes[i]);
        } else {
            let e = upserts[i - deletes.len()];
            assert(upserts.contains(e));
            lemma_plan_upserts_membership(current, unsettled, desired, e);
            let a = choose|a: int| 0 <= a < desired.len() && desired[a] == e;
            assert(desired[a].key == e.key);
        }
    }
    lemma_with_unsettled_filter(unsettled, requests, test);
}

} // verus!
