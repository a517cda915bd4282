//! Pushes: the requests that bring a device's table to a desired set of
//! entries, and what the outcome of a push means for the store.
//!
//! A push counts as a whole. The store follows the device only where every
//! request of the push succeeded; where any failed, the store stays as it
//! was, and the keys of the push become unsettled: of these it is no longer
//! known what the device holds, so the next push writes or drops each of
//! them whatever the store says. A device must therefore take the drop of a
//! key that it does not hold as done.

use crate::entries::{entries_wf, find_entry, has_entry, holds_entry, to_delete, to_upsert};
use crate::p4runtime_client::ClientAction;
use crate::table_manager::{snapshot_of, with_snapshot, StoreView};
use crate::types::{DeviceId, ErrorClass, P4RuntimeError, TableEntry, TableKey};
use vstd::prelude::*;

verus! {

/// One request of a push.
#[derive(Debug, Clone, Copy, PartialEq, Eq, Structural)]
pub enum TableOperation {
    /// Drop the entry of this key.
    Delete(TableKey),
    /// Write this entry, in place of the entry of its key if there is one.
    Upsert(TableEntry),
}

/// The requests of a push, in the order in which they are sent: every delete
/// before any write.
pub open spec fn operations(deletes: Seq<TableKey>, upserts: Seq<TableEntry>) -> Seq<
    TableOperation,
> {
    deletes.map_values(|k: TableKey| TableOperation::Delete(k)) + upserts.map_values(
        |e: TableEntry| TableOperation::Upsert(e),
    )
}

/// A push that has been decided and not yet reported back.
#[derive(Debug)]
pub struct SyncPlan {
    pub device_id: DeviceId,
    /// Tells this push from earlier pushes to the same device.
    pub ticket: u64,
    /// What to send, in this order.
    pub operations: Vec<TableOperation>,
    /// What the device holds once every operation has been applied.
    pub desired: Vec<TableEntry>,
}

/// The key that a request concerns.
pub open spec fn operation_key(operation: TableOperation) -> TableKey {
    match operation {
        TableOperation::Delete(key) => key,
        TableOperation::Upsert(entry) => entry.key,
    }
}

/// The entries to write in a push that brings a device to `desired`. The
/// store says that the device holds `current`; of the keys in `unsettled`
/// it is not known what the device holds, because a push that concerned
/// them failed. An entry of `desired` is written where the store does not
/// hold it in identical form, and where its key is unsettled.
pub open spec fn plan_upserts(
    current: Seq<TableEntry>,
    unsettled: Seq<TableKey>,
    desired: Seq<TableEntry>,
) -> Seq<TableEntry> {
    desired.filter(|e: TableEntry| !current.contains(e) || unsettled.contains(e.key))
}

/// The keys to drop in a push that brings a device to `desired`: the keys of
/// `current` that `desired` does not have, and then the unsettled keys that
/// neither of the two has.
pub open spec fn plan_deletes(
    current: Seq<TableEntry>,
    unsettled: Seq<TableKey>,
    desired: Seq<TableEntry>,
) -> Seq<TableKey> {
    to_delete(current, desired) + unsettled.filter(
        |k: TableKey| !has_entry(desired, k) && !has_entry(current, k),
    )
}

/// The requests of a push that brings a device to `desired`.
pub open spec fn plan_operations(
    current: Seq<TableEntry>,
    unsettled: Seq<TableKey>,
    desired: Seq<TableEntry>,
) -> Seq<TableOperation> {
    operations(
        plan_deletes(current, unsettled, desired),
        plan_upserts(current, unsettled, desired),
    )
}

/// The unsettled keys after a push with the requests `requests` has failed:
/// the keys that were unsettled before, and then the keys of the requests
/// that were not among them, each once. Which of the requests the device has
/// applied is not known, so the key of every one of them is unsettled.
pub open spec fn with_unsettled(unsettled: Seq<TableKey>, requests: Seq<TableOperation>) -> Seq<
    TableKey,
>
    decreases requests.len(),
{
    if requests.len() == 0 {
        unsettled
    } else {
        let before = with_unsettled(unsettled, requests.drop_last());
        let key = operation_key(requests.last());
        if before.contains(key) {
            before
        } else {
            before.push(key)
        }
    }
}

/// With no key unsettled, a push sends the difference between what the store
/// holds and what is desired, and nothing else.
pub proof fn lemma_plan_without_unsettled(current: Seq<TableEntry>, desired: Seq<TableEntry>)
    ensures
        plan_upserts(current, Seq::<TableKey>::empty(), desired) == to_upsert(current, desired),
        plan_deletes(current, Seq::<TableKey>::empty(), desired) == to_delete(current, desired),
        plan_operations(current, Seq::<TableKey>::empty(), desired) == operations(
            to_delete(current, desired),
            to_upsert(current, desired),
        ),
{
    let none = Seq::<TableKey>::empty();
    let with = |e: TableEntry| !current.contains(e) || none.contains(e.key);
    let without = |e: TableEntry| !current.contains(e);
    lemma_filters_agree(desired, with, without);
    let extra = |k: TableKey| !has_entry(desired, k) && !has_entry(current, k);
    assert(none.filter(extra) =~= none) by {
        reveal(Seq::filter);
    }
    assert(to_delete(current, desired) + none =~= to_delete(current, desired));
}

/// Two tests that agree on every element of a sequence pick the same
/// elements of it.
pub proof fn lemma_filters_agree<A>(s: Seq<A>, p: spec_fn(A) -> bool, q: spec_fn(A) -> bool)
    requires
        forall|i: int| 0 <= i < s.len() ==> p(#[trigger] s[i]) == q(s[i]),
    ensures
        s.filter(p) == s.filter(q),
    decreases s.len(),
{
    reveal(Seq::filter);
    if s.len() > 0 {
        let rest = s.drop_last();
        assert forall|i: int| 0 <= i < rest.len() implies p(#[trigger] rest[i]) == q(rest[i]) by {
            assert(rest[i] == s[i]);
        }
        lemma_filters_agree(rest, p, q);
        assert(p(s[s.len() - 1]) == q(s[s.len() - 1]));
    }
}

/// Decides whether `key` is among `keys`.
pub fn holds_key(keys: &Vec<TableKey>, key: TableKey) -> (r: bool)
    ensures
        r == keys@.contains(key),
{
    let mut i: usize = 0;
    while i < keys.len()
        invariant
            i <= keys@.len(),
            forall|j: int| 0 <= j < i ==> (#[trigger] keys@[j]) != key,
        decreases keys@.len() - i,
    {
        if keys[i] == key {
            return true;
        }
        i += 1;
    }
    false
}

/// Lists the requests of a push that brings a device to `desired`, given
/// what the store holds for it and which keys are unsettled.
pub fn build_plan(
    current: &Vec<TableEntry>,
    unsettled: &Vec<TableKey>,
    desired: &Vec<TableEntry>,
) -> (out: Vec<TableOperation>)
    ensures
        out@ == plan_operations(current@, unsettled@, desired@),
{
    let ghost gone = |e: TableEntry| !has_entry(desired@, e.key);
    let ghost key_of = |e: TableEntry| e.key;
    let mut deletes: Vec<TableKey> = Vec::new();
    let mut i: usize = 0;
    while i < current.len()
        invariant
            i <= current@.len(),
            gone == |e: TableEntry| !has_entry(desired@, e.key),
            key_of == |e: TableEntry| e.key,
            deletes@ == current@.take(i as int).filter(gone).map_values(key_of),
        decreases current@.len() - i,
    {
        proof {
            assert(current@.take(i + 1) =~= current@.take(i as int).push(current@[i as int]));
            current@.take(i as int).lemma_filter_push(current@[i as int], gone);
            assert(current@.take(i as int).filter(gone).push(current@[i as int]).map_values(key_of)
                =~= current@.take(i as int).filter(gone).map_values(key_of).push(
                current@[i as int].key,
            ));
        }
        match find_entry(desired, current[i].key) {
            Some(_) => {},
            None => {
                deletes.push(current[i].key);
            },
        }
        i += 1;
    }
    assert(current@.take(i as int) == current@);
    let ghost first = deletes@;
    let ghost extra = |k: TableKey| !has_entry(desired@, k) && !has_entry(current@, k);
    let mut j: usize = 0;
    while j < unsettled.len()
        invariant
            j <= unsettled@.len(),
            extra == |k: TableKey| !has_entry(desired@, k) && !has_entry(current@, k),
            deletes@ == first + unsettled@.take(j as int).filter(extra),
        decreases unsettled@.len() - j,
    {
        proof {
            assert(unsettled@.take(j + 1) =~= unsettled@.take(j as int).push(unsettled@[j as int]));
            unsettled@.take(j as int).lemma_filter_push(unsettled@[j as int], extra);
        }
        let key = unsettled[j];
        let wanted = find_entry(desired, key).is_some();
        let held = find_entry(current, key).is_some();
        if !wanted && !held {
            deletes.push(key);
        }
        j += 1;
    }
    assert(unsettled@.take(j as int) == unsettled@);
    let ghost keep = |e: TableEntry| !current@.contains(e) || unsettled@.contains(e.key);
    let mut upserts: Vec<TableEntry> = Vec::new();
    let mut k: usize = 0;
    while k < desired.len()
        invariant
            k <= desired@.len(),
            keep == |e: TableEntry| !current@.contains(e) || unsettled@.contains(e.key),
            upserts@ == desired@.take(k as int).filter(keep),
        decreases desired@.len() - k,
    {
        proof {
            assert(desired@.take(k + 1) =~= desired@.take(k as int).push(desired@[k as int]));
            desired@.take(k as int).lemma_filter_push(desired@[k as int], keep);
        }
        if !holds_entry(current, desired[k]) || holds_key(unsettled, desired[k].key) {
            upserts.push(desired[k]);
        }
        k += 1;
    }
    assert(desired@.take(k as int) == desired@);
    build_operations(&deletes, &upserts)
}

/// Adds the keys of the requests of a failed push to the unsettled keys.
pub fn mark_unsettled(unsettled: &mut Vec<TableKey>, requests: &Vec<TableOperation>)
    ensures
        final(unsettled)@ == with_unsettled(old(unsettled)@, requests@),
{
    let mut i: usize = 0;
    while i < requests.len()
        invariant
            i <= requests@.len(),
            unsettled@ == with_unsettled(old(unsettled)@, requests@.take(i as int)),
        decreases requests@.len() - i,
    {
        proof {
            assert(requests@.take(i + 1).drop_last() =~= requests@.take(i as int));
        }
        let key = match requests[i] {
            TableOperation::Delete(key) => key,
            TableOperation::Upsert(entry) => entry.key,
        };
        if !holds_key(unsettled, key) {
            unsettled.push(key);
        }
        i += 1;
    }
    assert(requests@.take(i as int) == requests@);
}

/// Lists the requests of a push.
pub fn build_operations(deletes: &Vec<TableKey>, upserts: &Vec<TableEntry>) -> (out: Vec<
    TableOperation,
>)
    ensures
        out@ == operations(deletes@, upserts@),
{
    let mut out: Vec<TableOperation> = Vec::new();
    let mut i: usize = 0;
    while i < deletes.len()
        invariant
            i <= deletes@.len(),
            out@ == deletes@.take(i as int).map_values(|k: TableKey| TableOperation::Delete(k)),
        decreases deletes@.len() - i,
    {
        out.push(TableOperation::Delete(deletes[i]));
        assert(out@ =~= deletes@.take(i + 1).map_values(|k: TableKey| TableOperation::Delete(k)));
        i += 1;
    }
    assert(deletes@.take(i as int) == deletes@);
    let ghost head = out@;
    let mut j: usize = 0;
    while j < upserts.len()
        invariant
            j <= upserts@.len(),
            out@ == head + upserts@.take(j as int).map_values(
                |e: TableEntry| TableOperation::Upsert(e),
            ),
        decreases upserts@.len() - j,
    {
        out.push(TableOperation::Upsert(upserts[j]));
        assert(out@ =~= head + upserts@.take(j + 1).map_values(
            |e: TableEntry| TableOperation::Upsert(e),
        ));
        j += 1;
    }
    assert(upserts@.take(j as int) == upserts@);
    out
}

/// How a push ended, as far as the reported outcomes tell: `None` where
/// every one of the `expected` operations succeeded; otherwise the class of
/// the first failure, a missing outcome counting as a transient one.
pub open spec fn batch_failure(expected: nat, outcomes: Seq<Result<(), P4RuntimeError>>) -> Option<
    ErrorClass,
> {
    if exists|i: int| 0 <= i < outcomes.len() && i < expected && (#[trigger] outcomes[i]) is Err {
        let first = choose|i: int|
            0 <= i < outcomes.len() && i < expected && (#[trigger] outcomes[i]) is Err && forall|
                j: int,
            |
                0 <= j < i ==> (#[trigger] outcomes[j]) is Ok;
        Some(outcomes[first]->Err_0.class())
    } else if outcomes.len() < expected {
        Some(ErrorClass::Transient)
    } else {
        None
    }
}

/// Finds how a push ended.
pub fn check_batch(expected: usize, outcomes: &Vec<Result<(), P4RuntimeError>>) -> (r: Option<
    ErrorClass,
>)
    ensures
        r == batch_failure(expected as nat, outcomes@),
{
    let mut i: usize = 0;
    while i < outcomes.len() && i < expected
        invariant
            i <= outcomes@.len(),
            i <= expected,
            forall|j: int| 0 <= j < i ==> (#[trigger] outcomes@[j]) is Ok,
        decreases outcomes@.len() - i,
    {
        match &outcomes[i] {
            Ok(_) => {},
            Err(e) => {
                proof {
                    let first = choose|k: int|
                        0 <= k < outcomes@.len() && k < expected && (#[trigger] outcomes@[k])
                            is Err && forall|j: int| 0 <= j < k ==> (#[trigger] outcomes@[j]) is Ok;
                    assert(outcomes@[i as int] is Err);
                    if first < i {
                        assert(outcomes@[first] is Ok);
                    }
                    if i < first {
                        assert(outcomes@[i as int] is Ok);
                    }
                }
                return Some(e.classification());
            },
        }
        i += 1;
    }
    if outcomes.len() < expected {
        Some(ErrorClass::Transient)
    } else {
        None
    }
}

/// A push in which any operation failed did not succeed.
pub proof fn lemma_one_failure_fails_the_batch(
    expected: nat,
    outcomes: Seq<Result<(), P4RuntimeError>>,
    i: int,
)
    requires
        0 <= i < outcomes.len(),
        i < expected,
        outcomes[i] is Err,
    ensures
        batch_failure(expected, outcomes) is Some,
{
}

/// The kind of request that failed.
#[derive(Debug, Clone, Copy, PartialEq, Eq, Structural)]
pub enum OperationKind {
    Connect,
    /// A push: deletes and writes of table entries.
    Write,
    Read,
    GetStatistics,
}

/// What is told of a failure to whoever watches over the devices.
#[derive(Debug, Clone, Copy, PartialEq, Eq, Structural)]
pub struct FailureReport {
    pub device_id: DeviceId,
    pub operation: OperationKind,
    pub class: ErrorClass,
    /// What follows: a retry after a delay, a report of the device as
    /// degraded, or nothing where the failure did not concern the
    /// connection.
    pub action: ClientAction,
}

/// How a reported push ended.
#[derive(Debug, Clone, Copy, PartialEq, Eq, Structural)]
pub enum SyncReport {
    /// The plan belongs to no push that is under way: nothing was changed.
    Stale,
    /// Every operation succeeded and the store follows the device. `resync`
    /// says whether a new desired set arrived meanwhile.
    Committed { resync: bool },
    /// The push failed and the store was left as it was.
    Failed { failure: FailureReport },
}

/// How a push ended: `None` where it succeeded. It fails where an operation
/// failed or was not reported, where the store does not know the device, and
/// where the plan's desired set is malformed.
pub open spec fn push_failure(
    store: StoreView,
    plan: SyncPlan,
    outcomes: Seq<Result<(), P4RuntimeError>>,
) -> Option<ErrorClass> {
    if batch_failure(plan.operations@.len(), outcomes) is Some {
        batch_failure(plan.operations@.len(), outcomes)
    } else if !store.contains_key(plan.device_id) || !entries_wf(plan.desired@) {
        Some(ErrorClass::Permanent)
    } else {
        None
    }
}

/// The store after a push has been reported: it follows the device where the
/// push succeeded, and stays as it was where the push failed.
pub open spec fn store_after_push(
    store: StoreView,
    plan: SyncPlan,
    outcomes: Seq<Result<(), P4RuntimeError>>,
) -> StoreView {
    if push_failure(store, plan, outcomes) is None {
        with_snapshot(store, plan.device_id, plan.desired@)
    } else {
        store
    }
}

/// A push in which an operation failed leaves the store as it was: none of
/// its entries counts as held by the device, whatever succeeded before the
/// failure.
pub proof fn lemma_failed_push_commits_nothing(
    store: StoreView,
    plan: SyncPlan,
    outcomes: Seq<Result<(), P4RuntimeError>>,
    i: int,
)
    requires
        0 <= i < outcomes.len(),
        i < plan.operations@.len(),
        outcomes[i] is Err,
    ensures
        store_after_push(store, plan, outcomes) == store,
{
    lemma_one_failure_fails_the_batch(plan.operations@.len(), outcomes, i);
}

/// Pushes to two devices do not touch each other: where the push to one
/// device fails and the push to the other succeeds, in either order, the
/// store holds the second device's desired set and holds for the first
/// device what it held before.
pub proof fn lemma_partial_failure_is_isolated(
    store: StoreView,
    failed: SyncPlan,
    failed_outcomes: Seq<Result<(), P4RuntimeError>>,
    passed: SyncPlan,
    passed_outcomes: Seq<Result<(), P4RuntimeError>>,
)
    requires
        failed.device_id != passed.device_id,
        store.contains_key(failed.device_id),
        batch_failure(failed.operations@.len(), failed_outcomes) is Some,
        push_failure(store, passed, passed_outcomes) is None,
    ensures
        ({
            let one = store_after_push(
                store_after_push(store, failed, failed_outcomes),
                passed,
                passed_outcomes,
            );
            let other = store_after_push(
                store_after_push(store, passed, passed_outcomes),
                failed,
                failed_outcomes,
            );
            &&& one == other
            &&& snapshot_of(one, passed.device_id) == passed.desired@
            &&& snapshot_of(one, failed.device_id) == snapshot_of(store, failed.device_id)
        }),
{
    let mid = store_after_push(store, passed, passed_outcomes);
    assert(mid.contains_key(failed.device_id));
}

} // verus!
