//! The registered devices: for each its description, its connection state
//! machine and the state of its synchronisation, and the decisions on how
//! each is brought to hold a desired set of entries.

use crate::entries::{check_entries, copy_entries, entries_wf, MALFORMED_ENTRY_SET};
use crate::p4runtime_client::{
    endpoint_accepted, endpoint_is_accepted, lemma_step_keeps_invariant, status_wf, step,
    ClientAction, ClientEvent, ClientStatus, ConnectionState, P4RuntimeClient,
};
use crate::reconcile::lemma_failed_push_is_repeated;
use crate::retry::{default_policy, RetryPolicy};
use crate::sync::{
    build_operations, build_plan, check_batch, lemma_plan_without_unsettled, mark_unsettled,
    operations, plan_operations, push_failure, store_after_push, with_unsettled, FailureReport,
    OperationKind, SyncPlan, SyncReport, TableOperation,
};
use crate::table_manager::{lemma_no_diff_after_commit, snapshot_of, StoreView, TableManager};
use crate::types::{
    DeviceId, DeviceInfo, ErrorClass, P4RuntimeError, Statistics, TableEntry, TableKey,
};
use std::collections::HashMap;
use vstd::prelude::*;
use vstd::std_specs::hash::{group_hash_axioms, spec_hash_map_iter};
use vstd::std_specs::iter::IteratorSpec;
use vstd::string::StringExecFns;

verus! {

/// The gRPC status code INVALID_ARGUMENT.
pub const INVALID_ARGUMENT: i32 = 3;

/// The message of the error that refuses a device whose endpoint is not a
/// URI.
pub const INVALID_ENDPOINT: &'static str = "Invalid endpoint URI";

/// What the manager remembers of a device.
pub struct DeviceRecord {
    pub info: DeviceInfo,
    pub status: ClientStatus,
    /// The ticket of the push that is under way, if one is.
    pub in_flight: Option<u64>,
    /// Whether a new desired set arrived while a push was under way.
    pub resync_needed: bool,
    /// The ticket of the next push.
    pub next_ticket: u64,
    /// The keys of which it is not known what the device holds, because a
    /// push that concerned them failed.
    pub unsettled: Seq<TableKey>,
}

/// What a request to synchronise a device comes to.
pub enum SyncDecision {
    /// The device is not connected: the push waits for the connection.
    Wait,
    /// A push is under way: the request is folded into the next one.
    Coalesce,
    /// The device already holds the desired set: nothing is sent.
    InSync,
    /// The difference is pushed.
    Push,
}

/// The decision on a request to bring a device, of which the store holds
/// `snapshot`, to `desired`.
pub open spec fn sync_decision(
    record: DeviceRecord,
    snapshot: Seq<TableEntry>,
    desired: Seq<TableEntry>,
) -> SyncDecision {
    if !record.status.connected {
        SyncDecision::Wait
    } else if record.in_flight is Some {
        SyncDecision::Coalesce
    } else if plan_operations(snapshot, record.unsettled, desired).len() == 0 {
        SyncDecision::InSync
    } else {
        SyncDecision::Push
    }
}

/// The ticket that follows `ticket`.
pub open spec fn ticket_after(ticket: u64) -> u64 {
    if ticket < u64::MAX {
        (ticket + 1) as u64
    } else {
        0
    }
}

/// The record of a device after a request to synchronise it.
pub open spec fn record_after_sync(
    record: DeviceRecord,
    policy: RetryPolicy,
    snapshot: Seq<TableEntry>,
    desired: Seq<TableEntry>,
) -> DeviceRecord {
    match sync_decision(record, snapshot, desired) {
        SyncDecision::Wait => record,
        SyncDecision::Coalesce => DeviceRecord { resync_needed: true, ..record },
        SyncDecision::InSync => DeviceRecord {
            status: step(record.status, policy, ClientEvent::PushSucceeded).0,
            ..record
        },
        SyncDecision::Push => DeviceRecord {
            in_flight: Some(record.next_ticket),
            next_ticket: ticket_after(record.next_ticket),
            ..record
        },
    }
}

/// Whether `plan` is the push that a request to bring the device of `record`
/// from `snapshot` to `desired` hands out.
pub open spec fn is_plan_for(
    plan: SyncPlan,
    record: DeviceRecord,
    snapshot: Seq<TableEntry>,
    desired: Seq<TableEntry>,
) -> bool {
    &&& plan.device_id == record.status.device_id
    &&& plan.ticket == record.next_ticket
    &&& plan.desired@ == desired
    &&& plan.operations@ == plan_operations(snapshot, record.unsettled, desired)
}

/// The record of a device after its push with the requests `requests` has
/// been reported. After a success no key is unsettled; after a failure the
/// keys of the requests are.
pub open spec fn record_after_push(
    record: DeviceRecord,
    policy: RetryPolicy,
    failure: Option<ErrorClass>,
    requests: Seq<TableOperation>,
) -> DeviceRecord {
    DeviceRecord {
        status: step(
            record.status,
            policy,
            match failure {
                None => ClientEvent::PushSucceeded,
                Some(class) => ClientEvent::PushFailed(class),
            },
        ).0,
        in_flight: None,
        resync_needed: false,
        unsettled: match failure {
            None => Seq::empty(),
            Some(_) => with_unsettled(record.unsettled, requests),
        },
        ..record
    }
}

/// The record of a device that has just been registered: it is connecting,
/// has no failure and no push under way, and keeps the ticket counter of the
/// device that it replaces, if it replaces one.
pub open spec fn new_record(before: Map<DeviceId, DeviceRecord>, info: DeviceInfo) -> DeviceRecord {
    DeviceRecord {
        info,
        status: ClientStatus {
            device_id: info.device_id,
            state: ConnectionState::Connecting,
            connected: false,
            consecutive_failures: 0,
            degraded: false,
        },
        in_flight: None,
        resync_needed: false,
        next_ticket: if before.contains_key(info.device_id) {
            before[info.device_id].next_ticket
        } else {
            0
        },
        unsettled: Seq::empty(),
    }
}

/// Whether a request to bring the device of `record` to `desired` comes to a
/// push.
pub open spec fn pushes(record: DeviceRecord, store: StoreView, desired: Seq<TableEntry>) -> bool {
    store.contains_key(record.status.device_id) && sync_decision(
        record,
        snapshot_of(store, record.status.device_id),
        desired,
    ) is Push
}

/// The record of a registered device after every device has been asked to
/// hold `desired`: as a single request leaves it where the store knows the
/// device, and unchanged where it does not.
pub open spec fn synced_record(
    record: DeviceRecord,
    policy: RetryPolicy,
    store: StoreView,
    desired: Seq<TableEntry>,
) -> DeviceRecord {
    if store.contains_key(record.status.device_id) {
        record_after_sync(
            record,
            policy,
            snapshot_of(store, record.status.device_id),
            desired,
        )
    } else {
        record
    }
}

/// Whether `plan` is the push of one of the registered devices, as a single
/// request hands it out.
pub open spec fn is_plan_of_all(
    plan: SyncPlan,
    before: Map<DeviceId, DeviceRecord>,
    store: StoreView,
    desired: Seq<TableEntry>,
) -> bool {
    &&& before.contains_key(plan.device_id)
    &&& store.contains_key(plan.device_id)
    &&& sync_decision(before[plan.device_id], snapshot_of(store, plan.device_id), desired) is Push
    &&& is_plan_for(plan, before[plan.device_id], snapshot_of(store, plan.device_id), desired)
}

/// What holds after every registered device has been asked to hold
/// `desired`: the same devices are registered, each with the record that a
/// single request leaves; every plan is the push of a registered device; and
/// every device whose request comes to a push has its plan.
pub open spec fn all_synced(
    before: Map<DeviceId, DeviceRecord>,
    after: Map<DeviceId, DeviceRecord>,
    policy: RetryPolicy,
    store: StoreView,
    desired: Seq<TableEntry>,
    plans: Seq<SyncPlan>,
) -> bool {
    &&& after.dom() == before.dom()
    &&& forall|d: DeviceId| #[trigger]
        before.contains_key(d) ==> after[d] == synced_record(before[d], policy, store, desired)
    &&& forall|k: int|
        0 <= k < plans.len() ==> is_plan_of_all(#[trigger] plans[k], before, store, desired)
    &&& forall|d: DeviceId|
        before.contains_key(d) && store.contains_key(d) && sync_decision(
            before[d],
            snapshot_of(store, d),
            desired,
        ) is Push ==> exists|k: int| 0 <= k < plans.len() && (#[trigger] plans[k]).device_id == d
}

/// The report on a reply to a request for counters: one for the failed reply
/// of a registered device, none for any other reply.
pub open spec fn failed_reply(
    devices: Map<DeviceId, DeviceRecord>,
    reply: (DeviceId, Result<Statistics, P4RuntimeError>),
) -> Option<FailureReport> {
    if devices.contains_key(reply.0) && reply.1 is Err {
        Some(
            FailureReport {
                device_id: reply.0,
                operation: OperationKind::GetStatistics,
                class: reply.1->Err_0.class(),
                action: ClientAction::Nothing,
            },
        )
    } else {
        None
    }
}

/// Whether the reply at `i` is a successful one from the device `d`.
pub open spec fn is_reply_of(
    replies: Seq<(DeviceId, Result<Statistics, P4RuntimeError>)>,
    d: DeviceId,
    i: int,
) -> bool {
    0 <= i < replies.len() && replies[i].0 == d && replies[i].1 is Ok
}

/// Whether the reply at `i` is the last successful one from the device `d`.
pub open spec fn is_last_reply_of(
    replies: Seq<(DeviceId, Result<Statistics, P4RuntimeError>)>,
    d: DeviceId,
    i: int,
) -> bool {
    is_reply_of(replies, d, i) && forall|j: int| i < j ==> !is_reply_of(replies, d, j)
}

/// Whether `stats` holds, for every registered device that sent a successful
/// reply, the counters of its last one, and nothing else.
pub open spec fn statistics_of(
    stats: Map<DeviceId, Statistics>,
    devices: Map<DeviceId, DeviceRecord>,
    replies: Seq<(DeviceId, Result<Statistics, P4RuntimeError>)>,
) -> bool {
    &&& forall|d: DeviceId| #[trigger]
        stats.contains_key(d) ==> devices.contains_key(d) && exists|i: int| #[trigger]
            is_last_reply_of(replies, d, i) && stats[d] == replies[i].1->Ok_0
    &&& forall|d: DeviceId, i: int|
        devices.contains_key(d) && #[trigger] is_reply_of(replies, d, i) ==> stats.contains_key(d)
}

/// A push that succeeded makes the store hold the plan's desired set for the
/// device and leaves no key unsettled, so that the same desired set differs
/// from what the device holds in nothing: asking the device to hold it once
/// more sends no request.
pub proof fn lemma_successful_push_is_committed(
    store: StoreView,
    plan: SyncPlan,
    outcomes: Seq<Result<(), P4RuntimeError>>,
    record: DeviceRecord,
    policy: RetryPolicy,
)
    requires
        push_failure(store, plan, outcomes) is None,
    ensures
        snapshot_of(store_after_push(store, plan, outcomes), plan.device_id) == plan.desired@,
        plan_operations(
            snapshot_of(store_after_push(store, plan, outcomes), plan.device_id),
            record_after_push(record, policy, None, plan.operations@).unsettled,
            plan.desired@,
        ).len() == 0,
        !(sync_decision(
            record_after_push(record, policy, None, plan.operations@),
            snapshot_of(store_after_push(store, plan, outcomes), plan.device_id),
            plan.desired@,
        ) is Push),
{
    lemma_no_diff_after_commit(store, plan.device_id, plan.desired@);
    lemma_plan_without_unsettled(plan.desired@, plan.desired@);
}

/// After a failed push, the next push of the device to the same desired set
/// sends the requests of the failed one again.
pub proof fn lemma_next_push_repeats_the_failed_one(
    record: DeviceRecord,
    policy: RetryPolicy,
    snapshot: Seq<TableEntry>,
    desired: Seq<TableEntry>,
    plan: SyncPlan,
    class: ErrorClass,
)
    requires
        entries_wf(snapshot),
        entries_wf(desired),
        is_plan_for(plan, record, snapshot, desired),
    ensures
        plan_operations(
            snapshot,
            record_after_push(record, policy, Some(class), plan.operations@).unsettled,
            desired,
        ) == plan.operations@,
{
    lemma_failed_push_is_repeated(snapshot, record.unsettled, desired);
}

/// What the manager holds of a device.
#[derive(Debug)]
struct DeviceSlot {
    info: DeviceInfo,
    client: P4RuntimeClient,
    in_flight: Option<u64>,
    resync_needed: bool,
    next_ticket: u64,
    unsettled: Vec<TableKey>,
}

/// The registered devices, each with its connection state machine and the
/// state of its synchronisation.
#[derive(Debug)]
pub struct DeviceManager {
    devices: HashMap<DeviceId, DeviceSlot>,
    policy: RetryPolicy,
}

impl DeviceManager {
    /// The registered devices.
    pub closed spec fn records(&self) -> Map<DeviceId, DeviceRecord> {
        Map::new(
            |d: DeviceId| self.devices@.contains_key(d),
            |d: DeviceId|
                DeviceRecord {
                    info: self.devices@[d].info,
                    status: self.devices@[d].client@,
                    in_flight: self.devices@[d].in_flight,
                    resync_needed: self.devices@[d].resync_needed,
                    next_ticket: self.devices@[d].next_ticket,
                    unsettled: self.devices@[d].unsettled@,
                },
        )
    }

    /// The retry policy.
    pub closed spec fn policy(&self) -> RetryPolicy {
        self.policy
    }

    /// Whether the device is registered.
    pub open spec fn has_device(&self, device_id: DeviceId) -> bool {
        self.records().contains_key(device_id)
    }

    /// The invariant of the manager: every device is filed under its own id,
    /// and its status is well formed.
    pub closed spec fn wf(&self) -> bool {
        forall|d: DeviceId| #[trigger]
            self.devices@.contains_key(d) ==> self.devices@[d].info.device_id == d
                && self.devices@[d].client.wf() && self.devices@[d].client@.device_id == d
    }

    /// What the invariant says of the records.
    pub proof fn lemma_wf(&self)
        requires
            self.wf(),
        ensures
            forall|d: DeviceId| #[trigger]
                self.records().contains_key(d) ==> self.records()[d].info.device_id == d
                    && self.records()[d].status.device_id == d && status_wf(
                    self.records()[d].status,
                ),
    {
    }

    /// A manager without devices, with the default retry policy.
    pub fn new() -> (r: Self)
        ensures
            r.wf(),
            r.records() == Map::<DeviceId, DeviceRecord>::empty(),
            r.policy() == default_policy(),
    {
        DeviceManager::with_policy(
            RetryPolicy { base_delay_ms: 100, max_delay_ms: 30_000, max_failures: 5 },
        )
    }

    /// A manager without devices, with the given retry policy.
    pub fn with_policy(policy: RetryPolicy) -> (r: Self)
        ensures
            r.wf(),
            r.records() == Map::<DeviceId, DeviceRecord>::empty(),
            r.policy() == policy,
    {
        let r = DeviceManager { devices: HashMap::new(), policy };
        assert(r.records() =~= Map::<DeviceId, DeviceRecord>::empty());
        r
    }

    /// Puts a slot in place of the one of `device_id`.
    fn put(&mut self, device_id: DeviceId, slot: DeviceSlot)
        requires
            slot.info.device_id == device_id,
            slot.client.wf(),
            slot.client@.device_id == device_id,
            forall|d: DeviceId| #[trigger]
                old(self).devices@.contains_key(d) && d != device_id ==> old(
                    self,
                ).devices@[d].info.device_id == d && old(self).devices@[d].client.wf() && old(
                    self,
                ).devices@[d].client@.device_id == d,
        ensures
            final(self).wf(),
            final(self).policy() == old(self).policy(),
            final(self).devices@ == old(self).devices@.insert(device_id, slot),
            final(self).records() == old(self).records().insert(
                device_id,
                DeviceRecord {
                    info: slot.info,
                    status: slot.client@,
                    in_flight: slot.in_flight,
                    resync_needed: slot.resync_needed,
                    next_ticket: slot.next_ticket,
                    unsettled: slot.unsettled@,
                },
            ),
    {
        broadcast use group_hash_axioms;

        self.devices.insert(device_id, slot);
        assert(self.records() =~= old(self).records().insert(
            device_id,
            DeviceRecord {
                info: slot.info,
                status: slot.client@,
                in_flight: slot.in_flight,
                resync_needed: slot.resync_needed,
                next_ticket: slot.next_ticket,
                unsettled: slot.unsettled@,
            },
        ));
    }

    /// Registers a device and asks for its connection, provided that
    /// `endpoint_accepted` says that the device's endpoint is one that a
    /// channel can be opened to; otherwise the device is refused and
    /// nothing changes. A device that was registered under the same id is
    /// replaced and starts over.
    pub fn register_device(&mut self, device_info: DeviceInfo, endpoint_accepted: bool) -> (result:
        Result<ClientAction, P4RuntimeError>)
        requires
            old(self).wf(),
        ensures
            final(self).wf(),
            final(self).policy() == old(self).policy(),
            endpoint_accepted ==> result == Ok::<ClientAction, P4RuntimeError>(
                ClientAction::Connect,
            ) && final(self).records() == old(self).records().insert(
                device_info.device_id,
                new_record(old(self).records(), device_info),
            ),
            !endpoint_accepted ==> final(self).records() == old(self).records() && (
            result matches Err(P4RuntimeError::GrpcError { code, message }) && code
                == INVALID_ARGUMENT && message@ == INVALID_ENDPOINT@),
    {
        broadcast use group_hash_axioms;

        if !endpoint_accepted {
            return Err(
                P4RuntimeError::GrpcError {
                    code: INVALID_ARGUMENT,
                    message: String::from_str(INVALID_ENDPOINT),
                },
            );
        }
        let device_id = device_info.device_id;
        let next_ticket = match self.devices.get(&device_id) {
            Some(slot) => slot.next_ticket,
            None => 0,
        };
        let mut client = P4RuntimeClient::new(device_id);
        let action = client.handle(&self.policy, ClientEvent::ConnectRequested);
        self.put(
            device_id,
            DeviceSlot {
                info: device_info,
                client,
                in_flight: None,
                resync_needed: false,
                next_ticket,
                unsettled: Vec::new(),
            },
        );
        Ok(action)
    }

    /// Registers a device and asks for its connection, provided that its
    /// endpoint is a URI that a channel can be opened to; otherwise the
    /// device is refused and nothing changes.
    pub fn add_device(&mut self, device_info: DeviceInfo) -> (result: Result<
        ClientAction,
        P4RuntimeError,
    >)
        requires
            old(self).wf(),
        ensures
            final(self).wf(),
            final(self).policy() == old(self).policy(),
            endpoint_accepted(device_info.grpc_endpoint@) ==> result == Ok::<
                ClientAction,
                P4RuntimeError,
            >(ClientAction::Connect) && final(self).records() == old(self).records().insert(
                device_info.device_id,
                new_record(old(self).records(), device_info),
            ),
            !endpoint_accepted(device_info.grpc_endpoint@) ==> final(self).records() == old(
                self,
            ).records() && (result matches Err(P4RuntimeError::GrpcError { code, message })
                && code == INVALID_ARGUMENT && message@ == INVALID_ENDPOINT@),
    {
        let accepted = endpoint_is_accepted(device_info.grpc_endpoint.as_str());
        self.register_device(device_info, accepted)
    }

    /// Forgets a device; an unknown device is no error.
    pub fn remove_device(&mut self, device_id: DeviceId) -> (result: Result<(), P4RuntimeError>)
        requires
            old(self).wf(),
        ensures
            final(self).wf(),
            final(self).policy() == old(self).policy(),
            result is Ok,
            final(self).records() == old(self).records().remove(device_id),
    {
        broadcast use group_hash_axioms;

        self.devices.remove(&device_id);
        assert(self.records() =~= old(self).records().remove(device_id));
        Ok(())
    }

    /// What the state machine of a registered device remembers.
    pub fn device_status(&self, device_id: DeviceId) -> (r: Option<ClientStatus>)
        ensures
            r == (if self.has_device(device_id) {
                Some(self.records()[device_id].status)
            } else {
                None
            }),
    {
        broadcast use group_hash_axioms;

        match self.devices.get(&device_id) {
            Some(slot) => Some(slot.client.status()),
            None => None,
        }
    }

    /// Whether a push to a registered device is under way.
    pub fn is_syncing(&self, device_id: DeviceId) -> (r: bool)
        ensures
            r == (self.has_device(device_id) && self.records()[device_id].in_flight is Some),
    {
        broadcast use group_hash_axioms;

        match self.devices.get(&device_id) {
            Some(slot) => slot.in_flight.is_some(),
            None => false,
        }
    }

    /// The ids of the registered devices, each once, in no particular order.
    pub fn device_ids(&self) -> (out: Vec<DeviceId>)
        ensures
            out@.no_duplicates(),
            forall|d: DeviceId|
                #![trigger out@.contains(d)]
                #![trigger self.records().contains_key(d)]
                out@.contains(d) <==> self.has_device(d),
    {
        broadcast use group_hash_axioms;

        let ghost items = spec_hash_map_iter(&self.devices).remaining();
        let ghost m = self.devices@;
        let mut out: Vec<DeviceId> = Vec::new();
        for (k, v) in it: self.devices.iter()
            invariant
                it.seq() == items,
                items.no_duplicates(),
                out@.len() == it.index(),
                forall|j: int| 0 <= j < out@.len() ==> (#[trigger] out@[j]) == *items[j].0,
        {
            out.push(*k);
        }
        proof {
            assert forall|a: int, b: int| 0 <= a < out@.len() && 0 <= b < out@.len() && a
                != b implies out@[a] != out@[b] by {
                assert(m.contains_key(*items[a].0));
                assert(m.contains_key(*items[b].0));
                if out@[a] == out@[b] {
                    assert(*items[a].1 == m[*items[a].0]);
                    assert(*items[b].1 == m[*items[b].0]);
                    assert(items[a] == items[b]);
                }
            }
            assert forall|d: DeviceId| out@.contains(d) <==> self.has_device(d) by {
                if out@.contains(d) {
                    let j = choose|j: int| 0 <= j < out@.len() && out@[j] == d;
                    assert(m.contains_key(*items[j].0));
                }
                if self.has_device(d) {
                    assert(items.contains((&d, &m[d])));
                    let j = choose|j: int| 0 <= j < items.len() && items[j] == (&d, &m[d]);
                    assert(out@[j] == d);
                }
            }
        }
        out
    }

    /// The registered devices, each once, in no particular order.
    pub fn list_devices(&self) -> (out: Vec<DeviceInfo>)
        requires
            self.wf(),
        ensures
            out@.len() == self.records().dom().len(),
            forall|i: int|
                0 <= i < out@.len() ==> self.has_device((#[trigger] out@[i]).device_id)
                    && out@[i].same_device(self.records()[out@[i].device_id].info),
            forall|d: DeviceId| #[trigger]
                self.has_device(d) ==> exists|i: int|
                    0 <= i < out@.len() && (#[trigger] out@[i]).device_id == d,
    {
        broadcast use group_hash_axioms;

        let ghost items = spec_hash_map_iter(&self.devices).remaining();
        let ghost m = self.devices@;
        let mut out: Vec<DeviceInfo> = Vec::new();
        for (k, v) in it: self.devices.iter()
            invariant
                it.seq() == items,
                out@.len() == it.index(),
                forall|j: int|
                    0 <= j < out@.len() ==> (#[trigger] out@[j]).same_device(items[j].1.info),
        {
            out.push(v.info.clone());
        }
        proof {
            assert(self.records().dom() =~= m.dom());
            assert forall|i: int| 0 <= i < out@.len() implies self.has_device(
                (#[trigger] out@[i]).device_id,
            ) && out@[i].same_device(self.records()[out@[i].device_id].info) by {
                assert(m.contains_key(*items[i].0));
            }
            assert forall|d: DeviceId| #[trigger] self.has_device(d) implies exists|i: int|
                0 <= i < out@.len() && (#[trigger] out@[i]).device_id == d by {
                assert(items.contains((&d, &m[d])));
                let j = choose|j: int| 0 <= j < items.len() && items[j] == (&d, &m[d]);
                assert(out@[j].device_id == d);
            }
        }
        out
    }

    /// Hands an event to the state machine of a registered device.
    pub fn handle_event(&mut self, device_id: DeviceId, event: ClientEvent) -> (result: Result<
        ClientAction,
        P4RuntimeError,
    >)
        requires
            old(self).wf(),
        ensures
            final(self).wf(),
            final(self).policy() == old(self).policy(),
            match result {
                Ok(action) => old(self).has_device(device_id) && action == step(
                    old(self).records()[device_id].status,
                    old(self).policy(),
                    event,
                ).1 && final(self).records() == old(self).records().insert(
                    device_id,
                    DeviceRecord {
                        status: step(
                            old(self).records()[device_id].status,
                            old(self).policy(),
                            event,
                        ).0,
                        ..old(self).records()[device_id]
                    },
                ),
                Err(e) => !old(self).has_device(device_id) && e == (P4RuntimeError::DeviceNotFound {
                    device_id,
                }) && final(self).records() == old(self).records(),
            },
    {
        broadcast use group_hash_axioms;

        match self.devices.remove(&device_id) {
            Some(slot) => {
                let mut slot = slot;
                proof {
                    lemma_step_keeps_invariant(slot.client@, self.policy, event);
                }
                let action = slot.client.handle(&self.policy, event);
                let ghost before = self.records();
                self.put(device_id, slot);
                assert(self.records() =~= old(self).records().insert(
                    device_id,
                    DeviceRecord {
                        status: step(
                            old(self).records()[device_id].status,
                            old(self).policy(),
                            event,
                        ).0,
                        ..old(self).records()[device_id]
                    },
                ));
                Ok(action)
            },
            None => {
                assert(self.records() =~= old(self).records());
                Err(P4RuntimeError::DeviceNotFound { device_id })
            },
        }
    }
}

impl DeviceManager {
    /// Decides how a registered device is brought to hold `desired`, given
    /// what the store says it holds now. A push is handed out where the
    /// device is connected, has no push under way and may not hold `desired`
    /// yet; its requests are the deletes and then the writes that the
    /// difference and the unsettled keys call for.
    pub fn sync_device(
        &mut self,
        store: &TableManager,
        device_id: DeviceId,
        desired: Vec<TableEntry>,
    ) -> (result: Result<Option<SyncPlan>, P4RuntimeError>)
        requires
            old(self).wf(),
            store.wf(),
        ensures
            final(self).wf(),
            final(self).policy() == old(self).policy(),
            result is Err <==> !old(self).has_device(device_id) || !store.has_device(device_id)
                || !entries_wf(desired@),
            match result {
                Err(e) => final(self).records() == old(self).records() && (if !old(
                    self,
                ).has_device(device_id) || !store.has_device(device_id) {
                    e == (P4RuntimeError::DeviceNotFound { device_id })
                } else {
                    e matches P4RuntimeError::InvalidTableEntry(m) && m@ == MALFORMED_ENTRY_SET@
                }),
                Ok(plan) => {
                    let record = old(self).records()[device_id];
                    let snapshot = store.snapshot(device_id);
                    &&& final(self).records() == old(self).records().insert(
                        device_id,
                        record_after_sync(record, old(self).policy(), snapshot, desired@),
                    )
                    &&& match plan {
                        Some(p) => sync_decision(record, snapshot, desired@) is Push && is_plan_for(
                            p,
                            record,
                            snapshot,
                            desired@,
                        ),
                        None => !(sync_decision(record, snapshot, desired@) is Push),
                    }
                },
            },
    {
        broadcast use group_hash_axioms;

        if !self.devices.contains_key(&device_id) {
            return Err(P4RuntimeError::DeviceNotFound { device_id });
        }
        let current = match store.get_ipv4_lpm_entries(device_id) {
            Ok(entries) => entries,
            Err(e) => {
                return Err(e);
            },
        };
        if !check_entries(&desired) {
            return Err(P4RuntimeError::InvalidTableEntry(String::from_str(MALFORMED_ENTRY_SET)));
        }
        let mut slot = match self.devices.remove(&device_id) {
            Some(slot) => slot,
            None => {
                return Err(P4RuntimeError::DeviceNotFound { device_id });
            },
        };
        let operations = build_plan(&current, &slot.unsettled, &desired);
        let ghost record = old(self).records()[device_id];
        let ghost snapshot = store.snapshot(device_id);
        let plan = if !slot.client.status().connected {
            None
        } else if slot.in_flight.is_some() {
            slot.resync_needed = true;
            None
        } else if operations.len() == 0 {
            proof {
                lemma_step_keeps_invariant(slot.client@, self.policy, ClientEvent::PushSucceeded);
            }
            slot.client.handle(&self.policy, ClientEvent::PushSucceeded);
            None
        } else {
            let ticket = slot.next_ticket;
            slot.in_flight = Some(ticket);
            slot.next_ticket = if ticket < u64::MAX {
                ticket + 1
            } else {
                0
            };
            Some(SyncPlan { device_id, ticket, operations, desired })
        };
        self.put(device_id, slot);
        assert(self.records() =~= old(self).records().insert(
            device_id,
            record_after_sync(record, old(self).policy(), snapshot, desired@),
        ));
        Ok(plan)
    }

    /// Takes the report of a push. Where every operation succeeded, the
    /// store is made to hold the plan's desired set for the device and no key
    /// of the device is unsettled any more; where any failed, the store stays
    /// as it was, the keys of the push become unsettled and the device goes
    /// into error. A plan that belongs to no push under way changes nothing.
    pub fn finish_sync(
        &mut self,
        store: &mut TableManager,
        plan: SyncPlan,
        outcomes: &Vec<Result<(), P4RuntimeError>>,
    ) -> (report: SyncReport)
        requires
            old(self).wf(),
            old(store).wf(),
        ensures
            final(self).wf(),
            final(store).wf(),
            final(self).policy() == old(self).policy(),
            final(store).aliases() == old(store).aliases(),
            !old(self).has_device(plan.device_id) || old(self).records()[plan.device_id].in_flight
                != Some(plan.ticket) ==> {
                &&& report == SyncReport::Stale
                &&& final(self).records() == old(self).records()
                &&& final(store)@ == old(store)@
            },
            old(self).has_device(plan.device_id) && old(self).records()[plan.device_id].in_flight
                == Some(plan.ticket) ==> {
                let record = old(self).records()[plan.device_id];
                let failure = push_failure(old(store)@, plan, outcomes@);
                &&& final(store)@ == store_after_push(old(store)@, plan, outcomes@)
                &&& final(self).records() == old(self).records().insert(
                    plan.device_id,
                    record_after_push(record, old(self).policy(), failure, plan.operations@),
                )
                &&& report == (match failure {
                    None => SyncReport::Committed { resync: record.resync_needed },
                    Some(class) => SyncReport::Failed {
                        failure: FailureReport {
                            device_id: plan.device_id,
                            operation: OperationKind::Write,
                            class,
                            action: step(
                                record.status,
                                old(self).policy(),
                                ClientEvent::PushFailed(class),
                            ).1,
                        },
                    },
                })
            },
    {
        broadcast use group_hash_axioms;

        let device_id = plan.device_id;
        let current = match self.devices.get(&device_id) {
            Some(slot) => match slot.in_flight {
                Some(ticket) => ticket == plan.ticket,
                None => false,
            },
            None => false,
        };
        if !current {
            return SyncReport::Stale;
        }
        let mut slot = match self.devices.remove(&device_id) {
            Some(slot) => slot,
            None => {
                return SyncReport::Stale;
            },
        };
        let ghost record = old(self).records()[device_id];
        let resync = slot.resync_needed;
        let failure = match check_batch(plan.operations.len(), outcomes) {
            Some(class) => Some(class),
            None => match store.commit(device_id, plan.desired) {
                Ok(_) => None,
                Err(_) => Some(ErrorClass::Permanent),
            },
        };
        assert(failure == push_failure(old(store)@, plan, outcomes@));
        let event = match failure {
            None => ClientEvent::PushSucceeded,
            Some(class) => ClientEvent::PushFailed(class),
        };
        proof {
            lemma_step_keeps_invariant(slot.client@, self.policy, event);
        }
        let action = slot.client.handle(&self.policy, event);
        slot.in_flight = None;
        slot.resync_needed = false;
        match failure {
            None => {
                slot.unsettled = Vec::new();
            },
            Some(_) => {
                mark_unsettled(&mut slot.unsettled, &plan.operations);
            },
        }
        self.put(device_id, slot);
        assert(self.records() =~= old(self).records().insert(
            device_id,
            record_after_push(record, old(self).policy(), failure, plan.operations@),
        ));
        match failure {
            None => SyncReport::Committed { resync },
            Some(class) => SyncReport::Failed {
                failure: FailureReport {
                    device_id,
                    operation: OperationKind::Write,
                    class,
                    action,
                },
            },
        }
    }
}

impl DeviceManager {
    /// Decides how one registered device is brought to hold `desired`, and
    /// adds the push that follows, if one does, to `plans`.
    fn sync_next(
        &mut self,
        store: &TableManager,
        desired: &Vec<TableEntry>,
        device_id: DeviceId,
        plans: &mut Vec<SyncPlan>,
    )
        requires
            old(self).wf(),
            store.wf(),
            entries_wf(desired@),
            old(self).has_device(device_id),
        ensures
            final(self).wf(),
            final(self).policy() == old(self).policy(),
            final(self).records() == old(self).records().insert(
                device_id,
                synced_record(old(self).records()[device_id], old(self).policy(), store@, desired@),
            ),
            pushes(old(self).records()[device_id], store@, desired@) ==> final(plans)@.len()
                == old(plans)@.len() + 1 && final(plans)@.drop_last() == old(plans)@ && is_plan_for(
                final(plans)@.last(),
                old(self).records()[device_id],
                snapshot_of(store@, device_id),
                desired@,
            ),
            !pushes(old(self).records()[device_id], store@, desired@) ==> final(plans)@ == old(
                plans,
            )@,
    {
        proof {
            self.lemma_wf();
        }
        match self.sync_device(store, device_id, copy_entries(desired)) {
            Ok(Some(plan)) => {
                plans.push(plan);
                assert(plans@.drop_last() =~= old(plans)@);
            },
            Ok(None) => {},
            Err(_) => {
                assert(self.records() =~= old(self).records().insert(
                    device_id,
                    old(self).records()[device_id],
                ));
            },
        }
    }

    /// Decides, for every registered device that the store knows, how it is
    /// brought to hold `desired`, and hands out the pushes that follow. The
    /// devices are decided one by one, each as [`DeviceManager::sync_device`]
    /// decides it; a device that the store does not know is passed over. A
    /// malformed `desired` is rejected before any device is looked at.
    pub fn sync_all(&mut self, store: &TableManager, desired: &Vec<TableEntry>) -> (result: Result<
        Vec<SyncPlan>,
        P4RuntimeError,
    >)
        requires
            old(self).wf(),
            store.wf(),
        ensures
            final(self).wf(),
            final(self).policy() == old(self).policy(),
            result is Err <==> !entries_wf(desired@),
            match result {
                Err(e) => final(self).records() == old(self).records() && (
                e matches P4RuntimeError::InvalidTableEntry(m) && m@ == MALFORMED_ENTRY_SET@),
                Ok(plans) => all_synced(
                    old(self).records(),
                    final(self).records(),
                    old(self).policy(),
                    store@,
                    desired@,
                    plans@,
                ),
            },
    {
        if !check_entries(desired) {
            return Err(P4RuntimeError::InvalidTableEntry(String::from_str(MALFORMED_ENTRY_SET)));
        }
        let ids = self.device_ids();
        let ghost before = self.records();
        let ghost policy = self.policy();
        let mut plans: Vec<SyncPlan> = Vec::new();
        let mut i: usize = 0;
        proof {
            self.lemma_wf();
            assert(synced_through(
                before,
                self.records(),
                policy,
                store@,
                desired@,
                plans@,
                ids@,
                0,
            ));
        }
        while i < ids.len()
            invariant
                i <= ids@.len(),
                self.wf(),
                store.wf(),
                self.policy() == policy,
                entries_wf(desired@),
                ids@.no_duplicates(),
                forall|j: int| 0 <= j < ids@.len() ==> before.contains_key(#[trigger] ids@[j]),
                forall|d: DeviceId| #[trigger]
                    before.contains_key(d) ==> before[d].status.device_id == d,
                synced_through(
                    before,
                    self.records(),
                    policy,
                    store@,
                    desired@,
                    plans@,
                    ids@,
                    i as int,
                ),
            decreases ids@.len() - i,
        {
            let ghost mid = self.records();
            let ghost shown = plans@;
            self.sync_next(store, desired, ids[i], &mut plans);
            proof {
                lemma_synced_through_next(
                    before,
                    mid,
                    self.records(),
                    policy,
                    store@,
                    desired@,
                    shown,
                    plans@,
                    ids@,
                    i as int,
                );
            }
            i += 1;
        }
        proof {
            lemma_synced_through_all(
                before,
                self.records(),
                policy,
                store@,
                desired@,
                plans@,
                ids@,
            );
        }
        Ok(plans)
    }
}

impl DeviceManager {
    /// The requests that write `entries` to a registered device, one write
    /// per entry, in order.
    pub fn write_table_entries_to_device(
        &self,
        device_id: DeviceId,
        entries: &Vec<TableEntry>,
    ) -> (result: Result<Vec<TableOperation>, P4RuntimeError>)
        ensures
            match result {
                Ok(requests) => self.has_device(device_id) && requests@ == operations(
                    Seq::<TableKey>::empty(),
                    entries@,
                ),
                Err(e) => !self.has_device(device_id) && e == (P4RuntimeError::DeviceNotFound {
                    device_id,
                }),
            },
    {
        broadcast use group_hash_axioms;

        if self.devices.contains_key(&device_id) {
            let none: Vec<TableKey> = Vec::new();
            Ok(build_operations(&none, entries))
        } else {
            Err(P4RuntimeError::DeviceNotFound { device_id })
        }
    }

    /// The requests that write `entries` to every registered device: for
    /// each device, once, one write per entry, in order.
    pub fn write_table_entries_to_all_devices(&self, entries: &Vec<TableEntry>) -> (result: Vec<
        (DeviceId, Vec<TableOperation>),
    >)
        ensures
            forall|i: int|
                0 <= i < result@.len() ==> self.has_device((#[trigger] result@[i]).0)
                    && result@[i].1@ == operations(Seq::<TableKey>::empty(), entries@),
            forall|d: DeviceId| #[trigger]
                self.has_device(d) ==> exists|i: int|
                    0 <= i < result@.len() && (#[trigger] result@[i]).0 == d,
            forall|i: int, j: int|
                0 <= i < result@.len() && 0 <= j < result@.len() && i != j ==> (
                #[trigger] result@[i]).0 != (#[trigger] result@[j]).0,
    {
        let ids = self.device_ids();
        let none: Vec<TableKey> = Vec::new();
        let mut result: Vec<(DeviceId, Vec<TableOperation>)> = Vec::new();
        let mut i: usize = 0;
        while i < ids.len()
            invariant
                i <= ids@.len(),
                none@ == Seq::<TableKey>::empty(),
                result@.len() == i,
                forall|j: int|
                    0 <= j < i ==> (#[trigger] result@[j]).0 == ids@[j] && result@[j].1@
                        == operations(Seq::<TableKey>::empty(), entries@),
            decreases ids@.len() - i,
        {
            result.push((ids[i], build_operations(&none, entries)));
            i += 1;
        }
        proof {
            assert forall|k: int| 0 <= k < result@.len() implies self.has_device(
                (#[trigger] result@[k]).0,
            ) by {
                assert(ids@.contains(ids@[k]));
            }
            assert forall|d: DeviceId| #[trigger] self.has_device(d) implies exists|k: int|
                0 <= k < result@.len() && (#[trigger] result@[k]).0 == d by {
                assert(ids@.contains(d));
                let k = choose|k: int| 0 <= k < ids@.len() && ids@[k] == d;
                assert(result@[k].0 == d);
            }
        }
        result
    }

    /// What a request for the counters of a device comes to: the reply of a
    /// registered device, and an error for a device that is not registered.
    pub fn get_device_statistics(
        &self,
        device_id: DeviceId,
        reply: Result<Statistics, P4RuntimeError>,
    ) -> (result: Result<Statistics, P4RuntimeError>)
        ensures
            result == (if self.has_device(device_id) {
                reply
            } else {
                Err(P4RuntimeError::DeviceNotFound { device_id })
            }),
    {
        broadcast use group_hash_axioms;

        if self.devices.contains_key(&device_id) {
            reply
        } else {
            Err(P4RuntimeError::DeviceNotFound { device_id })
        }
    }

    /// The failures among the replies to requests for counters: one report
    /// for each failed reply of a registered device, in the order of the
    /// replies. Such a failure does not touch the state of the connection.
    pub fn statistics_failures(
        &self,
        replies: &Vec<(DeviceId, Result<Statistics, P4RuntimeError>)>,
    ) -> (failures: Vec<FailureReport>)
        ensures
            failures@ == replies@.filter_map(
                |reply: (DeviceId, Result<Statistics, P4RuntimeError>)|
                    failed_reply(self.records(), reply),
            ),
    {
        broadcast use group_hash_axioms;

        let ghost f = |reply: (DeviceId, Result<Statistics, P4RuntimeError>)|
            failed_reply(self.records(), reply);
        let mut failures: Vec<FailureReport> = Vec::new();
        let mut i: usize = 0;
        while i < replies.len()
            invariant
                i <= replies@.len(),
                f == |reply: (DeviceId, Result<Statistics, P4RuntimeError>)|
                    failed_reply(self.records(), reply),
                failures@ == replies@.take(i as int).filter_map(f),
            decreases replies@.len() - i,
        {
            proof {
                replies@.lemma_filter_map_take_succ(f, i as int);
            }
            let device_id = replies[i].0;
            match &replies[i].1 {
                Err(e) => {
                    if self.devices.contains_key(&device_id) {
                        failures.push(
                            FailureReport {
                                device_id,
                                operation: OperationKind::GetStatistics,
                                class: e.classification(),
                                action: ClientAction::Nothing,
                            },
                        );
                    }
                },
                Ok(_) => {},
            }
            i += 1;
        }
        assert(replies@.take(i as int) == replies@);
        failures
    }

    /// The counters of the registered devices, by device, from the replies
    /// that came in: failed replies and replies of unknown devices are left
    /// out, and of several successful replies of one device the last counts.
    pub fn get_all_device_statistics(
        &self,
        replies: Vec<(DeviceId, Result<Statistics, P4RuntimeError>)>,
    ) -> (stats: HashMap<DeviceId, Statistics>)
        ensures
            statistics_of(stats@, self.records(), replies@),
    {
        broadcast use group_hash_axioms;

        let ghost all = replies@;
        let mut rest = replies;
        let mut stats: HashMap<DeviceId, Statistics> = HashMap::new();
        while rest.len() > 0
            invariant
                rest@.len() <= all.len(),
                rest@ == all.take(rest@.len() as int),
                forall|d: DeviceId| #[trigger]
                    stats@.contains_key(d) ==> self.records().contains_key(d) && exists|i: int|
                        rest@.len() <= i && #[trigger] is_last_reply_of(all, d, i) && stats@[d]
                            == all[i].1->Ok_0,
                forall|d: DeviceId, i: int|
                    self.records().contains_key(d) && rest@.len() <= i && #[trigger] is_reply_of(
                        all,
                        d,
                        i,
                    ) ==> stats@.contains_key(d),
            decreases rest@.len(),
        {
            let ghost n = rest@.len() - 1;
            let ghost shown = stats@;
            match rest.pop() {
                Some((device_id, Ok(stat))) => {
                    assert(all[n] == (device_id, Ok::<Statistics, P4RuntimeError>(stat)));
                    if self.devices.contains_key(&device_id) && !stats.contains_key(&device_id) {
                        stats.insert(device_id, stat);
                        proof {
                            assert(is_reply_of(all, device_id, n));
                            assert(is_last_reply_of(all, device_id, n)) by {
                                assert forall|j: int| n < j implies !is_reply_of(
                                    all,
                                    device_id,
                                    j,
                                ) by {
                                    if is_reply_of(all, device_id, j) {
                                        assert(shown.contains_key(device_id));
                                    }
                                }
                            }
                            assert forall|d: DeviceId| #[trigger]
                                stats@.contains_key(d) implies self.records().contains_key(d)
                                && exists|i: int|
                                n <= i && #[trigger] is_last_reply_of(all, d, i) && stats@[d]
                                    == all[i].1->Ok_0 by {
                                if d != device_id {
                                    assert(shown.contains_key(d));
                                    let i = choose|i: int|
                                        n + 1 <= i && #[trigger] is_last_reply_of(all, d, i)
                                            && shown[d] == all[i].1->Ok_0;
                                    assert(is_last_reply_of(all, d, i));
                                } else {
                                    assert(is_last_reply_of(all, d, n));
                                }
                            }
                        }
                    }
                },
                Some((device_id, Err(_))) => {
                    assert(all[n].1 is Err);
                },
                None => {},
            }
            assert(rest@ =~= all.take(rest@.len() as int));
        }
        stats
    }
}

impl Default for DeviceManager {
    fn default() -> (r: Self)
        ensures
            r.wf(),
            r.records() == Map::<DeviceId, DeviceRecord>::empty(),
            r.policy() == default_policy(),
    {
        DeviceManager::new()
    }
}

/// What holds while the devices are decided one by one, after the first `n`
/// of `ids`: these have the record that a request leaves, the others the
/// record they had, and `plans` holds the pushes of the first `n`.
spec fn synced_through(
    before: Map<DeviceId, DeviceRecord>,
    now: Map<DeviceId, DeviceRecord>,
    policy: RetryPolicy,
    store: StoreView,
    desired: Seq<TableEntry>,
    plans: Seq<SyncPlan>,
    ids: Seq<DeviceId>,
    n: int,
) -> bool {
    &&& now.dom() == before.dom()
    &&& forall|j: int|
        0 <= j < n ==> now[#[trigger] ids[j]] == synced_record(
            before[ids[j]],
            policy,
            store,
            desired,
        )
    &&& forall|j: int| n <= j < ids.len() ==> now[#[trigger] ids[j]] == before[ids[j]]
    &&& forall|k: int|
        0 <= k < plans.len() ==> is_plan_of_all(#[trigger] plans[k], before, store, desired)
    &&& forall|j: int|
        0 <= j < n && pushes(before[#[trigger] ids[j]], store, desired) ==> exists|k: int|
            0 <= k < plans.len() && (#[trigger] plans[k]).device_id == ids[j]
}

/// Deciding the next device carries [`synced_through`] one step on.
proof fn lemma_synced_through_next(
    before: Map<DeviceId, DeviceRecord>,
    mid: Map<DeviceId, DeviceRecord>,
    now: Map<DeviceId, DeviceRecord>,
    policy: RetryPolicy,
    store: StoreView,
    desired: Seq<TableEntry>,
    shown: Seq<SyncPlan>,
    plans: Seq<SyncPlan>,
    ids: Seq<DeviceId>,
    n: int,
)
    requires
        0 <= n < ids.len(),
        ids.no_duplicates(),
        forall|j: int| 0 <= j < ids.len() ==> before.contains_key(#[trigger] ids[j]),
        forall|d: DeviceId| #[trigger] before.contains_key(d) ==> before[d].status.device_id == d,
        synced_through(before, mid, policy, store, desired, shown, ids, n),
        now == mid.insert(ids[n], synced_record(mid[ids[n]], policy, store, desired)),
        pushes(mid[ids[n]], store, desired) ==> plans.len() == shown.len() + 1 && plans.drop_last()
            == shown && is_plan_for(
            plans.last(),
            mid[ids[n]],
            snapshot_of(store, ids[n]),
            desired,
        ),
        !pushes(mid[ids[n]], store, desired) ==> plans == shown,
    ensures
        synced_through(before, now, policy, store, desired, plans, ids, n + 1),
{
    let d = ids[n];
    assert(mid[d] == before[d]);
    assert(now.dom() =~= before.dom());
    assert forall|j: int| 0 <= j < n + 1 implies now[#[trigger] ids[j]] == synced_record(
        before[ids[j]],
        policy,
        store,
        desired,
    ) by {
        if j < n {
            assert(ids[j] != d);
        }
    }
    assert forall|j: int| n + 1 <= j < ids.len() implies now[#[trigger] ids[j]]
        == before[ids[j]] by {
        assert(ids[j] != d);
    }
    assert forall|k: int| 0 <= k < plans.len() implies is_plan_of_all(
        #[trigger] plans[k],
        before,
        store,
        desired,
    ) by {
        if k < shown.len() {
            if pushes(mid[d], store, desired) {
                assert(plans[k] == plans.drop_last()[k]);
            }
            assert(plans[k] == shown[k]);
        } else {
            assert(plans[k] == plans.last());
        }
    }
    assert forall|j: int|
        0 <= j < n + 1 && pushes(before[#[trigger] ids[j]], store, desired) implies exists|k: int|
        0 <= k < plans.len() && (#[trigger] plans[k]).device_id == ids[j] by {
        if j < n {
            let k = choose|k: int|
                0 <= k < shown.len() && (#[trigger] shown[k]).device_id == ids[j];
            if pushes(mid[d], store, desired) {
                assert(plans[k] == plans.drop_last()[k]);
            }
            assert(plans[k].device_id == ids[j]);
        } else {
            assert(plans[plans.len() - 1].device_id == ids[j]);
        }
    }
}

/// Once every device has been decided, [`all_synced`] holds.
proof fn lemma_synced_through_all(
    before: Map<DeviceId, DeviceRecord>,
    now: Map<DeviceId, DeviceRecord>,
    policy: RetryPolicy,
    store: StoreView,
    desired: Seq<TableEntry>,
    plans: Seq<SyncPlan>,
    ids: Seq<DeviceId>,
)
    requires
        forall|d: DeviceId| #[trigger] before.contains_key(d) ==> ids.contains(d),
        forall|d: DeviceId| #[trigger] before.contains_key(d) ==> before[d].status.device_id == d,
        synced_through(before, now, policy, store, desired, plans, ids, ids.len() as int),
    ensures
        all_synced(before, now, policy, store, desired, plans),
{
    assert forall|d: DeviceId| #[trigger] before.contains_key(d) implies now[d] == synced_record(
        before[d],
        policy,
        store,
        desired,
    ) by {
        let j = choose|j: int| 0 <= j < ids.len() && ids[j] == d;
        assert(now[ids[j]] == synced_record(before[ids[j]], policy, store, desired));
    }
    assert forall|d: DeviceId|
        before.contains_key(d) && store.contains_key(d) && sync_decision(
            before[d],
            snapshot_of(store, d),
            desired,
        ) is Push implies exists|k: int|
        0 <= k < plans.len() && (#[trigger] plans[k]).device_id == d by {
        let j = choose|j: int| 0 <= j < ids.len() && ids[j] == d;
        assert(pushes(before[ids[j]], store, desired));
    }
}

} // verus!
