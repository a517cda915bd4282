//! The connection state machine of a device, without its I/O.
//!
//! Nothing here talks to a device. A caller sends the requests that the
//! state machine asks for and reports what came back; the state machine
//! decides what follows.

use crate::retry::{backoff_delay, RetryPolicy};
use crate::types::{DeviceId, ErrorClass};
use tonic::transport::Endpoint;
use vstd::prelude::*;

verus! {

/// Where a device stands in its connection life cycle.
#[derive(Debug, Clone, Copy, PartialEq, Eq, Structural)]
pub enum ConnectionState {
    /// Registered, and no connection has been asked for.
    Disconnected,
    /// A connection was asked for; the device has not yet taken a push.
    Connecting,
    /// Connected, and the last push succeeded.
    Synced,
    /// An RPC failed; the device waits to be connected again.
    Error,
}

/// What the state machine of a device remembers.
#[derive(Debug, Clone, Copy, PartialEq, Eq, Structural)]
pub struct ClientStatus {
    pub device_id: DeviceId,
    pub state: ConnectionState,
    /// Whether the last connection attempt succeeded and no RPC has failed
    /// since.
    pub connected: bool,
    /// The number of failures since the last success.
    pub consecutive_failures: u32,
    /// Whether the device has been reported as degraded since its last
    /// success.
    pub degraded: bool,
}

/// What happened to a device.
#[derive(Debug, Clone, Copy, PartialEq, Eq, Structural)]
pub enum ClientEvent {
    /// A connection is asked for, at first or after a backoff.
    ConnectRequested,
    ConnectSucceeded,
    ConnectFailed(ErrorClass),
    /// Every operation of a push was applied, or there was nothing to push.
    PushSucceeded,
    PushFailed(ErrorClass),
}

/// What is to be done for a device next.
#[derive(Debug, Clone, Copy, PartialEq, Eq, Structural)]
pub enum ClientAction {
    Nothing,
    /// Send `Connect`.
    Connect,
    /// Push the full desired table.
    Push,
    /// Ask for a connection again after the delay.
    Retry { delay_ms: u64 },
    /// Report the device as degraded; it is not retried by itself.
    ReportDegraded,
}

/// The status after a failure of class `class`, and what follows it: the
/// device is in error and no longer connected, and the failure is counted. A
/// permanent failure, or a count that has reached the policy's bound, makes
/// the device degraded; otherwise it is retried after the backoff delay.
pub open spec fn after_failure(status: ClientStatus, policy: RetryPolicy, class: ErrorClass) -> (
    ClientStatus,
    ClientAction,
) {
    let failures = if status.consecutive_failures < u32::MAX {
        (status.consecutive_failures + 1) as u32
    } else {
        u32::MAX
    };
    let degraded = class == ErrorClass::Permanent || failures >= policy.max_failures;
    (
        ClientStatus {
            state: ConnectionState::Error,
            connected: false,
            consecutive_failures: failures,
            degraded: status.degraded || degraded,
            ..status
        },
        if degraded {
            ClientAction::ReportDegraded
        } else {
            ClientAction::Retry { delay_ms: backoff_delay(policy, failures as nat) as u64 }
        },
    )
}

/// The transition function of the connection state machine. An event that
/// does not fit the state leaves the status as it is and asks for nothing.
pub open spec fn step(status: ClientStatus, policy: RetryPolicy, event: ClientEvent) -> (
    ClientStatus,
    ClientAction,
) {
    match (status.state, event) {
        (ConnectionState::Disconnected, ClientEvent::ConnectRequested) | (
            ConnectionState::Error,
            ClientEvent::ConnectRequested,
        ) => (ClientStatus { state: ConnectionState::Connecting, ..status }, ClientAction::Connect),
        (ConnectionState::Connecting, ClientEvent::ConnectSucceeded) => if status.connected {
            (status, ClientAction::Nothing)
        } else {
            (ClientStatus { connected: true, ..status }, ClientAction::Push)
        },
        (ConnectionState::Connecting, ClientEvent::ConnectFailed(class)) => if status.connected {
            (status, ClientAction::Nothing)
        } else {
            after_failure(status, policy, class)
        },
        (ConnectionState::Connecting, ClientEvent::PushSucceeded) | (
            ConnectionState::Synced,
            ClientEvent::PushSucceeded,
        ) => if status.connected {
            (
                ClientStatus {
                    state: ConnectionState::Synced,
                    consecutive_failures: 0,
                    degraded: false,
                    ..status
                },
                ClientAction::Nothing,
            )
        } else {
            (status, ClientAction::Nothing)
        },
        (ConnectionState::Connecting, ClientEvent::PushFailed(class)) | (
            ConnectionState::Synced,
            ClientEvent::PushFailed(class),
        ) => if status.connected {
            after_failure(status, policy, class)
        } else {
            (status, ClientAction::Nothing)
        },
        _ => (status, ClientAction::Nothing),
    }
}

/// The invariant of a status: a synced device is connected, and a device
/// that is disconnected or in error is not.
pub open spec fn status_wf(status: ClientStatus) -> bool {
    &&& status.state == ConnectionState::Synced ==> status.connected
    &&& status.state == ConnectionState::Disconnected ==> !status.connected
    &&& status.state == ConnectionState::Error ==> !status.connected
}

/// Every transition keeps the invariant and the device id.
pub proof fn lemma_step_keeps_invariant(
    status: ClientStatus,
    policy: RetryPolicy,
    event: ClientEvent,
)
    requires
        status_wf(status),
    ensures
        status_wf(step(status, policy, event).0),
        step(status, policy, event).0.device_id == status.device_id,
{
}

/// A device becomes synced by a successful push only, and only while
/// connected.
pub proof fn lemma_synced_only_after_push(
    status: ClientStatus,
    policy: RetryPolicy,
    event: ClientEvent,
)
    requires
        status.state != ConnectionState::Synced,
        step(status, policy, event).0.state == ConnectionState::Synced,
    ensures
        event == ClientEvent::PushSucceeded,
        status.state == ConnectionState::Connecting,
        status.connected,
{
}

/// A failed RPC of a device that was waiting for its outcome puts the device
/// in error, and the device is either retried or reported as degraded.
pub proof fn lemma_failure_leads_to_error(
    status: ClientStatus,
    policy: RetryPolicy,
    class: ErrorClass,
)
    requires
        status_wf(status),
    ensures
        status.state == ConnectionState::Connecting && !status.connected ==> step(
            status,
            policy,
            ClientEvent::ConnectFailed(class),
        ).0.state == ConnectionState::Error,
        status.connected ==> step(status, policy, ClientEvent::PushFailed(class)).0.state
            == ConnectionState::Error,
        after_failure(status, policy, class).1 is Retry || after_failure(status, policy, class).1
            is ReportDegraded,
        after_failure(status, policy, class).1 is Retry ==> class == ErrorClass::Transient
            && after_failure(status, policy, class).0.consecutive_failures < policy.max_failures,
{
}

/// No state is final: a device in error, or one never connected, starts
/// connecting as soon as a connection is asked for.
pub proof fn lemma_error_is_not_final(status: ClientStatus, policy: RetryPolicy)
    requires
        status.state == ConnectionState::Error || status.state == ConnectionState::Disconnected,
    ensures
        step(status, policy, ClientEvent::ConnectRequested).0.state == ConnectionState::Connecting,
        step(status, policy, ClientEvent::ConnectRequested).1 == ClientAction::Connect,
{
}

/// The connection state machine of one device.
#[derive(Debug)]
pub struct P4RuntimeClient {
    status: ClientStatus,
}

impl View for P4RuntimeClient {
    type V = ClientStatus;

    closed spec fn view(&self) -> ClientStatus {
        self.status
    }
}

impl P4RuntimeClient {
    /// The invariant of the client: that of its status.
    pub open spec fn wf(&self) -> bool {
        status_wf(self@)
    }

    /// The client of a device that has not been connected.
    pub fn new(device_id: DeviceId) -> (r: Self)
        ensures
            r.wf(),
            r@ == (ClientStatus {
                device_id,
                state: ConnectionState::Disconnected,
                connected: false,
                consecutive_failures: 0,
                degraded: false,
            }),
    {
        P4RuntimeClient {
            status: ClientStatus {
                device_id,
                state: ConnectionState::Disconnected,
                connected: false,
                consecutive_failures: 0,
                degraded: false,
            },
        }
    }

    /// What the client remembers.
    pub fn status(&self) -> (r: ClientStatus)
        ensures
            r == self@,
    {
        self.status
    }

    /// Takes an event: moves to the next state and says what is to be done.
    pub fn handle(&mut self, policy: &RetryPolicy, event: ClientEvent) -> (action: ClientAction)
        requires
            old(self).wf(),
        ensures
            final(self).wf(),
            (final(self)@, action) == step(old(self)@, *policy, event),
    {
        let status = self.status;
        match (status.state, event) {
            (ConnectionState::Disconnected, ClientEvent::ConnectRequested) | (
                ConnectionState::Error,
                ClientEvent::ConnectRequested,
            ) => {
                self.status.state = ConnectionState::Connecting;
                ClientAction::Connect
            },
            (ConnectionState::Connecting, ClientEvent::ConnectSucceeded) => {
                if status.connected {
                    ClientAction::Nothing
                } else {
                    self.status.connected = true;
                    ClientAction::Push
                }
            },
            (ConnectionState::Connecting, ClientEvent::ConnectFailed(class)) => {
                if status.connected {
                    ClientAction::Nothing
                } else {
                    self.fail(policy, class)
                }
            },
            (ConnectionState::Connecting, ClientEvent::PushSucceeded) | (
                ConnectionState::Synced,
                ClientEvent::PushSucceeded,
            ) => {
                if status.connected {
                    self.status.state = ConnectionState::Synced;
                    self.status.consecutive_failures = 0;
                    self.status.degraded = false;
                }
                ClientAction::Nothing
            },
            (ConnectionState::Connecting, ClientEvent::PushFailed(class)) | (
                ConnectionState::Synced,
                ClientEvent::PushFailed(class),
            ) => {
                if status.connected {
                    self.fail(policy, class)
                } else {
                    ClientAction::Nothing
                }
            },
            _ => ClientAction::Nothing,
        }
    }

    /// Records a failure and decides between a retry and a report.
    fn fail(&mut self, policy: &RetryPolicy, class: ErrorClass) -> (action: ClientAction)
        ensures
            (final(self).status, action) == after_failure(old(self).status, *policy, class),
    {
        let failures = if self.status.consecutive_failures < u32::MAX {
            self.status.consecutive_failures + 1
        } else {
            u32::MAX
        };
        let degraded = match class {
            ErrorClass::Permanent => true,
            ErrorClass::Transient => failures >= policy.max_failures,
        };
        self.status.state = ConnectionState::Error;
        self.status.connected = false;
        self.status.consecutive_failures = failures;
        if degraded {
            self.status.degraded = true;
            ClientAction::ReportDegraded
        } else {
            ClientAction::Retry { delay_ms: policy.delay_after(failures) }
        }
    }
}

/// Whether the text is a URI that a channel to a device can be opened to.
pub uninterp spec fn endpoint_accepted(endpoint: Seq<char>) -> bool;

/// Asks `tonic::transport::Endpoint::from_shared` whether it takes the text
/// as the URI of an endpoint. That function parses the text as a URI and
/// reads nothing else, so that its answer depends on the text alone; the
/// contract gives that answer its name and claims no more.
#[verifier::external_body]
pub(crate) fn endpoint_is_accepted(endpoint: &str) -> (accepted: bool)
    ensures
        accepted == endpoint_accepted(endpoint@),
{
    Endpoint::from_shared(endpoint.to_string()).is_ok()
}

} // verus!
