//! Health tracking and push notifications for instrument communication.
use crate::address::opt_text;
use crate::lock::{replace_locked, try_lock};
use crate::timing::{duration_as_millis, duration_millis, unix_millis_now};
use std::sync::{Arc, Mutex};
use std::time::Duration;
use vstd::prelude::*;

verus! {

/// Receives push notifications for instrument communication events.
pub trait CommsObserver: Send + Sync {
    fn on_event(&self, event: &CommsEvent);
}

/// Kind of communication event.
#[derive(Debug, Clone, Copy, PartialEq, Eq, Structural)]
#[non_exhaustive]
pub enum CommsEventKind {
    WriteOk,
    WriteFailed,
    ReadOk,
    ReadFailed,
    Timeout,
    Reconnect,
}

/// A single communication event, as pushed to an observer.
#[derive(Debug, Clone, PartialEq, Eq)]
#[non_exhaustive]
pub struct CommsEvent {
    pub address: String,
    pub kind: CommsEventKind,
    pub command: Option<String>,
    pub attempt: u32,
    pub elapsed_ms: u64,
    pub detail: Option<String>,
}

/// Pollable health snapshot for a device address.
#[derive(Debug, Clone, PartialEq, Eq)]
pub struct DeviceHealth {
    pub consecutive_failures: u32,
    pub total_operations: u64,
    pub total_failures: u64,
    pub last_error: Option<String>,
    pub last_success_unix_ms: Option<u64>,
    pub last_failure_unix_ms: Option<u64>,
}

/// `n + 1`, held at the largest value of the counter's type.
pub open spec fn bumped(n: int, max: int) -> int {
    if n < max {
        n + 1
    } else {
        n
    }
}

impl Default for DeviceHealth {
    /// No operation recorded yet.
    fn default() -> (r: Self)
        ensures
            r.consecutive_failures == 0,
            r.total_operations == 0,
            r.total_failures == 0,
            r.last_error is None,
            r.last_success_unix_ms is None,
            r.last_failure_unix_ms is None,
    {
        DeviceHealth {
            consecutive_failures: 0,
            total_operations: 0,
            total_failures: 0,
            last_error: None,
            last_success_unix_ms: None,
            last_failure_unix_ms: None,
        }
    }
}

impl DeviceHealth {
    /// Healthy while the last operation did not fail.
    pub fn is_healthy(&self) -> (r: bool)
        ensures
            r == (self.consecutive_failures == 0),
    {
        self.consecutive_failures == 0
    }

    /// Counts a successful operation at `now_unix_ms`: the failure streak ends.
    pub fn note_success(&mut self, now_unix_ms: u64)
        ensures
            final(self).consecutive_failures == 0,
            final(self).total_operations == bumped(old(self).total_operations as int, u64::MAX as int),
            final(self).total_failures == old(self).total_failures,
            final(self).last_error == old(self).last_error,
            final(self).last_success_unix_ms == Some(now_unix_ms),
            final(self).last_failure_unix_ms == old(self).last_failure_unix_ms,
    {
        self.consecutive_failures = 0;
        self.total_operations = self.total_operations.saturating_add(1);
        self.last_success_unix_ms = Some(now_unix_ms);
    }

    /// Counts a failed operation at `now_unix_ms`, keeping `detail` as the last error.
    pub fn note_failure(&mut self, detail: &str, now_unix_ms: u64)
        ensures
            final(self).consecutive_failures == bumped(
                old(self).consecutive_failures as int,
                u32::MAX as int,
            ),
            final(self).total_operations == bumped(old(self).total_operations as int, u64::MAX as int),
            final(self).total_failures == bumped(old(self).total_failures as int, u64::MAX as int),
            opt_text(final(self).last_error) == Some(detail@),
            final(self).last_success_unix_ms == old(self).last_success_unix_ms,
            final(self).last_failure_unix_ms == Some(now_unix_ms),
    {
        self.consecutive_failures = self.consecutive_failures.saturating_add(1);
        self.total_operations = self.total_operations.saturating_add(1);
        self.total_failures = self.total_failures.saturating_add(1);
        self.last_error = Some(detail.to_owned());
        self.last_failure_unix_ms = Some(now_unix_ms);
    }
}

/// Shared diagnostics context injected into SCPI sessions.
pub struct Diagnostics {
    address: String,
    health: Option<Arc<Mutex<DeviceHealth>>>,
    observer: Option<Arc<dyn CommsObserver>>,
}

/// What a [`Diagnostics`] is: the address it reports for, whether it keeps a health
/// record, and whether it pushes events to an observer.
pub struct DiagnosticsView {
    pub address: Seq<char>,
    pub tracks_health: bool,
    pub notifies: bool,
}

impl View for Diagnostics {
    type V = DiagnosticsView;

    closed spec fn view(&self) -> DiagnosticsView {
        DiagnosticsView {
            address: self.address@,
            tracks_health: self.health is Some,
            notifies: self.observer is Some,
        }
    }
}

/// The event reported for one operation.
pub open spec fn event_matches(
    e: CommsEvent,
    address: Seq<char>,
    kind: CommsEventKind,
    command: Option<Seq<char>>,
    attempt: u32,
    elapsed_ms: u64,
    detail: Option<Seq<char>>,
) -> bool {
    &&& e.address@ == address
    &&& e.kind == kind
    &&& opt_text(e.command) == command
    &&& e.attempt == attempt
    &&& e.elapsed_ms == elapsed_ms
    &&& opt_text(e.detail) == detail
}

fn text_of(o: Option<&str>) -> (r: Option<String>)
    ensures
        match o {
            Some(s) => opt_text(r) == Some(s@),
            None => r is None,
        },
{
    match o {
        Some(s) => Some(s.to_owned()),
        None => None,
    }
}

impl Clone for Diagnostics {
    /// Another handle to the same health record and observer. Its body is not
    /// verified: Verus does not move a shared trait object (`Arc<dyn ..>`).
    #[verifier::external_body]
    fn clone(&self) -> (r: Self)
        ensures
            r@ == self@,
    {
        Diagnostics {
            address: self.address.clone(),
            health: self.health.clone(),
            observer: self.observer.clone(),
        }
    }
}

impl Diagnostics {
    /// Diagnostics for `address` that neither tracks health nor notifies.
    pub fn new(address: &str) -> (r: Self)
        ensures
            r@.address == address@,
            !r@.tracks_health,
            !r@.notifies,
    {
        Diagnostics { address: address.to_owned(), health: None, observer: None }
    }

    /// Records into `health` from now on.
    pub fn with_health(self, health: Arc<Mutex<DeviceHealth>>) -> (r: Self)
        ensures
            r@.address == self@.address,
            r@.tracks_health,
            r@.notifies == self@.notifies,
    {
        Diagnostics { health: Some(health), ..self }
    }

    /// Pushes every event to `observer` from now on. Its body is not verified: Verus
    /// does not move a shared trait object (`Arc<dyn ..>`).
    #[verifier::external_body]
    pub fn with_observer(self, observer: Arc<dyn CommsObserver>) -> (r: Self)
        ensures
            r@.address == self@.address,
            r@.tracks_health == self@.tracks_health,
            r@.notifies,
    {
        Diagnostics { observer: Some(observer), ..self }
    }

    /// The address reported in events.
    pub fn address(&self) -> (r: &str)
        ensures
            r@ == self@.address,
    {
        self.address.as_str()
    }

    /// The event for one operation at this address.
    pub fn event(
        &self,
        kind: CommsEventKind,
        command: Option<&str>,
        attempt: u32,
        elapsed_ms: u64,
        detail: Option<&str>,
    ) -> (r: CommsEvent)
        ensures
            event_matches(
                r,
                self@.address,
                kind,
                match command {
                    Some(c) => Some(c@),
                    None => None,
                },
                attempt,
                elapsed_ms,
                match detail {
                    Some(d) => Some(d@),
                    None => None,
                },
            ),
    {
        CommsEvent {
            address: self.address.clone(),
            kind,
            command: text_of(command),
            attempt,
            elapsed_ms,
            detail: text_of(detail),
        }
    }

    /// Records a successful operation: the health record (if any, and not in use or
    /// poisoned at the moment) counts it, and the observer (if any) is told.
    pub fn record_success(
        &self,
        kind: CommsEventKind,
        command: Option<&str>,
        attempt: u32,
        elapsed: Duration,
    ) {
        if let Some(health) = &self.health {
            let now = unix_millis_now();
            if let Some(mut guard) = try_lock(&**health) {
                let mut h = replace_locked(&mut guard, DeviceHealth::default());
                h.note_success(now);
                let _ = replace_locked(&mut guard, h);
            }
        }
        let _ = self.emit(kind, command, attempt, elapsed, None);
    }

    /// Records a failed operation with its detail: the health record (if any, and not
    /// in use or poisoned at the moment) counts it, and the observer (if any) is told.
    pub fn record_failure(
        &self,
        kind: CommsEventKind,
        command: Option<&str>,
        attempt: u32,
        elapsed: Duration,
        detail: &str,
    ) {
        if let Some(health) = &self.health {
            let now = unix_millis_now();
            if let Some(mut guard) = try_lock(&**health) {
                let mut h = replace_locked(&mut guard, DeviceHealth::default());
                h.note_failure(detail, now);
                let _ = replace_locked(&mut guard, h);
            }
        }
        let _ = self.emit(kind, command, attempt, elapsed, Some(detail));
    }

    /// Tells the observer, if any, of one operation, and gives back the event it was
    /// sent (`None` without an observer). Events are not traced here: an observer
    /// that logs them (such as one over `tracing`) does that.
    fn emit(
        &self,
        kind: CommsEventKind,
        command: Option<&str>,
        attempt: u32,
        elapsed: Duration,
        detail: Option<&str>,
    ) -> (sent: Option<CommsEvent>)
        ensures
            sent is Some <==> self@.notifies,
            sent matches Some(e) ==> event_matches(
                e,
                self@.address,
                kind,
                match command {
                    Some(c) => Some(c@),
                    None => None,
                },
                attempt,
                if duration_millis(elapsed) > u64::MAX {
                    u64::MAX
                } else {
                    duration_millis(elapsed) as u64
                },
                match detail {
                    Some(d) => Some(d@),
                    None => None,
                },
            ),
    {
        if let Some(observer) = &self.observer {
            let millis = duration_as_millis(elapsed);
            let ms: u64 = if millis > u64::MAX as u128 {
                u64::MAX
            } else {
                millis as u64
            };
            let event = self.event(kind, command, attempt, ms, detail);
            observer.on_event(&event);
            Some(event)
        } else {
            None
        }
    }
}

} // verus!
