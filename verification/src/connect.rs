use crate::timing::{
    duration_from_millis, duration_from_secs, duration_max, longer_duration, millis_duration,
    secs_duration,
};
use std::time::Duration;
use vstd::prelude::*;

verus! {

/// VISA access mode (maps to the backend's access flags).
#[derive(Debug, Clone, Copy, PartialEq, Eq, Structural)]
pub struct AccessMode {
    pub exclusive_lock: bool,
    pub shared_lock: bool,
}

impl AccessMode {
    /// No lock is requested.
    pub fn no_lock() -> (r: Self)
        ensures
            !r.exclusive_lock && !r.shared_lock,
    {
        Self { exclusive_lock: false, shared_lock: false }
    }

    /// A shared lock is requested.
    pub fn shared_lock() -> (r: Self)
        ensures
            !r.exclusive_lock && r.shared_lock,
    {
        Self { exclusive_lock: false, shared_lock: true }
    }

    /// An exclusive lock is requested.
    pub fn exclusive_lock() -> (r: Self)
        ensures
            r.exclusive_lock && !r.shared_lock,
    {
        Self { exclusive_lock: true, shared_lock: false }
    }
}

impl Default for AccessMode {
    fn default() -> (r: Self)
        ensures
            !r.exclusive_lock && !r.shared_lock,
    {
        AccessMode::no_lock()
    }
}

/// Options when opening an instrument session.
#[derive(Debug, Clone)]
pub struct ConnectOptions {
    pub open_timeout: Duration,
    pub read_timeout: Duration,
    pub write_timeout: Duration,
    pub per_op_timeout: Option<Duration>,
    pub terminator: String,
    pub access_mode: AccessMode,
    pub reset_on_connect: bool,
    pub retries: u32,
    pub retry_backoff: Duration,
    pub reconnect_on_failure: bool,
}

/// The timeout that governs a query's read: the per-operation override when set, else
/// the read timeout.
pub open spec fn effective_read_timeout(opts: ConnectOptions) -> Duration {
    match opts.per_op_timeout {
        Some(t) => t,
        None => opts.read_timeout,
    }
}

/// The I/O timeout kept between operations: the longer of the read and write
/// timeouts.
pub open spec fn io_timeout(opts: ConnectOptions) -> Duration {
    longer_duration(opts.read_timeout, opts.write_timeout)
}

impl Default for ConnectOptions {
    /// Five-second open, ten-second read and write timeouts, newline terminator, no
    /// lock, no reset, two retries after 100 ms, reconnecting on failure.
    fn default() -> (r: Self)
        ensures
            r.open_timeout == secs_duration(5),
            r.read_timeout == secs_duration(10),
            r.write_timeout == secs_duration(10),
            r.per_op_timeout is None,
            r.terminator@ == "\n"@,
            !r.access_mode.exclusive_lock && !r.access_mode.shared_lock,
            !r.reset_on_connect,
            r.retries == 2,
            r.retry_backoff == millis_duration(100),
            r.reconnect_on_failure,
    {
        ConnectOptions {
            open_timeout: duration_from_secs(5),
            read_timeout: duration_from_secs(10),
            write_timeout: duration_from_secs(10),
            per_op_timeout: None,
            terminator: "\n".to_owned(),
            access_mode: AccessMode::no_lock(),
            reset_on_connect: false,
            retries: 2,
            retry_backoff: duration_from_millis(100),
            reconnect_on_failure: true,
        }
    }
}

impl ConnectOptions {
    /// These options with another read timeout.
    pub fn with_read_timeout(self, timeout: Duration) -> (r: Self)
        ensures
            r == (ConnectOptions { read_timeout: timeout, ..self }),
    {
        let mut s = self;
        s.read_timeout = timeout;
        s
    }

    /// These options with a per-operation timeout, which overrides the read timeout of
    /// queries.
    pub fn with_per_op_timeout(self, timeout: Duration) -> (r: Self)
        ensures
            r == (ConnectOptions { per_op_timeout: Some(timeout), ..self }),
    {
        let mut s = self;
        s.per_op_timeout = Some(timeout);
        s
    }

    /// The I/O timeout that a session keeps between operations: the longer of the
    /// read and write timeouts.
    pub fn io_timeout(&self) -> (r: Duration)
        ensures
            r == io_timeout(*self),
            r == self.read_timeout || r == self.write_timeout,
    {
        duration_max(self.read_timeout, self.write_timeout)
    }

    /// The timeout of a query's read.
    pub fn effective_read_timeout(&self) -> (r: Duration)
        ensures
            r == effective_read_timeout(*self),
    {
        match self.per_op_timeout {
            Some(t) => t,
            None => self.read_timeout,
        }
    }

    /// A copy of these options.
    pub fn duplicate(&self) -> (r: Self)
        ensures
            r.open_timeout == self.open_timeout,
            r.read_timeout == self.read_timeout,
            r.write_timeout == self.write_timeout,
            r.per_op_timeout == self.per_op_timeout,
            r.terminator@ == self.terminator@,
            r.access_mode == self.access_mode,
            r.reset_on_connect == self.reset_on_connect,
            r.retries == self.retries,
            r.retry_backoff == self.retry_backoff,
            r.reconnect_on_failure == self.reconnect_on_failure,
    {
        ConnectOptions {
            open_timeout: self.open_timeout,
            read_timeout: self.read_timeout,
            write_timeout: self.write_timeout,
            per_op_timeout: self.per_op_timeout,
            terminator: self.terminator.clone(),
            access_mode: self.access_mode,
            reset_on_connect: self.reset_on_connect,
            retries: self.retries,
            retry_backoff: self.retry_backoff,
            reconnect_on_failure: self.reconnect_on_failure,
        }
    }
}

} // verus!
