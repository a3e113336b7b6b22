//! Instrument sessions: an SCPI session bound to an address and identity, and a pool
//! that shares one session between typed views.
use crate::address::ResourceAddress;
use crate::connect::{effective_read_timeout, ConnectOptions};
use crate::diagnostics::Diagnostics;
use crate::error::{in_comm_context, Error, Result};
use crate::identity::{idn_field, DeviceIdentity, Idn};
use crate::ieee4882::{session_step, Ieee4882};
use crate::kind::InstrumentKind;
use crate::lock::{new_mutex, share, try_lock};
use crate::scpi::session::{
    appended, command_bytes, delivered, error_queue_read, is_no_error_reply, opened, reply_of,
    reset_run, writes_only, LinkEvent,
};
use crate::timing::secs_duration;
use crate::scpi::ScpiSession;
use crate::transport::DynTransport;
use std::sync::{Arc, Mutex, MutexGuard};
use vstd::prelude::*;

verus! {

/// Opens transport sessions for a device address.
pub trait SessionOpener: Send + Sync {
    fn open(&self, address: &ResourceAddress, opts: &ConnectOptions) -> Result<DynTransport>;
}

/// Active instrument session with SCPI and cached identity.
pub struct InstrumentSession {
    pub address: ResourceAddress,
    pub scpi: ScpiSession,
    identity: DeviceIdentity,
}

/// `r` is what `inner` gave, a failure carrying `address` and `command` as its
/// context.
pub open spec fn in_context<T>(r: Result<T>, inner: Result<T>, address: Seq<char>, command: Seq<char>) -> bool {
    match inner {
        Ok(v) => r == Ok::<T, Error>(v),
        Err(e) => r matches Err(x) && in_comm_context(x, e, address, Some(command), 1),
    }
}

/// `r` failed as a communication error about `command` at `address`, or succeeded.
pub open spec fn comm_failure<T>(r: Result<T>, address: Seq<char>, command: Seq<char>) -> bool {
    r matches Err(e) ==> exists|inner: Error| #[trigger]
        in_comm_context(e, inner, address, Some(command), 1)
}

impl InstrumentSession {
    /// A session at `address` over `transport`, knowing `identity`.
    pub fn new(
        address: ResourceAddress,
        transport: DynTransport,
        opts: ConnectOptions,
        identity: DeviceIdentity,
    ) -> (r: Result<Self>)
        ensures
            r matches Ok(s) ==> s.address_spec() == address && s.identity_spec() == identity
                && s.scpi_spec()@.opts == opts && s.scpi_spec().reports_to() is None && opened(
                s.scpi_spec()@,
                opts,
            ),
    {
        Self::new_with_diagnostics(address, transport, opts, identity, None)
    }

    /// A session at `address` over `transport`, knowing `identity`, reporting to
    /// `diagnostics` when given.
    pub fn new_with_diagnostics(
        address: ResourceAddress,
        transport: DynTransport,
        opts: ConnectOptions,
        identity: DeviceIdentity,
        diagnostics: Option<Diagnostics>,
    ) -> (r: Result<Self>)
        ensures
            r matches Ok(s) ==> s.address_spec() == address && s.identity_spec() == identity
                && s.scpi_spec()@.opts == opts && s.scpi_spec().reports_to() == match diagnostics {
                Some(d) => Some(d@),
                None => None,
            } && opened(s.scpi_spec()@, opts),
    {
        let mut scpi = ScpiSession::new(transport, opts)?;
        if let Some(diag) = diagnostics {
            scpi = scpi.with_diagnostics(diag);
        }
        Ok(InstrumentSession { address, scpi, identity })
    }

    /// The identity the session was opened with.
    pub closed spec fn identity_spec(&self) -> DeviceIdentity {
        self.identity
    }

    /// The session's address.
    pub closed spec fn address_spec(&self) -> ResourceAddress {
        self.address
    }

    /// The session's SCPI session.
    pub closed spec fn scpi_spec(&self) -> ScpiSession {
        self.scpi
    }

    /// The address as written.
    pub fn address_str(&self) -> (r: &str)
        ensures
            r@ == self.address_spec().raw@,
    {
        self.address.raw.as_str()
    }

    /// The identity the session was opened with.
    pub fn identity(&self) -> (r: &DeviceIdentity)
        ensures
            *r == self.identity_spec(),
    {
        &self.identity
    }

    /// The SCPI session.
    pub fn scpi(&self) -> (r: &ScpiSession)
        ensures
            *r == self.scpi_spec(),
    {
        &self.scpi
    }

    /// The SCPI session, to drive directly.
    pub fn scpi_mut(&mut self) -> (r: &mut ScpiSession)
        ensures
            *r == old(self).scpi_spec(),
            final(self).scpi_spec() == *final(r),
            final(self).address_spec() == old(self).address_spec(),
            final(self).identity_spec() == old(self).identity_spec(),
    {
        &mut self.scpi
    }

    /// `*IDN?`, parsed; a failure carries this address and the command `idn`.
    pub fn idn(&mut self) -> (r: Result<Idn>)
        ensures
            final(self).address_spec() == old(self).address_spec(),
            final(self).identity_spec() == old(self).identity_spec(),
            session_step(old(self).scpi_spec(), final(self).scpi_spec()),
            comm_failure(r, old(self).address_spec().raw@, "idn"@),
            writes_only(
                appended(old(self).scpi_spec()@.log, final(self).scpi_spec()@.log),
                command_bytes("*IDN?"@, old(self).scpi_spec()@.opts.terminator@),
            ),
            r matches Ok(idn) ==> (reply_of(
                appended(old(self).scpi_spec()@.log, final(self).scpi_spec()@.log),
                old(self).scpi_spec()@.opts.terminator@,
            ) matches Some(reply) && idn.manufacturer@ == idn_field(reply, 0) && idn.model@
                == idn_field(reply, 1) && idn.serial@ == idn_field(reply, 2) && idn.firmware@
                == idn_field(reply, 3)),
            r is Ok <==> delivered(
                appended(old(self).scpi_spec()@.log, final(self).scpi_spec()@.log),
                effective_read_timeout(old(self).scpi_spec()@.opts),
                old(self).scpi_spec()@.opts.terminator@,
            ),
    {
        let mut ieee = Ieee4882::new(&mut self.scpi);
        let r = ieee.idn();
        match r {
            Ok(v) => Ok(v),
            Err(e) => Err(e.with_comm_context(self.address.raw.clone(), Some("idn"), 1)),
        }
    }

    /// `*RST` and waiting for completion; a failure carries this address and `*RST`.
    pub fn reset(&mut self) -> (r: Result<()>)
        ensures
            final(self).address_spec() == old(self).address_spec(),
            final(self).identity_spec() == old(self).identity_spec(),
            session_step(old(self).scpi_spec(), final(self).scpi_spec()),
            comm_failure(r, old(self).address_spec().raw@, "*RST"@),
            exists|inner: Result<()>|
                #[trigger] reset_run(
                    appended(old(self).scpi_spec()@.log, final(self).scpi_spec()@.log),
                    old(self).scpi_spec()@.capabilities.opc,
                    final(self).scpi_spec()@.capabilities.opc,
                    old(self).scpi_spec()@.opts.terminator@,
                    inner,
                ) && in_context(r, inner, old(self).address_spec().raw@, "*RST"@),
    {
        let mut ieee = Ieee4882::new(&mut self.scpi);
        let r = ieee.reset();
        match r {
            Ok(v) => Ok(v),
            Err(e) => Err(e.with_comm_context(self.address.raw.clone(), Some("*RST"), 1)),
        }
    }

    /// `*CLS`; a failure carries this address and `*CLS`.
    pub fn clear_status(&mut self) -> (r: Result<()>)
        ensures
            final(self).address_spec() == old(self).address_spec(),
            final(self).identity_spec() == old(self).identity_spec(),
            session_step(old(self).scpi_spec(), final(self).scpi_spec()),
            comm_failure(r, old(self).address_spec().raw@, "*CLS"@),
            writes_only(
                appended(old(self).scpi_spec()@.log, final(self).scpi_spec()@.log),
                command_bytes("*CLS"@, old(self).scpi_spec()@.opts.terminator@),
            ),
            appended(old(self).scpi_spec()@.log, final(self).scpi_spec()@.log).len() == 1,
            appended(old(self).scpi_spec()@.log, final(self).scpi_spec()@.log)[0] is Write,
            r is Ok <==> appended(old(self).scpi_spec()@.log, final(self).scpi_spec()@.log)[0]
                ->Write_outcome is Sent,
    {
        let mut ieee = Ieee4882::new(&mut self.scpi);
        let r = ieee.clear_status();
        match r {
            Ok(v) => Ok(v),
            Err(e) => Err(e.with_comm_context(self.address.raw.clone(), Some("*CLS"), 1)),
        }
    }

    /// Waits for pending operations; a failure carries this address and `*OPC?`.
    pub fn wait_complete(&mut self) -> (r: Result<()>)
        ensures
            final(self).address_spec() == old(self).address_spec(),
            final(self).identity_spec() == old(self).identity_spec(),
            session_step(old(self).scpi_spec(), final(self).scpi_spec()),
            comm_failure(r, old(self).address_spec().raw@, "*OPC?"@),
            final(self).scpi_spec()@.capabilities.opc is Some,
            final(self).scpi_spec()@.capabilities.opc == Some(false) ==> r is Ok,
            old(self).scpi_spec()@.capabilities.opc == Some(false) ==> final(self).scpi_spec()@
                == old(self).scpi_spec()@,
            writes_only(
                appended(old(self).scpi_spec()@.log, final(self).scpi_spec()@.log),
                command_bytes("*OPC?"@, old(self).scpi_spec()@.opts.terminator@),
            ),
            final(self).scpi_spec()@.capabilities.opc == Some(true) ==> (r is Ok <==> delivered(
                appended(old(self).scpi_spec()@.log, final(self).scpi_spec()@.log),
                secs_duration(30),
                old(self).scpi_spec()@.opts.terminator@,
            )),
    {
        let mut ieee = Ieee4882::new(&mut self.scpi);
        let r = ieee.wait_complete();
        match r {
            Ok(v) => Ok(v),
            Err(e) => Err(e.with_comm_context(self.address.raw.clone(), Some("*OPC?"), 1)),
        }
    }

    /// Drains the error queue; a failure carries this address and `SYST:ERR?`.
    pub fn check_errors(&mut self) -> (r: Result<Vec<String>>)
        ensures
            final(self).address_spec() == old(self).address_spec(),
            final(self).identity_spec() == old(self).identity_spec(),
            session_step(old(self).scpi_spec(), final(self).scpi_spec()),
            comm_failure(r, old(self).address_spec().raw@, "SYST:ERR?"@),
            final(self).scpi_spec()@.capabilities.syst_err == Some(false) ==> (r matches Ok(v) && v@.len()
                == 0),
            r matches Ok(v) ==> v@.len() <= 51 && forall|i: int|
                0 <= i < v@.len() ==> !is_no_error_reply(#[trigger] v@[i]@),
            exists|pre: Seq<LinkEvent>, segs: Seq<Seq<LinkEvent>>, entries: Seq<Seq<char>>, inner: Result<
                Vec<String>,
            >|
                #[trigger] error_queue_read(
                    pre,
                    segs,
                    entries,
                    appended(old(self).scpi_spec()@.log, final(self).scpi_spec()@.log),
                    old(self).scpi_spec()@.capabilities.syst_err,
                    final(self).scpi_spec()@.capabilities.syst_err,
                    effective_read_timeout(old(self).scpi_spec()@.opts),
                    old(self).scpi_spec()@.opts.terminator@,
                    inner,
                ) && in_context(r, inner, old(self).address_spec().raw@, "SYST:ERR?"@),
    {
        let ghost before = self.scpi@;
        let r = self.scpi.check_errors();
        proof {
            let (pre, segs, entries) = choose|pre: Seq<LinkEvent>, segs: Seq<Seq<LinkEvent>>, entries: Seq<Seq<char>>|
                #[trigger] error_queue_read(
                    pre,
                    segs,
                    entries,
                    appended(before.log, self.scpi@.log),
                    before.capabilities.syst_err,
                    self.scpi@.capabilities.syst_err,
                    effective_read_timeout(before.opts),
                    before.opts.terminator@,
                    r,
                );
            assert(error_queue_read(
                pre,
                segs,
                entries,
                appended(before.log, self.scpi@.log),
                before.capabilities.syst_err,
                self.scpi@.capabilities.syst_err,
                effective_read_timeout(before.opts),
                before.opts.terminator@,
                r,
            ));
        }
        match r {
            Ok(v) => Ok(v),
            Err(e) => Err(e.with_comm_context(self.address.raw.clone(), Some("SYST:ERR?"), 1)),
        }
    }
}

/// Reuses a single underlying session across typed views.
pub struct SessionPool {
    session: Arc<Mutex<InstrumentSession>>,
}

impl SessionPool {
    /// The shared session.
    pub closed spec fn shared(&self) -> Arc<Mutex<InstrumentSession>> {
        self.session
    }

    /// A pool around `session`.
    pub fn new(session: InstrumentSession) -> Self {
        SessionPool { session: Arc::new(new_mutex(session)) }
    }

    /// The shared session.
    pub fn session(&self) -> (r: Arc<Mutex<InstrumentSession>>)
        ensures
            r == self.shared(),
    {
        share(&self.session)
    }

    /// A handle on the shared session; opening one always succeeds.
    pub fn open_session(&self) -> (r: Result<PooledSession>)
        ensures
            r matches Ok(p) && p.shared() == self.shared(),
    {
        Ok(PooledSession { session: share(&self.session) })
    }
}

/// Handle to a pooled session (shared transport).
pub struct PooledSession {
    session: Arc<Mutex<InstrumentSession>>,
}

impl PooledSession {
    /// The shared session.
    pub closed spec fn shared(&self) -> Arc<Mutex<InstrumentSession>> {
        self.session
    }

    /// Exclusive access to the shared session until the guard is dropped; `None` when
    /// the session is in use at the moment (by another handle or thread, or by this
    /// thread already) or was left poisoned by a panic.
    pub fn lock(&self) -> Option<MutexGuard<'_, InstrumentSession>> {
        try_lock(&*self.session)
    }
}

/// Whether `kind` is among `supported`.
pub open spec fn kind_supported(kind: InstrumentKind, supported: Seq<InstrumentKind>) -> bool {
    exists|i: int| 0 <= i < supported.len() && supported[i] == kind
}

/// Validates that a kind is supported before opening a typed view.
pub fn ensure_kind_supported(
    address: &ResourceAddress,
    kind: InstrumentKind,
    supported: &[InstrumentKind],
) -> (r: Result<()>)
    ensures
        r is Ok <==> kind_supported(kind, supported@),
        r matches Err(e) ==> (e matches Error::UnsupportedKind { address: a, kind: k, supported: s }
            && a@ == address.raw@ && k == kind && s@ == supported@),
{
    let mut i: usize = 0;
    while i < supported.len()
        invariant
            i <= supported@.len(),
            forall|j: int| 0 <= j < i ==> supported@[j] != kind,
        decreases supported@.len() - i,
    {
        if supported[i] == kind {
            return Ok(());
        }
        i = i + 1;
    }
    let mut listed: Vec<InstrumentKind> = Vec::new();
    let mut j: usize = 0;
    while j < supported.len()
        invariant
            j <= supported@.len(),
            listed@ == supported@.take(j as int),
        decreases supported@.len() - j,
    {
        listed.push(supported[j]);
        j = j + 1;
        assert(listed@ =~= supported@.take(j as int));
    }
    assert(supported@.take(supported@.len() as int) =~= supported@);
    Err(Error::UnsupportedKind { address: address.raw.clone(), kind, supported: listed })
}

} // verus!
