use crate::address::{opt_text, InterfaceKind};
use crate::connect::ConnectOptions;
use crate::error::{Error, Result, TransportError};
use std::time::Duration;
use vstd::prelude::*;

verus! {

/// Optional pre-SCPI identity hints from the transport backend.
#[derive(Debug, Clone, PartialEq, Eq)]
pub struct TransportIdentity {
    pub manufacturer: Option<String>,
    pub model: Option<String>,
    pub serial: Option<String>,
    pub interface: InterfaceKind,
    pub manf_id: Option<u32>,
    pub model_code: Option<u32>,
}

/// What identity hints say, as text and numbers.
pub struct IdentityHints {
    pub manufacturer: Option<Seq<char>>,
    pub model: Option<Seq<char>>,
    pub serial: Option<Seq<char>>,
    pub interface: InterfaceKind,
    pub manf_id: Option<u32>,
    pub model_code: Option<u32>,
}

impl View for TransportIdentity {
    type V = IdentityHints;

    open spec fn view(&self) -> IdentityHints {
        IdentityHints {
            manufacturer: opt_text(self.manufacturer),
            model: opt_text(self.model),
            serial: opt_text(self.serial),
            interface: self.interface,
            manf_id: self.manf_id,
            model_code: self.model_code,
        }
    }
}

/// The hints of a backend that knows nothing about the device.
pub open spec fn no_hints() -> IdentityHints {
    IdentityHints {
        manufacturer: None,
        model: None,
        serial: None,
        interface: InterfaceKind::Unknown,
        manf_id: None,
        model_code: None,
    }
}

impl TransportIdentity {
    /// No hints.
    pub fn empty() -> (r: Self)
        ensures
            r.manufacturer is None,
            r.model is None,
            r.serial is None,
            r.interface == InterfaceKind::Unknown,
            r.manf_id is None,
            r.model_code is None,
            r@ == no_hints(),
    {
        TransportIdentity {
            manufacturer: None,
            model: None,
            serial: None,
            interface: InterfaceKind::Unknown,
            manf_id: None,
            model_code: None,
        }
    }

    /// A copy of these hints.
    pub fn duplicate(&self) -> (r: Self)
        ensures
            opt_text(r.manufacturer) == opt_text(self.manufacturer),
            opt_text(r.model) == opt_text(self.model),
            opt_text(r.serial) == opt_text(self.serial),
            r.interface == self.interface,
            r.manf_id == self.manf_id,
            r.model_code == self.model_code,
            r@ == self@,
    {
        TransportIdentity {
            manufacturer: clone_text(&self.manufacturer),
            model: clone_text(&self.model),
            serial: clone_text(&self.serial),
            interface: self.interface,
            manf_id: self.manf_id,
            model_code: self.model_code,
        }
    }
}

pub fn clone_text(o: &Option<String>) -> (r: Option<String>)
    ensures
        opt_text(r) == opt_text(*o),
{
    match o {
        Some(s) => Some(s.clone()),
        None => None,
    }
}

impl Default for TransportIdentity {
    fn default() -> (r: Self)
        ensures
            r.manufacturer is None,
            r.model is None,
            r.serial is None,
            r.interface == InterfaceKind::Unknown,
            r.manf_id is None,
            r.model_code is None,
    {
        TransportIdentity::empty()
    }
}

/// Swappable byte-level transport for instrument I/O.
///
/// What a transport returns is up to its implementation; sessions make no assumption
/// about it beyond the types.
pub trait Transport: Send {
    fn write(&mut self, data: &[u8]) -> Result<()>;

    /// Reads available bytes into `buf` and returns their number. (The buffer keeps
    /// its length, as any slice behind `&mut` does.)
    fn read(&mut self, buf: &mut [u8]) -> (r: Result<usize>)
        ensures
            final(buf)@.len() == old(buf)@.len(),
    ;

    fn clear(&mut self) -> Result<()>;

    fn set_read_timeout(&mut self, timeout: Duration) -> Result<()>;

    /// Waits `delay` before a session retries a failed operation. Default: returns at
    /// once, so a transport that keeps the default retries without a backoff; a
    /// transport over real hardware sleeps here (the session itself cannot sleep,
    /// `std::thread` being outside what this library may call).
    fn pause(&mut self, delay: Duration) {
    }

    /// Reopens a dropped connection (e.g. TCPIP). Default: unsupported.
    fn reconnect(&mut self) -> (r: Result<()>)
        default_ensures
            r matches Err(Error::Unsupported(what)) && what@ == "reconnect"@,
    {
        proof {
            reveal_strlit("reconnect");
        }
        Err(Error::Unsupported("reconnect"))
    }

    /// Pre-SCPI identity hints. Default: empty.
    fn identity(&self) -> (r: TransportIdentity)
        default_ensures
            r@ == no_hints(),
    {
        TransportIdentity::empty()
    }

    /// Applies connect options: the read timeout.
    fn configure(&mut self, opts: &ConnectOptions) -> Result<()> {
        self.set_read_timeout(opts.read_timeout)
    }
}

/// Boxed transport for dynamic dispatch at the session boundary.
pub type DynTransport = Box<dyn Transport>;

/// In-memory buffer transport for testing read/write plumbing.
#[derive(Debug, Default)]
pub struct BufferTransport {
    pub written: Vec<u8>,
    pub read_data: Vec<u8>,
    read_pos: usize,
}

impl BufferTransport {
    /// How many bytes of `read_data` were read.
    pub closed spec fn position(&self) -> usize {
        self.read_pos
    }

    /// The bytes written so far.
    pub closed spec fn sent(&self) -> Seq<u8> {
        self.written@
    }

    /// The bytes that reads hand out.
    pub closed spec fn source(&self) -> Seq<u8> {
        self.read_data@
    }

    /// A transport that will read `read_data` back.
    pub fn new(read_data: Vec<u8>) -> (r: Self)
        ensures
            r.sent().len() == 0,
            r.source() == read_data@,
            r.position() == 0,
    {
        BufferTransport { written: Vec::new(), read_data, read_pos: 0 }
    }

    /// Appends `data` to what was written.
    pub fn write_bytes(&mut self, data: &[u8])
        ensures
            final(self).sent() == old(self).sent() + data@,
            final(self).source() == old(self).source(),
            final(self).position() == old(self).position(),
    {
        self.written.extend_from_slice(data);
    }

    /// Copies the next unread bytes into `buf`: as many as fit, or `Closed` once
    /// everything was read.
    pub fn read_bytes(&mut self, buf: &mut [u8]) -> (r: Result<usize>)
        ensures
            buffer_read(*old(self), old(buf)@, r, *final(self), final(buf)@),
    {
        if self.read_pos >= self.read_data.len() {
            return Err(Error::Transport(TransportError::Closed));
        }
        let avail = self.read_data.len() - self.read_pos;
        let n = if buf.len() < avail {
            buf.len()
        } else {
            avail
        };
        let ghost before = buf@;
        let pos = self.read_pos;
        let src = &self.read_data;
        let mut i: usize = 0;
        while i < n
            invariant
                i <= n,
                n <= buf@.len(),
                buf@.len() == before.len(),
                pos + n <= src@.len(),
                src@.len() == src.len(),
                forall|j: int| 0 <= j < i ==> buf@[j] == src@[pos + j],
                forall|j: int| n <= j < buf@.len() ==> buf@[j] == before[j],
            decreases n - i,
        {
            buf[i] = src[pos + i];
            i = i + 1;
        }
        proof {
            assert(buf@.take(n as int) =~= src@.subrange(pos as int, pos + n));
            assert(buf@.skip(n as int) =~= before.skip(n as int));
        }
        self.read_pos = self.read_pos + n;
        Ok(n)
    }

    /// Rewinds reading to the start.
    pub fn rewind(&mut self)
        ensures
            final(self).position() == 0,
            final(self).sent() == old(self).sent(),
            final(self).source() == old(self).source(),
    {
        self.read_pos = 0;
    }
}

/// What a read into `buf` does to a buffer transport in state `before`: the next
/// unread bytes, as many as fit, or `Closed` once everything was read.
pub open spec fn buffer_read(
    before: BufferTransport,
    buf: Seq<u8>,
    r: Result<usize>,
    after: BufferTransport,
    buf_after: Seq<u8>,
) -> bool {
    &&& after.sent() == before.sent()
    &&& after.source() == before.source()
    &&& before.position() >= before.source().len() ==> {
        &&& (r matches Err(Error::Transport(TransportError::Closed)))
        &&& after.position() == before.position()
        &&& buf_after == buf
    }
    &&& before.position() < before.source().len() ==> {
        let avail = before.source().len() - before.position();
        let n = if buf.len() < avail {
            buf.len() as int
        } else {
            avail
        };
        &&& r == Ok::<usize, Error>(n as usize)
        &&& after.position() == before.position() + n
        &&& buf_after.len() == buf.len()
        &&& buf_after.take(n) == before.source().subrange(before.position() as int, before.position() + n)
        &&& buf_after.skip(n) == buf.skip(n)
    }
}

impl Transport for BufferTransport {
    fn write(&mut self, data: &[u8]) -> (r: Result<()>)
        ensures
            r is Ok,
            final(self).sent() == old(self).sent() + data@,
            final(self).source() == old(self).source(),
            final(self).position() == old(self).position(),
    {
        self.write_bytes(data);
        Ok(())
    }

    fn read(&mut self, buf: &mut [u8]) -> (r: Result<usize>)
        ensures
            buffer_read(*old(self), old(buf)@, r, *final(self), final(buf)@),
    {
        self.read_bytes(buf)
    }

    fn clear(&mut self) -> (r: Result<()>)
        ensures
            r is Ok,
            final(self).position() == 0,
            final(self).sent() == old(self).sent(),
            final(self).source() == old(self).source(),
    {
        self.rewind();
        Ok(())
    }

    fn set_read_timeout(&mut self, _timeout: Duration) -> (r: Result<()>)
        ensures
            r is Ok,
            *final(self) == *old(self),
    {
        Ok(())
    }
}

/// Copies as many bytes of `src` as fit into the front of `dst` and returns their
/// number.
pub fn copy_prefix(dst: &mut [u8], src: &[u8]) -> (n: usize)
    ensures
        n == if old(dst)@.len() < src@.len() {
            old(dst)@.len()
        } else {
            src@.len()
        },
        final(dst)@.len() == old(dst)@.len(),
        final(dst)@.take(n as int) == src@.take(n as int),
        final(dst)@.skip(n as int) == old(dst)@.skip(n as int),
{
    let n = if dst.len() < src.len() {
        dst.len()
    } else {
        src.len()
    };
    let ghost before = dst@;
    let mut i: usize = 0;
    while i < n
        invariant
            i <= n,
            n <= dst@.len(),
            n <= src@.len(),
            dst@.len() == before.len(),
            forall|j: int| 0 <= j < i ==> dst@[j] == src@[j],
            forall|j: int| i <= j < dst@.len() ==> dst@[j] == before[j],
        decreases n - i,
    {
        dst[i] = src[i];
        i = i + 1;
    }
    assert(dst@.take(n as int) =~= src@.take(n as int));
    assert(dst@.skip(n as int) =~= before.skip(n as int));
    n
}

} // verus!
