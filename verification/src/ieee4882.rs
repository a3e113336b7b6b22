//! IEEE 488.2 common commands over an SCPI session.
use crate::connect::io_timeout;
use crate::error::Result;
use crate::identity::{idn_field, Idn};
use crate::connect::effective_read_timeout;
use crate::scpi::session::{
    appended, command_bytes, delivered, extends, lemma_delivered_after, leaves_timeout,
    one_send, reconnects_follow_timeouts, reset_run, reply_of, write_count, writes_only, LinkEvent, ScpiSession,
    WriteOutcome,
};
use crate::timing::secs_duration;
use crate::text::{chars_of, trim, trim_str};
use vstd::prelude::*;

verus! {

/// IEEE 488.2 common commands, borrowing a session for their duration.
pub struct Ieee4882<'a> {
    pub session: &'a mut ScpiSession,
}

/// The session behind `after` is the session behind `before`, changed as a session
/// changes: same options, a longer log whose reconnects follow timeouts and which
/// leaves the I/O timeout set.
pub open spec fn session_step(before: ScpiSession, after: ScpiSession) -> bool {
    &&& after@.opts == before@.opts
    &&& extends(before@.log, after@.log)
    &&& reconnects_follow_timeouts(appended(before@.log, after@.log))
    &&& leaves_timeout(appended(before@.log, after@.log), io_timeout(before@.opts))
}

impl<'a> Ieee4882<'a> {
    /// Common commands on `session`.
    pub fn new(session: &'a mut ScpiSession) -> (r: Self)
        ensures
            *r.session == *old(session),
            *final(session) == *final(r.session),
    {
        Ieee4882 { session }
    }

    /// `*IDN?`, parsed.
    pub fn idn(&mut self) -> (r: Result<Idn>)
        ensures
            *final(final(self).session) == *final(old(self).session),
            session_step(*old(self).session, *final(self).session),
            writes_only(
                appended(old(self).session@.log, final(self).session@.log),
                command_bytes("*IDN?"@, old(self).session@.opts.terminator@),
            ),
            r matches Ok(idn) ==> (reply_of(
                appended(old(self).session@.log, final(self).session@.log),
                old(self).session@.opts.terminator@,
            ) matches Some(reply) && idn.manufacturer@ == idn_field(reply, 0) && idn.model@
                == idn_field(reply, 1) && idn.serial@ == idn_field(reply, 2) && idn.firmware@
                == idn_field(reply, 3)),
            write_count(appended(old(self).session@.log, final(self).session@.log)) >= 1,
            r is Ok <==> delivered(
                appended(old(self).session@.log, final(self).session@.log),
                effective_read_timeout(old(self).session@.opts),
                old(self).session@.opts.terminator@,
            ),
    {
        let reply = self.session.query("*IDN?")?;
        Ok(Idn::parse(reply.as_str()))
    }

    /// `*RST`, written once, then waiting for the operation to complete; a failed
    /// write ends it.
    pub fn reset(&mut self) -> (r: Result<()>)
        ensures
            *final(final(self).session) == *final(old(self).session),
            session_step(*old(self).session, *final(self).session),
            reset_run(
                appended(old(self).session@.log, final(self).session@.log),
                old(self).session@.capabilities.opc,
                final(self).session@.capabilities.opc,
                old(self).session@.opts.terminator@,
                r,
            ),
    {
        let ghost start = *self.session;
        let w = self.session.write("*RST");
        let ghost mid = *self.session;
        proof {
            let first = appended(start@.log, mid@.log);
            assert(first[0] == first.last());
            assert(first[0] is Write);
        }
        if let Err(e) = w {
            return Err(e);
        }
        let r = self.session.wait_complete();
        proof {
            crate::scpi::session::lemma_chain(start@.log, mid@.log, self.session@.log);
            let first = appended(start@.log, mid@.log);
            let rest = appended(mid@.log, self.session@.log);
            let all = appended(start@.log, self.session@.log);
            assert(all == first + rest);
            assert(all[0] == first[0]);
            assert(all.skip(1) =~= rest);
            if self.session@.capabilities.opc == Some(true) {
                lemma_delivered_after(first, rest, secs_duration(30), start@.opts.terminator@);
            }
        }
        r
    }

    /// `*CLS`.
    pub fn clear_status(&mut self) -> (r: Result<()>)
        ensures
            *final(final(self).session) == *final(old(self).session),
            session_step(*old(self).session, *final(self).session),
            final(self).session@.capabilities == old(self).session@.capabilities,
            writes_only(
                appended(old(self).session@.log, final(self).session@.log),
                command_bytes("*CLS"@, old(self).session@.opts.terminator@),
            ),
            appended(old(self).session@.log, final(self).session@.log).len() == 1,
            appended(old(self).session@.log, final(self).session@.log)[0] is Write,
            r is Ok <==> appended(old(self).session@.log, final(self).session@.log)[0]
                ->Write_outcome is Sent,
    {
        let ghost start = *self.session;
        let r = self.session.write("*CLS");
        proof {
            let all = appended(start@.log, self.session@.log);
            assert(all[0] == all.last());
        }
        r
    }

    /// `*OPC?`: whether pending operations are complete. An instrument without
    /// `*OPC?` is taken as complete.
    pub fn opc_query(&mut self) -> (r: Result<bool>)
        ensures
            *final(final(self).session) == *final(old(self).session),
            session_step(*old(self).session, *final(self).session),
            final(self).session@.capabilities.opc is Some,
            final(self).session@.capabilities.opc == Some(false) ==> r == Ok::<bool, crate::error::Error>(true),
            old(self).session@.capabilities.opc == Some(false) ==> final(self).session@
                == old(self).session@,
            old(self).session@.capabilities.opc is None && final(self).session@.capabilities.opc == Some(
                false,
            ) ==> one_send(appended(old(self).session@.log, final(self).session@.log)) && writes_only(
                appended(old(self).session@.log, final(self).session@.log),
                command_bytes("*OPC?"@, old(self).session@.opts.terminator@),
            ),
            final(self).session@.capabilities.opc == Some(true) ==> (r is Ok <==> delivered(
                appended(old(self).session@.log, final(self).session@.log),
                effective_read_timeout(old(self).session@.opts),
                old(self).session@.opts.terminator@,
            )),
            final(self).session@.capabilities.opc == Some(true) ==> (r matches Ok(done) ==> (reply_of(
                appended(old(self).session@.log, final(self).session@.log),
                old(self).session@.opts.terminator@,
            ) matches Some(reply) && done == (trim(reply) == seq!['1']))),
    {
        let ghost start = *self.session;
        if !self.session.probe_opc() {
            return Ok(true);
        }
        let ghost mid = *self.session;
        let reply = self.session.query("*OPC?");
        proof {
            crate::scpi::session::lemma_chain(start@.log, mid@.log, self.session@.log);
            lemma_delivered_after(
                appended(start@.log, mid@.log),
                appended(mid@.log, self.session@.log),
                effective_read_timeout(start@.opts),
                start@.opts.terminator@,
            );
            if reply is Ok {
                crate::scpi::session::lemma_reply_after(
                    appended(start@.log, mid@.log),
                    appended(mid@.log, self.session@.log),
                    start@.opts.terminator@,
                );
            }
        }
        let reply = reply?;
        let t = chars_of(trim_str(reply.as_str()).as_str());
        let done = t.len() == 1 && t[0] == '1';
        proof {
            assert(done == (t@ == seq!['1'])) by {
                if t@.len() == 1 && t@[0] == '1' {
                    assert(t@ =~= seq!['1']);
                }
            }
        }
        Ok(done)
    }

    /// Waits for pending operations with `*OPC?` when the instrument supports it.
    pub fn wait_complete(&mut self) -> (r: Result<()>)
        ensures
            *final(final(self).session) == *final(old(self).session),
            session_step(*old(self).session, *final(self).session),
            final(self).session@.capabilities.opc is Some,
            final(self).session@.capabilities.opc == Some(false) ==> r is Ok,
            old(self).session@.capabilities.opc == Some(false) ==> final(self).session@
                == old(self).session@,
            writes_only(
                appended(old(self).session@.log, final(self).session@.log),
                command_bytes("*OPC?"@, old(self).session@.opts.terminator@),
            ),
            final(self).session@.capabilities.opc == Some(true) ==> (r is Ok <==> delivered(
                appended(old(self).session@.log, final(self).session@.log),
                secs_duration(30),
                old(self).session@.opts.terminator@,
            )),
    {
        self.session.wait_complete()
    }

    /// `*OPT?`: the installed options.
    pub fn options(&mut self) -> (r: Result<String>)
        ensures
            *final(final(self).session) == *final(old(self).session),
            session_step(*old(self).session, *final(self).session),
            writes_only(
                appended(old(self).session@.log, final(self).session@.log),
                command_bytes("*OPT?"@, old(self).session@.opts.terminator@),
            ),
            r matches Ok(s) ==> reply_of(
                appended(old(self).session@.log, final(self).session@.log),
                old(self).session@.opts.terminator@,
            ) == Some(s@),
            write_count(appended(old(self).session@.log, final(self).session@.log)) >= 1,
            r is Ok <==> delivered(
                appended(old(self).session@.log, final(self).session@.log),
                effective_read_timeout(old(self).session@.opts),
                old(self).session@.opts.terminator@,
            ),
    {
        self.session.query("*OPT?")
    }
}

} // verus!
