//! The per-connection session handler: a state machine that answers the
//! protocol events of one connection and updates the shared registry.
use vstd::prelude::*;

use crate::registry::{delivered, fanout, inserted, without_conn, ClientKey, Delivery, Registry};

verus! {

/// The answer to an authentication attempt.
#[derive(Clone, Copy, Debug, PartialEq, Eq, Structural)]
pub enum Auth {
    Accept,
    Reject,
}

/// Where a connection stands in its lifecycle.
#[derive(Clone, Copy, Debug, PartialEq, Eq, Structural)]
pub enum Phase {
    Unauthenticated,
    Authenticated,
    Closed,
}

/// Why a channel request was refused.
#[derive(Clone, Copy, Debug, PartialEq, Eq, Structural)]
pub enum HandlerError {
    /// The connection has not authenticated yet.
    NotAuthenticated,
    /// The connection has been torn down.
    Closed,
}

/// Terminal geometry handed to the pseudo-terminal provisioner, in the
/// 16-bit fields of a window-size record.
#[derive(Clone, Copy, Debug, PartialEq, Eq, Structural)]
pub struct PtyGeometry {
    pub rows: u16,
    pub cols: u16,
    pub xpixel: u16,
    pub ypixel: u16,
}

/// The per-process template from which each connection's handler is made.
pub struct Server {
    next_id: u64,
}

/// The handler of one connection.
pub struct Handler {
    /// The connection's identity, unique for the life of the process.
    pub conn: u64,
    pub phase: Phase,
}

/// The error, if any, with which a handler in `phase` refuses a request.
pub open spec fn refusal(phase: Phase) -> Option<HandlerError> {
    match phase {
        Phase::Unauthenticated => Some(HandlerError::NotAuthenticated),
        Phase::Authenticated => None,
        Phase::Closed => Some(HandlerError::Closed),
    }
}

impl View for Server {
    type V = u64;

    /// The next connection identity to be handed out.
    closed spec fn view(&self) -> u64 {
        self.next_id
    }
}

impl Server {
    pub fn new() -> (r: Self)
        ensures
            r@ == 0,
    {
        Server { next_id: 0 }
    }

    /// A fresh handler for a newly accepted connection, stamped with an
    /// identity that no earlier connection had; `None` once identities are
    /// exhausted.
    pub fn accept(&mut self) -> (r: Option<Handler>)
        ensures
            r.is_none() <==> old(self)@ == u64::MAX,
            r.is_none() ==> final(self)@ == old(self)@,
            r matches Some(h) ==> {
                &&& h.conn == old(self)@
                &&& h.phase == Phase::Unauthenticated
                &&& final(self)@ == old(self)@ + 1
            },
    {
        if self.next_id == u64::MAX {
            None
        } else {
            let conn = self.next_id;
            self.next_id = self.next_id + 1;
            Some(Handler { conn, phase: Phase::Unauthenticated })
        }
    }
}

fn check_phase(phase: Phase) -> (r: Result<(), HandlerError>)
    ensures
        r matches Err(e) ==> refusal(phase) == Some(e),
        r is Ok <==> refusal(phase).is_none(),
{
    match phase {
        Phase::Unauthenticated => Err(HandlerError::NotAuthenticated),
        Phase::Authenticated => Ok(()),
        Phase::Closed => Err(HandlerError::Closed),
    }
}

impl Handler {
    pub open spec fn key(&self, channel: u32) -> ClientKey {
        ClientKey { conn: self.conn, channel }
    }

    /// Public-key authentication: every key is accepted.
    pub fn auth_publickey(&mut self, user: &str, public_key: &[u8]) -> (r: Auth)
        ensures
            r == Auth::Accept,
            final(self).conn == old(self).conn,
            final(self).phase == (if old(self).phase == Phase::Closed {
                Phase::Closed
            } else {
                Phase::Authenticated
            }),
    {
        if self.phase != Phase::Closed {
            self.phase = Phase::Authenticated;
        }
        Auth::Accept
    }

    /// Opens a session channel: its outbound handle is registered under
    /// this connection and `channel`.
    pub fn channel_open_session<H>(&self, reg: &mut Registry<H>, channel: u32, handle: H) -> (r:
        Result<(), HandlerError>)
        requires
            old(reg).wf(),
        ensures
            final(reg).wf(),
            r matches Err(e) ==> refusal(self.phase) == Some(e) && final(reg)@ == old(reg)@,
            r is Ok <==> refusal(self.phase).is_none(),
            r is Ok ==> final(reg)@ == inserted(old(reg)@, self.key(channel), handle),
    {
        check_phase(self.phase)?;
        reg.insert(ClientKey { conn: self.conn, channel }, handle);
        Ok(())
    }

    /// Data received on `channel`: the bytes go to every registered channel
    /// of the other connections, then back to the sender on its own channel,
    /// which is the last delivery.
    pub fn data<H>(&self, reg: &Registry<H>, channel: u32, data: &[u8]) -> (r: Result<
        Vec<Delivery>,
        HandlerError,
    >)
        ensures
            r matches Err(e) ==> refusal(self.phase) == Some(e),
            r is Ok <==> refusal(self.phase).is_none(),
            r matches Ok(ds) ==> delivered(ds@) == fanout(reg.keys(), self.conn, data@).push(
                (self.key(channel), data@),
            ),
    {
        check_phase(self.phase)?;
        let mut out = reg.broadcast_except(self.conn, data);
        let echo = Delivery { key: ClientKey { conn: self.conn, channel }, payload: vstd::slice::slice_to_vec(data) };
        out.push(echo);
        assert(delivered(out@) =~= fanout(reg.keys(), self.conn, data@).push((self.key(channel), data@)));
        Ok(out)
    }

    /// A pseudo-terminal request: the geometry to allocate it with, each
    /// dimension cut to the 16 bits of a window-size field.
    pub fn pty_request(
        &self,
        channel: u32,
        term: &str,
        col_width: u32,
        row_height: u32,
        pix_width: u32,
        pix_height: u32,
    ) -> (r: Result<PtyGeometry, HandlerError>)
        ensures
            r matches Err(e) ==> refusal(self.phase) == Some(e),
            r is Ok <==> refusal(self.phase).is_none(),
            r matches Ok(g) ==> {
                &&& g.rows == row_height % 0x10000
                &&& g.cols == col_width % 0x10000
                &&& g.xpixel == pix_width % 0x10000
                &&& g.ypixel == pix_height % 0x10000
            },
    {
        check_phase(self.phase)?;
        Ok(PtyGeometry {
            rows: (row_height % 0x10000) as u16,
            cols: (col_width % 0x10000) as u16,
            xpixel: (pix_width % 0x10000) as u16,
            ypixel: (pix_height % 0x10000) as u16,
        })
    }

    /// A shell request: accepted; no process is started.
    pub fn shell_request(&self, channel: u32) -> (r: Result<(), HandlerError>)
        ensures
            r matches Err(e) ==> refusal(self.phase) == Some(e),
            r is Ok <==> refusal(self.phase).is_none(),
    {
        check_phase(self.phase)
    }

    /// The connection is gone: all its channels leave the registry and the
    /// handler refuses any further request.
    pub fn disconnect<H>(&mut self, reg: &mut Registry<H>)
        requires
            old(reg).wf(),
        ensures
            final(reg).wf(),
            final(reg)@ == without_conn(old(reg)@, old(self).conn),
            final(self).conn == old(self).conn,
            final(self).phase == Phase::Closed,
    {
        reg.remove_connection(self.conn);
        self.phase = Phase::Closed;
    }
}

} // verus!
