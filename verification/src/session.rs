//! The session lifecycle controller: one value of `Session` walks one
//! connection through `Connecting → Registered → Active → Closing →
//! Closed`, driving the registry at the two ends and the dispatcher in the
//! middle.
//!
//! The surrounding application owns the transport: it reads frames and
//! performs sends. Between those, every decision — which identifier the
//! connection gets, when it is registered and deregistered, what each
//! inbound frame asks for — is taken here.

use crate::common::codec::{push_char, spec_parse_message};
use crate::common::protocol::{spec_tag, MessageType};
use crate::registry::Registry;
use crate::server::handler::{handle_incoming_message, IncomingAction};
use vstd::prelude::*;

verus! {

/// Where a connection stands in its lifecycle.
#[derive(Debug, Clone, Copy, PartialEq, Eq, Structural)]
pub enum SessionPhase {
    /// The transport handshake completed; no identifier assigned yet.
    Connecting,
    /// Registered: the greeting and the join announcement are owed next.
    Registered,
    /// In the read loop.
    Active,
    /// Input has stopped; cleanup is owed.
    Closing,
    /// Cleaned up. Terminal.
    Closed,
}

/// One connection's lifecycle state. The phase only ever moves along the
/// transitions below; the identifier is fixed from registration on.
pub struct Session {
    id: u64,
    phase: SessionPhase,
}

/// The decimal digit characters of `n`, most significant first.
pub open spec fn spec_decimal(n: nat) -> Seq<char>
    decreases n,
{
    if n < 10 {
        seq![spec_digit(n as int)]
    } else {
        spec_decimal(n / 10) + seq![spec_digit((n % 10) as int)]
    }
}

/// The character for one decimal digit.
pub open spec fn spec_digit(d: int) -> char
    recommends
        0 <= d < 10,
{
    ((48 + d) as u8) as char
}

/// Appends the decimal digits of `n`.
fn push_decimal(n: u64, out: &mut String)
    ensures
        final(out)@ == old(out)@ + spec_decimal(n as nat),
    decreases n,
{
    if n >= 10 {
        proof {
            assert(n / 10 < n) by (nonlinear_arith)
                requires
                    n >= 10,
            ;
        }
        push_decimal(n / 10, out);
    }
    let d: u8 = 48 + (n % 10) as u8;
    push_char(out, d as char);
    proof {
        if n < 10 {
            assert(n % 10 == n);
        }
        assert(old(out)@ + spec_decimal(n as nat) =~= out@);
    }
}

/// The wire form of a connection identifier: its decimal digits.
pub fn id_string(id: u64) -> (r: String)
    ensures
        r@ == spec_decimal(id as nat),
{
    let mut out = String::new();
    push_decimal(id, &mut out);
    proof {
        assert(Seq::<char>::empty() + spec_decimal(id as nat) =~= spec_decimal(id as nat));
    }
    out
}

impl Session {
    /// The identifier assigned at registration.
    pub closed spec fn spec_id(&self) -> u64 {
        self.id
    }

    /// The current lifecycle phase.
    pub closed spec fn spec_phase(&self) -> SessionPhase {
        self.phase
    }

    /// The identifier, for building frames and delivery plans.
    pub fn id(&self) -> (r: u64)
        ensures
            r == self.spec_id(),
    {
        self.id
    }

    /// The current phase.
    pub fn phase(&self) -> (r: SessionPhase)
        ensures
            r == self.spec_phase(),
    {
        self.phase
    }

    /// A session for a connection whose transport handshake just
    /// completed.
    pub fn begin() -> (s: Session)
        ensures
            s.spec_phase() == SessionPhase::Connecting,
    {
        Session { id: 0, phase: SessionPhase::Connecting }
    }

    /// `Connecting → Registered`: mints a fresh identifier and registers
    /// the connection's sink under it, so no live connection shares it.
    /// Failure — possible only when the largest identifier is itself
    /// live — is fatal to this connection alone: the session is `Closed`
    /// before any input is read, and the registry is untouched.
    pub fn register<S>(&mut self, reg: &mut Registry<S>, sink: S) -> (ok: bool)
        requires
            old(self).spec_phase() == SessionPhase::Connecting,
        ensures
            ok ==> final(self).spec_phase() == SessionPhase::Registered && !old(
                reg,
            )@.dom().contains(final(self).spec_id()) && final(reg)@ == old(reg)@.insert(
                final(self).spec_id(),
                sink,
            ),
            !ok ==> final(self).spec_phase() == SessionPhase::Closed && *final(reg) == *old(reg)
                && old(reg)@.dom().contains(u64::MAX),
    {
        match reg.mint_id() {
            None => {
                self.phase = SessionPhase::Closed;
                false
            },
            Some(id) => {
                let inserted = reg.register(id, sink);
                proof {
                    assert(inserted);
                }
                self.id = id;
                self.phase = SessionPhase::Registered;
                true
            },
        }
    }

    /// `Registered → Active`: the greeting and join announcement are out;
    /// the read loop begins.
    pub fn activate(&mut self)
        requires
            old(self).spec_phase() == SessionPhase::Registered,
        ensures
            final(self).spec_phase() == SessionPhase::Active,
            final(self).spec_id() == old(self).spec_id(),
    {
        self.phase = SessionPhase::Active;
    }

    /// One inbound frame while active: dispatches it and takes the
    /// transition it asks for. A chat relay or a tolerated frame keeps the
    /// session active; an exit request or a malformed frame stops the
    /// reading, moving to `Closing`.
    pub fn on_frame(&mut self, frame: &str) -> (a: IncomingAction)
        requires
            old(self).spec_phase() == SessionPhase::Active,
        ensures
            final(self).spec_id() == old(self).spec_id(),
            match spec_parse_message(frame@) {
                None => a is Disconnect,
                Some(m) => {
                    if m.message_type == spec_tag(MessageType::Chat) && m.text is Some {
                        a matches IncomingAction::Relay { text } && text@ == m.text.unwrap()
                    } else if m.message_type == spec_tag(MessageType::UserExit) {
                        a is Exit
                    } else {
                        a is Ignore
                    }
                },
            },
            match a {
                IncomingAction::Relay { .. } => final(self).spec_phase() == SessionPhase::Active,
                IncomingAction::Ignore => final(self).spec_phase() == SessionPhase::Active,
                IncomingAction::Exit => final(self).spec_phase() == SessionPhase::Closing,
                IncomingAction::Disconnect => final(self).spec_phase() == SessionPhase::Closing,
            },
    {
        let a = handle_incoming_message(frame);
        match &a {
            IncomingAction::Exit => {
                self.phase = SessionPhase::Closing;
            },
            IncomingAction::Disconnect => {
                self.phase = SessionPhase::Closing;
            },
            _ => {},
        }
        a
    }

    /// `Active → Closing` from the transport side: the peer sent a close
    /// frame, or the stream ended or failed. An event, not an error: the
    /// session proceeds to cleanup.
    pub fn on_transport_close(&mut self)
        requires
            old(self).spec_phase() == SessionPhase::Active,
        ensures
            final(self).spec_phase() == SessionPhase::Closing,
            final(self).spec_id() == old(self).spec_id(),
    {
        self.phase = SessionPhase::Closing;
    }

    /// `Closing → Closed`: deregisters unconditionally — idempotently, so
    /// a racing cleanup path finds the registry unchanged — and hands the
    /// sink back for closing. The leave announcement follows from the
    /// caller, planned against the registry that no longer holds this
    /// session.
    pub fn finish<S>(&mut self, reg: &mut Registry<S>) -> (sink: Option<S>)
        requires
            old(self).spec_phase() == SessionPhase::Closing,
        ensures
            final(self).spec_phase() == SessionPhase::Closed,
            final(self).spec_id() == old(self).spec_id(),
            final(reg)@ == old(reg)@.remove(old(self).spec_id()),
            match sink {
                Some(s) => old(reg)@.dom().contains(old(self).spec_id()) && s == old(reg)@[old(
                    self,
                ).spec_id()],
                None => !old(reg)@.dom().contains(old(self).spec_id()) && *final(reg) == *old(
                    reg,
                ),
            },
    {
        let sink = reg.deregister(self.id);
        self.phase = SessionPhase::Closed;
        sink
    }
}

} // verus!
