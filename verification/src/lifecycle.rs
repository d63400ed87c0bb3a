//! The loader lifecycle and the sentinel conventions.
//!
//! The client drives the loaded module through the phases
//! `Unloaded -> Loaded -> Negotiated -> {Active <-> Suspended} -> Disconnected`.
//! Loading fails hard only when the required state-push entry point is
//! missing; every optional entry point that is absent turns its call into
//! a silent no-op. Boundary calls answer by sentinel: an absent or empty
//! message is success, a non-empty message is a recoverable error, and
//! reconnect alone may answer with a distinguished negative sentinel that
//! orders the client back to the handshake.

use vstd::prelude::*;
use crate::handshake::{InitDisposition, InitResult, ServerHandle};

verus! {

/// Which entry points the loaded module exposes. The state push is
/// required: a module without it does not load. All others are optional.
#[derive(Clone, Copy, PartialEq, Eq, Structural, Debug)]
pub struct EntryPoints {
    pub push_state: bool,
    pub init: bool,
    pub disconnect: bool,
    pub reconnect: bool,
    pub frame_callback: bool,
    pub user_callback: bool,
    pub attribute_resolver: bool,
}

/// Where the client stands in driving the server module.
#[derive(Clone, Copy, PartialEq, Eq, Structural, Debug)]
pub enum Phase {
    Unloaded,
    Loaded,
    Negotiated,
    Active,
    Suspended,
    Disconnected,
}

/// The raw answer of a boundary call that returns an optional message:
/// nothing at all, a message, or the distinguished negative sentinel that
/// only reconnect may use.
#[derive(Debug)]
pub enum RawReply {
    Null,
    Text(Vec<u8>),
    Negative,
}

/// The reply signals success: absent, or an empty message.
pub open spec fn reply_means_success(r: &RawReply) -> bool {
    match r {
        RawReply::Null => true,
        RawReply::Text(m) => m@.len() == 0,
        RawReply::Negative => false,
    }
}

/// The reply signals a recoverable error: a non-empty message.
pub open spec fn reply_means_error(r: &RawReply) -> bool {
    r matches RawReply::Text(m) && m@.len() > 0
}

/// The reply is the re-init order: the negative sentinel.
pub open spec fn reply_means_reinit(r: &RawReply) -> bool {
    r is Negative
}

/// The three reply meanings are mutually distinguishable: every raw reply
/// carries exactly one of them, so no caller can confuse success, error,
/// and the re-init order.
pub proof fn lemma_reply_meanings_distinct(r: &RawReply)
    ensures
        reply_means_success(r) || reply_means_error(r) || reply_means_reinit(r),
        !(reply_means_success(r) && reply_means_error(r)),
        !(reply_means_success(r) && reply_means_reinit(r)),
        !(reply_means_error(r) && reply_means_reinit(r)),
{
}

/// The outcome of a reconnect call, one per reply meaning.
#[derive(Debug)]
pub enum ReconnectOutcome {
    /// The server resumes where it stopped.
    Resumed,
    /// The server answered a recoverable error.
    Failed(Vec<u8>),
    /// The handshake must be redone before the handle is used again.
    ReinitRequired,
}

/// The outcome a raw reconnect reply denotes.
pub open spec fn spec_reconnect_outcome(raw: RawReply) -> ReconnectOutcome {
    match raw {
        RawReply::Null => ReconnectOutcome::Resumed,
        RawReply::Text(m) => if m@.len() == 0 {
            ReconnectOutcome::Resumed
        } else {
            ReconnectOutcome::Failed(m)
        },
        RawReply::Negative => ReconnectOutcome::ReinitRequired,
    }
}

/// Reads a reconnect reply: success resumes, a message fails, the
/// negative sentinel orders a new handshake.
pub fn interpret_reconnect_reply(raw: RawReply) -> (o: ReconnectOutcome)
    ensures
        o == spec_reconnect_outcome(raw),
        o is Resumed <==> reply_means_success(&raw),
        o is Failed <==> reply_means_error(&raw),
        o is ReinitRequired <==> reply_means_reinit(&raw),
{
    match raw {
        RawReply::Null => ReconnectOutcome::Resumed,
        RawReply::Text(m) => if m.len() == 0 {
            ReconnectOutcome::Resumed
        } else {
            ReconnectOutcome::Failed(m)
        },
        RawReply::Negative => ReconnectOutcome::ReinitRequired,
    }
}

/// The message a plain optional-message reply carries: `None` for
/// success, which an absent or empty message both signal.
pub open spec fn spec_message_of(reply: Option<Vec<u8>>) -> Option<Vec<u8>> {
    match reply {
        Option::None => None,
        Option::Some(m) => if m@.len() == 0 {
            None
        } else {
            Some(m)
        },
    }
}

/// Normalizes an optional-message reply: an absent or empty message is
/// success, anything else is the error message.
pub fn normalize_reply(reply: Option<Vec<u8>>) -> (r: Option<Vec<u8>>)
    ensures
        r == spec_message_of(reply),
{
    match reply {
        Option::None => None,
        Option::Some(m) => if m.len() == 0 {
            None
        } else {
            Some(m)
        },
    }
}

/// What the one-time handshake established: the negotiated version, the
/// opaque handle, and the two extension lists.
pub struct Session {
    pub version: u64,
    pub handle: ServerHandle,
    pub server_extensions: Vec<Vec<u8>>,
    pub accepted_extensions: Vec<Vec<u8>>,
}

/// The explicit client-side context: which phase the module is in, which
/// entry points it exposes, and what the handshake established. One
/// context stands for one loaded module; nothing is process-global.
pub struct ClientContext {
    phase: Phase,
    entries: Option<EntryPoints>,
    session: Option<Session>,
}

impl ClientContext {
    /// Entry points are known from loading onward; a session exists
    /// exactly between a usable handshake and the next teardown; a loaded
    /// module always has the required state push.
    #[verifier::type_invariant]
    spec fn inv(&self) -> bool {
        match self.phase {
            Phase::Unloaded => self.entries is None && self.session is None,
            Phase::Loaded => (self.entries matches Some(e) && e.push_state)
                && self.session is None,
            Phase::Negotiated | Phase::Active | Phase::Suspended => (self.entries matches Some(e)
                && e.push_state) && self.session is Some,
            Phase::Disconnected => self.session is None,
        }
    }

    pub closed spec fn spec_phase(&self) -> Phase {
        self.phase
    }

    pub closed spec fn spec_entries(&self) -> Option<EntryPoints> {
        self.entries
    }

    pub closed spec fn spec_session(&self) -> Option<Session> {
        self.session
    }

    /// A fresh context: nothing loaded yet.
    pub fn new() -> (r: Self)
        ensures
            r.spec_phase() == Phase::Unloaded,
    {
        ClientContext { phase: Phase::Unloaded, entries: None, session: None }
    }

    /// The current phase.
    pub fn phase(&self) -> (p: Phase)
        ensures
            p == self.spec_phase(),
    {
        self.phase
    }

    /// The entry points of the loaded module, if one is loaded.
    pub fn entry_points(&self) -> (e: Option<EntryPoints>)
        ensures
            e == self.spec_entries(),
    {
        self.entries
    }

    /// The negotiated version, once a session exists.
    pub fn negotiated_version(&self) -> (v: Option<u64>)
        ensures
            match self.spec_session() {
                Some(s) => v == Some(s.version),
                None => v is None,
            },
    {
        match &self.session {
            Option::Some(s) => Some(s.version),
            Option::None => None,
        }
    }

    /// The token of the session handle, for passing back across the
    /// boundary.
    pub fn handle_token(&self) -> (t: Option<u64>)
        ensures
            match self.spec_session() {
                Some(s) => t == Some(s.handle.spec_token()),
                None => t is None,
            },
    {
        match &self.session {
            Option::Some(s) => Some(s.handle.token()),
            Option::None => None,
        }
    }

    /// Records the loaded module's entry points. Loading succeeds exactly
    /// when the required state push resolved; without it the module stays
    /// unusable and the context unloaded.
    pub fn on_module_loaded(&mut self, entries: EntryPoints) -> (ok: bool)
        requires
            old(self).spec_phase() == Phase::Unloaded,
        ensures
            ok == entries.push_state,
            ok ==> final(self).spec_phase() == Phase::Loaded && final(self).spec_entries()
                == Some(entries),
            !ok ==> final(self).spec_phase() == Phase::Unloaded,
    {
        if entries.push_state {
            *self = ClientContext { phase: Phase::Loaded, entries: Some(entries), session: None };
            true
        } else {
            false
        }
    }

    /// Takes the handshake's answer. An unusable result (version or
    /// handle missing) leaves the context loaded and sessionless: the
    /// caller must not proceed with this server. A ready or degraded
    /// result establishes the session and the context is negotiated.
    pub fn on_handshake_result(&mut self, result: InitResult) -> (d: InitDisposition)
        requires
            old(self).spec_phase() == Phase::Loaded,
        ensures
            d == result.spec_disposition(),
            final(self).spec_entries() == old(self).spec_entries(),
            d == InitDisposition::Unusable ==> final(self).spec_phase() == Phase::Loaded
                && final(self).spec_session() is None,
            d != InitDisposition::Unusable ==> final(self).spec_phase() == Phase::Negotiated
                && (final(self).spec_session() matches Some(s)
                && result.server_version == Some(s.version)
                && (result.server_state matches Some(h) && h == s.handle)
                && s.server_extensions == result.server_extensions
                && s.accepted_extensions == result.accepted_extensions),
    {
        proof {
            use_type_invariant(&*self);
        }
        let d = result.disposition();
        if let InitDisposition::Unusable = d {
            return d;
        }
        let InitResult { server_version, server_state, server_extensions, accepted_extensions, error: _ } = result;
        match (server_version, server_state) {
            (Option::Some(version), Option::Some(handle)) => {
                let mut tmp = ClientContext { phase: Phase::Unloaded, entries: None, session: None };
                core::mem::swap(&mut tmp, self);
                *self = ClientContext {
                    phase: Phase::Negotiated,
                    entries: tmp.entries,
                    session: Some(Session {
                        version,
                        handle,
                        server_extensions,
                        accepted_extensions,
                    }),
                };
                d
            },
            _ => {
                // Unreachable: a non-unusable disposition carries both.
                proof {
                    assert(false);
                }
                d
            },
        }
    }

    /// Marks the negotiated session active: frame exchange may begin.
    pub fn activate(&mut self)
        requires
            old(self).spec_phase() == Phase::Negotiated,
        ensures
            final(self).spec_phase() == Phase::Active,
            final(self).spec_entries() == old(self).spec_entries(),
            final(self).spec_session() == old(self).spec_session(),
    {
        proof {
            use_type_invariant(&*self);
        }
        self.phase = Phase::Active;
    }

    /// Whether a state push may be issued now.
    pub fn can_push(&self) -> (r: bool)
        ensures
            r == (self.spec_phase() == Phase::Active),
    {
        match self.phase {
            Phase::Active => true,
            _ => false,
        }
    }

    /// Whether the disconnect entry point should be invoked for the
    /// pending suspension. A module without it is disconnected silently:
    /// the call becomes a no-op, never an error.
    pub fn request_disconnect(&self) -> (invoke: bool)
        requires
            self.spec_phase() == Phase::Active,
        ensures
            invoke == (self.spec_entries() matches Some(e) && e.disconnect),
    {
        proof {
            use_type_invariant(self);
        }
        match &self.entries {
            Option::Some(e) => e.disconnect,
            Option::None => false,
        }
    }

    /// Finishes a suspension. `reply` is what the disconnect entry point
    /// answered, or `None` when it was absent and skipped; an absent or
    /// empty message is success. Either way the session survives and the
    /// context is suspended.
    pub fn complete_disconnect(&mut self, reply: Option<Vec<u8>>) -> (err: Option<Vec<u8>>)
        requires
            old(self).spec_phase() == Phase::Active,
        ensures
            err == spec_message_of(reply),
            final(self).spec_phase() == Phase::Suspended,
            final(self).spec_entries() == old(self).spec_entries(),
            final(self).spec_session() == old(self).spec_session(),
    {
        proof {
            use_type_invariant(&*self);
        }
        self.phase = Phase::Suspended;
        normalize_reply(reply)
    }

    /// Whether the reconnect entry point should be invoked for the
    /// pending resumption. A module without it resumes silently.
    pub fn request_reconnect(&self) -> (invoke: bool)
        requires
            self.spec_phase() == Phase::Suspended,
        ensures
            invoke == (self.spec_entries() matches Some(e) && e.reconnect),
    {
        proof {
            use_type_invariant(self);
        }
        match &self.entries {
            Option::Some(e) => e.reconnect,
            Option::None => false,
        }
    }

    /// Finishes a resumption. `raw` is what the reconnect entry point
    /// answered, or `RawReply::Null` when it was absent and skipped.
    /// Success resumes the session; an error message leaves the context
    /// suspended for the caller to retry or give up; the negative
    /// sentinel discards the session and sends the caller back to the
    /// handshake.
    pub fn complete_reconnect(&mut self, raw: RawReply) -> (o: ReconnectOutcome)
        requires
            old(self).spec_phase() == Phase::Suspended,
        ensures
            o == spec_reconnect_outcome(raw),
            final(self).spec_entries() == old(self).spec_entries(),
            o is Resumed ==> final(self).spec_phase() == Phase::Active
                && final(self).spec_session() == old(self).spec_session(),
            o is Failed ==> final(self).spec_phase() == Phase::Suspended
                && final(self).spec_session() == old(self).spec_session(),
            o is ReinitRequired ==> final(self).spec_phase() == Phase::Loaded
                && final(self).spec_session() is None,
    {
        proof {
            use_type_invariant(&*self);
        }
        let o = interpret_reconnect_reply(raw);
        match &o {
            ReconnectOutcome::Resumed => {
                self.phase = Phase::Active;
            },
            ReconnectOutcome::Failed(_) => {},
            ReconnectOutcome::ReinitRequired => {
                let mut tmp = ClientContext { phase: Phase::Unloaded, entries: None, session: None };
                core::mem::swap(&mut tmp, self);
                *self = ClientContext { phase: Phase::Loaded, entries: tmp.entries, session: None };
            },
        }
        o
    }

    /// Tears the session down for good: the handle is discarded and the
    /// context is disconnected.
    pub fn shut_down(&mut self)
        requires
            old(self).spec_phase() == Phase::Active || old(self).spec_phase() == Phase::Suspended,
        ensures
            final(self).spec_phase() == Phase::Disconnected,
            final(self).spec_entries() == old(self).spec_entries(),
            final(self).spec_session() is None,
    {
        proof {
            use_type_invariant(&*self);
        }
        let mut tmp = ClientContext { phase: Phase::Unloaded, entries: None, session: None };
        core::mem::swap(&mut tmp, self);
        *self = ClientContext { phase: Phase::Disconnected, entries: tmp.entries, session: None };
    }
}

} // verus!
