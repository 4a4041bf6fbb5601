//! Per-connection negotiation state.
//!
//! `Init → VersionExchanged → LocalKexSent → AwaitingRemoteKex →
//! RemoteKexReceived → AlgorithmsNegotiated`, with `Aborted` the terminal
//! failure state. Transitions are driven only by the version exchange
//! completing, the local KEXINIT being sent, and a parsed remote KEXINIT
//! arriving. Each session is exclusively owned by its connection's task;
//! nothing is shared across connections.

use vstd::prelude::*;

use crate::errors::NegotiationError;
use crate::kexinit::KexInitMessage;
use crate::negotiate;
use crate::negotiate::NegotiatedAlgorithms;

verus! {

#[derive(Clone, Copy, PartialEq, Eq, Structural, Debug)]
pub enum NegotiationState {
    Init,
    VersionExchanged,
    LocalKexSent,
    AwaitingRemoteKex,
    RemoteKexReceived,
    AlgorithmsNegotiated,
    Aborted,
}

/// Per-connection state: the local and remote KEXINIT, each set at most
/// once, and the negotiated set, created only after both are present.
pub struct ConnectionSession {
    pub state: NegotiationState,
    pub local_kexinit: Option<KexInitMessage>,
    pub remote_kexinit: Option<KexInitMessage>,
    pub negotiated: Option<NegotiatedAlgorithms>,
    pub abort_reason: Option<NegotiationError>,
}

impl ConnectionSession {
    /// What holds of a session in every state: each field is set exactly
    /// from the state it is first available in onward.
    pub open spec fn wf(self) -> bool {
        &&& (self.local_kexinit is Some <==> !(self.state == NegotiationState::Init || self.state
            == NegotiationState::VersionExchanged))
        &&& (self.remote_kexinit is Some <==> (self.state
            == NegotiationState::RemoteKexReceived || self.state
            == NegotiationState::AlgorithmsNegotiated || self.state == NegotiationState::Aborted))
        &&& (self.negotiated is Some <==> self.state == NegotiationState::AlgorithmsNegotiated)
        &&& (self.abort_reason is Some <==> self.state == NegotiationState::Aborted)
        &&& (self.state == NegotiationState::AlgorithmsNegotiated ==> negotiate::negotiated_ok(
            self.negotiated.unwrap(),
            self.local_kexinit.unwrap()@,
            self.remote_kexinit.unwrap()@,
        ))
    }

    /// A fresh session for one accepted connection.
    pub fn new() -> (s: Self)
        ensures
            s.wf(),
            s.state == NegotiationState::Init,
    {
        ConnectionSession {
            state: NegotiationState::Init,
            local_kexinit: None,
            remote_kexinit: None,
            negotiated: None,
            abort_reason: None,
        }
    }

    /// The identification lines have been exchanged.
    pub fn version_exchanged(&mut self)
        requires
            old(self).wf(),
            old(self).state == NegotiationState::Init,
        ensures
            final(self).wf(),
            final(self).state == NegotiationState::VersionExchanged,
    {
        self.state = NegotiationState::VersionExchanged;
    }

    /// The local KEXINIT has been framed and sent; the session keeps it.
    pub fn local_kex_sent(&mut self, local: KexInitMessage)
        requires
            old(self).wf(),
            old(self).state == NegotiationState::VersionExchanged,
        ensures
            final(self).wf(),
            final(self).state == NegotiationState::LocalKexSent,
            final(self).local_kexinit == Some(local),
    {
        self.local_kexinit = Some(local);
        self.state = NegotiationState::LocalKexSent;
    }

    /// The read loop for the peer's KEXINIT begins.
    pub fn awaiting_remote_kex(&mut self)
        requires
            old(self).wf(),
            old(self).state == NegotiationState::LocalKexSent,
        ensures
            final(self).wf(),
            final(self).state == NegotiationState::AwaitingRemoteKex,
            final(self).local_kexinit == old(self).local_kexinit,
    {
        self.state = NegotiationState::AwaitingRemoteKex;
    }

    /// A parsed remote KEXINIT arrived: negotiation runs at once. On success
    /// the session reaches `AlgorithmsNegotiated` and holds the negotiated
    /// set; a mandatory-category miss aborts the session, which then never
    /// reaches `AlgorithmsNegotiated`.
    pub fn remote_kex_received(&mut self, remote: KexInitMessage) -> (r: Result<
        (),
        NegotiationError,
    >)
        requires
            old(self).wf(),
            old(self).state == NegotiationState::AwaitingRemoteKex,
        ensures
            final(self).wf(),
            final(self).local_kexinit == old(self).local_kexinit,
            final(self).remote_kexinit == Some(remote),
            match r {
                Ok(()) => {
                    &&& final(self).state == NegotiationState::AlgorithmsNegotiated
                    &&& final(self).negotiated is Some
                    &&& negotiate::spec_first_failure(
                        old(self).local_kexinit.unwrap()@,
                        remote@,
                    ) is None
                    &&& negotiate::negotiated_ok(
                        final(self).negotiated.unwrap(),
                        old(self).local_kexinit.unwrap()@,
                        remote@,
                    )
                },
                Err(e) => {
                    &&& final(self).state == NegotiationState::Aborted
                    &&& final(self).negotiated is None
                    &&& negotiate::spec_first_failure(old(self).local_kexinit.unwrap()@, remote@)
                        == Some(e.category)
                    &&& final(self).abort_reason == Some(e)
                },
            },
    {
        let local = self.local_kexinit.as_ref().unwrap();
        let outcome = negotiate::negotiate(local, &remote);
        self.remote_kexinit = Some(remote);
        self.state = NegotiationState::RemoteKexReceived;
        match outcome {
            Ok(n) => {
                self.negotiated = Some(n);
                self.state = NegotiationState::AlgorithmsNegotiated;
                Ok(())
            },
            Err(e) => {
                self.abort_reason = Some(e);
                self.state = NegotiationState::Aborted;
                Err(e)
            },
        }
    }
}

} // verus!
