//! The reference server: a no-op stub.
//!
//! A minimal server implementation of the protocol. It speaks protocol
//! version zero, honors no client extensions, renders nothing, and
//! answers every call with success. It exists so the client side of the
//! protocol can be driven end to end without a real renderer.

use vstd::prelude::*;
use crate::handshake::{best_common, negotiate, IncomingMetadata, InitResult};
use crate::lifecycle::RawReply;
use crate::state::State;

verus! {

/// The one protocol version the stub speaks.
pub const STUB_VERSION: u64 = 0;

/// The handshake of the stub: negotiates against the single version it
/// speaks, with no server extensions and no honored client extensions.
/// With a client that supports version zero the result is ready: version
/// and handle present, no error; otherwise it is unusable.
pub fn expr_init(meta: &IncomingMetadata) -> (r: InitResult)
    ensures
        r.server_version == best_common(meta.supported_versions@, seq![STUB_VERSION]),
        meta.supported_versions@.contains(STUB_VERSION) ==> {
            &&& r.server_version == Some(STUB_VERSION)
            &&& r.server_state is Some
            &&& r.error is None
            &&& r.accepted_extensions@.len() == 0
            &&& r.server_extensions@.len() == 0
        },
        !meta.supported_versions@.contains(STUB_VERSION) ==> {
            &&& r.server_version is None
            &&& r.server_state is None
            &&& r.error is Some
        },
{
    let mut versions: Vec<u64> = Vec::new();
    versions.push(STUB_VERSION);
    assert(versions@ =~= seq![STUB_VERSION]);
    let none: Vec<Vec<u8>> = Vec::new();
    let honored: Vec<Vec<u8>> = Vec::new();
    let r = negotiate(&versions, &none, &honored, 1, meta);
    proof {
        assert(honored.deep_view() =~= Seq::<Seq<u8>>::empty());
        lemma_nothing_honored(meta.enabled_extensions.deep_view());
        assert(none.deep_view().len() == 0);
        let server = seq![STUB_VERSION];
        assert(server[0] == STUB_VERSION);
        crate::handshake::lemma_best_common(meta.supported_versions@, server);
        match best_common(meta.supported_versions@, server) {
            Option::Some(v) => {
                assert(server.contains(v));
                let i = choose|i: int| 0 <= i < server.len() && server[i] == v;
                assert(v == STUB_VERSION);
                assert(meta.supported_versions@.contains(v));
            },
            Option::None => {
                if meta.supported_versions@.contains(STUB_VERSION) {
                    assert(server.contains(STUB_VERSION));
                    assert(false);
                }
            },
        }
    }
    r
}

/// Against an empty honored list nothing is accepted.
proof fn lemma_nothing_honored(enabled: Seq<Seq<u8>>)
    ensures
        crate::handshake::accepted_extensions_of(enabled, Seq::empty()).len() == 0,
    decreases enabled.len(),
{
    if enabled.len() > 0 {
        lemma_nothing_honored(enabled.drop_last());
    }
}

/// The stub's disconnect: it has nothing to tear down and reports no
/// error.
pub fn expr_disconnect(state_token: u64) -> (r: Option<Vec<u8>>)
    ensures
        r is None,
{
    let _ = state_token;
    None
}

/// The stub's reconnect: it kept no state worth re-establishing, so it
/// never demands a new handshake and reports no error.
pub fn expr_reconnect(state_token: u64) -> (r: RawReply)
    ensures
        r is Null,
{
    let _ = state_token;
    RawReply::Null
}

/// The stub's state push: it renders nothing, accepts every snapshot,
/// and reports no error.
pub fn expr_push_state(state_token: u64, game_state: &State) -> (r: Option<Vec<u8>>)
    ensures
        r is None,
{
    let _ = state_token;
    let _ = game_state;
    None
}

/// The stub accepts a frame-callback registration and, rendering
/// nothing, will never invoke it; the registration itself succeeds.
pub fn expr_frame_callback(state_token: u64) -> (r: Option<Vec<u8>>)
    ensures
        r is None,
{
    let _ = state_token;
    None
}

/// The stub accepts a user-callback registration and, reading no input,
/// will never invoke it; the registration itself succeeds.
pub fn expr_user_callback(state_token: u64) -> (r: Option<Vec<u8>>)
    ensures
        r is None,
{
    let _ = state_token;
    None
}

} // verus!
