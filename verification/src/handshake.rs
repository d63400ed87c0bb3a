//! The versioned handshake.
//!
//! Before any frame data flows, the client sends the server its protocol
//! version, the server versions it can drive, and the extensions it
//! supports and has enabled. The server answers with the highest mutually
//! supported version, the subset of the enabled extensions it honors, its
//! own additive extensions, and an opaque state handle that every later
//! call carries back. A missing version or handle marks the result
//! unusable; an error message beside both marks it degraded but usable.

use vstd::prelude::*;
use crate::attr::{bytes_eq, copy_bytes};

verus! {

/// The opaque per-server state handle. The server alone gives the token
/// meaning; the client's only rights are to pass the handle back unchanged
/// and to discard it after disconnecting. The type is move-only so a
/// discarded handle cannot quietly survive.
pub struct ServerHandle {
    token: u64,
}

impl ServerHandle {
    /// The token as the server set it.
    pub closed spec fn spec_token(&self) -> u64 {
        self.token
    }

    /// Allocates a handle around a server-chosen token.
    pub fn fresh(token: u64) -> (r: Self)
        ensures
            r.spec_token() == token,
    {
        ServerHandle { token }
    }

    /// The token, for passing back across the boundary.
    pub fn token(&self) -> (t: u64)
        ensures
            t == self.spec_token(),
    {
        self.token
    }
}

/// What the client sends into the handshake: its own version, the server
/// versions it supports, the extensions it supports, the subset of those
/// it has enabled, and one metadata blob per enabled extension.
pub struct IncomingMetadata {
    pub client_version: u64,
    pub supported_versions: Vec<u64>,
    pub supported_extensions: Vec<Vec<u8>>,
    pub enabled_extensions: Vec<Vec<u8>>,
    pub extension_metadata: Vec<Vec<u8>>,
}

impl IncomingMetadata {
    /// Well-formed: every enabled extension also appears among the
    /// supported ones, and the metadata runs parallel to the enabled list.
    pub open spec fn wf(&self) -> bool {
        &&& self.extension_metadata@.len() == self.enabled_extensions@.len()
        &&& forall|i: int|
            0 <= i < self.enabled_extensions@.len()
                ==> self.supported_extensions.deep_view().contains(
                    #[trigger] self.enabled_extensions.deep_view()[i],
                )
    }

    /// Checks well-formedness, so a caller can refuse a malformed
    /// handshake before crossing the boundary.
    pub fn validate(&self) -> (ok: bool)
        ensures
            ok == self.wf(),
    {
        if self.extension_metadata.len() != self.enabled_extensions.len() {
            return false;
        }
        let mut i: usize = 0;
        while i < self.enabled_extensions.len()
            invariant
                i <= self.enabled_extensions.len(),
                forall|j: int|
                    0 <= j < i ==> self.supported_extensions.deep_view().contains(
                        #[trigger] self.enabled_extensions.deep_view()[j],
                    ),
            decreases self.enabled_extensions.len() - i,
        {
            let present = contains_bytes(&self.supported_extensions, &self.enabled_extensions[i]);
            proof {
                crate::attr::lemma_deep_elems(&self.enabled_extensions);
            }
            if !present {
                proof {
                    assert(!self.supported_extensions.deep_view().contains(
                        self.enabled_extensions.deep_view()[i as int],
                    ));
                }
                return false;
            }
            i = i + 1;
        }
        true
    }
}

/// Whether `v` holds the byte string `x`.
pub(crate) fn contains_bytes(v: &Vec<Vec<u8>>, x: &Vec<u8>) -> (r: bool)
    ensures
        r == v.deep_view().contains(x@),
{
    let mut j: usize = 0;
    while j < v.len()
        invariant
            j <= v.len(),
            forall|k: int| 0 <= k < j ==> #[trigger] v.deep_view()[k] != x@,
        decreases v.len() - j,
    {
        let r = bytes_eq(&v[j], x);
        proof {
            crate::attr::lemma_deep_elems(v);
        }
        if r {
            assert(v.deep_view()[j as int] == x@);
            return true;
        }
        j = j + 1;
    }
    assert(!v.deep_view().contains(x@));
    false
}

/// Whether `v` holds the version `x`.
fn contains_version(v: &Vec<u64>, x: u64) -> (r: bool)
    ensures
        r == v@.contains(x),
{
    let mut j: usize = 0;
    while j < v.len()
        invariant
            j <= v.len(),
            forall|k: int| 0 <= k < j ==> v@[k] != x,
        decreases v.len() - j,
    {
        if v[j] == x {
            return true;
        }
        j = j + 1;
    }
    false
}

/// The highest version that both sides support, or `None` when the two
/// lists share nothing.
pub open spec fn best_common(client: Seq<u64>, server: Seq<u64>) -> Option<u64>
    decreases client.len(),
{
    if client.len() == 0 {
        None
    } else {
        let rest = best_common(client.drop_last(), server);
        let v = client.last();
        if server.contains(v) {
            match rest {
                Option::None => Some(v),
                Option::Some(w) => if v >= w {
                    Some(v)
                } else {
                    Some(w)
                },
            }
        } else {
            rest
        }
    }
}

/// `best_common` really is the highest mutually supported version: the
/// value it returns is supported by both sides and no larger mutually
/// supported version exists; it returns nothing only when the two sides
/// share no version at all.
pub proof fn lemma_best_common(client: Seq<u64>, server: Seq<u64>)
    ensures
        match best_common(client, server) {
            Option::Some(v) => client.contains(v) && server.contains(v) && forall|w: u64|
                client.contains(w) && #[trigger] server.contains(w) ==> w <= v,
            Option::None => forall|w: u64|
                !(client.contains(w) && #[trigger] server.contains(w)),
        },
    decreases client.len(),
{
    if client.len() > 0 {
        let prefix = client.drop_last();
        lemma_best_common(prefix, server);
        let last = client.last();
        assert forall|w: u64| client.contains(w) && #[trigger] server.contains(w) implies
            w == last || prefix.contains(w) by {
            if w != last {
                let i = choose|i: int| 0 <= i < client.len() && client[i] == w;
                assert(prefix[i] == w);
            }
        }
        assert forall|w: u64| prefix.contains(w) implies client.contains(w) by {
            let i = choose|i: int| 0 <= i < prefix.len() && prefix[i] == w;
            assert(client[i] == w);
        }
        if server.contains(last) {
            assert(client.contains(last)) by {
                assert(client[client.len() - 1] == last);
            }
        }
    }
}

/// The extensions the server accepts: the enabled extensions it honors,
/// in the order the client enabled them.
pub open spec fn accepted_extensions_of(
    enabled: Seq<Seq<u8>>,
    honored: Seq<Seq<u8>>,
) -> Seq<Seq<u8>>
    decreases enabled.len(),
{
    if enabled.len() == 0 {
        Seq::empty()
    } else {
        let rest = accepted_extensions_of(enabled.drop_last(), honored);
        if honored.contains(enabled.last()) {
            rest.push(enabled.last())
        } else {
            rest
        }
    }
}

/// The accepted extensions are a subset of what the client enabled, and
/// the server honors each of them.
pub proof fn lemma_accepted_subset(enabled: Seq<Seq<u8>>, honored: Seq<Seq<u8>>)
    ensures
        forall|i: int|
            0 <= i < accepted_extensions_of(enabled, honored).len()
                ==> enabled.contains(#[trigger] accepted_extensions_of(enabled, honored)[i])
                    && honored.contains(accepted_extensions_of(enabled, honored)[i]),
    decreases enabled.len(),
{
    if enabled.len() > 0 {
        let prefix = enabled.drop_last();
        lemma_accepted_subset(prefix, honored);
        let rest = accepted_extensions_of(prefix, honored);
        let acc = accepted_extensions_of(enabled, honored);
        assert forall|i: int| 0 <= i < acc.len() implies enabled.contains(#[trigger] acc[i])
            && honored.contains(acc[i]) by {
            if i < rest.len() {
                assert(acc[i] == rest[i]);
                assert(prefix.contains(rest[i]) && honored.contains(rest[i]));
                let j = choose|j: int| 0 <= j < prefix.len() && prefix[j] == rest[i];
                assert(enabled[j] == rest[i]);
            } else {
                assert(acc[i] == enabled.last());
                assert(enabled[enabled.len() - 1] == enabled.last());
            }
        }
    }
}

/// An owned copy of a list of byte strings.
pub(crate) fn copy_bytes_vec(src: &Vec<Vec<u8>>) -> (r: Vec<Vec<u8>>)
    ensures
        r.deep_view() == src.deep_view(),
{
    let mut r: Vec<Vec<u8>> = Vec::new();
    let mut i: usize = 0;
    while i < src.len()
        invariant
            i <= src.len(),
            r@.len() == i,
            forall|j: int| 0 <= j < i ==> #[trigger] r.deep_view()[j] == src.deep_view()[j],
        decreases src.len() - i,
    {
        let ghost prev = r.deep_view();
        r.push(copy_bytes(&src[i]));
        proof {
            crate::attr::lemma_deep_elems(&r);
            crate::attr::lemma_deep_elems(src);
            assert(forall|j: int| 0 <= j < i ==> #[trigger] r.deep_view()[j] == prev[j]);
        }
        i = i + 1;
    }
    assert(r.deep_view() =~= src.deep_view());
    r
}

/// What the handshake returns: the negotiated version, the opaque state
/// handle, the server's own extensions, the accepted client extensions,
/// and an optional error description.
pub struct InitResult {
    pub server_version: Option<u64>,
    pub server_state: Option<ServerHandle>,
    pub server_extensions: Vec<Vec<u8>>,
    pub accepted_extensions: Vec<Vec<u8>>,
    pub error: Option<Vec<u8>>,
}

/// How a handshake result may be used. A result without a version or
/// handle is unusable and the caller must not proceed; one with both but
/// an error beside them is degraded yet usable; one with both and no
/// error is fully ready.
#[derive(PartialEq, Eq, Structural, Debug, Clone, Copy)]
pub enum InitDisposition {
    Unusable,
    Degraded,
    Ready,
}

impl InitResult {
    /// The disposition the sentinel rules assign to this result.
    pub open spec fn spec_disposition(&self) -> InitDisposition {
        if self.server_version is None || self.server_state is None {
            InitDisposition::Unusable
        } else if self.error is Some {
            InitDisposition::Degraded
        } else {
            InitDisposition::Ready
        }
    }

    /// The client-side check on the server's answer: every accepted
    /// extension must be one the client declared enabled. A server that
    /// claims more is out of protocol.
    pub fn accepted_within(&self, meta: &IncomingMetadata) -> (ok: bool)
        ensures
            ok == forall|i: int|
                0 <= i < self.accepted_extensions.deep_view().len()
                    ==> meta.enabled_extensions.deep_view().contains(
                        #[trigger] self.accepted_extensions.deep_view()[i],
                    ),
    {
        let mut i: usize = 0;
        while i < self.accepted_extensions.len()
            invariant
                i <= self.accepted_extensions.len(),
                forall|j: int|
                    0 <= j < i ==> meta.enabled_extensions.deep_view().contains(
                        #[trigger] self.accepted_extensions.deep_view()[j],
                    ),
            decreases self.accepted_extensions.len() - i,
        {
            let listed = contains_bytes(&meta.enabled_extensions, &self.accepted_extensions[i]);
            proof {
                crate::attr::lemma_deep_elems(&self.accepted_extensions);
            }
            if !listed {
                proof {
                    assert(!meta.enabled_extensions.deep_view().contains(
                        self.accepted_extensions.deep_view()[i as int],
                    ));
                }
                return false;
            }
            i = i + 1;
        }
        true
    }

    /// Reads the disposition off the result.
    pub fn disposition(&self) -> (d: InitDisposition)
        ensures
            d == self.spec_disposition(),
    {
        match (&self.server_version, &self.server_state) {
            (Option::Some(_), Option::Some(_)) => match &self.error {
                Option::Some(_) => InitDisposition::Degraded,
                Option::None => InitDisposition::Ready,
            },
            _ => InitDisposition::Unusable,
        }
    }
}

/// The server side of the handshake: computes the highest mutually
/// supported version from the client's list, decides which enabled
/// extensions to honor, and allocates the opaque handle. When no version
/// is shared the result carries neither version nor handle, only an
/// error, and is therefore unusable; otherwise it carries both and no
/// error.
pub fn negotiate(
    server_versions: &Vec<u64>,
    server_extensions: &Vec<Vec<u8>>,
    honored_extensions: &Vec<Vec<u8>>,
    handle_token: u64,
    meta: &IncomingMetadata,
) -> (r: InitResult)
    ensures
        r.server_version == best_common(meta.supported_versions@, server_versions@),
        match best_common(meta.supported_versions@, server_versions@) {
            Option::Some(_) => {
                &&& r.server_state matches Some(h) && h.spec_token() == handle_token
                &&& r.error is None
                &&& r.accepted_extensions.deep_view() == accepted_extensions_of(
                    meta.enabled_extensions.deep_view(),
                    honored_extensions.deep_view(),
                )
                &&& r.server_extensions.deep_view() == server_extensions.deep_view()
            },
            Option::None => {
                &&& r.server_state is None
                &&& r.error is Some
                &&& r.accepted_extensions@.len() == 0
                &&& r.server_extensions@.len() == 0
            },
        },
{
    let version = highest_common_version(&meta.supported_versions, server_versions);
    match version {
        Option::Some(v) => {
            let accepted = accepted_extensions(&meta.enabled_extensions, honored_extensions);
            InitResult {
                server_version: Some(v),
                server_state: Some(ServerHandle::fresh(handle_token)),
                server_extensions: copy_bytes_vec(server_extensions),
                accepted_extensions: accepted,
                error: None,
            }
        },
        Option::None => {
            let message = no_version_message();
            InitResult {
                server_version: None,
                server_state: None,
                server_extensions: Vec::new(),
                accepted_extensions: Vec::new(),
                error: Some(message),
            }
        },
    }
}

/// The advisory text of the no-shared-version error: "no version".
fn no_version_message() -> (r: Vec<u8>)
    ensures
        r@.len() > 0,
{
    let mut message: Vec<u8> = Vec::new();
    message.push(110);
    message.push(111);
    message.push(32);
    message.push(118);
    message.push(101);
    message.push(114);
    message.push(115);
    message.push(105);
    message.push(111);
    message.push(110);
    message
}

/// The highest version both lists share.
fn highest_common_version(client: &Vec<u64>, server: &Vec<u64>) -> (r: Option<u64>)
    ensures
        r == best_common(client@, server@),
{
    let mut best: Option<u64> = None;
    let mut i: usize = 0;
    while i < client.len()
        invariant
            i <= client.len(),
            best == best_common(client@.take(i as int), server@),
        decreases client.len() - i,
    {
        let v = client[i];
        proof {
            assert(client@.take(i + 1).drop_last() =~= client@.take(i as int));
            assert(client@.take(i + 1).last() == client@[i as int]);
        }
        if contains_version(server, v) {
            best = match best {
                Option::None => Some(v),
                Option::Some(w) => if v >= w {
                    Some(v)
                } else {
                    Some(w)
                },
            };
        }
        i = i + 1;
    }
    proof {
        assert(client@.take(client@.len() as int) =~= client@);
    }
    best
}

/// The enabled extensions the server honors, kept in the client's order.
fn accepted_extensions(enabled: &Vec<Vec<u8>>, honored: &Vec<Vec<u8>>) -> (r: Vec<Vec<u8>>)
    ensures
        r.deep_view() == accepted_extensions_of(enabled.deep_view(), honored.deep_view()),
{
    let ghost edv = enabled.deep_view();
    let ghost hdv = honored.deep_view();
    let mut r: Vec<Vec<u8>> = Vec::new();
    let mut i: usize = 0;
    while i < enabled.len()
        invariant
            i <= enabled.len(),
            edv == enabled.deep_view(),
            hdv == honored.deep_view(),
            edv.len() == enabled.len(),
            r.deep_view() == accepted_extensions_of(edv.take(i as int), hdv),
        decreases enabled.len() - i,
    {
        proof {
            assert(edv.take(i + 1).drop_last() =~= edv.take(i as int));
            assert(edv.take(i + 1).last() == edv[i as int]);
        }
        let ghost before = r.deep_view();
        let honors = contains_bytes(honored, &enabled[i]);
        proof {
            crate::attr::lemma_deep_elems(enabled);
        }
        if honors {
            r.push(copy_bytes(&enabled[i]));
            proof {
                crate::attr::lemma_deep_elems(&r);
                assert(r.deep_view() =~= before.push(edv[i as int]));
            }
        }
        i = i + 1;
    }
    proof {
        assert(edv.take(edv.len() as int) =~= edv);
    }
    r
}

} // verus!
