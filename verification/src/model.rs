//! The mathematical model of the presence engine.
//!
//! A state holds the set of live connections, the registry mapping a
//! connection to the token it authenticated with, and the store mapping
//! a token to its presence record. The three step functions say what
//! connect, position update and disconnect do to a state; the invariant
//! ties the three parts together and is proved to hold after every
//! sequence of operations.

use vstd::prelude::*;

use crate::color::assigned_color;
use crate::presence::{Position, RecordView};

verus! {

/// The whole engine state, seen mathematically.
#[verifier::ext_equal]
pub struct StateView {
    /// Every live connection, authenticated or not.
    pub live: Set<u64>,
    /// The token each authenticated connection holds.
    pub registry: Map<u64, u128>,
    /// The presence record of each authenticated member.
    pub store: Map<u128, RecordView>,
}

/// The state before any connection has arrived.
pub open spec fn init() -> StateView {
    StateView { live: Set::empty(), registry: Map::empty(), store: Map::empty() }
}

/// The engine invariant.
///
/// Registered connections are live; each registered connection's token
/// has a record owned by exactly that connection; and each record's
/// owner is registered with exactly that record's token. Together these
/// say that records and registrations determine one another, and that
/// no connection or token appears twice.
pub open spec fn inv(s: StateView) -> bool {
    &&& s.live.finite()
    &&& forall|c: u64| #[trigger] s.registry.dom().contains(c) ==> s.live.contains(c)
    &&& forall|c: u64| #[trigger] s.registry.dom().contains(c) ==> s.store.dom().contains(
        s.registry[c],
    ) && s.store[s.registry[c]].id == c
    &&& forall|t: u128| #[trigger] s.store.dom().contains(t) ==> s.registry.dom().contains(
        s.store[t].id,
    ) && s.registry[s.store[t].id] == t
}

/// A record for token `t` exists exactly when some live connection is
/// registered under `t`.
pub proof fn lemma_presence_iff_registered(s: StateView, t: u128)
    requires
        inv(s),
    ensures
        s.store.dom().contains(t) <==> exists|c: u64|
            s.live.contains(c) && #[trigger] s.registry.dom().contains(c) && s.registry[c] == t,
{
    if s.store.dom().contains(t) {
        assert(s.registry.dom().contains(s.store[t].id) && s.registry[s.store[t].id] == t);
    }
}

/// No two registered connections hold the same token.
pub proof fn lemma_registry_injective(s: StateView, c1: u64, c2: u64)
    requires
        inv(s),
        s.registry.dom().contains(c1),
        s.registry.dom().contains(c2),
        s.registry[c1] == s.registry[c2],
    ensures
        c1 == c2,
{
    assert(s.store[s.registry[c1]].id == c1);
    assert(s.store[s.registry[c2]].id == c2);
}

/// What a connect event does to the state.
///
/// A connection that is already live is left alone (the transport
/// delivers one connect per connection and never reuses identifiers).
/// A new connection always becomes live. When it carries a token the
/// membership oracle vouched for, the prior holder of that token — the
/// owner of the token's record, if there is one — is evicted from the
/// registry (the documented duplicate-login policy: the last writer
/// wins, and the earlier connection stays live but orphaned), the new
/// connection is registered, and a fresh record with the color assigned
/// for `hue` and no position yet replaces any old one.
pub open spec fn connect_step(
    s: StateView,
    conn: u64,
    token: Option<u128>,
    ok: bool,
    hue: nat,
) -> StateView {
    if s.live.contains(conn) {
        s
    } else {
        match token {
            Some(t) if ok => {
                let evicted = if s.store.dom().contains(t) {
                    s.registry.remove(s.store[t].id)
                } else {
                    s.registry
                };
                StateView {
                    live: s.live.insert(conn),
                    registry: evicted.insert(conn, t),
                    store: s.store.insert(
                        t,
                        RecordView { id: conn, position: None, color: assigned_color(hue) },
                    ),
                }
            },
            _ => StateView { live: s.live.insert(conn), registry: s.registry, store: s.store },
        }
    }
}

/// What a position update does to the state.
///
/// The sender must be registered and its token must have a record; then
/// the record's position is overwritten, never merged, and its owner
/// and color stay as they are. Anything else is a silent no-op: an
/// unauthenticated or orphaned sender, or a record already gone.
pub open spec fn position_step(s: StateView, conn: u64, position: Position) -> StateView {
    if s.registry.dom().contains(conn) && s.store.dom().contains(s.registry[conn]) {
        let t = s.registry[conn];
        StateView {
            live: s.live,
            registry: s.registry,
            store: s.store.insert(
                t,
                RecordView { id: s.store[t].id, position: Some(position), color: s.store[t].color },
            ),
        }
    } else {
        s
    }
}

/// What a disconnect does to the state.
///
/// A connection that is not live is left alone, so a second disconnect
/// for the same connection changes nothing. Otherwise the connection
/// leaves the live set, and its registry entry and its token's record —
/// both or neither — are removed in the same step.
pub open spec fn disconnect_step(s: StateView, conn: u64) -> StateView {
    if !s.live.contains(conn) {
        s
    } else if s.registry.dom().contains(conn) {
        StateView {
            live: s.live.remove(conn),
            registry: s.registry.remove(conn),
            store: s.store.remove(s.registry[conn]),
        }
    } else {
        StateView { live: s.live.remove(conn), registry: s.registry, store: s.store }
    }
}

/// A connect preserves the invariant.
pub proof fn lemma_connect_preserves_inv(
    s: StateView,
    conn: u64,
    token: Option<u128>,
    ok: bool,
    hue: nat,
)
    requires
        inv(s),
    ensures
        inv(connect_step(s, conn, token, ok, hue)),
{
    let s2 = connect_step(s, conn, token, ok, hue);
    if !s.live.contains(conn) {
        match token {
            Some(t) if ok => {
                let evicted = if s.store.dom().contains(t) {
                    s.registry.remove(s.store[t].id)
                } else {
                    s.registry
                };
                assert forall|c: u64| #[trigger] s2.registry.dom().contains(c) implies s2.store.dom().contains(
                    s2.registry[c],
                ) && s2.store[s2.registry[c]].id == c by {
                    if c != conn {
                        assert(s.registry.dom().contains(c));
                        if s.registry[c] == t {
                            assert(s.store.dom().contains(t));
                            assert(s.store[t].id == c);
                            assert(!evicted.dom().contains(c));
                        }
                    }
                }
                assert forall|t2: u128| #[trigger] s2.store.dom().contains(t2) implies s2.registry.dom().contains(
                    s2.store[t2].id,
                ) && s2.registry[s2.store[t2].id] == t2 by {
                    if t2 != t {
                        let c2 = s.store[t2].id;
                        assert(s.registry.dom().contains(c2) && s.registry[c2] == t2);
                        assert(s.live.contains(c2));
                        assert(c2 != conn);
                        if s.store.dom().contains(t) && c2 == s.store[t].id {
                            assert(s.registry[c2] == t);
                        }
                    }
                }
            },
            _ => {},
        }
    }
}

/// A position update preserves the invariant.
pub proof fn lemma_position_preserves_inv(s: StateView, conn: u64, position: Position)
    requires
        inv(s),
    ensures
        inv(position_step(s, conn, position)),
{
}

/// A disconnect preserves the invariant.
pub proof fn lemma_disconnect_preserves_inv(s: StateView, conn: u64)
    requires
        inv(s),
    ensures
        inv(disconnect_step(s, conn)),
{
    let s2 = disconnect_step(s, conn);
    if s.live.contains(conn) && s.registry.dom().contains(conn) {
        let t = s.registry[conn];
        assert forall|c: u64| #[trigger] s2.registry.dom().contains(c) implies s2.store.dom().contains(
            s2.registry[c],
        ) && s2.store[s2.registry[c]].id == c by {
            if s.registry[c] == t {
                lemma_registry_injective(s, c, conn);
            }
        }
        assert forall|t2: u128| #[trigger] s2.store.dom().contains(t2) implies s2.registry.dom().contains(
            s2.store[t2].id,
        ) && s2.registry[s2.store[t2].id] == t2 by {
            assert(s.registry.dom().contains(s.store[t2].id));
            assert(s.registry[s.store[t2].id] == t2);
        }
    }
}

/// One operation of the engine, with everything that decides it: the
/// oracle's verdict for a connect is `ok`, and `hue` is the color draw.
pub enum Operation {
    Connect { conn: u64, token: Option<u128>, ok: bool, hue: nat },
    PositionUpdate { conn: u64, position: Position },
    Disconnect { conn: u64 },
}

/// What one operation does to the state.
pub open spec fn step(s: StateView, op: Operation) -> StateView {
    match op {
        Operation::Connect { conn, token, ok, hue } => connect_step(s, conn, token, ok, hue),
        Operation::PositionUpdate { conn, position } => position_step(s, conn, position),
        Operation::Disconnect { conn } => disconnect_step(s, conn),
    }
}

/// The state after a sequence of operations, applied in order.
pub open spec fn apply_ops(s: StateView, ops: Seq<Operation>) -> StateView
    decreases ops.len(),
{
    if ops.len() == 0 {
        s
    } else {
        apply_ops(step(s, ops.first()), ops.drop_first())
    }
}

/// One operation preserves the invariant.
pub proof fn lemma_step_preserves_inv(s: StateView, op: Operation)
    requires
        inv(s),
    ensures
        inv(step(s, op)),
{
    match op {
        Operation::Connect { conn, token, ok, hue } => {
            lemma_connect_preserves_inv(s, conn, token, ok, hue);
        },
        Operation::PositionUpdate { conn, position } => {
            lemma_position_preserves_inv(s, conn, position);
        },
        Operation::Disconnect { conn } => {
            lemma_disconnect_preserves_inv(s, conn);
        },
    }
}

/// The initial state satisfies the invariant.
pub proof fn lemma_init_inv()
    ensures
        inv(init()),
{
}

/// After every sequence of connect, position and disconnect operations
/// from an invariant state — in particular from the initial state — the
/// invariant still holds; since every prefix is itself such a sequence,
/// it holds after every operation along the way.
pub proof fn lemma_ops_preserve_inv(s: StateView, ops: Seq<Operation>)
    requires
        inv(s),
    ensures
        inv(apply_ops(s, ops)),
    decreases ops.len(),
{
    if ops.len() > 0 {
        lemma_step_preserves_inv(s, ops.first());
        lemma_ops_preserve_inv(step(s, ops.first()), ops.drop_first());
    }
}

/// Round trip: when a record's owner echoes a position back, the new
/// state differs only in that record's position; its color and owner,
/// the rest of the store, the registry and the live set are unchanged.
pub proof fn lemma_round_trip(s: StateView, conn: u64, position: Position)
    requires
        inv(s),
        s.registry.dom().contains(conn),
    ensures
        ({
            let t = s.registry[conn];
            let s2 = position_step(s, conn, position);
            &&& s2.live == s.live
            &&& s2.registry == s.registry
            &&& s2.store.dom() =~= s.store.dom()
            &&& s2.store[t].position == Some(position)
            &&& s2.store[t].color == s.store[t].color
            &&& s2.store[t].id == s.store[t].id
            &&& forall|t2: u128|
                #[trigger] s.store.dom().contains(t2) && t2 != t ==> s2.store[t2] == s.store[t2]
        }),
{
    let t = s.registry[conn];
    assert(s.store.dom().contains(t));
}

/// Disconnect is idempotent: a second disconnect for a connection that
/// was already handled changes nothing.
pub proof fn lemma_disconnect_idempotent(s: StateView, conn: u64)
    ensures
        disconnect_step(disconnect_step(s, conn), conn) == disconnect_step(s, conn),
{
    let s2 = disconnect_step(s, conn);
    assert(!s2.live.contains(conn));
}

} // verus!
