//! The session lifecycle handler: the state machine driving
//! connect → authenticate → register → snapshot,
//! update → mutate → broadcast, and disconnect → cleanup → notify.
//!
//! The engine state is owned here and changed only through the three
//! handlers, each of which is proved to act as the corresponding step
//! of the model in [`crate::model`]. Delivery itself is the transport
//! layer's work: every handler returns what is to be sent and to whom,
//! and the caller performs the sends, each recipient independently. A
//! recipient that cannot be reached is treated as already gone — the
//! caller hands it back to [`SocketIoState::on_disconnect`] and carries
//! on with the rest, never aborting the fan-out early.

use vstd::prelude::*;

use crate::color::{assign_color, assigned_color, random_hue};
use crate::membership::{authenticates, spec_authenticates, OracleReply};
use crate::model::{connect_step, disconnect_step, init, inv, lemma_connect_preserves_inv,
    lemma_disconnect_preserves_inv, lemma_position_preserves_inv, lemma_registry_injective,
    position_step, StateView};
use crate::presence::{HumanData, Position, RecordView};
use crate::registry::ConnectionRegistry;
use crate::store::PresenceStore;

verus! {

/// Pushing an element inserts it into the set a sequence denotes.
proof fn lemma_push_to_set(s: Seq<u64>, x: u64)
    ensures
        s.push(x).to_set() =~= s.to_set().insert(x),
{
    assert forall|y: u64| #[trigger] s.push(x).to_set().contains(y) implies s.to_set().insert(
        x,
    ).contains(y) by {
        let i = choose|i: int| 0 <= i < s.push(x).len() && s.push(x)[i] == y;
        if i < s.len() {
            assert(s[i] == y);
        }
    }
    assert forall|y: u64| #[trigger] s.to_set().insert(x).contains(y) implies s.push(
        x,
    ).to_set().contains(y) by {
        if s.contains(y) {
            let i = choose|i: int| 0 <= i < s.len() && s[i] == y;
            assert(s.push(x)[i] == y);
        } else {
            assert(s.push(x)[s.len() as int] == x);
        }
    }
}

/// Pushing a fresh element keeps a sequence duplicate-free.
proof fn lemma_push_no_duplicates(s: Seq<u64>, x: u64)
    requires
        s.no_duplicates(),
        !s.contains(x),
    ensures
        s.push(x).no_duplicates(),
{
    assert forall|i: int, j: int|
        0 <= i < s.push(x).len() && 0 <= j < s.push(x).len() && i != j implies s.push(x)[i]
        != s.push(x)[j] by {
        if i < s.len() && j == s.len() {
            assert(s.push(x)[i] == s[i]);
        }
        if j < s.len() && i == s.len() {
            assert(s.push(x)[j] == s[j]);
        }
    }
}

/// Removing the entry at `i` removes its value from the denoted set and
/// keeps the sequence duplicate-free.
proof fn lemma_remove_to_set(s: Seq<u64>, i: int)
    requires
        s.no_duplicates(),
        0 <= i < s.len(),
    ensures
        s.remove(i).to_set() =~= s.to_set().remove(s[i]),
        s.remove(i).no_duplicates(),
{
    assert forall|p: int, q: int|
        0 <= p < s.remove(i).len() && 0 <= q < s.remove(i).len() && p != q implies s.remove(i)[p]
        != s.remove(i)[q] by {
        let p0: int = if p < i {
            p
        } else {
            p + 1
        };
        let q0: int = if q < i {
            q
        } else {
            q + 1
        };
        assert(s.remove(i)[p] == s[p0]);
        assert(s.remove(i)[q] == s[q0]);
    }
    assert forall|y: u64| #[trigger] s.remove(i).to_set().contains(y) implies s.to_set().remove(
        s[i],
    ).contains(y) by {
        let j = choose|j: int| 0 <= j < s.remove(i).len() && s.remove(i)[j] == y;
        let j0: int = if j < i {
            j
        } else {
            j + 1
        };
        assert(s[j0] == y);
        assert(s.contains(y));
    }
    assert forall|y: u64| #[trigger] s.to_set().remove(s[i]).contains(y) implies s.remove(
        i,
    ).to_set().contains(y) by {
        let j = choose|j: int| 0 <= j < s.len() && s[j] == y;
        let j1: int = if j < i {
            j
        } else {
            j - 1
        };
        assert(s.remove(i)[j1] == s[j]);
        assert(s.remove(i).contains(y));
    }
}

/// Copy a list of connection identifiers.
fn copy_ids(v: &Vec<u64>) -> (r: Vec<u64>)
    ensures
        r@ == v@,
{
    let n = v.len();
    let mut r: Vec<u64> = Vec::new();
    let mut i: usize = 0;
    while i < n
        invariant
            n == v@.len(),
            i <= n,
            r@ == v@.take(i as int),
        decreases n - i,
    {
        r.push(v[i]);
        proof {
            assert(r@ =~= v@.take(i + 1));
        }
        i += 1;
    }
    proof {
        assert(v@.take(n as int) =~= v@);
    }
    r
}

/// The authentication payload a connecting client delivers: its member
/// token, if it presented one.
#[derive(Clone, Copy, Debug, PartialEq, Eq, Structural)]
pub struct SocketIoAuth {
    pub token: Option<u128>,
}

/// What a connect asks the transport to deliver: the new record to all
/// other live connections, and the full snapshot to the new connection
/// alone — the latter whatever the authentication outcome, so that
/// read-only viewers still see the current state.
pub struct ConnectOutcome {
    /// The new presence record, broadcast to `others`; absent when the
    /// connection did not authenticate.
    pub broadcast: Option<HumanData>,
    /// Every live connection but the new one.
    pub others: Vec<u64>,
    /// A copy of every current record, sent to the new connection only.
    pub snapshot: Vec<HumanData>,
}

/// What a position update asks the transport to deliver: the updated
/// record to every live connection, the sender included (its own echo
/// lets every client render through one code path); or nothing, when
/// the update was dropped.
pub struct PositionOutcome {
    /// The updated record, broadcast to `recipients`; absent when the
    /// sender was not registered or its record was already gone.
    pub broadcast: Option<HumanData>,
    /// Every live connection.
    pub recipients: Vec<u64>,
}

/// What a disconnect asks the transport to deliver: a notice naming the
/// departed connection — its identifier, never the token — to every
/// remaining live connection; or nothing, when the connection had
/// already been handled.
pub struct DisconnectOutcome {
    /// The departed connection named in the notice; absent when the
    /// connection was not live, so a second disconnect broadcasts
    /// nothing.
    pub notice: Option<u64>,
    /// Every remaining live connection.
    pub recipients: Vec<u64>,
}

/// The engine state shared by all connection handlers: the live set,
/// the connection registry and the presence store, changed together and
/// in one place so that every mutation path keeps the invariants.
pub struct SocketIoState {
    live: Vec<u64>,
    socket_token: ConnectionRegistry,
    token_data: PresenceStore,
}

impl View for SocketIoState {
    type V = StateView;

    closed spec fn view(&self) -> StateView {
        StateView {
            live: self.live@.to_set(),
            registry: self.socket_token.map(),
            store: self.token_data.contents(),
        }
    }
}

impl SocketIoState {
    /// Validity: the live list has no duplicates, both shared
    /// structures are well formed, and the model invariant holds of
    /// the state they denote.
    pub closed spec fn wf(&self) -> bool {
        &&& self.live@.no_duplicates()
        &&& self.socket_token.wf()
        &&& self.token_data.wf()
        &&& inv(self@)
    }

    /// The live connections in arrival order.
    pub closed spec fn live_seq(&self) -> Seq<u64> {
        self.live@
    }

    /// The stored records in insertion order, as snapshots list them.
    pub closed spec fn store_records(&self) -> Seq<RecordView> {
        self.token_data.records()
    }

    /// A valid state satisfies the model invariant.
    pub proof fn lemma_wf_inv(&self)
        requires
            self.wf(),
        ensures
            inv(self@),
    {
    }

    /// The live list denotes the live set, without duplicates.
    pub proof fn lemma_live_seq(&self)
        requires
            self.wf(),
        ensures
            self.live_seq().to_set() == self@.live,
            self.live_seq().no_duplicates(),
    {
    }

    /// There are as many listed records as stored tokens.
    pub proof fn lemma_store_size(&self)
        requires
            self.wf(),
        ensures
            self.store_records().len() == self@.store.dom().len(),
    {
        self.token_data.lemma_size();
    }

    /// Every stored token's record is listed.
    pub proof fn lemma_record_listed(&self, t: u128)
        requires
            self.wf(),
            self@.store.dom().contains(t),
        ensures
            exists|i: int|
                0 <= i < self.store_records().len() && #[trigger] self.store_records()[i] == self@.store[t],
    {
        let i = self.token_data.lemma_token_position(t);
        assert(self.store_records()[i] == self@.store[t]);
    }

    /// Every listed record is some stored token's.
    pub proof fn lemma_listed_record(&self, i: int)
        requires
            self.wf(),
            0 <= i < self.store_records().len(),
        ensures
            exists|t: u128|
                #[trigger] self@.store.dom().contains(t) && self@.store[t]
                    == self.store_records()[i],
    {
        self.token_data.lemma_record_at(i);
        assert(self@.store.dom().contains(self.token_data.pairs()[i].0));
    }

    /// The engine before any connection has arrived.
    pub fn new() -> (r: SocketIoState)
        ensures
            r.wf(),
            r@ == init(),
            r.live_seq() == Seq::<u64>::empty(),
            r.store_records() == Seq::<RecordView>::empty(),
    {
        let r = SocketIoState {
            live: Vec::new(),
            socket_token: ConnectionRegistry::new(),
            token_data: PresenceStore::new(),
        };
        proof {
            assert(r.live@.to_set() =~= Set::<u64>::empty());
            assert(r@ =~= init());
        }
        r
    }

    /// The index of `conn` in the live list, if it is live.
    fn live_index(&self, conn: u64) -> (r: Option<usize>)
        ensures
            match r {
                Some(i) => i < self.live@.len() && self.live@[i as int] == conn,
                None => !self.live@.contains(conn),
            },
    {
        let n = self.live.len();
        let mut i: usize = 0;
        while i < n
            invariant
                n == self.live@.len(),
                i <= n,
                forall|j: int| 0 <= j < i ==> self.live@[j] != conn,
            decreases n - i,
        {
            if self.live[i] == conn {
                return Some(i);
            }
            i += 1;
        }
        None
    }

    /// Whether a connection is currently live.
    pub fn is_live(&self, conn: u64) -> (r: bool)
        requires
            self.wf(),
        ensures
            r == self@.live.contains(conn),
    {
        match self.live_index(conn) {
            Some(_) => {
                proof {
                    assert(self.live@.contains(conn));
                }
                true
            },
            None => false,
        }
    }

    /// The token a connection authenticated with, if any.
    pub fn token_of(&self, conn: u64) -> (r: Option<u128>)
        requires
            self.wf(),
        ensures
            r == (if self@.registry.dom().contains(conn) {
                Some(self@.registry[conn])
            } else {
                None::<u128>
            }),
    {
        self.socket_token.lookup(conn)
    }

    /// A copy of the presence record for a token, if it has one.
    pub fn presence(&self, token: u128) -> (r: Option<HumanData>)
        requires
            self.wf(),
        ensures
            match r {
                Some(rec) => self@.store.dom().contains(token) && rec@ == self@.store[token],
                None => !self@.store.dom().contains(token),
            },
    {
        self.token_data.record(token)
    }

    /// How many connections are registered.
    pub fn registry_len(&self) -> (r: usize)
        requires
            self.wf(),
        ensures
            r == self@.registry.dom().len(),
    {
        self.socket_token.len()
    }

    /// How many members have a record.
    pub fn store_len(&self) -> (r: usize)
        requires
            self.wf(),
        ensures
            r == self@.store.dom().len(),
    {
        self.token_data.len()
    }

    /// A copy of every current record, in the order snapshots use.
    pub fn snapshot(&self) -> (r: Vec<HumanData>)
        requires
            self.wf(),
        ensures
            r@.len() == self.store_records().len(),
            forall|i: int| 0 <= i < r@.len() ==> (#[trigger] r@[i])@ == self.store_records()[i],
    {
        self.token_data.snapshot()
    }

    /// Handle a connect event, the hue for the new color given by the
    /// caller. The connection becomes live whatever happens. With a
    /// token the oracle vouched for, the prior holder of that token is
    /// evicted from the registry, the connection is registered, a fresh
    /// record replaces any old one, and the record goes out to every
    /// other live connection. In every case the snapshot goes back to
    /// the new connection.
    pub fn on_connect_with_hue(
        &mut self,
        conn: u64,
        auth: SocketIoAuth,
        oracle: OracleReply,
        hue: u32,
    ) -> (r: ConnectOutcome)
        requires
            old(self).wf(),
            !old(self)@.live.contains(conn),
        ensures
            final(self).wf(),
            final(self)@ == connect_step(
                old(self)@,
                conn,
                auth.token,
                spec_authenticates(auth.token, oracle),
                hue as nat,
            ),
            r.others@ == old(self).live_seq(),
            match r.broadcast {
                Some(rec) => spec_authenticates(auth.token, oracle) && rec@ == (RecordView {
                    id: conn,
                    position: None,
                    color: assigned_color(hue as nat),
                }),
                None => !spec_authenticates(auth.token, oracle),
            },
            r.snapshot@.len() == final(self).store_records().len(),
            forall|i: int|
                0 <= i < r.snapshot@.len() ==> (#[trigger] r.snapshot@[i])@
                    == final(self).store_records()[i],
    {
        let ghost ov = old(self)@;
        let others = copy_ids(&self.live);
        proof {
            if self.live@.contains(conn) {
                assert(ov.live.contains(conn));
            }
            lemma_push_to_set(self.live@, conn);
            lemma_push_no_duplicates(self.live@, conn);
        }
        self.live.push(conn);
        let authed = authenticates(auth.token, oracle);
        let broadcast: Option<HumanData>;
        if authed {
            let t = auth.token.unwrap();
            let evicted = self.socket_token.remove_token(t);
            proof {
                match evicted {
                    Some(c) => {
                        assert(ov.registry.dom().contains(c) && ov.registry[c] == t);
                        assert(ov.store.dom().contains(t) && ov.store[t].id == c);
                        assert(self.socket_token.map() == ov.registry.remove(ov.store[t].id));
                    },
                    None => {
                        if ov.store.dom().contains(t) {
                            assert(ov.registry.dom().contains(ov.store[t].id) && ov.registry[ov.store[t].id]
                                == t);
                        }
                        assert(!ov.store.dom().contains(t));
                        assert(self.socket_token.map() == ov.registry);
                    },
                }
                assert forall|c2: u64| #[trigger] self.socket_token.map().dom().contains(
                    c2,
                ) implies self.socket_token.map()[c2] != t by {
                    if self.socket_token.map()[c2] == t {
                        assert(ov.registry.dom().contains(c2) && ov.registry[c2] == t);
                        match evicted {
                            Some(c) => {
                                lemma_registry_injective(ov, c2, c);
                            },
                            None => {},
                        }
                    }
                }
            }
            let color = assign_color(hue);
            let record = self.token_data.create(t, conn, color);
            match self.socket_token.register(conn, t) {
                Ok(()) => {},
                Err(_) => {
                    proof {
                        assert(ov.registry.dom().contains(conn));
                        assert(ov.live.contains(conn));
                        assert(false);
                    }
                },
            }
            broadcast = Some(record);
        } else {
            broadcast = None;
        }
        let snapshot = self.token_data.snapshot();
        proof {
            assert(self@ =~= connect_step(
                ov,
                conn,
                auth.token,
                spec_authenticates(auth.token, oracle),
                hue as nat,
            ));
            lemma_connect_preserves_inv(
                ov,
                conn,
                auth.token,
                spec_authenticates(auth.token, oracle),
                hue as nat,
            );
        }
        ConnectOutcome { broadcast, others, snapshot }
    }

    /// Handle a connect event, drawing the hue from the process-wide
    /// random source. Everything but the hue of the assigned color is
    /// as for [`Self::on_connect_with_hue`]; some hue below 360 is
    /// drawn, and every hue verifies alike.
    pub fn on_connect(&mut self, conn: u64, auth: SocketIoAuth, oracle: OracleReply) -> (r:
        ConnectOutcome)
        requires
            old(self).wf(),
            !old(self)@.live.contains(conn),
        ensures
            final(self).wf(),
            exists|hue: nat|
                final(self)@ == #[trigger] connect_step(
                    old(self)@,
                    conn,
                    auth.token,
                    spec_authenticates(auth.token, oracle),
                    hue,
                ) && match r.broadcast {
                    Some(rec) => spec_authenticates(auth.token, oracle) && rec@ == (RecordView {
                        id: conn,
                        position: None,
                        color: assigned_color(hue),
                    }),
                    None => !spec_authenticates(auth.token, oracle),
                },
            r.others@ == old(self).live_seq(),
            r.snapshot@.len() == final(self).store_records().len(),
            forall|i: int|
                0 <= i < r.snapshot@.len() ==> (#[trigger] r.snapshot@[i])@
                    == final(self).store_records()[i],
    {
        let hue = random_hue();
        let r = self.on_connect_with_hue(conn, auth, oracle, hue);
        proof {
            assert(final(self)@ == connect_step(
                old(self)@,
                conn,
                auth.token,
                spec_authenticates(auth.token, oracle),
                hue as nat,
            ));
        }
        r
    }

    /// Handle a position message. Only a registered sender whose token
    /// still has a record changes anything: its record's position is
    /// overwritten and the updated record goes out to every live
    /// connection, the sender included. An unregistered or orphaned
    /// sender, or a record a disconnect already removed, is a silent
    /// no-op: nothing changes, nothing is broadcast, nothing fails.
    pub fn on_position(&mut self, conn: u64, position: Position) -> (r: PositionOutcome)
        requires
            old(self).wf(),
        ensures
            final(self).wf(),
            final(self)@ == position_step(old(self)@, conn, position),
            r.recipients@ == old(self).live_seq(),
            match r.broadcast {
                Some(rec) => {
                    let t = old(self)@.registry[conn];
                    &&& old(self)@.registry.dom().contains(conn)
                    &&& old(self)@.store.dom().contains(t)
                    &&& rec@ == (RecordView {
                        id: old(self)@.store[t].id,
                        position: Some(position),
                        color: old(self)@.store[t].color,
                    })
                    &&& final(self)@.store[t] == rec@
                },
                None => (!old(self)@.registry.dom().contains(conn)
                    || !old(self)@.store.dom().contains(old(self)@.registry[conn])) && final(self)@
                    == old(self)@,
            },
    {
        let ghost ov = old(self)@;
        let recipients = copy_ids(&self.live);
        let broadcast: Option<HumanData> = match self.socket_token.lookup(conn) {
            None => None,
            Some(t) => match self.token_data.update_position(t, position) {
                Err(_) => None,
                Ok(rec) => Some(rec),
            },
        };
        proof {
            assert(self@ =~= position_step(ov, conn, position));
            lemma_position_preserves_inv(ov, conn, position);
        }
        PositionOutcome { broadcast, recipients }
    }

    /// Handle a disconnect. A connection that is not live — one never
    /// seen, or one already handled — is a no-op: no error, no change,
    /// no broadcast. Otherwise the connection leaves the live set, its
    /// registry entry and its token's record are removed in the same
    /// step (both or neither), and a notice naming the departed
    /// connection goes out to every remaining live connection.
    pub fn on_disconnect(&mut self, conn: u64) -> (r: DisconnectOutcome)
        requires
            old(self).wf(),
        ensures
            final(self).wf(),
            final(self)@ == disconnect_step(old(self)@, conn),
            r.recipients@ == final(self).live_seq(),
            match r.notice {
                Some(c) => c == conn && old(self)@.live.contains(conn),
                None => !old(self)@.live.contains(conn) && final(self)@ == old(self)@,
            },
            !final(self)@.registry.dom().contains(conn),
            old(self)@.registry.dom().contains(conn) ==> !final(self)@.store.dom().contains(
                old(self)@.registry[conn],
            ),
    {
        let ghost ov = old(self)@;
        match self.live_index(conn) {
            None => {
                proof {
                    if ov.live.contains(conn) {
                        assert(self.live@.contains(conn));
                    }
                    assert(self@ =~= disconnect_step(ov, conn));
                    if self@.registry.dom().contains(conn) {
                        assert(ov.live.contains(conn));
                    }
                }
                let recipients = copy_ids(&self.live);
                DisconnectOutcome { notice: None, recipients }
            },
            Some(i) => {
                proof {
                    assert(self.live@.contains(conn));
                    assert(ov.live.contains(conn));
                    lemma_remove_to_set(self.live@, i as int);
                }
                self.live.remove(i);
                let t_opt = self.socket_token.remove(conn);
                match t_opt {
                    Some(t) => {
                        let _ = self.token_data.remove(t);
                    },
                    None => {
                        proof {
                            assert(self.socket_token.map() =~= ov.registry);
                        }
                    },
                }
                proof {
                    assert(self@ =~= disconnect_step(ov, conn));
                    lemma_disconnect_preserves_inv(ov, conn);
                }
                let recipients = copy_ids(&self.live);
                DisconnectOutcome { notice: Some(conn), recipients }
            },
        }
    }
}

} // verus!
