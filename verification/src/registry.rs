//! The connection registry: a bidirectional mapping between a live
//! transport connection and the member token it authenticated with.
//!
//! Each connection identifier appears at most once, and each token is
//! held by at most one connection. On a duplicate login the lifecycle
//! handler evicts the earlier connection's entry before registering the
//! new one, which is what keeps the mapping bidirectional.

use vstd::prelude::*;

use crate::assoc::{has_key, kv_map, lemma_kv_map_dom, lemma_kv_map_index, lemma_kv_map_len,
    lemma_kv_map_push, lemma_kv_map_remove, unique_keys};

verus! {

/// Why a registry operation was refused.
#[derive(Clone, Copy, Debug, PartialEq, Eq, Structural)]
pub enum RegistryError {
    /// The connection already has an entry; re-registration is not
    /// supported.
    AlreadyRegistered,
}

/// No token occurs twice among the entries.
pub open spec fn unique_tokens(s: Seq<(u64, u128)>) -> bool {
    forall|i: int, j: int| 0 <= i < j < s.len() ==> (#[trigger] s[i]).1 != (#[trigger] s[j]).1
}

/// Registry of live authenticated connections.
pub struct ConnectionRegistry {
    entries: Vec<(u64, u128)>,
}

impl ConnectionRegistry {
    /// The mapping from connection identifier to member token.
    pub closed spec fn map(&self) -> Map<u64, u128> {
        kv_map(self.entries@)
    }

    /// Structural validity: connection identifiers and tokens are both
    /// pairwise distinct.
    pub closed spec fn wf(&self) -> bool {
        unique_keys(self.entries@) && unique_tokens(self.entries@)
    }

    /// No two registered connections hold the same token.
    pub proof fn lemma_injective(&self, c1: u64, c2: u64)
        requires
            self.wf(),
            self.map().dom().contains(c1),
            self.map().dom().contains(c2),
            self.map()[c1] == self.map()[c2],
        ensures
            c1 == c2,
    {
        lemma_kv_map_dom(self.entries@, c1);
        lemma_kv_map_dom(self.entries@, c2);
        let i = choose|i: int|
            0 <= i < self.entries@.len() && (#[trigger] self.entries@[i]).0 == c1;
        let j = choose|j: int|
            0 <= j < self.entries@.len() && (#[trigger] self.entries@[j]).0 == c2;
        lemma_kv_map_index(self.entries@, i);
        lemma_kv_map_index(self.entries@, j);
    }

    /// An empty registry.
    pub fn new() -> (r: ConnectionRegistry)
        ensures
            r.wf(),
            r.map() == Map::<u64, u128>::empty(),
    {
        ConnectionRegistry { entries: Vec::new() }
    }

    /// The index of the entry for `conn`, if there is one.
    fn find(&self, conn: u64) -> (r: Option<usize>)
        ensures
            match r {
                Some(i) => i < self.entries@.len() && self.entries@[i as int].0 == conn,
                None => !has_key(self.entries@, conn),
            },
    {
        let n = self.entries.len();
        let mut i: usize = 0;
        while i < n
            invariant
                n == self.entries@.len(),
                i <= n,
                forall|j: int| 0 <= j < i ==> (#[trigger] self.entries@[j]).0 != conn,
            decreases n - i,
        {
            if self.entries[i].0 == conn {
                return Some(i);
            }
            i += 1;
        }
        None
    }

    /// The index of the entry holding `token`, if there is one.
    fn find_token(&self, token: u128) -> (r: Option<usize>)
        ensures
            match r {
                Some(i) => i < self.entries@.len() && self.entries@[i as int].1 == token,
                None => forall|j: int|
                    0 <= j < self.entries@.len() ==> (#[trigger] self.entries@[j]).1 != token,
            },
    {
        let n = self.entries.len();
        let mut i: usize = 0;
        while i < n
            invariant
                n == self.entries@.len(),
                i <= n,
                forall|j: int| 0 <= j < i ==> (#[trigger] self.entries@[j]).1 != token,
            decreases n - i,
        {
            if self.entries[i].1 == token {
                return Some(i);
            }
            i += 1;
        }
        None
    }

    /// The token `conn` authenticated with, or `None` for a connection
    /// that is not registered.
    pub fn lookup(&self, conn: u64) -> (r: Option<u128>)
        requires
            self.wf(),
        ensures
            r == (if self.map().dom().contains(conn) {
                Some(self.map()[conn])
            } else {
                None::<u128>
            }),
    {
        proof {
            lemma_kv_map_dom(self.entries@, conn);
        }
        match self.find(conn) {
            Some(i) => {
                proof {
                    lemma_kv_map_index(self.entries@, i as int);
                }
                Some(self.entries[i].1)
            },
            None => None,
        }
    }

    /// Record that `conn` authenticated with `token`. Fails, changing
    /// nothing, if `conn` already has an entry. The token must not be
    /// held by another connection (the caller evicts such an entry
    /// first), which keeps the mapping bidirectional.
    pub fn register(&mut self, conn: u64, token: u128) -> (r: Result<(), RegistryError>)
        requires
            old(self).wf(),
            forall|c: u64|
                #[trigger] old(self).map().dom().contains(c) ==> old(self).map()[c] != token,
        ensures
            final(self).wf(),
            match r {
                Ok(()) => !old(self).map().dom().contains(conn) && final(self).map()
                    == old(self).map().insert(conn, token),
                Err(e) => e == RegistryError::AlreadyRegistered && old(self).map().dom().contains(
                    conn,
                ) && final(self).map() == old(self).map(),
            },
    {
        proof {
            lemma_kv_map_dom(self.entries@, conn);
        }
        match self.find(conn) {
            Some(_) => Err(RegistryError::AlreadyRegistered),
            None => {
                proof {
                    lemma_kv_map_push(self.entries@, conn, token);
                    assert forall|j: int|
                        0 <= j < self.entries@.len() implies (#[trigger] self.entries@[j]).1
                        != token by {
                        lemma_kv_map_index(self.entries@, j);
                        assert(old(self).map().dom().contains(self.entries@[j].0));
                    }
                }
                self.entries.push((conn, token));
                Ok(())
            },
        }
    }

    /// Remove and return the token for `conn` in one step, or `None` for
    /// a connection that is not registered.
    pub fn remove(&mut self, conn: u64) -> (r: Option<u128>)
        requires
            old(self).wf(),
        ensures
            final(self).wf(),
            r == (if old(self).map().dom().contains(conn) {
                Some(old(self).map()[conn])
            } else {
                None::<u128>
            }),
            final(self).map() == old(self).map().remove(conn),
    {
        proof {
            lemma_kv_map_dom(self.entries@, conn);
        }
        match self.find(conn) {
            Some(i) => {
                proof {
                    lemma_kv_map_index(self.entries@, i as int);
                    lemma_kv_map_remove(self.entries@, i as int);
                    assert forall|p: int, q: int|
                        0 <= p < q < self.entries@.remove(i as int).len() implies (
                    #[trigger] self.entries@.remove(i as int)[p]).1 != (
                    #[trigger] self.entries@.remove(i as int)[q]).1 by {
                        let p0: int = if p < i { p } else { p + 1 };
                        let q0: int = if q < i { q } else { q + 1 };
                        assert(self.entries@.remove(i as int)[p] == self.entries@[p0]);
                        assert(self.entries@.remove(i as int)[q] == self.entries@[q0]);
                    }
                }
                let (_, token) = self.entries.remove(i);
                Some(token)
            },
            None => {
                proof {
                    assert(final(self).map() =~= old(self).map().remove(conn));
                }
                None
            },
        }
    }

    /// Evict the entry holding `token`, returning the connection that
    /// held it: the duplicate-login policy removes the earlier
    /// connection's entry before the new connection registers.
    pub fn remove_token(&mut self, token: u128) -> (r: Option<u64>)
        requires
            old(self).wf(),
        ensures
            final(self).wf(),
            match r {
                Some(c) => old(self).map().dom().contains(c) && old(self).map()[c] == token
                    && final(self).map() == old(self).map().remove(c),
                None => final(self).map() == old(self).map() && forall|c: u64|
                    #[trigger] old(self).map().dom().contains(c) ==> old(self).map()[c] != token,
            },
    {
        match self.find_token(token) {
            Some(i) => {
                proof {
                    lemma_kv_map_index(self.entries@, i as int);
                    lemma_kv_map_remove(self.entries@, i as int);
                    assert forall|p: int, q: int|
                        0 <= p < q < self.entries@.remove(i as int).len() implies (
                    #[trigger] self.entries@.remove(i as int)[p]).1 != (
                    #[trigger] self.entries@.remove(i as int)[q]).1 by {
                        let p0: int = if p < i { p } else { p + 1 };
                        let q0: int = if q < i { q } else { q + 1 };
                        assert(self.entries@.remove(i as int)[p] == self.entries@[p0]);
                        assert(self.entries@.remove(i as int)[q] == self.entries@[q0]);
                    }
                }
                let (conn, _) = self.entries.remove(i);
                Some(conn)
            },
            None => {
                proof {
                    assert forall|c: u64|
                        #[trigger] self.map().dom().contains(c) implies self.map()[c] != token by {
                        lemma_kv_map_dom(self.entries@, c);
                        let j = choose|j: int|
                            0 <= j < self.entries@.len() && (#[trigger] self.entries@[j]).0 == c;
                        lemma_kv_map_index(self.entries@, j);
                    }
                }
                None
            },
        }
    }

    /// How many connections are registered.
    pub fn len(&self) -> (r: usize)
        requires
            self.wf(),
        ensures
            r == self.map().dom().len(),
    {
        proof {
            lemma_kv_map_len(self.entries@);
        }
        self.entries.len()
    }
}

} // verus!
