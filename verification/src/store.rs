//! The presence store: the mapping from member token to that member's
//! current presence record.
//!
//! Creating a record for a token that already has one replaces the old
//! record (the documented last-writer-wins policy for duplicate logins);
//! a position update overwrites, never merges; snapshots are copies, not
//! live views.

use vstd::pervasive::VecAdditionalExecFns;
use vstd::prelude::*;

use crate::assoc::{has_key, kv_map, lemma_kv_map_dom, lemma_kv_map_index, lemma_kv_map_len,
    lemma_kv_map_push, lemma_kv_map_remove, lemma_kv_map_update, unique_keys};
use crate::presence::{HumanData, Position, RecordView};

verus! {

/// Why a store operation was refused.
#[derive(Clone, Copy, Debug, PartialEq, Eq, Structural)]
pub enum StoreError {
    /// The token has no live record; a stale update after a disconnect
    /// is treated this way and is a non-fatal no-op for callers.
    NotFound,
}

/// Store of the presence records of the currently authenticated members.
pub struct PresenceStore {
    entries: Vec<(u128, HumanData)>,
}

impl PresenceStore {
    /// The stored pairs of token and record value, in insertion order.
    pub closed spec fn pairs(&self) -> Seq<(u128, RecordView)> {
        self.entries@.map_values(|p: (u128, HumanData)| (p.0, p.1@))
    }

    /// The mapping from member token to presence record.
    pub open spec fn contents(&self) -> Map<u128, RecordView> {
        kv_map(self.pairs())
    }

    /// The record values in insertion order, as a snapshot lists them.
    pub open spec fn records(&self) -> Seq<RecordView> {
        self.pairs().map_values(|p: (u128, RecordView)| p.1)
    }

    /// Structural validity: tokens are pairwise distinct.
    pub closed spec fn wf(&self) -> bool {
        unique_keys(self.pairs())
    }

    /// Each stored pair is the mapping's value at its token.
    pub proof fn lemma_record_at(&self, i: int)
        requires
            self.wf(),
            0 <= i < self.pairs().len(),
        ensures
            self.contents().dom().contains(self.pairs()[i].0),
            self.contents()[self.pairs()[i].0] == self.records()[i],
    {
        lemma_kv_map_index(self.pairs(), i);
    }

    /// Every token of the mapping stands at some position.
    pub proof fn lemma_token_position(&self, token: u128) -> (i: int)
        requires
            self.wf(),
            self.contents().dom().contains(token),
        ensures
            0 <= i < self.pairs().len(),
            self.pairs()[i].0 == token,
            self.records()[i] == self.contents()[token],
    {
        lemma_kv_map_dom(self.pairs(), token);
        let i = choose|i: int| 0 <= i < self.pairs().len() && (#[trigger] self.pairs()[i]).0 == token;
        lemma_kv_map_index(self.pairs(), i);
        i
    }

    /// The mapping is finite and has one entry per stored pair.
    pub proof fn lemma_size(&self)
        requires
            self.wf(),
        ensures
            self.contents().dom().finite(),
            self.contents().dom().len() == self.records().len(),
    {
        lemma_kv_map_len(self.pairs());
    }

    /// An empty store.
    pub fn new() -> (r: PresenceStore)
        ensures
            r.wf(),
            r.contents() == Map::<u128, RecordView>::empty(),
            r.records() == Seq::<RecordView>::empty(),
    {
        let r = PresenceStore { entries: Vec::new() };
        proof {
            assert(r.pairs() =~= Seq::<(u128, RecordView)>::empty());
            assert(r.records() =~= Seq::<RecordView>::empty());
        }
        r
    }

    /// The index of the record for `token`, if there is one.
    fn find(&self, token: u128) -> (r: Option<usize>)
        ensures
            match r {
                Some(i) => i < self.pairs().len() && self.pairs()[i as int].0 == token,
                None => !has_key(self.pairs(), token),
            },
    {
        let n = self.entries.len();
        let mut i: usize = 0;
        while i < n
            invariant
                n == self.entries@.len(),
                i <= n,
                forall|j: int| 0 <= j < i ==> (#[trigger] self.entries@[j]).0 != token,
            decreases n - i,
        {
            if self.entries[i].0 == token {
                assert(self.pairs()[i as int].0 == token);
                return Some(i);
            }
            i += 1;
        }
        proof {
            assert forall|j: int|
                0 <= j < self.pairs().len() implies (#[trigger] self.pairs()[j]).0 != token by {
                assert(self.pairs()[j].0 == self.entries@[j].0);
            }
        }
        None
    }

    /// Create the presence record for `token`: owner `id`, the given
    /// color, no position yet. A record the token already had is
    /// replaced (a second login while the first connection is still
    /// open: the last writer wins). Returns a copy of the new record.
    pub fn create(&mut self, token: u128, id: u64, color: String) -> (r: HumanData)
        requires
            old(self).wf(),
        ensures
            final(self).wf(),
            r@ == (RecordView { id, position: None, color: color@ }),
            final(self).contents() == old(self).contents().insert(token, r@),
    {
        let record = HumanData { id, position: None, color };
        let out = record.duplicate();
        match self.find(token) {
            Some(i) => {
                proof {
                    lemma_kv_map_update(self.pairs(), i as int, record@);
                    assert(self.entries@.update(i as int, (token, record)).map_values(
                        |p: (u128, HumanData)| (p.0, p.1@),
                    ) =~= self.pairs().update(i as int, (token, record@)));
                }
                self.entries.set(i, (token, record));
            },
            None => {
                proof {
                    lemma_kv_map_push(self.pairs(), token, record@);
                    assert(self.entries@.push((token, record)).map_values(
                        |p: (u128, HumanData)| (p.0, p.1@),
                    ) =~= self.pairs().push((token, record@)));
                    assert forall|p: int, q: int|
                        0 <= p < q < self.pairs().push((token, record@)).len() implies (
                    #[trigger] self.pairs().push((token, record@))[p]).0 != (
                    #[trigger] self.pairs().push((token, record@))[q]).0 by {
                        if q < self.pairs().len() {
                            assert(self.pairs()[p].0 != self.pairs()[q].0);
                        }
                    }
                }
                self.entries.push((token, record));
            },
        }
        out
    }

    /// Overwrite the position of `token`'s record, returning a copy of
    /// the updated record, or fail with `NotFound`, changing nothing,
    /// when the token has no live record.
    pub fn update_position(&mut self, token: u128, position: Position) -> (r: Result<
        HumanData,
        StoreError,
    >)
        requires
            old(self).wf(),
        ensures
            final(self).wf(),
            match r {
                Ok(rec) => old(self).contents().dom().contains(token) && rec@ == (RecordView {
                    id: old(self).contents()[token].id,
                    position: Some(position),
                    color: old(self).contents()[token].color,
                }) && final(self).contents() == old(self).contents().insert(token, rec@),
                Err(e) => e == StoreError::NotFound && !old(self).contents().dom().contains(token)
                    && *final(self) == *old(self),
            },
    {
        proof {
            lemma_kv_map_dom(self.pairs(), token);
        }
        match self.find(token) {
            Some(i) => {
                proof {
                    lemma_kv_map_index(self.pairs(), i as int);
                }
                let id0 = self.entries[i].1.id;
                let color0 = self.entries[i].1.color.clone();
                let updated = HumanData { id: id0, position: Some(position), color: color0 };
                let out = updated.duplicate();
                proof {
                    lemma_kv_map_update(self.pairs(), i as int, updated@);
                    assert(self.entries@.update(i as int, (token, updated)).map_values(
                        |p: (u128, HumanData)| (p.0, p.1@),
                    ) =~= self.pairs().update(i as int, (token, updated@)));
                }
                self.entries.set(i, (token, updated));
                Ok(out)
            },
            None => Err(StoreError::NotFound),
        }
    }

    /// Remove and return the record for `token` in one step, or `None`
    /// when the token has no record.
    pub fn remove(&mut self, token: u128) -> (r: Option<HumanData>)
        requires
            old(self).wf(),
        ensures
            final(self).wf(),
            final(self).contents() == old(self).contents().remove(token),
            match r {
                Some(rec) => old(self).contents().dom().contains(token) && rec@ == old(
                    self,
                ).contents()[token],
                None => !old(self).contents().dom().contains(token) && *final(self) == *old(self),
            },
    {
        proof {
            lemma_kv_map_dom(self.pairs(), token);
        }
        match self.find(token) {
            Some(i) => {
                proof {
                    lemma_kv_map_index(self.pairs(), i as int);
                    lemma_kv_map_remove(self.pairs(), i as int);
                    assert(self.entries@.remove(i as int).map_values(
                        |p: (u128, HumanData)| (p.0, p.1@),
                    ) =~= self.pairs().remove(i as int));
                }
                let (_, record) = self.entries.remove(i);
                Some(record)
            },
            None => {
                proof {
                    assert(self.contents() =~= self.contents().remove(token));
                }
                None
            },
        }
    }

    /// A copy of the record for `token`, or `None` when the token has
    /// no record.
    pub fn record(&self, token: u128) -> (r: Option<HumanData>)
        requires
            self.wf(),
        ensures
            match r {
                Some(rec) => self.contents().dom().contains(token) && rec@
                    == self.contents()[token],
                None => !self.contents().dom().contains(token),
            },
    {
        proof {
            lemma_kv_map_dom(self.pairs(), token);
        }
        match self.find(token) {
            Some(i) => {
                proof {
                    lemma_kv_map_index(self.pairs(), i as int);
                }
                Some(self.entries[i].1.duplicate())
            },
            None => None,
        }
    }

    /// A copy of every current record, in insertion order: the snapshot
    /// sent to a newly connected client. Copy-on-read, not a live view.
    pub fn snapshot(&self) -> (r: Vec<HumanData>)
        ensures
            r@.len() == self.records().len(),
            forall|i: int| 0 <= i < r@.len() ==> (#[trigger] r@[i])@ == self.records()[i],
    {
        let n = self.entries.len();
        let mut out: Vec<HumanData> = Vec::new();
        let mut i: usize = 0;
        while i < n
            invariant
                n == self.entries@.len(),
                i <= n,
                out@.len() == i,
                forall|j: int| 0 <= j < i ==> (#[trigger] out@[j])@ == self.records()[j],
            decreases n - i,
        {
            let copy = self.entries[i].1.duplicate();
            assert(copy@ == self.records()[i as int]);
            out.push(copy);
            i += 1;
        }
        out
    }

    /// How many members have a record.
    pub fn len(&self) -> (r: usize)
        requires
            self.wf(),
        ensures
            r == self.contents().dom().len(),
    {
        proof {
            lemma_kv_map_len(self.pairs());
        }
        self.entries.len()
    }
}

} // verus!
