//! The stream registry: the one piece of state shared between the inbound
//! dispatcher and the per-stream tasks. It maps each live stream id to the
//! sender half of that stream's channel. Entries appear when a stream is
//! first observed and leave after the end-of-stream grace period; at every
//! moment a stream id owns at most one live entry.

use vstd::prelude::*;
use futures::channel::mpsc::UnboundedSender;
use crate::codec::StreamId;
use crate::stream::StreamMessage;

verus! {

pub struct Registry {
    ids: Vec<StreamId>,
    txs: Vec<UnboundedSender<StreamMessage>>,
}

/// How many positions of `s` hold `id`.
spec fn count_matches(s: Seq<StreamId>, id: StreamId) -> nat
    decreases s.len(),
{
    if s.len() == 0 {
        0
    } else {
        count_matches(s.drop_last(), id) + if s.last() == id {
            1nat
        } else {
            0nat
        }
    }
}

proof fn lemma_count_nodup(s: Seq<StreamId>, id: StreamId)
    requires
        s.no_duplicates(),
    ensures
        count_matches(s, id) == if s.contains(id) {
            1nat
        } else {
            0nat
        },
    decreases s.len(),
{
    if s.len() > 0 {
        let rest = s.drop_last();
        assert(rest.no_duplicates());
        lemma_count_nodup(rest, id);
        if s.last() == id {
            if rest.contains(id) {
                let i = choose|i: int| 0 <= i < rest.len() && rest[i] == id;
                assert(s[i] == id && s[s.len() - 1] == id && i != s.len() - 1);
                assert(false);
            }
        } else {
            if s.contains(id) {
                let i = choose|i: int| 0 <= i < s.len() && s[i] == id;
                assert(rest[i] == id);
            }
            if rest.contains(id) {
                let i = choose|i: int| 0 <= i < rest.len() && rest[i] == id;
                assert(s[i] == id);
            }
        }
    }
}

/// The index `sender_for` reads: some position of `ids` holding `id`.
spec fn idx_in(ids: Seq<StreamId>, id: StreamId) -> int {
    choose|i: int| 0 <= i < ids.len() && ids[i] == id
}

/// The one index of `ids` that holds `id`, when `ids` has no duplicates.
proof fn lemma_chosen_index(ids: Seq<StreamId>, id: StreamId, w: int)
    requires
        ids.no_duplicates(),
        0 <= w < ids.len(),
        ids[w] == id,
    ensures
        idx_in(ids, id) == w,
{
    assert(exists|i: int| 0 <= i < ids.len() && ids[i] == id);
    let j = idx_in(ids, id);
    assert(0 <= j < ids.len() && ids[j] == id) by {
        assert(exists|i: int| 0 <= i < ids.len() && ids[i] == id);
    }
    assert(ids[j] == ids[w]);
}

impl Registry {
    /// Internal shape: the two columns match up and no id occurs twice.
    pub closed spec fn wf(&self) -> bool {
        &&& self.ids@.len() == self.txs@.len()
        &&& self.ids@.no_duplicates()
    }

    /// The set of stream ids with a live entry.
    pub closed spec fn key_set(&self) -> Set<StreamId> {
        self.ids@.to_set()
    }

    /// How many live entries a stream id owns.
    pub closed spec fn entry_count(&self, id: StreamId) -> nat {
        count_matches(self.ids@, id)
    }

    /// The sender registered for a live stream id.
    pub closed spec fn sender_for(&self, id: StreamId) -> UnboundedSender<StreamMessage> {
        self.txs@[idx_in(self.ids@, id)]
    }

    /// An empty registry: no stream has an entry.
    pub fn new() -> (r: Registry)
        ensures
            r.wf(),
            r.key_set() == Set::<StreamId>::empty(),
    {
        let r = Registry { ids: Vec::new(), txs: Vec::new() };
        proof {
            assert(r.key_set() =~= Set::<StreamId>::empty());
        }
        r
    }

    fn index_of(&self, id: StreamId) -> (r: Option<usize>)
        requires
            self.wf(),
        ensures
            (r matches Some(i) ==> i < self.ids@.len() && self.ids@[i as int] == id),
            r is None ==> !self.key_set().contains(id),
    {
        let mut i: usize = 0;
        while i < self.ids.len()
            invariant
                i <= self.ids@.len(),
                forall|k: int| 0 <= k < i ==> self.ids@[k] != id,
            decreases self.ids@.len() - i,
        {
            if self.ids[i] == id {
                return Some(i);
            }
            i = i + 1;
        }
        proof {
            if self.key_set().contains(id) {
                let w = choose|k: int| 0 <= k < self.ids@.len() && self.ids@[k] == id;
                assert(self.ids@[w] != id);
            }
        }
        None
    }

    /// Shared-lookup half of the registry: returns the sender registered for
    /// the id, if the stream is live.
    pub fn lookup(&self, id: StreamId) -> (r: Option<&UnboundedSender<StreamMessage>>)
        requires
            self.wf(),
        ensures
            r is Some <==> self.key_set().contains(id),
            (r matches Some(t) ==> *t == self.sender_for(id)),
    {
        match self.index_of(id) {
            Some(i) => {
                proof {
                    lemma_chosen_index(self.ids@, id, i as int);
                    assert(self.key_set().contains(id));
                }
                Some(&self.txs[i])
            },
            None => None,
        }
    }

    /// Registers the sender for a stream id that has no live entry; an id
    /// that already has one keeps its original sender untouched. Returns
    /// whether the entry was created.
    pub fn insert_if_absent(&mut self, id: StreamId, tx: UnboundedSender<StreamMessage>) -> (r:
        bool)
        requires
            old(self).wf(),
        ensures
            final(self).wf(),
            r == !old(self).key_set().contains(id),
            r ==> final(self).key_set() == old(self).key_set().insert(id),
            r ==> final(self).sender_for(id) == tx,
            !r ==> *final(self) == *old(self),
            forall|o: StreamId|
                o != id && old(self).key_set().contains(o) ==> final(self).sender_for(o) == old(
                    self,
                ).sender_for(o),
    {
        match self.index_of(id) {
            Some(i) => {
                proof {
                    lemma_chosen_index(self.ids@, id, i as int);
                    assert(self.key_set().contains(id));
                }
                false
            },
            None => {
                let ghost old_ids = self.ids@;
                let ghost old_txs = self.txs@;
                let n = self.ids.len();
                self.ids.push(id);
                self.txs.push(tx);
                proof {
                    assert forall|a: int, b: int|
                        0 <= a < self.ids@.len() && 0 <= b < self.ids@.len() && a
                            != b implies self.ids@[a] != self.ids@[b] by {
                        if a < n && b < n {
                            assert(old_ids[a] != old_ids[b]);
                        } else if a == n && b < n {
                            assert(!old_ids.contains(id));
                            assert(old_ids[b] != id);
                        } else if b == n && a < n {
                            assert(!old_ids.contains(id));
                            assert(old_ids[a] != id);
                        }
                    }
                    assert(self.key_set() =~= old(self).key_set().insert(id)) by {
                        assert forall|o: StreamId| #[trigger]
                            self.ids@.contains(o) implies old_ids.contains(o) || o == id by {
                            let k = choose|k: int|
                                0 <= k < self.ids@.len() && self.ids@[k] == o;
                            if k < n {
                                assert(old_ids[k] == o);
                            }
                        }
                        assert forall|o: StreamId| #[trigger]
                            old_ids.contains(o) implies self.ids@.contains(o) by {
                            let k = choose|k: int| 0 <= k < old_ids.len() && old_ids[k] == o;
                            assert(self.ids@[k] == o);
                        }
                        assert(self.ids@[n as int] == id);
                        assert(self.ids@.contains(id));
                    }
                    lemma_chosen_index(self.ids@, id, n as int);
                    assert(old_txs.len() == n);
                    assert(self.txs@ == old_txs.push(tx));
                    assert(self.txs@[n as int] == tx);
                    assert(self.sender_for(id) == tx);
                    assert forall|o: StreamId|
                        o != id && old(self).key_set().contains(o) implies self.sender_for(o)
                        == old(self).sender_for(o) by {
                        let w = choose|k: int| 0 <= k < old_ids.len() && old_ids[k] == o;
                        assert(old_ids[w] == o);
                        lemma_chosen_index(old_ids, o, w);
                        assert(self.ids@[w] == o);
                        lemma_chosen_index(self.ids@, o, w);
                    }
                }
                true
            },
        }
    }

    /// Drops the live entry of a stream id, if there is one. Returns whether
    /// an entry was dropped.
    pub fn remove(&mut self, id: StreamId) -> (r: bool)
        requires
            old(self).wf(),
        ensures
            final(self).wf(),
            r == old(self).key_set().contains(id),
            final(self).key_set() == old(self).key_set().remove(id),
            forall|o: StreamId|
                o != id && old(self).key_set().contains(o) ==> final(self).key_set().contains(o)
                    && final(self).sender_for(o) == old(self).sender_for(o),
    {
        match self.index_of(id) {
            None => {
                proof {
                    assert(self.key_set() =~= old(self).key_set().remove(id));
                }
                false
            },
            Some(i) => {
                let ghost old_ids = self.ids@;
                let ghost old_txs = self.txs@;
                proof {
                    lemma_chosen_index(self.ids@, id, i as int);
                    assert(self.key_set().contains(id));
                }
                self.ids.remove(i);
                self.txs.remove(i);
                proof {
                    let n = old_ids.len();
                    assert forall|a: int, b: int|
                        0 <= a < self.ids@.len() && 0 <= b < self.ids@.len() && a
                            != b implies self.ids@[a] != self.ids@[b] by {
                        let a0 = if a < i as int { a } else { a + 1 };
                        let b0 = if b < i as int { b } else { b + 1 };
                        assert(self.ids@[a] == old_ids[a0]);
                        assert(self.ids@[b] == old_ids[b0]);
                        assert(old_ids[a0] != old_ids[b0]);
                    }
                    assert(self.key_set() =~= old(self).key_set().remove(id)) by {
                        assert forall|o: StreamId| #[trigger]
                            self.ids@.contains(o) implies old_ids.contains(o) && o != id by {
                            let k = choose|k: int|
                                0 <= k < self.ids@.len() && self.ids@[k] == o;
                            let k0 = if k < i as int { k } else { k + 1 };
                            assert(old_ids[k0] == o);
                            if o == id {
                                assert(old_ids[i as int] == id && k0 != i as int);
                            }
                        }
                        assert forall|o: StreamId|
                            old_ids.contains(o) && o != id implies self.ids@.contains(o) by {
                            let k = choose|k: int| 0 <= k < n && old_ids[k] == o;
                            if k < i as int {
                                assert(self.ids@[k] == o);
                            } else {
                                assert(k != i as int);
                                assert(self.ids@[k - 1] == o);
                            }
                        }
                    }
                    assert forall|o: StreamId|
                        o != id && old(self).key_set().contains(o) implies self.key_set().contains(
                        o,
                    ) && self.sender_for(o) == old(self).sender_for(o) by {
                        let w = choose|k: int| 0 <= k < n && old_ids[k] == o;
                        assert(old_ids[w] == o);
                        lemma_chosen_index(old_ids, o, w);
                        if w < i as int {
                            assert(self.ids@[w] == o);
                            lemma_chosen_index(self.ids@, o, w);
                            assert(self.txs@[w] == old_txs[w]);
                        } else {
                            assert(w != i as int);
                            assert(self.ids@[w - 1] == o);
                            lemma_chosen_index(self.ids@, o, w - 1);
                            assert(self.txs@[w - 1] == old_txs[w]);
                        }
                    }
                }
                true
            },
        }
    }

    /// How many streams are live.
    pub fn len(&self) -> (r: usize)
        requires
            self.wf(),
        ensures
            r == self.key_set().len(),
    {
        proof {
            self.ids@.unique_seq_to_set();
        }
        self.ids.len()
    }
}

/// However the registry was grown and shrunk by `insert_if_absent` and
/// `remove` — both of which keep it well formed — a stream id owns one live
/// entry while it is registered and none while it is not: never more.
pub proof fn lemma_at_most_one_entry(r: &Registry, id: StreamId)
    requires
        r.wf(),
    ensures
        r.entry_count(id) == if r.key_set().contains(id) {
            1nat
        } else {
            0nat
        },
        r.entry_count(id) <= 1,
{
    lemma_count_nodup(r.ids@, id);
}

} // verus!
