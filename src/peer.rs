//! Registry of connected peers, with a fair, insertion-ordered iteration.
use std::collections::HashMap;
use vstd::prelude::*;

verus! {

broadcast use vstd::std_specs::hash::group_hash_axioms;

/// Identifier of a peer connection, unique among the connections of this node.
pub type PeerId = u64;

/// The connected peers, each with the entry (channels, handles) its connection owns.
///
/// A lookup table and the list of identifiers in order of arrival are kept in one
/// structure: the list serves fair iteration, which a hashed table's order does not give.
pub struct PeerManager<E> {
    peers: HashMap<PeerId, E>,
    peers_keys: Vec<PeerId>,
}

impl<E> PeerManager<E> {
    /// The identifiers of the table are those of the list, and the list holds each once.
    pub closed spec fn wf(self) -> bool {
        &&& forall|id: PeerId| #[trigger]
            self.peers@.contains_key(id) <==> self.peers_keys@.contains(id)
        &&& self.peers_keys@.no_duplicates()
    }

    /// The entry of each connected peer.
    pub closed spec fn entries(self) -> Map<PeerId, E> {
        self.peers@
    }

    /// The connected peers' identifiers, in order of arrival.
    pub closed spec fn order(self) -> Seq<PeerId> {
        self.peers_keys@
    }

    /// The table and the ordered list always name the same peers, each once.
    pub proof fn lemma_consistent(&self)
        requires
            self.wf(),
        ensures
            self.entries().dom() == self.order().to_set(),
            self.order().no_duplicates(),
            self.entries().dom().len() == self.order().len(),
    {
        assert(self.entries().dom() =~= self.order().to_set());
        self.order().unique_seq_to_set();
    }

    /// An empty registry.
    pub fn new() -> (r: Self)
        ensures
            r.wf(),
            r.entries() == Map::<PeerId, E>::empty(),
            r.order() == Seq::<PeerId>::empty(),
    {
        PeerManager { peers: HashMap::new(), peers_keys: Vec::new() }
    }

    /// Whether no peer is connected.
    pub fn is_empty(&self) -> (r: bool)
        requires
            self.wf(),
        ensures
            r == (self.order().len() == 0),
            r == self.entries().is_empty(),
    {
        proof {
            self.lemma_consistent();
            if self.order().len() != 0 {
                assert(self.entries().contains_key(self.order()[0]));
            }
        }
        self.peers_keys.len() == 0
    }

    /// Whether a peer with this identifier is connected.
    pub fn contains(&self, id: PeerId) -> (r: bool)
        requires
            self.wf(),
        ensures
            r == self.entries().contains_key(id),
    {
        self.peers.contains_key(&id)
    }

    /// The entry of a connected peer, or nothing if the peer is not connected.
    pub fn get(&self, id: PeerId) -> (r: Option<&E>)
        requires
            self.wf(),
        ensures
            match r {
                Some(e) => self.entries().contains_key(id) && *e == self.entries()[id],
                None => !self.entries().contains_key(id),
            },
    {
        self.peers.get(&id)
    }

    /// The connected peers' identifiers in order of arrival: the order of fair iteration.
    pub fn peers_keys(&self) -> (r: &Vec<PeerId>)
        requires
            self.wf(),
        ensures
            r@ == self.order(),
    {
        &self.peers_keys
    }

    /// Registers a peer at the end of the iteration order.
    ///
    /// A second registration under an identifier that is already connected is refused:
    /// the registry is left as it is and the entry is handed back.
    pub fn add(&mut self, id: PeerId, entry: E) -> (r: Result<(), E>)
        requires
            old(self).wf(),
        ensures
            final(self).wf(),
            old(self).entries().contains_key(id) ==> {
                &&& r matches Err(e) && e == entry
                &&& final(self).entries() == old(self).entries()
                &&& final(self).order() == old(self).order()
            },
            !old(self).entries().contains_key(id) ==> {
                &&& r is Ok
                &&& final(self).entries() == old(self).entries().insert(id, entry)
                &&& final(self).order() == old(self).order().push(id)
            },
    {
        if self.peers.contains_key(&id) {
            return Err(entry);
        }
        self.peers_keys.push(id);
        self.peers.insert(id, entry);
        proof {
            assert forall|k: PeerId| #[trigger]
                self.peers@.contains_key(k) <==> self.peers_keys@.contains(k) by {
                if k != id {
                    assert(old(self).peers_keys@.contains(k) ==> self.peers_keys@.contains(k)) by {
                        if old(self).peers_keys@.contains(k) {
                            let i = choose|i: int|
                                0 <= i < old(self).peers_keys@.len() && old(self).peers_keys@[i] == k;
                            assert(self.peers_keys@[i] == k);
                        }
                    }
                    assert(self.peers_keys@.contains(k) ==> old(self).peers_keys@.contains(k)) by {
                        if self.peers_keys@.contains(k) {
                            let i = choose|i: int|
                                0 <= i < self.peers_keys@.len() && self.peers_keys@[i] == k;
                            assert(old(self).peers_keys@[i] == k);
                        }
                    }
                } else {
                    assert(self.peers_keys@[self.peers_keys@.len() - 1] == id);
                }
            }
        }
        Ok(())
    }

    /// Unregisters a peer and hands back its entry; nothing happens if it is not connected.
    pub fn remove(&mut self, id: PeerId) -> (r: Option<E>)
        requires
            old(self).wf(),
        ensures
            final(self).wf(),
            old(self).entries().contains_key(id) ==> {
                &&& r == Some(old(self).entries()[id])
                &&& final(self).entries() == old(self).entries().remove(id)
                &&& exists|i: int|
                    0 <= i < old(self).order().len() && old(self).order()[i] == id
                        && final(self).order() == old(self).order().remove(i)
            },
            !old(self).entries().contains_key(id) ==> {
                &&& r is None
                &&& final(self).entries() == old(self).entries()
                &&& final(self).order() == old(self).order()
            },
    {
        let mut i: usize = 0;
        while i < self.peers_keys.len() && self.peers_keys[i] != id
            invariant
                i <= self.peers_keys@.len(),
                forall|j: int| 0 <= j < i ==> self.peers_keys@[j] != id,
            decreases self.peers_keys@.len() - i,
        {
            i = i + 1;
        }
        if i == self.peers_keys.len() {
            return None;
        }
        let ghost keys = self.peers_keys@;
        self.peers_keys.remove(i);
        let r = self.peers.remove(&id);
        proof {
            assert(keys[i as int] == id);
            assert(self.peers_keys@ == keys.remove(i as int));
            assert(keys == old(self).order());
            assert(0 <= i < old(self).order().len() && old(self).order()[i as int] == id
                && self.order() == old(self).order().remove(i as int));
            assert forall|k: PeerId| #[trigger]
                self.peers@.contains_key(k) <==> self.peers_keys@.contains(k) by {
                keys.remove_ensures(i as int);
                if keys.contains(k) && k != id {
                    let j = choose|j: int| 0 <= j < keys.len() && keys[j] == k;
                    if j < i {
                        assert(self.peers_keys@[j] == k);
                    } else {
                        assert(self.peers_keys@[j - 1] == k);
                    }
                }
                if self.peers_keys@.contains(k) {
                    let j = choose|j: int| 0 <= j < self.peers_keys@.len() && self.peers_keys@[j] == k;
                    if j < i {
                        assert(keys[j] == k);
                    } else {
                        assert(keys[j + 1] == k);
                    }
                }
            }
            keys.remove_ensures(i as int);
            assert forall|a: int, b: int|
                0 <= a < b < self.peers_keys@.len() implies self.peers_keys@[a]
                != self.peers_keys@[b] by {
                let a2 = if a < i { a } else { a + 1 };
                let b2 = if b < i { b } else { b + 1 };
                assert(keys[a2] != keys[b2]);
            }
        }
        r
    }

    /// Number of connected peers, saturated at `u8::MAX`.
    pub fn connected_peers(&self) -> (r: u8)
        requires
            self.wf(),
        ensures
            r as nat == if self.order().len() > u8::MAX { u8::MAX as nat } else { self.order().len() },
    {
        let n = self.peers_keys.len();
        if n > u8::MAX as usize {
            u8::MAX
        } else {
            n as u8
        }
    }

    /// Number of synchronized peers. No connection reports its synchronization state to
    /// the registry, so no peer counts as synchronized.
    pub fn synced_peers(&self) -> (r: u8)
        requires
            self.wf(),
        ensures
            r == 0,
    {
        0
    }
}

} // verus!
