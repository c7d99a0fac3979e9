//! The storage the node answers requests from: message bytes keyed by identifier.
use crate::packet::MessageId;
use crate::requester::RequestKey;
use crate::requester::same_key;
use vstd::prelude::*;

verus! {

/// A key-value store of message bytes by message identifier.
pub trait StorageBackend {
    /// What the store holds.
    spec fn stored(&self) -> Map<MessageId, Seq<u8>>;

    /// The store's own consistency, kept by every operation.
    spec fn inv(&self) -> bool;

    /// Whether a value is stored under `id`.
    fn exist(&self, id: &MessageId) -> (r: bool)
        requires
            self.inv(),
        ensures
            r == self.stored().contains_key(*id),
    ;

    /// The value stored under `id`, if any.
    fn fetch(&self, id: &MessageId) -> (r: Option<Vec<u8>>)
        requires
            self.inv(),
        ensures
            match r {
                Some(v) => self.stored().contains_key(*id) && v@ == self.stored()[*id],
                None => !self.stored().contains_key(*id),
            },
    ;

    /// Stores `value` under `id`, replacing what was there.
    fn insert(&mut self, id: &MessageId, value: &[u8])
        requires
            old(self).inv(),
        ensures
            final(self).inv(),
            final(self).stored() == old(self).stored().insert(*id, value@),
    ;

    /// Every stored pair, each identifier once.
    fn iter(&self) -> (r: Vec<(MessageId, Vec<u8>)>)
        requires
            self.inv(),
        ensures
            forall|i: int|
                #![trigger r@[i]]
                0 <= i < r@.len() ==> self.stored().contains_key(r@[i].0) && self.stored()[r@[i].0]
                    == r@[i].1@,
            forall|k: MessageId| #[trigger]
                self.stored().contains_key(k) ==> exists|i: int| 0 <= i < r@.len() && r@[i].0 == k,
            forall|i: int, j: int|
                #![trigger r@[i], r@[j]]
                0 <= i < j < r@.len() ==> r@[i].0 != r@[j].0,
    ;

    /// Removes everything.
    fn truncate(&mut self)
        requires
            old(self).inv(),
        ensures
            final(self).inv(),
            final(self).stored() == Map::<MessageId, Seq<u8>>::empty(),
    ;

    /// Removes what is stored under `id`, if anything.
    fn delete(&mut self, id: &MessageId)
        requires
            old(self).inv(),
        ensures
            final(self).inv(),
            final(self).stored() == old(self).stored().remove(*id),
    ;
}

/// Whether two identifiers are the same.
pub fn same_id(a: &MessageId, b: &MessageId) -> (r: bool)
    ensures
        r == (*a == *b),
{
    same_key(&RequestKey::Message(*a), &RequestKey::Message(*b))
}

/// A store held in memory.
pub struct MemoryStorage {
    items: Vec<(MessageId, Vec<u8>)>,
    contents: Ghost<Map<MessageId, Seq<u8>>>,
}

impl MemoryStorage {
    /// Each identifier stands once, and the entries are exactly what the store holds.
    pub closed spec fn wf(self) -> bool {
        &&& forall|i: int, j: int|
            #![trigger self.items@[i], self.items@[j]]
            0 <= i < j < self.items@.len() ==> self.items@[i].0 != self.items@[j].0
        &&& forall|i: int|
            #![trigger self.items@[i]]
            0 <= i < self.items@.len() ==> self.contents@.contains_key(self.items@[i].0)
                && self.contents@[self.items@[i].0] == self.items@[i].1@
        &&& forall|k: MessageId| #[trigger]
            self.contents@.contains_key(k) ==> exists|i: int|
                0 <= i < self.items@.len() && self.items@[i].0 == k
    }

    /// An empty store.
    pub fn new() -> (r: Self)
        ensures
            r.inv(),
            r.stored() == Map::<MessageId, Seq<u8>>::empty(),
    {
        MemoryStorage { items: Vec::new(), contents: Ghost(Map::empty()) }
    }

    /// Position of the entry for `id`, if any.
    fn position(&self, id: &MessageId) -> (r: Option<usize>)
        requires
            self.wf(),
        ensures
            match r {
                Some(i) => i < self.items@.len() && self.items@[i as int].0 == *id,
                None => !self.stored().contains_key(*id),
            },
    {
        let mut i: usize = 0;
        while i < self.items.len()
            invariant
                i <= self.items@.len(),
                forall|j: int| 0 <= j < i ==> self.items@[j].0 != *id,
            decreases self.items@.len() - i,
        {
            if same_id(&self.items[i].0, id) {
                return Some(i);
            }
            i = i + 1;
        }
        None
    }
}

impl StorageBackend for MemoryStorage {
    closed spec fn stored(&self) -> Map<MessageId, Seq<u8>> {
        self.contents@
    }

    closed spec fn inv(&self) -> bool {
        self.wf()
    }

    fn exist(&self, id: &MessageId) -> (r: bool) {
        self.position(id).is_some()
    }

    fn fetch(&self, id: &MessageId) -> (r: Option<Vec<u8>>) {
        match self.position(id) {
            Some(i) => Some(copy_bytes(&self.items[i].1)),
            None => None,
        }
    }

    fn insert(&mut self, id: &MessageId, value: &[u8]) {
        let ghost old_items = self.items@;
        let ghost old_contents = self.contents@;
        let v = vstd::slice::slice_to_vec(value);
        match self.position(id) {
            Some(i) => {
                self.items.set(i, (*id, v));
                self.contents = Ghost(self.contents@.insert(*id, value@));
                proof {
                    let items = self.items@;
                    assert forall|j: int| #![trigger items[j]] 0 <= j < items.len() && j != i implies items[j] == old_items[j]
                        && items[j].0 != *id by {
                        if j < i {
                            assert(old_items[j].0 != old_items[i as int].0);
                        } else {
                            assert(old_items[i as int].0 != old_items[j].0);
                        }
                    }
                    assert forall|k: MessageId| #[trigger] self.contents@.contains_key(k) implies exists|j: int|
                        0 <= j < items.len() && items[j].0 == k by {
                        if k == *id {
                            assert(items[i as int].0 == k);
                        } else {
                            let j = choose|j: int| 0 <= j < old_items.len() && old_items[j].0 == k;
                            assert(items[j].0 == k);
                        }
                    }
                }
            },
            None => {
                self.items.push((*id, v));
                self.contents = Ghost(self.contents@.insert(*id, value@));
                proof {
                    let items = self.items@;
                    let n = old_items.len() as int;
                    assert forall|j: int| #![trigger items[j]] 0 <= j < n implies items[j] == old_items[j]
                        && items[j].0 != *id by {
                        assert(old_contents.contains_key(old_items[j].0));
                    }
                    assert forall|k: MessageId| #[trigger] self.contents@.contains_key(k) implies exists|j: int|
                        0 <= j < items.len() && items[j].0 == k by {
                        if k == *id {
                            assert(items[n].0 == k);
                        } else {
                            let j = choose|j: int| 0 <= j < old_items.len() && old_items[j].0 == k;
                            assert(items[j].0 == k);
                        }
                    }
                }
            },
        }
    }

    fn iter(&self) -> (r: Vec<(MessageId, Vec<u8>)>) {
        let mut out: Vec<(MessageId, Vec<u8>)> = Vec::new();
        let mut i: usize = 0;
        while i < self.items.len()
            invariant
                self.wf(),
                i <= self.items@.len(),
                out@.len() == i,
                forall|j: int| #![trigger out@[j]] 0 <= j < i ==> out@[j].0 == self.items@[j].0
                    && out@[j].1@ == self.items@[j].1@,
            decreases self.items@.len() - i,
        {
            let pair = (self.items[i].0, copy_bytes(&self.items[i].1));
            out.push(pair);
            i = i + 1;
        }
        proof {
            assert forall|k: MessageId| #[trigger] self.contents@.contains_key(k) implies exists|j: int|
                0 <= j < out@.len() && out@[j].0 == k by {
                let j = choose|j: int| 0 <= j < self.items@.len() && self.items@[j].0 == k;
                assert(out@[j].0 == k);
            }
            assert forall|a: int, b: int| #![trigger out@[a], out@[b]] 0 <= a < b < out@.len() implies out@[a].0
                != out@[b].0 by {
                assert(self.items@[a].0 != self.items@[b].0);
            }
            assert forall|a: int| #![trigger out@[a]] 0 <= a < out@.len() implies self.contents@.contains_key(out@[a].0)
                && self.contents@[out@[a].0] == out@[a].1@ by {
                assert(self.items@[a].0 == out@[a].0);
            }
        }
        out
    }

    fn truncate(&mut self) {
        self.items = Vec::new();
        self.contents = Ghost(Map::empty());
    }

    fn delete(&mut self, id: &MessageId) {
        let ghost old_items = self.items@;
        let ghost old_contents = self.contents@;
        match self.position(id) {
            Some(i) => {
                self.items.remove(i);
                self.contents = Ghost(self.contents@.remove(*id));
                proof {
                    let items = self.items@;
                    assert forall|j: int| #![trigger items[j]] 0 <= j < items.len() implies items[j]
                        == old_items[if j < i { j } else { j + 1 }] && items[j].0 != *id by {
                        let m = if j < i { j } else { j + 1 };
                        if m < i {
                            assert(old_items[m].0 != old_items[i as int].0);
                        } else {
                            assert(old_items[i as int].0 != old_items[m].0);
                        }
                    }
                    assert forall|a: int, b: int| #![trigger items[a], items[b]] 0 <= a < b < items.len() implies items[a].0
                        != items[b].0 by {
                        let a2 = if a < i { a } else { a + 1 };
                        let b2 = if b < i { b } else { b + 1 };
                        assert(old_items[a2].0 != old_items[b2].0);
                    }
                    assert forall|k: MessageId| #[trigger] self.contents@.contains_key(k) implies exists|j: int|
                        0 <= j < items.len() && items[j].0 == k by {
                        let j = choose|j: int| 0 <= j < old_items.len() && old_items[j].0 == k;
                        assert(j != i);
                        if j < i {
                            assert(items[j].0 == k);
                        } else {
                            assert(items[j - 1].0 == k);
                        }
                    }
                }
            },
            None => {
                proof {
                    assert(self.contents@.remove(*id) =~= self.contents@);
                }
            },
        }
    }
}

/// The values stored under each of `ids`, in order.
pub fn multi_fetch<S: StorageBackend>(storage: &S, ids: &Vec<MessageId>) -> (r: Vec<Option<Vec<u8>>>)
    requires
        storage.inv(),
    ensures
        r@.len() == ids@.len(),
        forall|i: int|
            #![trigger r@[i]]
            0 <= i < r@.len() ==> match r@[i] {
                Some(v) => storage.stored().contains_key(ids@[i]) && v@ == storage.stored()[ids@[i]],
                None => !storage.stored().contains_key(ids@[i]),
            },
{
    let mut out: Vec<Option<Vec<u8>>> = Vec::new();
    let mut i: usize = 0;
    while i < ids.len()
        invariant
            storage.inv(),
            i <= ids@.len(),
            out@.len() == i,
            forall|j: int|
                #![trigger out@[j]]
                0 <= j < i ==> match out@[j] {
                    Some(v) => storage.stored().contains_key(ids@[j]) && v@ == storage.stored()[ids@[j]],
                    None => !storage.stored().contains_key(ids@[j]),
                },
        decreases ids@.len() - i,
    {
        let v = storage.fetch(&ids[i]);
        out.push(v);
        i = i + 1;
    }
    out
}

/// A copy of a byte vector.
fn copy_bytes(v: &Vec<u8>) -> (r: Vec<u8>)
    ensures
        r@ == v@,
{
    vstd::slice::slice_to_vec(v.as_slice())
}

} // verus!
