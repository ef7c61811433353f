//! Peer identities and duplicate-free sets of them that remember arrival order.

use vstd::prelude::*;

verus! {

/// Identity of a remote participant: the bytes its transport identity encodes to.
/// Two identities are the same peer exactly when their bytes are equal.
#[derive(Debug, Clone, PartialEq, Eq, Hash)]
pub struct PeerId {
    pub bytes: Vec<u8>,
}

impl View for PeerId {
    type V = Seq<u8>;

    open spec fn view(&self) -> Seq<u8> {
        self.bytes@
    }
}

impl PeerId {
    pub fn new(bytes: Vec<u8>) -> (r: PeerId)
        ensures
            r@ == bytes@,
    {
        PeerId { bytes }
    }

    /// Whether both identities name the same peer.
    pub fn same(&self, other: &PeerId) -> (r: bool)
        ensures
            r == (self@ == other@),
    {
        if self.bytes.len() != other.bytes.len() {
            return false;
        }
        let mut i: usize = 0;
        while i < self.bytes.len()
            invariant
                i <= self.bytes.len(),
                self.bytes.len() == other.bytes.len(),
                forall|k: int| 0 <= k < i ==> self.bytes@[k] == other.bytes@[k],
            decreases self.bytes.len() - i,
        {
            if self.bytes[i] != other.bytes[i] {
                return false;
            }
            i += 1;
        }
        assert(self.bytes@ =~= other.bytes@);
        true
    }

    /// A second value for the same peer.
    pub fn duplicate(&self) -> (r: PeerId)
        ensures
            r@ == self@,
    {
        let mut bytes: Vec<u8> = Vec::new();
        let mut i: usize = 0;
        while i < self.bytes.len()
            invariant
                i <= self.bytes.len(),
                bytes@ == self.bytes@.take(i as int),
            decreases self.bytes.len() - i,
        {
            bytes.push(self.bytes[i]);
            assert(self.bytes@.take(i as int).push(self.bytes@[i as int])
                =~= self.bytes@.take(i + 1));
            i += 1;
        }
        assert(self.bytes@.take(i as int) =~= self.bytes@);
        PeerId { bytes }
    }
}

/// The identities of `s` in order, with the one equal to `id` taken out.
pub open spec fn without(s: Seq<Seq<u8>>, id: Seq<u8>) -> Seq<Seq<u8>> {
    if s.contains(id) {
        s.remove(s.index_of(id))
    } else {
        s
    }
}

/// The identities of `s` in order, with `id` appended unless already present.
pub open spec fn with_peer(s: Seq<Seq<u8>>, id: Seq<u8>) -> Seq<Seq<u8>> {
    if s.contains(id) {
        s
    } else {
        s.push(id)
    }
}

/// Appending an absent identity adds it to the set and keeps the sequence duplicate-free.
pub proof fn lemma_with_peer(s: Seq<Seq<u8>>, id: Seq<u8>)
    requires
        s.no_duplicates(),
    ensures
        with_peer(s, id).no_duplicates(),
        with_peer(s, id).to_set() == s.to_set().insert(id),
{
    let t = with_peer(s, id);
    assert forall|x: Seq<u8>| t.to_set().contains(x) == s.to_set().insert(id).contains(x) by {
        if s.contains(id) {
        } else {
            if t.contains(x) {
                let k = choose|k: int| 0 <= k < t.len() && t[k] == x;
                if k < s.len() {
                    assert(s[k] == x);
                }
            }
            if s.contains(x) {
                let k = choose|k: int| 0 <= k < s.len() && s[k] == x;
                assert(t[k] == x);
            }
            if x == id {
                assert(t[s.len() as int] == x);
            }
        }
    }
    assert(t.to_set() =~= s.to_set().insert(id));
}

/// Taking an identity out removes it from the set and keeps the sequence duplicate-free.
pub proof fn lemma_without(s: Seq<Seq<u8>>, id: Seq<u8>)
    requires
        s.no_duplicates(),
    ensures
        without(s, id).no_duplicates(),
        without(s, id).to_set() == s.to_set().remove(id),
        !without(s, id).contains(id),
{
    let t = without(s, id);
    if s.contains(id) {
        let i = s.index_of(id);
        assert(0 <= i < s.len() && s[i] == id);
        assert forall|k: int| 0 <= k < t.len() implies t[k] == s[if k < i { k } else { k + 1 }] by {}
        assert forall|x: Seq<u8>| t.to_set().contains(x) == s.to_set().remove(id).contains(x) by {
            if t.contains(x) {
                let k = choose|k: int| 0 <= k < t.len() && t[k] == x;
                let j = if k < i { k } else { k + 1 };
                assert(s[j] == x);
                assert(j != i);
            }
            if s.contains(x) && x != id {
                let j = choose|j: int| 0 <= j < s.len() && s[j] == x;
                let k = if j < i { j } else { j - 1 };
                assert(t[k] == x);
            }
        }
        assert(t.to_set() =~= s.to_set().remove(id));
        assert(!t.to_set().contains(id));
    } else {
        assert(t.to_set() =~= s.to_set().remove(id));
    }
}

/// A set of peers without duplicates, kept in the order in which they were added.
#[derive(Debug)]
pub struct PeerSet {
    items: Vec<PeerId>,
}

impl PeerSet {
    /// The identities held, oldest first.
    pub closed spec fn order(&self) -> Seq<Seq<u8>> {
        Seq::new(self.items@.len(), |i: int| self.items@[i]@)
    }

    /// The identities held, as a set.
    pub open spec fn ids(&self) -> Set<Seq<u8>> {
        self.order().to_set()
    }

    /// No identity is held twice.
    pub open spec fn wf(&self) -> bool {
        self.order().no_duplicates()
    }

    pub fn new() -> (r: PeerSet)
        ensures
            r.wf(),
            r.order() == Seq::<Seq<u8>>::empty(),
            r.ids() == Set::<Seq<u8>>::empty(),
    {
        let r = PeerSet { items: Vec::new() };
        assert(r.order() =~= Seq::<Seq<u8>>::empty());
        assert(r.ids() =~= Set::<Seq<u8>>::empty());
        r
    }

    pub fn len(&self) -> (r: usize)
        ensures
            r == self.order().len(),
    {
        self.items.len()
    }

    pub fn is_empty(&self) -> (r: bool)
        ensures
            r == (self.order().len() == 0),
    {
        self.items.len() == 0
    }

    /// The peer at position `i` of the arrival order.
    pub fn get(&self, i: usize) -> (r: &PeerId)
        requires
            i < self.order().len(),
        ensures
            r@ == self.order()[i as int],
    {
        &self.items[i]
    }

    /// The position of `id` in the arrival order, if it is held.
    pub fn position(&self, id: &PeerId) -> (r: Option<usize>)
        ensures
            r is Some <==> self.order().contains(id@),
            r matches Some(i) ==> i < self.order().len() && self.order()[i as int] == id@
                && forall|k: int| 0 <= k < i ==> self.order()[k] != id@,
    {
        let mut i: usize = 0;
        while i < self.items.len()
            invariant
                i <= self.items.len(),
                forall|k: int| 0 <= k < i ==> self.order()[k] != id@,
            decreases self.items.len() - i,
        {
            if self.items[i].same(id) {
                assert(self.order()[i as int] == id@);
                return Some(i);
            }
            i += 1;
        }
        None
    }

    pub fn contains(&self, id: &PeerId) -> (r: bool)
        ensures
            r == self.order().contains(id@),
            r == self.ids().contains(id@),
    {
        self.position(id).is_some()
    }

    /// Adds `id` at the end unless it is already held; tells whether it was added.
    pub fn insert(&mut self, id: PeerId) -> (r: bool)
        requires
            old(self).wf(),
        ensures
            final(self).wf(),
            final(self).order() == with_peer(old(self).order(), id@),
            final(self).ids() == old(self).ids().insert(id@),
            r == !old(self).order().contains(id@),
    {
        proof {
            lemma_with_peer(self.order(), id@);
        }
        if self.contains(&id) {
            false
        } else {
            let ghost before = self.order();
            self.items.push(id);
            assert(self.order() =~= before.push(id@));
            true
        }
    }

    /// Takes `id` out if it is held; tells whether it was.
    pub fn remove(&mut self, id: &PeerId) -> (r: bool)
        requires
            old(self).wf(),
        ensures
            final(self).wf(),
            final(self).order() == without(old(self).order(), id@),
            final(self).ids() == old(self).ids().remove(id@),
            r == old(self).order().contains(id@),
    {
        proof {
            lemma_without(self.order(), id@);
        }
        match self.position(id) {
            Some(i) => {
                let ghost before = self.order();
                assert(before.index_of(id@) == i as int) by {
                    let j = before.index_of(id@);
                    assert(0 <= j < before.len() && before[j] == id@);
                }
                self.items.remove(i);
                assert(self.order() =~= before.remove(i as int));
                true
            },
            None => false,
        }
    }
}

} // verus!
