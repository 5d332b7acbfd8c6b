//! The connection registry: which connections are live, and the outbound
//! sink each one owns.
//!
//! Abstractly the registry is a map from connection identifier to sink.
//! The registry owns each sink for as long as its connection is registered;
//! `deregister` hands the sink back so the caller can close it. The type is
//! a plain value: callers that share it across tasks put it behind their own
//! lock, and take care to hold that lock only around these operations,
//! never around a send.

use vstd::map::*;
use vstd::prelude::*;

verus! {

/// A live-connection table keyed by identifier, with no identifier
/// registered twice.
pub struct Registry<S> {
    entries: Vec<(u64, S)>,
}

impl<S> Registry<S> {
    /// Some entry carries `id`.
    spec fn spec_has(&self, id: u64) -> bool {
        exists|i: int| 0 <= i < self.entries@.len() && self.entries@[i].0 == id
    }

    /// The position of the entry carrying `id`.
    spec fn spec_index_of(&self, id: u64) -> int {
        choose|i: int| 0 <= i < self.entries@.len() && self.entries@[i].0 == id
    }

    /// No identifier occurs twice. Established by `new`, preserved by every
    /// operation; Verus enforces it as this type's invariant.
    #[verifier::type_invariant]
    spec fn inv(self) -> bool {
        forall|i: int, j: int|
            0 <= i < j < self.entries@.len() ==> self.entries@[i].0 != self.entries@[j].0
    }
}

impl<S> View for Registry<S> {
    type V = Map<u64, S>;

    closed spec fn view(&self) -> Map<u64, S> {
        Map::new(
            |k: u64| self.spec_has(k),
            |k: u64| self.entries@[self.spec_index_of(k)].1,
        )
    }
}

impl<S> Registry<S> {
    /// An empty registry.
    pub fn new() -> (r: Registry<S>)
        ensures
            r@ == Map::<u64, S>::empty(),
    {
        let r = Registry { entries: Vec::new() };
        proof {
            assert(r@ =~= Map::<u64, S>::empty());
        }
        r
    }

    /// The position of the entry carrying `id`, if one does.
    fn find(&self, id: u64) -> (r: Option<usize>)
        ensures
            match r {
                Some(i) => i < self.entries@.len() && self.entries@[i as int].0 == id,
                None => !self.spec_has(id),
            },
    {
        let mut i: usize = 0;
        while i < self.entries.len()
            invariant
                i <= self.entries@.len(),
                forall|j: int| 0 <= j < i ==> self.entries@[j].0 != id,
            decreases self.entries@.len() - i,
        {
            if self.entries[i].0 == id {
                return Some(i);
            }
            i = i + 1;
        }
        None
    }

    /// Whether `id` is registered.
    pub fn contains(&self, id: u64) -> (r: bool)
        ensures
            r == self@.dom().contains(id),
    {
        match self.find(id) {
            Some(i) => {
                proof {
                    assert(self.spec_has(id));
                }
                true
            },
            None => {
                proof {
                    assert(!self@.dom().contains(id));
                }
                false
            },
        }
    }

    /// Inserts a connection. Fails — leaving the registry exactly as it
    /// was — if and only if `id` is already registered: an identifier is
    /// never silently overwritten.
    pub fn register(&mut self, id: u64, sink: S) -> (ok: bool)
        ensures
            ok == !old(self)@.dom().contains(id),
            ok ==> final(self)@ == old(self)@.insert(id, sink),
            !ok ==> *final(self) == *old(self),
    {
        proof {
            use_type_invariant(&*self);
        }
        let present = self.contains(id);
        if present {
            return false;
        }
        let ghost olde = self.entries@;
        let mut entries: Vec<(u64, S)> = Vec::new();
        core::mem::swap(&mut entries, &mut self.entries);
        entries.push((id, sink));
        proof {
            let newe = entries@;
            assert(newe == olde.push((id, sink)));
            assert(!old(self).spec_has(id));
            assert forall|i: int, j: int| 0 <= i < j < newe.len() implies newe[i].0 != newe[j].0 by {
                if j < olde.len() {
                } else {
                    assert(newe[j] == (id, sink));
                    assert(newe[i] == olde[i]);
                }
            }
        }
        self.entries = entries;
        proof {
            let newe = self.entries@;
            assert_maps_equal!(self@, old(self)@.insert(id, sink), k => {
                if k == id {
                    assert(newe[olde.len() as int].0 == id);
                    assert(self.spec_has(id));
                    let ni = self.spec_index_of(id);
                    assert(0 <= ni < newe.len() && newe[ni].0 == id);
                    if ni < olde.len() {
                        assert(olde[ni].0 == id);
                        assert(old(self).spec_has(id));
                    }
                    assert(self@[k] == sink);
                } else {
                    if old(self).spec_has(k) {
                        let oi = old(self).spec_index_of(k);
                        assert(0 <= oi < olde.len() && olde[oi].0 == k);
                        assert(newe[oi].0 == k);
                        assert(self.spec_has(k));
                        let ni = self.spec_index_of(k);
                        assert(0 <= ni < newe.len() && newe[ni].0 == k);
                        assert(ni != olde.len());
                        assert(ni == oi);
                        assert(self@[k] == olde[oi].1);
                        assert(old(self)@[k] == olde[oi].1);
                    }
                    if self.spec_has(k) {
                        let ni = self.spec_index_of(k);
                        assert(0 <= ni < newe.len() && newe[ni].0 == k);
                        assert(ni != olde.len());
                        assert(olde[ni].0 == k);
                        assert(old(self).spec_has(k));
                    }
                }
            });
        }
        true
    }

    /// Removes a connection and hands its sink back. Removing an absent
    /// identifier is a no-op, not an error: cleanup paths may race, and the
    /// second remover must find the registry unchanged.
    pub fn deregister(&mut self, id: u64) -> (r: Option<S>)
        ensures
            final(self)@ == old(self)@.remove(id),
            match r {
                Some(s) => old(self)@.dom().contains(id) && s == old(self)@[id],
                None => !old(self)@.dom().contains(id) && *final(self) == *old(self),
            },
    {
        proof {
            use_type_invariant(&*self);
        }
        match self.find(id) {
            None => {
                proof {
                    assert(!self@.dom().contains(id));
                    assert(self@ =~= self@.remove(id));
                }
                None
            },
            Some(i) => {
                let ghost olde = self.entries@;
                let mut entries: Vec<(u64, S)> = Vec::new();
                core::mem::swap(&mut entries, &mut self.entries);
                let pair = entries.remove(i);
                proof {
                    let newe = entries@;
                    assert(newe == olde.remove(i as int));
                    assert forall|a: int, b: int|
                        0 <= a < b < newe.len() implies newe[a].0 != newe[b].0 by {
                        let oa: int = if a < i { a } else { a + 1 };
                        let ob: int = if b < i { b } else { b + 1 };
                        assert(newe[a] == olde[oa]);
                        assert(newe[b] == olde[ob]);
                    }
                }
                self.entries = entries;
                proof {
                    let newe = self.entries@;
                    assert(olde[i as int].0 == id);
                    assert forall|j: int|
                        0 <= j < olde.len() && j != i implies olde[j].0 != id by {}
                    assert(old(self).spec_has(id));
                    assert(old(self).spec_index_of(id) == i);
                    assert(pair == olde[i as int]);
                    assert(pair.1 == old(self)@[id]);
                    assert_maps_equal!(self@, old(self)@.remove(id), k => {
                        if k != id {
                            if old(self).spec_has(k) {
                                let oi = old(self).spec_index_of(k);
                                assert(0 <= oi < olde.len() && olde[oi].0 == k);
                                assert(oi != i);
                                let nidx: int = if oi < i { oi } else { oi - 1 };
                                assert(newe[nidx] == olde[oi]);
                                assert(self.spec_has(k));
                                let ni = self.spec_index_of(k);
                                assert(0 <= ni < newe.len() && newe[ni].0 == k);
                                assert(ni == nidx);
                                assert(self@[k] == olde[oi].1);
                                assert(old(self)@[k] == olde[oi].1);
                            }
                            if self.spec_has(k) {
                                let ni = self.spec_index_of(k);
                                assert(0 <= ni < newe.len() && newe[ni].0 == k);
                                let oi: int = if ni < i { ni } else { ni + 1 };
                                assert(newe[ni] == olde[oi]);
                                assert(old(self).spec_has(k));
                            }
                        } else {
                            if self.spec_has(k) {
                                let ni = self.spec_index_of(k);
                                assert(0 <= ni < newe.len() && newe[ni].0 == k);
                                let oi: int = if ni < i { ni } else { ni + 1 };
                                assert(newe[ni] == olde[oi]);
                                assert(oi != i);
                            }
                        }
                    });
                }
                Some(pair.1)
            },
        }
    }

    /// The sink registered under `id`, if any, borrowed for the caller's
    /// send.
    pub fn get(&self, id: u64) -> (r: Option<&S>)
        ensures
            match r {
                Some(s) => self@.dom().contains(id) && *s == self@[id],
                None => !self@.dom().contains(id),
            },
    {
        proof {
            use_type_invariant(&*self);
        }
        match self.find(id) {
            Some(i) => {
                proof {
                    assert(self.spec_has(id));
                    let ni = self.spec_index_of(id);
                    assert(0 <= ni < self.entries@.len() && self.entries@[ni].0 == id);
                    assert(ni == i);
                }
                Some(&self.entries[i].1)
            },
            None => None,
        }
    }

    /// A point-in-time delivery plan: every registered identifier other
    /// than `excluded`, each exactly once. The exclusion is by identity
    /// alone.
    pub fn snapshot_except(&self, excluded: u64) -> (r: Vec<u64>)
        ensures
            forall|i: int|
                0 <= i < r@.len() ==> r@[i] != excluded && self@.dom().contains(r@[i]),
            forall|k: u64| self@.dom().contains(k) && k != excluded ==> r@.contains(k),
            forall|i: int, j: int| 0 <= i < j < r@.len() ==> r@[i] != r@[j],
    {
        proof {
            use_type_invariant(&*self);
        }
        let mut r: Vec<u64> = Vec::new();
        let mut i: usize = 0;
        while i < self.entries.len()
            invariant
                i <= self.entries@.len(),
                self.inv(),
                forall|a: int| 0 <= a < r@.len() ==> #[trigger] r@[a] != excluded,
                forall|a: int| 0 <= a < r@.len() ==> self.spec_has(#[trigger] r@[a]),
                forall|a: int|
                    0 <= a < r@.len() ==> exists|j: int|
                        0 <= j < i && self.entries@[j].0 == #[trigger] r@[a],
                forall|j: int|
                    0 <= j < i && self.entries@[j].0 != excluded ==> r@.contains(
                        #[trigger] self.entries@[j].0,
                    ),
                forall|a: int, b: int| 0 <= a < b < r@.len() ==> r@[a] != r@[b],
            decreases self.entries@.len() - i,
        {
            let id = self.entries[i].0;
            if id != excluded {
                let ghost r_old = r@;
                proof {
                    assert(self.spec_has(id));
                    assert forall|a: int| 0 <= a < r_old.len() implies r_old[a] != id by {
                        let j = choose|j: int| 0 <= j < i && self.entries@[j].0 == r_old[a];
                        assert(self.entries@[j].0 != self.entries@[i as int].0);
                    }
                }
                r.push(id);
                proof {
                    let rl = r@.len() as int;
                    assert(r@[rl - 1] == id);
                    assert forall|a: int|
                        0 <= a < r@.len() implies #[trigger] r@[a] != excluded && self.spec_has(
                        r@[a],
                    ) by {
                        if a < rl - 1 {
                            assert(r@[a] == r_old[a]);
                            assert(r_old[a] != excluded);
                            assert(self.spec_has(r_old[a]));
                        } else {
                            assert(r@[a] == id);
                            assert(self.spec_has(id));
                        }
                    }
                    assert forall|a: int| 0 <= a < r@.len() implies exists|j: int|
                        0 <= j < i + 1 && self.entries@[j].0 == #[trigger] r@[a] by {
                        if a < rl - 1 {
                            assert(r@[a] == r_old[a]);
                            let j = choose|j: int| 0 <= j < i && self.entries@[j].0 == r_old[a];
                            assert(0 <= j < i + 1 && self.entries@[j].0 == r@[a]);
                        } else {
                            assert(self.entries@[i as int].0 == r@[a]);
                        }
                    }
                    assert forall|j: int|
                        0 <= j < i + 1 && self.entries@[j].0 != excluded implies r@.contains(
                        #[trigger] self.entries@[j].0,
                    ) by {
                        if j < i {
                            let a = choose|a: int|
                                0 <= a < r_old.len() && r_old[a] == self.entries@[j].0;
                            assert(r@[a] == self.entries@[j].0);
                        } else {
                            assert(r@[rl - 1] == self.entries@[j].0);
                        }
                    }
                    assert forall|a: int, b: int|
                        0 <= a < b < r@.len() implies r@[a] != r@[b] by {
                        if b < rl - 1 {
                            assert(r@[a] == r_old[a] && r@[b] == r_old[b]);
                        } else {
                            assert(r@[a] == r_old[a] && r@[b] == id);
                        }
                    }
                }
            } else {
                proof {
                    assert forall|j: int|
                        0 <= j < i + 1 && self.entries@[j].0 != excluded implies r@.contains(
                        #[trigger] self.entries@[j].0,
                    ) by {
                        if j < i {
                        } else {
                            assert(self.entries@[j].0 == excluded);
                        }
                    }
                }
            }
            i = i + 1;
        }
        proof {
            assert forall|k: u64| self@.dom().contains(k) && k != excluded implies r@.contains(
                k,
            ) by {
                assert(self.spec_has(k));
                let j = self.spec_index_of(k);
                assert(self.entries@[j].0 == k);
            }
        }
        r
    }

    /// A fresh identifier: one greater than the largest live identifier,
    /// guaranteed not to be registered. Exhausted only when the largest
    /// possible identifier is itself live.
    pub fn mint_id(&self) -> (r: Option<u64>)
        ensures
            match r {
                Some(id) => !self@.dom().contains(id),
                None => self@.dom().contains(u64::MAX),
            },
    {
        let mut m: u64 = 0;
        let mut i: usize = 0;
        while i < self.entries.len()
            invariant
                i <= self.entries@.len(),
                forall|j: int| 0 <= j < i ==> self.entries@[j].0 < m,
            decreases self.entries@.len() - i,
        {
            let id = self.entries[i].0;
            if id == u64::MAX {
                proof {
                    assert(self.spec_has(u64::MAX));
                }
                return None;
            }
            if id >= m {
                m = id + 1;
            }
            i = i + 1;
        }
        proof {
            if self.spec_has(m) {
                let j = self.spec_index_of(m);
                assert(self.entries@[j].0 == m);
            }
        }
        Some(m)
    }
}

/// Idempotent deregistration: removing an identifier a second time leaves
/// the registry exactly where the first removal left it, whatever else the
/// map holds.
pub proof fn lemma_deregister_idempotent<S>(m: Map<u64, S>, id: u64)
    ensures
        m.remove(id).remove(id) == m.remove(id),
{
    assert(m.remove(id).remove(id) =~= m.remove(id));
}

/// Registration uniqueness: a registered identifier differs from every
/// identifier that is not registered — in particular from a freshly minted
/// one — so no two live connections ever share an identifier.
pub proof fn lemma_fresh_id_unique<S>(m: Map<u64, S>, fresh: u64)
    requires
        !m.dom().contains(fresh),
    ensures
        forall|k: u64| m.dom().contains(k) ==> k != fresh,
{
}

} // verus!
