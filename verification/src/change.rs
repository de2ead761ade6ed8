use vstd::prelude::*;
use std::collections::HashMap;

verus! {

broadcast use vstd::std_specs::hash::group_hash_axioms;

/// One change to a property: the value before the first change of a series,
/// and the value after the last.
pub struct PropertyChange<Val> {
    pub key: u64,
    pub old_value: Option<Val>,
    pub new_value: Val,
}

/// Something that collects property changes.
pub trait ChangeCollector<Val> {
    /// Records that property `key` went from `old_value` to `new_value`.
    fn record_change(&mut self, key: u64, old_value: Option<Val>, new_value: Val);
}

/// The change held for `key` once `old_value -> new_value` is recorded over
/// the changes `m`: a change already held keeps its old value and takes the
/// new one.
pub open spec fn merged_change<Val>(
    m: Map<u64, PropertyChange<Val>>,
    key: u64,
    old_value: Option<Val>,
    new_value: Val,
) -> PropertyChange<Val> {
    if m.contains_key(key) {
        PropertyChange { key, old_value: m[key].old_value, new_value }
    } else {
        PropertyChange { key, old_value, new_value }
    }
}

/// Property changes indexed by property key, at most one per key.
pub struct ChangeMap<Val> {
    changes: HashMap<u64, PropertyChange<Val>>,
    order: Vec<u64>,
}

impl<Val> ChangeMap<Val> {
    /// The change held for each key.
    pub closed spec fn changes(&self) -> Map<u64, PropertyChange<Val>> {
        self.changes@
    }

    /// The keys held, in the order their first change was recorded.
    pub closed spec fn change_order(&self) -> Seq<u64> {
        self.order@
    }

    /// Each key is listed once in the change order, every held change sits
    /// under its own key; every `ChangeMap` keeps this.
    #[verifier::type_invariant]
    pub open spec fn wf(&self) -> bool {
        &&& self.change_order().no_duplicates()
        &&& forall|k: u64| #[trigger]
            self.changes().contains_key(k) <==> self.change_order().contains(k)
        &&& forall|k: u64| #[trigger]
            self.changes().contains_key(k) ==> self.changes()[k].key == k
    }

    pub fn new() -> (r: Self)
        ensures
            r.changes() == Map::<u64, PropertyChange<Val>>::empty(),
            r.change_order() == Seq::<u64>::empty(),
    {
        ChangeMap { changes: HashMap::new(), order: Vec::new() }
    }

    /// Whether no change is held.
    pub fn is_empty(&self) -> (r: bool)
        ensures
            r == (self.changes().dom() == Set::<u64>::empty()),
    {
        proof {
            use_type_invariant(self);
            if self.order@.len() > 0 {
                assert(self.changes().contains_key(self.order@[0]));
            }
            if self.changes().dom() != Set::<u64>::empty() {
                let k = choose|k: u64| #[trigger] self.changes().dom().contains(k);
                assert(self.changes().dom().contains(k)) by {
                    assert(!(self.changes().dom() =~= Set::<u64>::empty()));
                }
                assert(self.change_order().contains(k));
            }
        }
        self.order.len() == 0
    }

    /// Whether a change is held for `key`.
    pub fn contains_key(&self, key: u64) -> (r: bool)
        ensures
            r == self.changes().contains_key(key),
    {
        self.changes.contains_key(&key)
    }

    /// Takes every held change out, in the order of their keys' first change.
    pub fn drain(&mut self) -> (r: Vec<PropertyChange<Val>>)
        ensures
            final(self).changes() == Map::<u64, PropertyChange<Val>>::empty(),
            final(self).change_order() == Seq::<u64>::empty(),
            r@.len() == old(self).change_order().len(),
            forall|i: int|
                0 <= i < r@.len() ==> #[trigger] r@[i] == old(self).changes()[old(
                    self,
                ).change_order()[i]],
    {
        proof {
            use_type_invariant(&*self);
        }
        let ghost m0 = self.changes@;
        let ghost ord = self.order@;
        let mut taken = ChangeMap::new();
        std::mem::swap(self, &mut taken);
        let ChangeMap { mut changes, order } = taken;
        let mut out: Vec<PropertyChange<Val>> = Vec::new();
        let n = order.len();
        let mut i: usize = 0;
        while i < n
            invariant
                n == ord.len(),
                order@ == ord,
                i <= n,
                ord.no_duplicates(),
                forall|k: u64| #[trigger] m0.contains_key(k) <==> ord.contains(k),
                changes@ == m0.remove_keys(ord.take(i as int).to_set()),
                out@.len() == i,
                forall|j: int| 0 <= j < i ==> #[trigger] out@[j] == m0[ord[j]],
            decreases n - i,
        {
            let k = order[i];
            proof {
                assert(ord.contains(k));
                assert(!ord.take(i as int).contains(k)) by {
                    if ord.take(i as int).contains(k) {
                        let j = choose|j: int| 0 <= j < i && #[trigger] ord.take(i as int)[j] == k;
                        assert(ord[j] == ord[i as int]);
                    }
                }
                assert(changes@.contains_key(k));
            }
            let c = changes.remove(&k);
            match c {
                Some(c) => {
                    out.push(c);
                },
                None => {},
            }
            proof {
                assert(ord.take(i + 1).to_set() =~= ord.take(i as int).to_set().insert(k)) by {
                    assert(ord.take(i + 1) =~= ord.take(i as int).push(k));
                    ord.take(i as int).lemma_push_to_set_commute(k);
                }
                assert(changes@ =~= m0.remove_keys(ord.take(i + 1).to_set()));
            }
            i = i + 1;
        }
        proof {
            assert(ord.take(n as int) =~= ord);
        }
        out
    }
}

impl<Val> Default for ChangeMap<Val> {
    /// A map with no change.
    fn default() -> (r: Self)
        ensures
            r.changes() == Map::<u64, PropertyChange<Val>>::empty(),
            r.change_order() == Seq::<u64>::empty(),
    {
        ChangeMap::new()
    }
}

impl<Val> ChangeCollector<Val> for ChangeMap<Val> {
    /// A key seen before keeps the old value of its first change and takes
    /// `new_value`; a new key is held with both values as given.
    fn record_change(&mut self, key: u64, old_value: Option<Val>, new_value: Val)
        ensures
            final(self).changes() == old(self).changes().insert(
                key,
                merged_change(old(self).changes(), key, old_value, new_value),
            ),
            old(self).changes().contains_key(key) ==> final(self).change_order() == old(
                self,
            ).change_order(),
            !old(self).changes().contains_key(key) ==> final(self).change_order() == old(
                self,
            ).change_order().push(key),
    {
        proof {
            use_type_invariant(&*self);
        }
        let ghost m0 = self.changes@;
        let ghost o0 = self.order@;
        let mut taken = ChangeMap::new();
        std::mem::swap(self, &mut taken);
        let ChangeMap { mut changes, mut order } = taken;
        let prev = changes.remove(&key);
        match prev {
            Some(existing) => {
                changes.insert(key, PropertyChange { key, old_value: existing.old_value, new_value });
            },
            None => {
                changes.insert(key, PropertyChange { key, old_value, new_value });
                order.push(key);
            },
        }
        proof {
            if !m0.contains_key(key) {
                assert forall|k: u64| #[trigger] changes@.contains_key(k) <==> order@.contains(k) by {
                    if k != key {
                        if order@.contains(k) {
                            let j = choose|j: int| 0 <= j < order@.len() && #[trigger] order@[j] == k;
                            assert(j < o0.len());
                            assert(o0[j] == k);
                        }
                        if o0.contains(k) {
                            let j = choose|j: int| 0 <= j < o0.len() && #[trigger] o0[j] == k;
                            assert(order@[j] == k);
                        }
                    } else {
                        assert(order@[o0.len() as int] == key);
                    }
                }
            } else {
                assert forall|k: u64| #[trigger] changes@.contains_key(k) <==> order@.contains(k) by {
                    assert(m0.contains_key(k) <==> o0.contains(k));
                }
            }
        }
        *self = ChangeMap { changes, order };
    }
}

/// In a series of changes to one property, the collected change keeps the old
/// value of the first and takes the new value of the last.
pub proof fn lemma_series_keeps_first_old_value<Val>(
    m: Map<u64, PropertyChange<Val>>,
    key: u64,
    old1: Option<Val>,
    new1: Val,
    old2: Option<Val>,
    new2: Val,
)
    ensures
        ({
            let m1 = m.insert(key, merged_change(m, key, old1, new1));
            let c = merged_change(m1, key, old2, new2);
            &&& c.key == key
            &&& c.new_value == new2
            &&& c.old_value == (if m.contains_key(key) {
                m[key].old_value
            } else {
                old1
            })
        }),
{
}

} // verus!
