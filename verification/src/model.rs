use vstd::prelude::*;
use crate::component::{Component, ComponentId, ComponentKind, HasKind};

verus! {

/// Chooses the component kinds and the data stored in a `Model`.
pub trait ModelConfig: Sized {
    type Kind: ComponentKind;
    type Data: Clone + HasKind<Kind = Self::Kind>;
}

/// The identifier type of a configuration.
pub type ModelId<C> = <<C as ModelConfig>::Kind as ComponentKind>::Id;

/// Why a model operation was refused.
pub enum ModelError<C: ModelConfig> {
    /// The identifier is the reserved "null" identifier.
    InvalidId(ModelId<C>, C::Kind),
    /// A component with this identifier and kind is already stored.
    AlreadyExists(ModelId<C>, C::Kind),
    /// No component with this identifier and kind is stored.
    NotFound(ModelId<C>, C::Kind),
}

/// The store of components, addressed by identifier and kind.
///
/// Each entry keeps the address it was stored under, so data written through
/// `get_mut` or `components_mut` stays at that address whatever its kind.
pub struct Model<C: ModelConfig> {
    entries: Vec<(ModelId<C>, C::Kind, C::Data)>,
}

/// The (identifier, kind) address of a stored entry.
pub open spec fn entry_key<C: ModelConfig>(e: (ModelId<C>, C::Kind, C::Data)) -> (ModelId<C>, C::Kind) {
    (e.0, e.1)
}

/// No two entries share an address, and no entry uses the "null" identifier.
pub open spec fn unique_keys<C: ModelConfig>(e: Seq<(ModelId<C>, C::Kind, C::Data)>) -> bool {
    &&& forall|i: int, j: int|
        0 <= i < e.len() && 0 <= j < e.len() && i != j ==> entry_key::<C>(#[trigger] e[i])
            != entry_key::<C>(#[trigger] e[j])
    &&& forall|i: int| 0 <= i < e.len() ==> !(#[trigger] e[i]).0.spec_is_invalid()
}

/// Some entry is stored under `(id, kind)`.
pub open spec fn contains_in<C: ModelConfig>(
    e: Seq<(ModelId<C>, C::Kind, C::Data)>,
    id: ModelId<C>,
    kind: C::Kind,
) -> bool {
    exists|i: int| 0 <= i < e.len() && #[trigger] entry_key::<C>(e[i]) == (id, kind)
}

/// The data stored under `(id, kind)` (meaningful when `contains_in` holds).
pub open spec fn lookup_in<C: ModelConfig>(
    e: Seq<(ModelId<C>, C::Kind, C::Data)>,
    id: ModelId<C>,
    kind: C::Kind,
) -> C::Data {
    e[choose|i: int| 0 <= i < e.len() && #[trigger] entry_key::<C>(e[i]) == (id, kind)].2
}

/// Whether an entry holds data of `kind`.
pub open spec fn of_kind<C: ModelConfig>(kind: C::Kind) -> spec_fn((ModelId<C>, C::Kind, C::Data)) -> bool {
    |x: (ModelId<C>, C::Kind, C::Data)| x.1 == kind
}

/// How many of the first `i` entries hold data of `kind`.
pub open spec fn kind_rank<C: ModelConfig>(
    e: Seq<(ModelId<C>, C::Kind, C::Data)>,
    kind: C::Kind,
    i: int,
) -> int {
    e.take(i).filter(of_kind::<C>(kind)).len() as int
}

/// An entry of `kind` at position `i` comes before every rank counted past it.
proof fn lemma_rank_lt<C: ModelConfig>(e: Seq<(ModelId<C>, C::Kind, C::Data)>, kind: C::Kind, i: int, j: int)
    requires
        0 <= i < j <= e.len(),
        e[i].1 == kind,
    ensures
        kind_rank::<C>(e, kind, i) < kind_rank::<C>(e, kind, j),
    decreases j,
{
    assert(e.take(j) =~= e.take(j - 1).push(e[j - 1]));
    e.take(j - 1).lemma_filter_push(e[j - 1], of_kind::<C>(kind));
    if j - 1 > i {
        lemma_rank_lt::<C>(e, kind, i, j - 1);
    }
}

/// Entries that keep every address keep the addresses unique.
proof fn lemma_same_addresses<C: ModelConfig>(
    e: Seq<(ModelId<C>, C::Kind, C::Data)>,
    f: Seq<(ModelId<C>, C::Kind, C::Data)>,
)
    requires
        unique_keys::<C>(e),
        f.len() == e.len(),
        forall|i: int| 0 <= i < f.len() ==> #[trigger] entry_key::<C>(f[i]) == entry_key::<C>(e[i]),
    ensures
        unique_keys::<C>(f),
{
    assert forall|a: int, b: int|
        0 <= a < f.len() && 0 <= b < f.len() && a != b implies entry_key::<C>(#[trigger] f[a])
        != entry_key::<C>(#[trigger] f[b]) by {
        assert(entry_key::<C>(f[a]) == entry_key::<C>(e[a]));
        assert(entry_key::<C>(f[b]) == entry_key::<C>(e[b]));
    }
    assert forall|a: int| 0 <= a < f.len() implies !(#[trigger] f[a]).0.spec_is_invalid() by {
        assert(entry_key::<C>(f[a]) == entry_key::<C>(e[a]));
    }
}

/// With unique addresses, the entry at position `i` is what its address looks up.
proof fn lemma_lookup_at<C: ModelConfig>(e: Seq<(ModelId<C>, C::Kind, C::Data)>, i: int)
    requires
        unique_keys::<C>(e),
        0 <= i < e.len(),
    ensures
        contains_in::<C>(e, e[i].0, e[i].1),
        lookup_in::<C>(e, e[i].0, e[i].1) == e[i].2,
{
    let k = entry_key::<C>(e[i]);
    assert(entry_key::<C>(e[i]) == k);
    let j = choose|j: int| 0 <= j < e.len() && #[trigger] entry_key::<C>(e[j]) == k;
    if j != i {
        assert(entry_key::<C>(e[i]) != entry_key::<C>(e[j]));
    }
}

/// Removing the entry at position `i` by `swap_remove` keeps every other
/// address with its data, and drops the address of entry `i`.
proof fn lemma_swap_remove_keys<C: ModelConfig>(
    before: Seq<(ModelId<C>, C::Kind, C::Data)>,
    after: Seq<(ModelId<C>, C::Kind, C::Data)>,
    i: int,
)
    requires
        unique_keys::<C>(before),
        0 <= i < before.len(),
        after == before.update(i, before.last()).drop_last(),
    ensures
        unique_keys::<C>(after),
        !contains_in::<C>(after, before[i].0, before[i].1),
        forall|i2: ModelId<C>, k2: C::Kind|
            (i2, k2) != entry_key::<C>(before[i]) ==> (#[trigger] contains_in::<C>(after, i2, k2)
                == contains_in::<C>(before, i2, k2) && (contains_in::<C>(before, i2, k2)
                ==> lookup_in::<C>(after, i2, k2) == lookup_in::<C>(before, i2, k2))),
{
    let n = before.len() - 1;
    assert forall|a: int| 0 <= a < after.len() implies #[trigger] after[a] == before[if a == i {
        n
    } else {
        a
    }] by {}
    assert forall|a: int, b: int|
        0 <= a < after.len() && 0 <= b < after.len() && a != b implies entry_key::<C>(
        #[trigger] after[a],
    ) != entry_key::<C>(#[trigger] after[b]) by {
        let oa = if a == i { n } else { a };
        let ob = if b == i { n } else { b };
        assert(after[a] == before[oa]);
        assert(after[b] == before[ob]);
    }
    assert forall|a: int| 0 <= a < after.len() implies !(#[trigger] after[a]).0.spec_is_invalid() by {
        let oa = if a == i { n } else { a };
        assert(after[a] == before[oa]);
    }
    if contains_in::<C>(after, before[i].0, before[i].1) {
        let a = choose|a: int|
            0 <= a < after.len() && #[trigger] entry_key::<C>(after[a]) == entry_key::<C>(
                before[i],
            );
        let oa = if a == i { n } else { a };
        assert(after[a] == before[oa]);
    }
    assert forall|i2: ModelId<C>, k2: C::Kind| (i2, k2) != entry_key::<C>(before[i]) implies (
    #[trigger] contains_in::<C>(after, i2, k2) == contains_in::<C>(before, i2, k2) && (
    contains_in::<C>(before, i2, k2) ==> lookup_in::<C>(after, i2, k2) == lookup_in::<C>(
        before,
        i2,
        k2,
    ))) by {
        if contains_in::<C>(before, i2, k2) {
            let a = choose|a: int| 0 <= a < before.len() && #[trigger] entry_key::<C>(before[a]) == (i2, k2);
            assert(a != i);
            let na = if a == n { i } else { a };
            assert(after[na] == before[a]);
            assert(entry_key::<C>(after[na]) == (i2, k2));
            lemma_lookup_at::<C>(before, a);
            lemma_lookup_at::<C>(after, na);
        }
        if contains_in::<C>(after, i2, k2) {
            let a = choose|a: int| 0 <= a < after.len() && #[trigger] entry_key::<C>(after[a]) == (i2, k2);
            let oa = if a == i { n } else { a };
            assert(after[a] == before[oa]);
            assert(entry_key::<C>(before[oa]) == (i2, k2));
        }
    }
}

/// After a successful `insert`, the model holds the inserted data under its
/// identifier and kind (so `get` returns it, `delete` returns it and a second
/// `insert` is refused), and every other address keeps its data.
pub proof fn lemma_insert_then_lookup<C: ModelConfig>(
    before: Model<C>,
    after: Model<C>,
    id: ModelId<C>,
    data: C::Data,
)
    requires
        before.wf(),
        !id.spec_is_invalid(),
        !before.contains(id, data.spec_kind()),
        after.entries() == before.entries().push((id, data.spec_kind(), data)),
    ensures
        after.wf(),
        after.contains(id, data.spec_kind()),
        after.lookup(id, data.spec_kind()) == data,
        forall|i2: ModelId<C>, k2: C::Kind|
            (i2, k2) != (id, data.spec_kind()) ==> (#[trigger] after.contains(i2, k2)
                == before.contains(i2, k2) && (before.contains(i2, k2) ==> after.lookup(i2, k2)
                == before.lookup(i2, k2))),
{
    let e = before.entries();
    let f = after.entries();
    let n = e.len();
    assert forall|i: int, j: int|
        0 <= i < f.len() && 0 <= j < f.len() && i != j implies entry_key::<C>(#[trigger] f[i])
        != entry_key::<C>(#[trigger] f[j]) by {
        if i == n {
            assert(f[j] == e[j]);
        } else if j == n {
            assert(f[i] == e[i]);
        } else {
            assert(f[i] == e[i]);
            assert(f[j] == e[j]);
        }
    }
    assert forall|i: int| 0 <= i < f.len() implies !(#[trigger] f[i]).0.spec_is_invalid() by {
        if i < n {
            assert(f[i] == e[i]);
        }
    }
    assert(f[n as int] == (id, data.spec_kind(), data));
    lemma_lookup_at::<C>(f, n as int);
    assert forall|i2: ModelId<C>, k2: C::Kind| (i2, k2) != (id, data.spec_kind()) implies (
    #[trigger] after.contains(i2, k2) == before.contains(i2, k2) && (before.contains(i2, k2)
        ==> after.lookup(i2, k2) == before.lookup(i2, k2))) by {
        if before.contains(i2, k2) {
            let a = choose|a: int| 0 <= a < e.len() && #[trigger] entry_key::<C>(e[a]) == (i2, k2);
            assert(f[a] == e[a]);
            assert(entry_key::<C>(f[a]) == (i2, k2));
            lemma_lookup_at::<C>(e, a);
            lemma_lookup_at::<C>(f, a);
        }
        if after.contains(i2, k2) {
            let a = choose|a: int| 0 <= a < f.len() && #[trigger] entry_key::<C>(f[a]) == (i2, k2);
            assert(a != n);
            assert(f[a] == e[a]);
            assert(entry_key::<C>(e[a]) == (i2, k2));
        }
    }
}

/// Deleting what a successful `insert` stored gives back the model as it was:
/// every address holds what it held before, and the inserted one is empty again.
pub proof fn lemma_insert_then_delete_restores<C: ModelConfig>(
    before: Model<C>,
    inserted: Model<C>,
    after: Model<C>,
    id: ModelId<C>,
    data: C::Data,
)
    requires
        before.wf(),
        !id.spec_is_invalid(),
        !before.contains(id, data.spec_kind()),
        inserted.entries() == before.entries().push((id, data.spec_kind(), data)),
        !after.contains(id, data.spec_kind()),
        forall|i2: ModelId<C>, k2: C::Kind|
            (i2, k2) != (id, data.spec_kind()) ==> (#[trigger] after.contains(i2, k2)
                == inserted.contains(i2, k2) && (inserted.contains(i2, k2) ==> after.lookup(i2, k2)
                == inserted.lookup(i2, k2))),
    ensures
        forall|i2: ModelId<C>, k2: C::Kind|
            #[trigger] after.contains(i2, k2) == before.contains(i2, k2) && (before.contains(i2, k2)
                ==> after.lookup(i2, k2) == before.lookup(i2, k2)),
{
    lemma_insert_then_lookup::<C>(before, inserted, id, data);
    assert forall|i2: ModelId<C>, k2: C::Kind|
        #[trigger] after.contains(i2, k2) == before.contains(i2, k2) && (before.contains(i2, k2)
            ==> after.lookup(i2, k2) == before.lookup(i2, k2)) by {
        if (i2, k2) != (id, data.spec_kind()) {
            assert(inserted.contains(i2, k2) == before.contains(i2, k2));
        }
    }
}

/// Writing data, through `get_mut`, into the entry at `(id, kind)` keeps the
/// model well formed: the entry stays at its address whatever the kind of the
/// written data, a later `get` of that address returns the written data, and
/// every other address keeps its data.
pub proof fn lemma_get_mut_then_get<C: ModelConfig>(
    before: Model<C>,
    after: Model<C>,
    id: ModelId<C>,
    kind: C::Kind,
    written: C::Data,
)
    requires
        before.wf(),
        exists|i: int|
            0 <= i < before.entries().len() && entry_key::<C>(before.entries()[i]) == (id, kind)
                && after.entries() == before.entries().update(i, (id, kind, written)),
    ensures
        after.wf(),
        after.contains(id, kind),
        after.lookup(id, kind) == written,
        forall|i2: ModelId<C>, k2: C::Kind|
            (i2, k2) != (id, kind) ==> (#[trigger] after.contains(i2, k2) == before.contains(i2, k2)
                && (before.contains(i2, k2) ==> after.lookup(i2, k2) == before.lookup(i2, k2))),
{
    let e = before.entries();
    let f = after.entries();
    let i = choose|i: int|
        0 <= i < e.len() && entry_key::<C>(e[i]) == (id, kind) && f == e.update(i, (id, kind, written));
    assert(entry_key::<C>(f[i]) == entry_key::<C>(e[i]));
    assert forall|a: int| 0 <= a < f.len() implies entry_key::<C>(#[trigger] f[a]) == entry_key::<C>(
        e[a],
    ) && !f[a].0.spec_is_invalid() by {
        if a != i {
            assert(f[a] == e[a]);
        }
    }
    assert forall|a: int, b: int|
        0 <= a < f.len() && 0 <= b < f.len() && a != b implies entry_key::<C>(#[trigger] f[a])
        != entry_key::<C>(#[trigger] f[b]) by {
        assert(entry_key::<C>(f[a]) == entry_key::<C>(e[a]));
        assert(entry_key::<C>(f[b]) == entry_key::<C>(e[b]));
    }
    lemma_lookup_at::<C>(f, i);
    assert forall|i2: ModelId<C>, k2: C::Kind| (i2, k2) != (id, kind) implies (#[trigger] after.contains(
        i2,
        k2,
    ) == before.contains(i2, k2) && (before.contains(i2, k2) ==> after.lookup(i2, k2) == before.lookup(
        i2,
        k2,
    ))) by {
        if before.contains(i2, k2) {
            let a = choose|a: int| 0 <= a < e.len() && #[trigger] entry_key::<C>(e[a]) == (i2, k2);
            assert(entry_key::<C>(f[a]) == (i2, k2));
            assert(a != i);
            assert(f[a] == e[a]);
            lemma_lookup_at::<C>(e, a);
            lemma_lookup_at::<C>(f, a);
        }
        if after.contains(i2, k2) {
            let a = choose|a: int| 0 <= a < f.len() && #[trigger] entry_key::<C>(f[a]) == (i2, k2);
            assert(entry_key::<C>(e[a]) == (i2, k2));
        }
    }
}

impl<C: ModelConfig> Model<C> {
    /// The stored entries, in storage order.
    pub closed spec fn entries(&self) -> Seq<(ModelId<C>, C::Kind, C::Data)> {
        self.entries@
    }

    pub open spec fn wf(&self) -> bool {
        unique_keys::<C>(self.entries())
    }

    /// Whether a component is stored under this address.
    pub open spec fn contains(&self, id: ModelId<C>, kind: C::Kind) -> bool {
        contains_in::<C>(self.entries(), id, kind)
    }

    /// The data stored under an address (meaningful when `contains` holds).
    pub open spec fn lookup(&self, id: ModelId<C>, kind: C::Kind) -> C::Data {
        lookup_in::<C>(self.entries(), id, kind)
    }

    pub fn new() -> (r: Self)
        ensures
            r.wf(),
            r.entries() == Seq::<(ModelId<C>, C::Kind, C::Data)>::empty(),
    {
        Model { entries: Vec::new() }
    }

    /// Position of the entry stored under `(id, kind)`.
    fn find(&self, id: &ModelId<C>, kind: &C::Kind) -> (r: Option<usize>)
        ensures
            r matches Some(i) ==> i < self.entries().len() && entry_key::<C>(self.entries()[i as int])
                == (*id, *kind),
            r is None ==> !self.contains(*id, *kind),
    {
        let n = self.entries.len();
        let mut i: usize = 0;
        while i < n
            invariant
                n == self.entries@.len(),
                i <= n,
                forall|j: int|
                    0 <= j < i ==> #[trigger] entry_key::<C>(self.entries@[j]) != (*id, *kind),
            decreases n - i,
        {
            let e = &self.entries[i];
            if e.0.same_id(id) && e.1.same_kind(kind) {
                return Some(i);
            }
            i = i + 1;
        }
        None
    }

    /// Stores `data` under `id` and the kind of `data`.
    pub fn insert(&mut self, id: ModelId<C>, data: C::Data) -> (r: Result<(), ModelError<C>>)
        requires
            old(self).wf(),
        ensures
            final(self).wf(),
            id.spec_is_invalid() ==> r == Err::<(), ModelError<C>>(
                ModelError::InvalidId(id, data.spec_kind()),
            ),
            !id.spec_is_invalid() && old(self).contains(id, data.spec_kind()) ==> r == Err::<
                (),
                ModelError<C>,
            >(ModelError::AlreadyExists(id, data.spec_kind())),
            r is Ok <==> !id.spec_is_invalid() && !old(self).contains(id, data.spec_kind()),
            r is Ok ==> final(self).entries() == old(self).entries().push((id, data.spec_kind(), data)),
            r is Err ==> final(self).entries() == old(self).entries(),
    {
        let kind = data.kind();
        if id.is_invalid() {
            return Err(ModelError::InvalidId(id, kind));
        }
        if self.find(&id, &kind).is_some() {
            return Err(ModelError::AlreadyExists(id, kind));
        }
        self.entries.push((id, kind, data));
        proof {
            let n = self.entries@.len() - 1;
            assert forall|i: int, j: int|
                0 <= i < self.entries().len() && 0 <= j < self.entries().len() && i != j
                    implies entry_key::<C>(#[trigger] self.entries()[i]) != entry_key::<C>(
                #[trigger] self.entries()[j],
            ) by {
                if i == n {
                    assert(self.entries()[j] == old(self).entries()[j]);
                } else if j == n {
                    assert(self.entries()[i] == old(self).entries()[i]);
                } else {
                    assert(self.entries()[i] == old(self).entries()[i]);
                    assert(self.entries()[j] == old(self).entries()[j]);
                }
            }
        }
        Ok(())
    }

    /// Replaces the data stored under `id` and the kind of `data`.
    pub fn update(&mut self, id: ModelId<C>, data: C::Data) -> (r: Result<(), ModelError<C>>)
        requires
            old(self).wf(),
        ensures
            final(self).wf(),
            id.spec_is_invalid() ==> r == Err::<(), ModelError<C>>(
                ModelError::InvalidId(id, data.spec_kind()),
            ),
            !id.spec_is_invalid() && !old(self).contains(id, data.spec_kind()) ==> r == Err::<
                (),
                ModelError<C>,
            >(ModelError::NotFound(id, data.spec_kind())),
            r is Ok <==> !id.spec_is_invalid() && old(self).contains(id, data.spec_kind()),
            r is Ok ==> exists|i: int|
                0 <= i < old(self).entries().len() && entry_key::<C>(old(self).entries()[i]) == (
                    id,
                    data.spec_kind(),
                ) && final(self).entries() == old(self).entries().update(i, (id, data.spec_kind(), data)),
            r is Ok ==> final(self).contains(id, data.spec_kind()) && final(self).lookup(
                id,
                data.spec_kind(),
            ) == data,
            r is Err ==> final(self).entries() == old(self).entries(),
    {
        let kind = data.kind();
        if id.is_invalid() {
            return Err(ModelError::InvalidId(id, kind));
        }
        match self.find(&id, &kind) {
            None => Err(ModelError::NotFound(id, kind)),
            Some(i) => {
                self.entries.set(i, (id, kind, data));
                proof {
                    assert forall|a: int, b: int|
                        0 <= a < self.entries().len() && 0 <= b < self.entries().len() && a != b
                            implies entry_key::<C>(#[trigger] self.entries()[a]) != entry_key::<C>(
                        #[trigger] self.entries()[b],
                    ) by {
                        assert(entry_key::<C>(self.entries()[a]) == entry_key::<C>(
                            old(self).entries()[a],
                        ));
                        assert(entry_key::<C>(self.entries()[b]) == entry_key::<C>(
                            old(self).entries()[b],
                        ));
                    }
                    assert(entry_key::<C>(self.entries()[i as int]) == (id, kind));
                    lemma_lookup_at::<C>(self.entries(), i as int);
                }
                Ok(())
            },
        }
    }

    /// The data stored under `(id, kind)`.
    pub fn get(&self, id: ModelId<C>, kind: C::Kind) -> (r: Result<&C::Data, ModelError<C>>)
        requires
            self.wf(),
        ensures
            id.spec_is_invalid() ==> r == Err::<&C::Data, ModelError<C>>(
                ModelError::InvalidId(id, kind),
            ),
            !id.spec_is_invalid() && !self.contains(id, kind) ==> r == Err::<&C::Data, ModelError<C>>(
                ModelError::NotFound(id, kind),
            ),
            !id.spec_is_invalid() && self.contains(id, kind) ==> r == Ok::<&C::Data, ModelError<C>>(
                &self.lookup(id, kind),
            ),
    {
        if id.is_invalid() {
            return Err(ModelError::InvalidId(id, kind));
        }
        match self.find(&id, &kind) {
            None => Err(ModelError::NotFound(id, kind)),
            Some(i) => {
                proof {
                    lemma_lookup_at::<C>(self.entries(), i as int);
                }
                Ok(&self.entries[i].2)
            },
        }
    }

    /// Mutable access to the data stored under `(id, kind)`.
    pub fn get_mut(&mut self, id: ModelId<C>, kind: C::Kind) -> (r: Result<
        &mut C::Data,
        ModelError<C>,
    >)
        requires
            old(self).wf(),
        ensures
            id.spec_is_invalid() ==> r is Err && r->Err_0 == ModelError::<C>::InvalidId(id, kind),
            !id.spec_is_invalid() && !old(self).contains(id, kind) ==> r is Err && r->Err_0
                == ModelError::<C>::NotFound(id, kind),
            r is Ok <==> !id.spec_is_invalid() && old(self).contains(id, kind),
            r is Err ==> final(self).entries() == old(self).entries(),
            r is Ok ==> *r->Ok_0 == old(self).lookup(id, kind) && exists|i: int|
                0 <= i < old(self).entries().len() && entry_key::<C>(old(self).entries()[i]) == (
                    id,
                    kind,
                ) && final(self).entries() == old(self).entries().update(
                    i,
                    (id, kind, *final(r->Ok_0)),
                ),
            final(self).wf(),
            r is Ok ==> final(self).contains(id, kind) && final(self).lookup(id, kind)
                == *final(r->Ok_0) && forall|i2: ModelId<C>, k2: C::Kind|
                (i2, k2) != (id, kind) ==> (#[trigger] final(self).contains(i2, k2) == old(
                    self,
                ).contains(i2, k2) && (old(self).contains(i2, k2) ==> final(self).lookup(i2, k2)
                    == old(self).lookup(i2, k2))),
    {
        if id.is_invalid() {
            return Err(ModelError::InvalidId(id, kind));
        }
        match self.find(&id, &kind) {
            None => Err(ModelError::NotFound(id, kind)),
            Some(i) => {
                proof {
                    lemma_lookup_at::<C>(self.entries(), i as int);
                    assert forall|m: Model<C>, d: C::Data|
                        #![trigger m.entries(), self.entries().update(i as int, (id, kind, d))]
                        m.entries() == self.entries().update(i as int, (id, kind, d)) implies m.wf() && m.contains(id, kind) && m.lookup(id, kind) == d
                            && forall|i2: ModelId<C>, k2: C::Kind|
                            (i2, k2) != (id, kind) ==> (#[trigger] m.contains(i2, k2)
                                == self.contains(i2, k2) && (self.contains(i2, k2) ==> m.lookup(
                                i2,
                                k2,
                            ) == self.lookup(i2, k2))) by {
                        lemma_get_mut_then_get::<C>(*self, m, id, kind, d);
                    }
                }
                Ok(&mut self.entries[i].2)
            },
        }
    }

    /// A clone of the data stored under `(id, kind)`.
    pub fn get_clone(&self, id: ModelId<C>, kind: C::Kind) -> (r: Result<C::Data, ModelError<C>>)
        requires
            self.wf(),
        ensures
            id.spec_is_invalid() ==> r == Err::<C::Data, ModelError<C>>(
                ModelError::InvalidId(id, kind),
            ),
            !id.spec_is_invalid() && !self.contains(id, kind) ==> r == Err::<C::Data, ModelError<C>>(
                ModelError::NotFound(id, kind),
            ),
            r is Ok <==> !id.spec_is_invalid() && self.contains(id, kind),
            r matches Ok(d) ==> cloned(self.lookup(id, kind), d),
    {
        match self.get(id, kind) {
            Ok(d) => Ok(d.clone()),
            Err(e) => Err(e),
        }
    }

    /// Removes and returns the data stored under `(id, kind)`.
    pub fn delete(&mut self, id: ModelId<C>, kind: C::Kind) -> (r: Result<C::Data, ModelError<C>>)
        requires
            old(self).wf(),
        ensures
            final(self).wf(),
            id.spec_is_invalid() ==> r == Err::<C::Data, ModelError<C>>(
                ModelError::InvalidId(id, kind),
            ),
            !id.spec_is_invalid() && !old(self).contains(id, kind) ==> r == Err::<
                C::Data,
                ModelError<C>,
            >(ModelError::NotFound(id, kind)),
            !id.spec_is_invalid() && old(self).contains(id, kind) ==> r == Ok::<
                C::Data,
                ModelError<C>,
            >(old(self).lookup(id, kind)),
            r is Err ==> final(self).entries() == old(self).entries(),
            !final(self).contains(id, kind),
            forall|i2: ModelId<C>, k2: C::Kind|
                (i2, k2) != (id, kind) ==> (#[trigger] final(self).contains(i2, k2) == old(
                    self,
                ).contains(i2, k2) && (old(self).contains(i2, k2) ==> final(self).lookup(i2, k2)
                    == old(self).lookup(i2, k2))),
    {
        if id.is_invalid() {
            return Err(ModelError::InvalidId(id, kind));
        }
        match self.find(&id, &kind) {
            None => Err(ModelError::NotFound(id, kind)),
            Some(i) => {
                proof {
                    lemma_lookup_at::<C>(self.entries(), i as int);
                }
                let ghost before = self.entries();
                let (_, _, data) = self.entries.swap_remove(i);
                proof {
                    lemma_swap_remove_keys::<C>(before, self.entries(), i as int);
                }
                Ok(data)
            },
        }
    }

    /// Stores a whole component, as `insert`.
    pub fn insert_comp(&mut self, comp: Component<C::Data>) -> (r: Result<(), ModelError<C>>)
        requires
            old(self).wf(),
        ensures
            final(self).wf(),
            r is Ok <==> !comp.id.spec_is_invalid() && !old(self).contains(
                comp.id,
                comp.data.spec_kind(),
            ),
            comp.id.spec_is_invalid() ==> r == Err::<(), ModelError<C>>(
                ModelError::InvalidId(comp.id, comp.data.spec_kind()),
            ),
            !comp.id.spec_is_invalid() && old(self).contains(comp.id, comp.data.spec_kind()) ==> r
                == Err::<(), ModelError<C>>(
                ModelError::AlreadyExists(comp.id, comp.data.spec_kind()),
            ),
            r is Ok ==> final(self).entries() == old(self).entries().push(
                (comp.id, comp.data.spec_kind(), comp.data),
            ),
            r is Err ==> final(self).entries() == old(self).entries(),
    {
        self.insert(comp.id, comp.data)
    }

    /// Replaces a whole component, as `update`.
    pub fn update_comp(&mut self, comp: Component<C::Data>) -> (r: Result<(), ModelError<C>>)
        requires
            old(self).wf(),
        ensures
            final(self).wf(),
            r is Ok <==> !comp.id.spec_is_invalid() && old(self).contains(
                comp.id,
                comp.data.spec_kind(),
            ),
            comp.id.spec_is_invalid() ==> r == Err::<(), ModelError<C>>(
                ModelError::InvalidId(comp.id, comp.data.spec_kind()),
            ),
            !comp.id.spec_is_invalid() && !old(self).contains(comp.id, comp.data.spec_kind()) ==> r
                == Err::<(), ModelError<C>>(ModelError::NotFound(comp.id, comp.data.spec_kind())),
            r is Ok ==> exists|i: int|
                0 <= i < old(self).entries().len() && entry_key::<C>(old(self).entries()[i]) == (
                    comp.id,
                    comp.data.spec_kind(),
                ) && final(self).entries() == old(self).entries().update(
                    i,
                    (comp.id, comp.data.spec_kind(), comp.data),
                ),
            r is Ok ==> final(self).contains(comp.id, comp.data.spec_kind()) && final(self).lookup(
                comp.id,
                comp.data.spec_kind(),
            ) == comp.data,
            r is Err ==> final(self).entries() == old(self).entries(),
    {
        self.update(comp.id, comp.data)
    }

    /// References to every stored data, in storage order.
    pub fn components(&self) -> (r: Vec<&C::Data>)
        ensures
            r@.len() == self.entries().len(),
            forall|i: int| 0 <= i < r@.len() ==> *r@[i] == self.entries()[i].2,
    {
        let mut out: Vec<&C::Data> = Vec::new();
        let n = self.entries.len();
        let mut i: usize = 0;
        while i < n
            invariant
                n == self.entries@.len(),
                i <= n,
                out@.len() == i,
                forall|j: int| 0 <= j < i ==> *out@[j] == self.entries@[j].2,
            decreases n - i,
        {
            out.push(&self.entries[i].2);
            i = i + 1;
        }
        out
    }

    /// Mutable references to every stored data, in storage order.
    pub fn components_mut(&mut self) -> (r: Vec<&mut C::Data>)
        ensures
            r@.len() == old(self).entries().len(),
            forall|i: int| 0 <= i < r@.len() ==> *r@[i] == old(self).entries()[i].2,
            final(self).entries().len() == old(self).entries().len(),
            forall|i: int|
                0 <= i < r@.len() ==> #[trigger] final(self).entries()[i] == (
                    old(self).entries()[i].0,
                    old(self).entries()[i].1,
                    *final(r@[i]),
                ),
            old(self).wf() ==> final(self).wf(),
    {
        let ghost e0 = self.entries@;
        proof {
            assert forall|f: Seq<(ModelId<C>, C::Kind, C::Data)>|
                unique_keys::<C>(e0) && f.len() == e0.len() && (forall|i: int|
                    0 <= i < f.len() ==> #[trigger] entry_key::<C>(f[i]) == entry_key::<C>(e0[i]))
                    implies #[trigger] unique_keys::<C>(f) by {
                lemma_same_addresses::<C>(e0, f);
            }
        }
        let mut rest: &mut [(ModelId<C>, C::Kind, C::Data)] = self.entries.as_mut_slice();
        let mut out: Vec<&mut C::Data> = Vec::new();
        let ghost mut done: int = 0;
        while rest.len() > 0
            invariant
                0 <= done <= e0.len(),
                rest@ == e0.subrange(done, e0.len() as int),
                out@.len() == done,
                forall|i: int| 0 <= i < done ==> *out@[i] == e0[i].2,
                after_borrow(self.entries)@ == Seq::new(done as nat, |i: int| (e0[i].0, e0[i].1, *final(out@[i])))
                    + final(rest)@,
            decreases rest@.len(),
        {
            let (first, tail) = rest.split_at_mut(1);
            out.push(&mut first[0].2);
            rest = tail;
            proof {
                done = done + 1;
            }
        }
        out
    }

    /// Mutable references to the stored data of one kind, in storage order.
    pub fn components_mut_by_kind(&mut self, kind: C::Kind) -> (r: Vec<&mut C::Data>)
        ensures
            r@.len() == old(self).entries().filter(of_kind::<C>(kind)).len(),
            forall|j: int|
                0 <= j < r@.len() ==> *r@[j] == old(self).entries().filter(of_kind::<C>(kind))[j].2,
            final(self).entries().len() == old(self).entries().len(),
            forall|i: int|
                0 <= i < old(self).entries().len() ==> #[trigger] final(self).entries()[i] == if old(
                    self,
                ).entries()[i].1 == kind {
                    (
                        old(self).entries()[i].0,
                        kind,
                        *final(r@[kind_rank::<C>(old(self).entries(), kind, i)]),
                    )
                } else {
                    old(self).entries()[i]
                },
            old(self).wf() ==> final(self).wf(),
    {
        let ghost e0 = self.entries@;
        proof {
            assert forall|f: Seq<(ModelId<C>, C::Kind, C::Data)>|
                unique_keys::<C>(e0) && f.len() == e0.len() && (forall|i: int|
                    0 <= i < f.len() ==> #[trigger] entry_key::<C>(f[i]) == entry_key::<C>(e0[i]))
                    implies #[trigger] unique_keys::<C>(f) by {
                lemma_same_addresses::<C>(e0, f);
            }
        }
        let ghost pred = of_kind::<C>(kind);
        let mut rest: &mut [(ModelId<C>, C::Kind, C::Data)] = self.entries.as_mut_slice();
        let mut out: Vec<&mut C::Data> = Vec::new();
        let ghost mut done: int = 0;
        while rest.len() > 0
            invariant
                pred == of_kind::<C>(kind),
                0 <= done <= e0.len(),
                rest@ == e0.subrange(done, e0.len() as int),
                out@.len() == e0.take(done).filter(pred).len(),
                forall|j: int| 0 <= j < out@.len() ==> *out@[j] == e0.take(done).filter(pred)[j].2,
                after_borrow(self.entries)@ == Seq::new(
                    done as nat,
                    |i: int|
                        if pred(e0[i]) {
                            (e0[i].0, e0[i].1, *final(out@[kind_rank::<C>(e0, kind, i)]))
                        } else {
                            e0[i]
                        },
                ) + final(rest)@,
            decreases rest@.len(),
        {
            proof {
                assert(e0.take(done + 1) =~= e0.take(done).push(e0[done]));
                e0.take(done).lemma_filter_push(e0[done], pred);
            }
            let ghost out_old = out@;
            let (first, tail) = rest.split_at_mut(1);
            if first[0].1.same_kind(&kind) {
                out.push(&mut first[0].2);
            }
            rest = tail;
            proof {
                assert forall|i: int| 0 <= i < done && pred(e0[i]) implies kind_rank::<C>(
                    e0,
                    kind,
                    i,
                ) < out_old.len() by {
                    lemma_rank_lt::<C>(e0, kind, i, done);
                }
                assert forall|k: int| 0 <= k < out_old.len() implies out@[k] == out_old[k] by {}
                done = done + 1;
            }
        }
        proof {
            assert(e0.take(e0.len() as int) =~= e0);
            assert forall|i: int| 0 <= i < e0.len() && e0[i].1 == kind implies kind_rank::<
                C,
            >(e0, kind, i) < out@.len() by {
                lemma_rank_lt::<C>(e0, kind, i, e0.len() as int);
            }
        }
        out
    }

    /// References to the stored data of one kind, in storage order.
    pub fn components_by_kind(&self, kind: C::Kind) -> (r: Vec<&C::Data>)
        ensures
            r@.len() == self.entries().filter(|e: (ModelId<C>, C::Kind, C::Data)| e.1 == kind).len(),
            forall|i: int|
                0 <= i < r@.len() ==> *r@[i] == self.entries().filter(
                    |e: (ModelId<C>, C::Kind, C::Data)| e.1 == kind,
                )[i].2,
    {
        let ghost pred = |e: (ModelId<C>, C::Kind, C::Data)| e.1 == kind;
        let mut out: Vec<&C::Data> = Vec::new();
        let n = self.entries.len();
        let mut i: usize = 0;
        while i < n
            invariant
                n == self.entries@.len(),
                i <= n,
                pred == (|e: (ModelId<C>, C::Kind, C::Data)| e.1 == kind),
                out@.len() == self.entries@.take(i as int).filter(pred).len(),
                forall|j: int|
                    0 <= j < out@.len() ==> *out@[j] == self.entries@.take(i as int).filter(
                        pred,
                    )[j].2,
            decreases n - i,
        {
            proof {
                assert(self.entries@.take(i + 1) =~= self.entries@.take(i as int).push(
                    self.entries@[i as int],
                ));
                self.entries@.take(i as int).lemma_filter_push(self.entries@[i as int], pred);
            }
            if self.entries[i].1.same_kind(&kind) {
                out.push(&self.entries[i].2);
            }
            i = i + 1;
        }
        proof {
            assert(self.entries@.take(n as int) =~= self.entries@);
        }
        out
    }
}

} // verus!
