use vstd::prelude::*;

verus! {

/// How many columns a view can track borrows for.
pub const MAX_TRACKED_COLUMNS: usize = 32;

/// The borrow bookkeeping of a structure-of-arrays view over `len` rows.
///
/// Each column is either locked for writing or has some number of live
/// shared borrows; a column with any live shared borrow cannot be locked,
/// and a locked column cannot be shared.
#[derive(Clone, Copy, Debug)]
pub struct SoaView {
    len: usize,
    locked: [bool; 32],
    readers: [u32; 32],
}

/// Column `i` may be borrowed for reading in `v`.
pub open spec fn may_share(v: SoaView, i: int) -> bool {
    !v.locked_at(i)
}

/// Column `i` may be borrowed for writing in `v`.
pub open spec fn may_lock(v: SoaView, i: int) -> bool {
    !v.locked_at(i) && v.readers_at(i) == 0
}

/// `after` is `before` with one more shared borrow of column `i`.
pub open spec fn shared_once_more(before: SoaView, after: SoaView, i: int) -> bool {
    &&& after.spec_len() == before.spec_len()
    &&& forall|j: int| 0 <= j < 32 ==> #[trigger] after.locked_at(j) == before.locked_at(j)
    &&& forall|j: int|
        0 <= j < 32 ==> #[trigger] after.readers_at(j) == before.readers_at(j) + if j == i {
            1int
        } else {
            0int
        }
}

/// `after` is `before` with one shared borrow of column `i` ended.
pub open spec fn released_once(before: SoaView, after: SoaView, i: int) -> bool {
    &&& after.spec_len() == before.spec_len()
    &&& forall|j: int| 0 <= j < 32 ==> #[trigger] after.locked_at(j) == before.locked_at(j)
    &&& forall|j: int|
        0 <= j < 32 ==> #[trigger] after.readers_at(j) == before.readers_at(j) - if j == i {
            1int
        } else {
            0int
        }
}

/// `after` is `before` with column `i` locked (`lock`) or unlocked (`!lock`).
pub open spec fn lock_set(before: SoaView, after: SoaView, i: int, lock: bool) -> bool {
    &&& after.spec_len() == before.spec_len()
    &&& forall|j: int| 0 <= j < 32 ==> #[trigger] after.readers_at(j) == before.readers_at(j)
    &&& forall|j: int|
        0 <= j < 32 ==> #[trigger] after.locked_at(j) == if j == i {
            lock
        } else {
            before.locked_at(j)
        }
}

/// Two views record the same borrows over the same number of rows.
pub open spec fn same_borrows(a: SoaView, b: SoaView) -> bool {
    &&& a.spec_len() == b.spec_len()
    &&& forall|j: int| 0 <= j < 32 ==> #[trigger] a.locked_at(j) == b.locked_at(j)
    &&& forall|j: int| 0 <= j < 32 ==> #[trigger] a.readers_at(j) == b.readers_at(j)
}

impl SoaView {
    /// The number of rows the view spans.
    pub closed spec fn spec_len(&self) -> nat {
        self.len as nat
    }

    /// Whether column `i` is locked for writing.
    pub closed spec fn locked_at(&self, i: int) -> bool {
        self.locked@[i]
    }

    /// The number of live shared borrows of column `i`.
    pub closed spec fn readers_at(&self, i: int) -> int {
        self.readers@[i] as int
    }

    /// A view over `len` rows with nothing borrowed.
    pub fn new(len: usize) -> (r: Self)
        ensures
            r.spec_len() == len,
            forall|j: int| 0 <= j < 32 ==> !#[trigger] r.locked_at(j),
            forall|j: int| 0 <= j < 32 ==> #[trigger] r.readers_at(j) == 0,
    {
        let r = SoaView { len, locked: [false; 32], readers: [0u32; 32] };
        assert(forall|j: int| 0 <= j < 32 ==> r.locked@[j] == false);
        assert(forall|j: int| 0 <= j < 32 ==> r.readers@[j] == 0u32);
        r
    }

    pub fn len(&self) -> (r: usize)
        ensures
            r == self.spec_len(),
    {
        self.len
    }

    /// The number of live shared borrows of column `index`.
    pub fn column_readers(&self, index: usize) -> (r: u32)
        requires
            index < MAX_TRACKED_COLUMNS,
        ensures
            r == self.readers_at(index as int),
    {
        self.readers[index]
    }

    /// Whether column `index` is locked for writing.
    pub fn column_locked(&self, index: usize) -> (r: bool)
        requires
            index < MAX_TRACKED_COLUMNS,
        ensures
            r == self.locked_at(index as int),
    {
        self.locked[index]
    }

    /// Whether column `index` may be borrowed for reading: it is not locked
    /// for writing.
    pub fn share_allowed(&self, index: usize) -> (r: bool)
        requires
            index < MAX_TRACKED_COLUMNS,
        ensures
            r == may_share(*self, index as int),
    {
        !self.locked[index]
    }

    /// Whether column `index` may be borrowed for writing: it is not locked
    /// and no shared borrow of it is live.
    pub fn lock_allowed(&self, index: usize) -> (r: bool)
        requires
            index < MAX_TRACKED_COLUMNS,
        ensures
            r == may_lock(*self, index as int),
    {
        !self.locked[index] && self.readers[index] == 0
    }

    /// Records a shared borrow of column `index`.
    pub fn acquire_shared(&mut self, index: usize)
        requires
            index < MAX_TRACKED_COLUMNS,
            may_share(*old(self), index as int),
            old(self).readers_at(index as int) < u32::MAX,
        ensures
            shared_once_more(*old(self), *final(self), index as int),
    {
        let n = self.readers[index];
        self.readers[index] = n + 1;
    }

    /// Ends a shared borrow of column `index`.
    pub fn release_shared(&mut self, index: usize)
        requires
            index < MAX_TRACKED_COLUMNS,
            old(self).readers_at(index as int) > 0,
        ensures
            released_once(*old(self), *final(self), index as int),
    {
        let n = self.readers[index];
        self.readers[index] = n - 1;
    }

    /// Locks column `index` for writing.
    pub fn acquire_mut(&mut self, index: usize)
        requires
            index < MAX_TRACKED_COLUMNS,
            may_lock(*old(self), index as int),
        ensures
            lock_set(*old(self), *final(self), index as int, true),
    {
        self.locked[index] = true;
    }

    /// Unlocks column `index`.
    pub fn release_mut(&mut self, index: usize)
        requires
            index < MAX_TRACKED_COLUMNS,
        ensures
            lock_set(*old(self), *final(self), index as int, false),
    {
        self.locked[index] = false;
    }
}

/// While any shared borrow of a column is live, the column cannot be locked;
/// while it is locked, it can be neither shared nor locked again.
pub proof fn lemma_borrows_exclude(v: SoaView, i: int)
    requires
        0 <= i < 32,
    ensures
        v.readers_at(i) > 0 ==> !may_lock(v, i),
        v.locked_at(i) ==> !may_share(v, i) && !may_lock(v, i),
{
}

/// However many shared borrows a column has, one more keeps it unlockable,
/// and the other columns' permissions are untouched.
pub proof fn lemma_share_blocks_lock(before: SoaView, after: SoaView, i: int)
    requires
        0 <= i < 32,
        shared_once_more(before, after, i),
    ensures
        !may_lock(after, i),
        forall|j: int|
            0 <= j < 32 && j != i ==> (may_lock(after, j) == may_lock(before, j) && may_share(
                after,
                j,
            ) == may_share(before, j)),
{
    assert(after.readers_at(i) == before.readers_at(i) + 1);
    assert forall|j: int| 0 <= j < 32 && j != i implies (may_lock(after, j) == may_lock(before, j)
        && may_share(after, j) == may_share(before, j)) by {
        assert(after.readers_at(j) == before.readers_at(j));
        assert(after.locked_at(j) == before.locked_at(j));
    }
}

/// Ending a shared borrow undoes starting it.
pub proof fn lemma_release_shared_restores(a: SoaView, b: SoaView, c: SoaView, i: int)
    requires
        0 <= i < 32,
        shared_once_more(a, b, i),
        released_once(b, c, i),
    ensures
        same_borrows(a, c),
{
    assert forall|j: int| 0 <= j < 32 implies #[trigger] a.readers_at(j) == c.readers_at(j) by {
        assert(b.readers_at(j) == a.readers_at(j) + if j == i {
            1int
        } else {
            0int
        });
        assert(c.readers_at(j) == b.readers_at(j) - if j == i {
            1int
        } else {
            0int
        });
    }
    assert forall|j: int| 0 <= j < 32 implies #[trigger] a.locked_at(j) == c.locked_at(j) by {
        assert(b.locked_at(j) == a.locked_at(j));
        assert(c.locked_at(j) == b.locked_at(j));
    }
}

/// Unlocking a column that was free undoes locking it.
pub proof fn lemma_release_mut_restores(a: SoaView, b: SoaView, c: SoaView, i: int)
    requires
        0 <= i < 32,
        !a.locked_at(i),
        lock_set(a, b, i, true),
        lock_set(b, c, i, false),
    ensures
        same_borrows(a, c),
{
    assert forall|j: int| 0 <= j < 32 implies #[trigger] a.locked_at(j) == c.locked_at(j) by {
        assert(b.locked_at(j) == if j == i {
            true
        } else {
            a.locked_at(j)
        });
        assert(c.locked_at(j) == if j == i {
            false
        } else {
            b.locked_at(j)
        });
    }
    assert forall|j: int| 0 <= j < 32 implies #[trigger] a.readers_at(j) == c.readers_at(j) by {
        assert(b.readers_at(j) == a.readers_at(j));
        assert(c.readers_at(j) == b.readers_at(j));
    }
}

} // verus!
