use vstd::prelude::*;

verus! {

/// Pairs of particle indices found to collide during a sub-step.
///
/// Every recorded pair is stored with its smaller index in `a_indices`
/// and its larger index in `b_indices`, at the same position.
pub struct CollisionRegistry {
    pub a_indices: Vec<usize>,
    pub b_indices: Vec<usize>,
}

impl Default for CollisionRegistry {
    /// An empty registry.
    fn default() -> (r: Self)
        ensures
            r.wf(),
            r.pairs() == Seq::<(usize, usize)>::empty(),
    {
        CollisionRegistry::new()
    }
}

impl CollisionRegistry {
    /// The recorded pairs, in the order they were pushed.
    pub open spec fn pairs(&self) -> Seq<(usize, usize)> {
        Seq::new(self.a_indices@.len(), |i: int| (self.a_indices@[i], self.b_indices@[i]))
    }

    /// Both index columns have the same length and each pair is ordered.
    pub open spec fn wf(&self) -> bool {
        &&& self.a_indices@.len() == self.b_indices@.len()
        &&& forall|i: int|
            0 <= i < self.a_indices@.len() ==> #[trigger] self.a_indices@[i] <= self.b_indices@[i]
    }

    pub fn new() -> (r: Self)
        ensures
            r.wf(),
            r.pairs() == Seq::<(usize, usize)>::empty(),
    {
        CollisionRegistry { a_indices: Vec::new(), b_indices: Vec::new() }
    }

    pub fn with_capacity(capacity: usize) -> (r: Self)
        ensures
            r.wf(),
            r.pairs() == Seq::<(usize, usize)>::empty(),
    {
        CollisionRegistry {
            a_indices: Vec::with_capacity(capacity),
            b_indices: Vec::with_capacity(capacity),
        }
    }

    pub fn clear(&mut self)
        ensures
            final(self).wf(),
            final(self).pairs() == Seq::<(usize, usize)>::empty(),
    {
        self.a_indices.clear();
        self.b_indices.clear();
    }

    pub fn len(&self) -> (r: usize)
        ensures
            r == self.a_indices@.len(),
    {
        self.a_indices.len()
    }

    pub fn is_empty(&self) -> (r: bool)
        ensures
            r == (self.a_indices@.len() == 0),
    {
        self.a_indices.len() == 0
    }

    /// Records the pair `{a, b}`, smaller index first.
    pub fn push(&mut self, a: usize, b: usize)
        ensures
            final(self).a_indices@ == old(self).a_indices@.push(if a <= b { a } else { b }),
            final(self).b_indices@ == old(self).b_indices@.push(if a <= b { b } else { a }),
            old(self).wf() ==> final(self).wf(),
            old(self).wf() ==> final(self).pairs() == old(self).pairs().push(
                if a <= b { (a, b) } else { (b, a) },
            ),
    {
        let mut a = a;
        let mut b = b;
        if a > b {
            let t = a;
            a = b;
            b = t;
        }
        self.a_indices.push(a);
        self.b_indices.push(b);
        proof {
            if old(self).wf() {
                assert(self.pairs() =~= old(self).pairs().push((a, b)));
            }
        }
    }
}

} // verus!
