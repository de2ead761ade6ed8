use vstd::prelude::*;
use crate::storage::{swap_removed, AosStorage, ElementStorage, Storage};

verus! {

/// `Vec::capacity`: the number of elements the vector can hold without
/// reallocating, which std documents as never below its length.
#[verifier::external_body]
fn vec_capacity<T>(v: &Vec<T>) -> (r: usize)
    ensures
        r >= v@.len(),
{
    v.capacity()
}

/// Array-of-structures storage: one `Vec` of whole elements.
pub struct AosVecStorage<Element> {
    items: Vec<Element>,
}

impl<Element> AosVecStorage<Element> {
    pub fn new() -> (r: Self)
        ensures
            r.elements() == Seq::<Element>::empty(),
    {
        AosVecStorage { items: Vec::new() }
    }

    /// Read-only view of the elements.
    pub fn view(&self) -> (r: &[Element])
        ensures
            r@ == self.elements(),
    {
        self.items.as_slice()
    }

    /// Mutable view of the elements.
    pub fn view_mut(&mut self) -> (r: &mut [Element])
        ensures
            r@ == old(self).elements(),
            final(self).elements() == final(r)@,
    {
        self.items.as_mut_slice()
    }
}

impl<Element> Storage for AosVecStorage<Element> {
    closed spec fn spec_len(&self) -> nat {
        self.items@.len()
    }

    fn len(&self) -> (r: usize) {
        self.items.len()
    }

    fn capacity(&self) -> (r: usize) {
        vec_capacity(&self.items)
    }

    fn clear(&mut self) {
        self.items.clear();
    }
}

impl<Element> ElementStorage for AosVecStorage<Element> {
    type Element = Element;

    closed spec fn elements(&self) -> Seq<Element> {
        self.items@
    }

    proof fn lemma_len_is_element_count(&self) {
    }

    fn push(&mut self, element: Element) {
        self.items.push(element);
    }

    fn swap_remove(&mut self, index: usize) -> (r: Element) {
        self.items.swap_remove(index)
    }
}

impl<Element> AosStorage for AosVecStorage<Element> {
    fn as_slice(&self) -> (r: &[Element]) {
        self.items.as_slice()
    }

    fn as_slice_mut(&mut self) -> (r: &mut [Element]) {
        self.items.as_mut_slice()
    }
}

} // verus!
