use vstd::prelude::*;

verus! {

/// How many elements of `element_size` bytes fit in `byte_capacity` bytes;
/// none for a zero-sized element.
pub fn column_capacity(byte_capacity: usize, element_size: usize) -> (r: usize)
    ensures
        element_size == 0 ==> r == 0,
        element_size > 0 ==> r == byte_capacity / element_size,
{
    if element_size == 0 {
        0
    } else {
        byte_capacity / element_size
    }
}

/// The bytes a column must reserve so that `new_capacity` elements fit:
/// the missing elements times the element size, or nothing when they
/// already fit or the element is zero-sized.
pub fn reserve_bytes(byte_capacity: usize, element_size: usize, new_capacity: usize) -> (r: usize)
    requires
        element_size > 0 && new_capacity > byte_capacity / element_size ==> (new_capacity
            - byte_capacity / element_size) * element_size <= usize::MAX,
    ensures
        element_size == 0 ==> r == 0,
        element_size > 0 && new_capacity <= byte_capacity / element_size ==> r == 0,
        element_size > 0 && new_capacity > byte_capacity / element_size ==> r == (new_capacity
            - byte_capacity / element_size) * element_size,
{
    if element_size == 0 {
        return 0;
    }
    let current = byte_capacity / element_size;
    if new_capacity > current {
        (new_capacity - current) * element_size
    } else {
        0
    }
}

/// The capacity a full storage grows to: four, or twice what it had.
pub fn grown_capacity(current: usize) -> (r: usize)
    requires
        current * 2 <= usize::MAX,
    ensures
        current == 0 ==> r == 4,
        current > 0 ==> r == current * 2,
        r > current,
{
    if current == 0 {
        4
    } else {
        current * 2
    }
}

} // verus!
