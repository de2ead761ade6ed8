use vstd::prelude::*;

verus! {

/// Index into a mesh's vertex list.
pub type Index = u32;

/// A renderable mesh: its kind, its vertices and the indices that form its primitives.
pub struct Mesh<K, V> {
    pub kind: K,
    pub vertices: Vec<V>,
    pub indices: Vec<Index>,
}

impl<K, V> Mesh<K, V> {
    pub fn new(mesh_type: K, vertices: Vec<V>, indices: Vec<Index>) -> (r: Self)
        ensures
            r.kind == mesh_type,
            r.vertices@ == vertices@,
            r.indices@ == indices@,
    {
        Mesh { kind: mesh_type, vertices, indices }
    }

    pub fn is_empty(&self) -> (r: bool)
        ensures
            r == (self.vertices@.len() == 0),
    {
        self.vertices.len() == 0
    }

    pub fn vertex_count(&self) -> (r: usize)
        ensures
            r == self.vertices@.len(),
    {
        self.vertices.len()
    }

    pub fn index_count(&self) -> (r: usize)
        ensures
            r == self.indices@.len(),
    {
        self.indices.len()
    }
}

} // verus!
