//! Containers for triangle meshes computed from spaces.
//!
//! The meshing algorithms themselves belong to the renderers; this module
//! holds the verified container they fill: vertex and index buffers with
//! the opaque/transparent split a depth-sorting renderer relies on.

use vstd::prelude::*;

use core::ops::Range;

verus! {

/// A triangle-based representation of a space (or part of one), ready for
/// rasterization: a vertex buffer and an index buffer, with all indices
/// referring to transparent triangles bunched at the end.
///
/// Type parameter `V` is the type of triangle vertices.
#[derive(Debug, PartialEq)]
pub struct SpaceTriangulation<V> {
    vertices: Vec<V>,
    indices: Vec<u32>,
    transparent_start: usize,
}

impl<V> SpaceTriangulation<V> {
    /// The vertex buffer contents.
    pub closed spec fn vertices_spec(self) -> Seq<V> {
        self.vertices@
    }

    /// The index buffer contents.
    pub closed spec fn indices_spec(self) -> Seq<u32> {
        self.indices@
    }

    /// Where in the index buffer the transparent triangles start.
    pub closed spec fn transparent_start_spec(self) -> int {
        self.transparent_start as int
    }

    /// Validity: every index refers to a vertex, the opaque/transparent
    /// split lies within the index buffer, and both parts are whole
    /// triangles.
    pub open spec fn wf(self) -> bool {
        &&& forall|i: int|
            0 <= i < self.indices_spec().len() ==> (#[trigger] self.indices_spec()[i])
                < self.vertices_spec().len()
        &&& 0 <= self.transparent_start_spec() <= self.indices_spec().len()
        &&& self.transparent_start_spec() % 3 == 0
        &&& self.indices_spec().len() % 3 == 0
    }

    /// An empty triangulation which draws nothing.
    pub fn new() -> (t: Self)
        ensures
            t.wf(),
            t.vertices_spec().len() == 0,
            t.indices_spec().len() == 0,
            t.transparent_start_spec() == 0,
    {
        SpaceTriangulation { vertices: Vec::new(), indices: Vec::new(), transparent_start: 0 }
    }

    /// Assemble a triangulation from buffers a mesher computed: the opaque
    /// triangles' indices, then the transparent triangles' indices.
    pub fn from_buffers(vertices: Vec<V>, indices: Vec<u32>, transparent_start: usize) -> (t:
        Self)
        requires
            forall|i: int| 0 <= i < indices@.len() ==> (#[trigger] indices@[i]) < vertices@.len(),
            transparent_start <= indices@.len(),
            transparent_start % 3 == 0,
            indices@.len() % 3 == 0,
        ensures
            t.wf(),
            t.vertices_spec() == vertices@,
            t.indices_spec() == indices@,
            t.transparent_start_spec() == transparent_start,
    {
        SpaceTriangulation { vertices, indices, transparent_start }
    }

    /// The vertex buffer.
    pub fn vertices(&self) -> (r: &[V])
        ensures
            r@ == self.vertices_spec(),
    {
        self.vertices.as_slice()
    }

    /// The index buffer.
    pub fn indices(&self) -> (r: &[u32])
        ensures
            r@ == self.indices_spec(),
    {
        self.indices.as_slice()
    }

    /// True if there is nothing to draw.
    pub fn is_empty(&self) -> (r: bool)
        ensures
            r == (self.indices_spec().len() == 0),
    {
        self.indices.len() == 0
    }

    /// The range of [`SpaceTriangulation::indices`] which contains no
    /// transparent triangles and may therefore be drawn using a depth
    /// buffer rather than sorting.
    pub fn opaque_range(&self) -> (r: Range<usize>)
        ensures
            r.start == 0,
            r.end == self.transparent_start_spec(),
    {
        0..self.transparent_start
    }

    /// The range of [`SpaceTriangulation::indices`] which contains
    /// transparent triangles and must be drawn with consideration for
    /// ordering.
    pub fn transparent_range(&self) -> (r: Range<usize>)
        requires
            self.wf(),
        ensures
            r.start == self.transparent_start_spec(),
            r.end == self.indices_spec().len(),
    {
        self.transparent_start..self.indices.len()
    }
}

} // verus!
