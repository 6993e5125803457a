//! Bookkeeping for texture atlas allocators used by block meshing.
//!
//! The real allocators live with the graphics APIs; this module holds the
//! allocator used for exercising meshing without a GPU, which only counts
//! allocations against a capacity.

use vstd::prelude::*;

use crate::space::Grid;

verus! {

/// Null texture allocator: rejects all allocations. Used for generating
/// textureless meshes.
#[derive(Clone, Copy, Debug, PartialEq, Eq, Hash, Structural)]
pub struct NoTextures;

impl NoTextures {
    /// Refuse to allocate a tile.
    pub fn allocate(&mut self, texel_grid: Grid) -> (r: Option<NoTextures>)
        ensures
            r is None,
    {
        None
    }
}

/// Texture allocator that discards all input except for counting calls.
pub struct TestTextureAllocator {
    capacity: usize,
    count_allocated: usize,
}

impl TestTextureAllocator {
    /// The number of tiles after which allocation fails.
    pub closed spec fn capacity_spec(self) -> int {
        self.capacity as int
    }

    /// The number of tiles allocated so far.
    pub closed spec fn count_spec(self) -> int {
        self.count_allocated as int
    }

    /// Validity: the count never exceeds the capacity.
    pub open spec fn wf(self) -> bool {
        self.count_spec() <= self.capacity_spec()
    }

    /// An allocator with no capacity limit.
    pub fn new() -> (a: TestTextureAllocator)
        ensures
            a.wf(),
            a.capacity_spec() == usize::MAX,
            a.count_spec() == 0,
    {
        TestTextureAllocator { capacity: usize::MAX, count_allocated: 0 }
    }

    /// Fail after allocating this many tiles in total. (Deallocations are
    /// not tracked.)
    pub fn set_capacity(&mut self, capacity: usize)
        requires
            old(self).wf(),
            capacity >= old(self).count_spec(),
        ensures
            final(self).wf(),
            final(self).capacity_spec() == capacity,
            final(self).count_spec() == old(self).count_spec(),
    {
        self.capacity = capacity;
    }

    /// Number of tiles allocated. Does not decrement for deallocations.
    pub fn count_allocated(&self) -> (n: usize)
        ensures
            n == self.count_spec(),
    {
        self.count_allocated
    }

    /// Allocate a tile covering `texel_grid`, or report exhaustion.
    pub fn allocate(&mut self, texel_grid: Grid) -> (r: Option<TestTextureTile>)
        requires
            old(self).wf(),
        ensures
            final(self).wf(),
            final(self).capacity_spec() == old(self).capacity_spec(),
            old(self).count_spec() == old(self).capacity_spec() ==> r is None && final(self).count_spec() == old(self).count_spec(),
            old(self).count_spec() != old(self).capacity_spec() ==> (r matches Some(tile)
                && tile.grid_spec() == texel_grid) && final(self).count_spec() == old(self).count_spec() + 1,
    {
        if self.count_allocated == self.capacity {
            None
        } else {
            self.count_allocated = self.count_allocated + 1;
            Some(TestTextureTile { texel_grid })
        }
    }
}

/// Tile type for [`TestTextureAllocator`]: remembers only its box.
#[derive(Clone, Copy, Debug, PartialEq, Eq, Hash, Structural)]
pub struct TestTextureTile {
    texel_grid: Grid,
}

impl TestTextureTile {
    /// The box originally passed to the allocator for this tile.
    pub closed spec fn grid_spec(self) -> Grid {
        self.texel_grid
    }

    /// The box originally passed to the allocator for this tile.
    pub fn grid(&self) -> (g: Grid)
        ensures
            g == self.grid_spec(),
    {
        self.texel_grid
    }
}

} // verus!
