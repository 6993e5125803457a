//! Voxel grids: axis-aligned boxes of cubes, each holding a [`Block`].

use vstd::prelude::*;
use vstd::arithmetic::div_mod::lemma_fundamental_div_mod_converse;

use crate::block::Block;
use crate::math::GridPoint;

verus! {

/// An axis-aligned box of integer cube positions: a lower corner and a
/// nonnegative size along each axis.
#[derive(Clone, Copy, Debug, PartialEq, Eq, Hash, Structural)]
pub struct Grid {
    lower: GridPoint,
    size: GridPoint,
}

impl Grid {
    /// Lower corner (inclusive).
    pub closed spec fn lower(self) -> GridPoint {
        self.lower
    }

    /// Extent along each axis.
    pub closed spec fn size(self) -> GridPoint {
        self.size
    }

    /// Number of cubes in the box.
    pub open spec fn volume_spec(self) -> int {
        self.size().x * self.size().y * self.size().z
    }

    /// Validity: nonnegative sizes, an upper corner that stays within the
    /// coordinate type, and a volume that fits in a `usize`.
    pub open spec fn wf(self) -> bool {
        &&& 0 <= self.size().x
        &&& 0 <= self.size().y
        &&& 0 <= self.size().z
        &&& self.lower().x + self.size().x <= i32::MAX
        &&& self.lower().y + self.size().y <= i32::MAX
        &&& self.lower().z + self.size().z <= i32::MAX
        &&& self.volume_spec() <= usize::MAX
    }

    /// Whether `p` lies inside the box.
    pub open spec fn contains_spec(self, p: GridPoint) -> bool {
        &&& self.lower().x <= p.x < self.lower().x + self.size().x
        &&& self.lower().y <= p.y < self.lower().y + self.size().y
        &&& self.lower().z <= p.z < self.lower().z + self.size().z
    }

    /// Flat storage index of a contained point (x-major, then y, then z).
    pub open spec fn index_spec(self, p: GridPoint) -> int {
        ((p.x - self.lower().x) * self.size().y + (p.y - self.lower().y)) * self.size().z + (
        p.z - self.lower().z)
    }

    /// Inverse of [`Grid::index_spec`] for indices within the volume.
    pub open spec fn point_spec(self, i: int) -> GridPoint {
        GridPoint {
            x: (self.lower().x + (i / self.size().z as int) / self.size().y as int) as i32,
            y: (self.lower().y + (i / self.size().z as int) % self.size().y as int) as i32,
            z: (self.lower().z + i % self.size().z as int) as i32,
        }
    }

    /// A contained point's index is within the volume, and the flat index
    /// determines the point.
    pub proof fn lemma_index_bijective(self, p: GridPoint)
        requires
            self.wf(),
            self.contains_spec(p),
        ensures
            0 <= self.index_spec(p) < self.volume_spec(),
            self.point_spec(self.index_spec(p)) == p,
    {
        let lx = self.lower().x as int;
        let ly = self.lower().y as int;
        let lz = self.lower().z as int;
        let sx = self.size().x as int;
        let sy = self.size().y as int;
        let sz = self.size().z as int;
        let dx = p.x - lx;
        let dy = p.y - ly;
        let dz = p.z - lz;
        let q = dx * sy + dy;
        let i = q * sz + dz;
        assert(0 <= q < sx * sy && 0 <= i < (sx * sy) * sz) by (nonlinear_arith)
            requires
                0 <= dx < sx,
                0 <= dy < sy,
                0 <= dz < sz,
                q == dx * sy + dy,
                i == q * sz + dz,
        ;
        assert((sx * sy) * sz == sx * (sy * sz)) by (nonlinear_arith);
        lemma_fundamental_div_mod_converse(i, sz, q, dz);
        lemma_fundamental_div_mod_converse(q, sy, dx, dy);
    }

    /// Every index within the volume names a contained point, which maps back
    /// to the same index.
    pub proof fn lemma_point_bijective(self, i: int)
        requires
            self.wf(),
            0 <= i < self.volume_spec(),
        ensures
            self.contains_spec(self.point_spec(i)),
            self.index_spec(self.point_spec(i)) == i,
    {
        let sx = self.size().x as int;
        let sy = self.size().y as int;
        let sz = self.size().z as int;
        assert(sx * sy * sz > 0);
        assert(sx > 0 && sy > 0 && sz > 0) by (nonlinear_arith)
            requires
                0 <= sx && 0 <= sy && 0 <= sz && sx * sy * sz > 0,
        ;
        let dz = i % sz;
        let q = i / sz;
        vstd::arithmetic::div_mod::lemma_fundamental_div_mod(i, sz);
        vstd::arithmetic::div_mod::lemma_mod_bound(i, sz);
        assert(0 <= q < sx * sy) by (nonlinear_arith)
            requires
                i == sz * q + dz,
                0 <= dz < sz,
                0 <= i < sx * sy * sz,
                sz > 0,
        ;
        let dy = q % sy;
        let dx = q / sy;
        vstd::arithmetic::div_mod::lemma_fundamental_div_mod(q, sy);
        vstd::arithmetic::div_mod::lemma_mod_bound(q, sy);
        assert(0 <= dx < sx) by (nonlinear_arith)
            requires
                q == sy * dx + dy,
                0 <= dy < sy,
                0 <= q < sx * sy,
                sy > 0,
        ;
        assert((dx * sy + dy) * sz + dz == i) by (nonlinear_arith)
            requires
                i == sz * q + dz,
                q == sy * dx + dy,
        ;
    }

    /// Distinct contained points have distinct indices.
    pub proof fn lemma_index_injective(self, p1: GridPoint, p2: GridPoint)
        requires
            self.wf(),
            self.contains_spec(p1),
            self.contains_spec(p2),
            p1 != p2,
        ensures
            self.index_spec(p1) != self.index_spec(p2),
    {
        self.lemma_index_bijective(p1);
        self.lemma_index_bijective(p2);
    }

    /// Construct a box from its lower corner and size.
    pub fn new(lower: GridPoint, size: GridPoint) -> (g: Grid)
        requires
            0 <= size.x,
            0 <= size.y,
            0 <= size.z,
            lower.x + size.x <= i32::MAX,
            lower.y + size.y <= i32::MAX,
            lower.z + size.z <= i32::MAX,
            size.x * size.y * size.z <= usize::MAX,
        ensures
            g.wf(),
            g.lower() == lower,
            g.size() == size,
    {
        Grid { lower, size }
    }

    /// The cube of edge length `resolution` with its lower corner at the
    /// origin, as used for block voxel data.
    pub fn for_block(resolution: u8) -> (g: Grid)
        ensures
            g.wf(),
            g.lower() == (GridPoint { x: 0, y: 0, z: 0 }),
            g.size() == (GridPoint {
                x: resolution as i32,
                y: resolution as i32,
                z: resolution as i32,
            }),
    {
        let r: i32 = resolution as i32;
        proof {
            assert(r * r * r < 0x1000000) by (nonlinear_arith)
                requires
                    0 <= r < 256,
            ;
        }
        Grid { lower: GridPoint { x: 0, y: 0, z: 0 }, size: GridPoint { x: r, y: r, z: r } }
    }

    /// Number of cubes in the box.
    pub fn volume(&self) -> (v: usize)
        requires
            self.wf(),
        ensures
            v == self.volume_spec(),
    {
        let sx: u64 = self.size.x as u64;
        let sy: u64 = self.size.y as u64;
        let sz: u64 = self.size.z as u64;
        proof {
            assert(sx * sy <= 0x4000_0000_0000_0000 && sx * sy * sz == self.volume_spec())
                by (nonlinear_arith)
                requires
                    sx == self.size().x && sy == self.size().y && sz == self.size().z,
                    0 <= self.size().x < 0x8000_0000,
                    0 <= self.size().y < 0x8000_0000,
                    0 <= self.size().z,
                    self.volume_spec() == self.size().x * self.size().y * self.size().z,
            ;
        }
        let a: u64 = sx * sy;
        let v: u64 = a * sz;
        v as usize
    }

    /// Whether `p` lies inside the box.
    pub fn contains(&self, p: GridPoint) -> (r: bool)
        requires
            self.wf(),
        ensures
            r == self.contains_spec(p),
    {
        let px: i64 = p.x as i64;
        let py: i64 = p.y as i64;
        let pz: i64 = p.z as i64;
        px >= self.lower.x as i64 && px < self.lower.x as i64 + self.size.x as i64 && py
            >= self.lower.y as i64 && py < self.lower.y as i64 + self.size.y as i64 && pz
            >= self.lower.z as i64 && pz < self.lower.z as i64 + self.size.z as i64
    }

    /// Flat index of `p`, or `None` if `p` is outside the box.
    pub fn index(&self, p: GridPoint) -> (r: Option<usize>)
        requires
            self.wf(),
        ensures
            self.contains_spec(p) ==> r == Some(self.index_spec(p) as usize) && 0
                <= self.index_spec(p) < self.volume_spec(),
            !self.contains_spec(p) ==> r is None,
    {
        if !self.contains(p) {
            return None;
        }
        proof {
            self.lemma_index_bijective(p);
        }
        let dx: u64 = (p.x as i64 - self.lower.x as i64) as u64;
        let dy: u64 = (p.y as i64 - self.lower.y as i64) as u64;
        let dz: u64 = (p.z as i64 - self.lower.z as i64) as u64;
        let sy: u64 = self.size.y as u64;
        let sz: u64 = self.size.z as u64;
        proof {
            let vol = self.volume_spec();
            assert(dx * sy + dy < 0x4000_0000_0000_0000 && (dx * sy + dy) * sz + dz < vol && dx
                * sy <= (dx * sy + dy) * sz + dz) by (nonlinear_arith)
                requires
                    0 <= dx < self.size().x,
                    0 <= dy < sy,
                    0 <= dz < sz,
                    self.size().x < 0x8000_0000,
                    sy < 0x8000_0000,
                    vol == self.size().x * sy * sz,
                    ((dx * sy + dy) * sz + dz) == self.index_spec(p),
                    0 <= self.index_spec(p),
            ;
        }
        let q: u64 = dx * sy + dy;
        let i: u64 = q * sz + dz;
        Some(i as usize)
    }
}

/// Error from [`Space::set`]: the addressed cube is outside the space.
#[derive(Clone, Copy, Debug, PartialEq, Eq, Hash, Structural)]
pub enum SetCubeError {
    OutOfBounds,
}

/// A finite box of voxels, each holding a [`Block`].
#[derive(Debug, PartialEq)]
pub struct Space {
    grid: Grid,
    contents: Vec<Block>,
}

impl Clone for Space {
    /// Clones reproduce the space exactly.
    fn clone(&self) -> (r: Self)
        ensures
            r.grid_spec() == self.grid_spec(),
            r.contents_spec() == self.contents_spec(),
    {
        let r = Space { grid: self.grid, contents: self.contents.clone() };
        proof {
            assert(r.contents_spec() =~= self.contents_spec());
        }
        r
    }
}

impl Space {
    /// The box this space occupies.
    pub closed spec fn grid_spec(self) -> Grid {
        self.grid
    }

    /// Flat storage of the blocks, indexed by [`Grid::index_spec`].
    pub closed spec fn contents_spec(self) -> Seq<Block> {
        self.contents@
    }

    /// Validity: the grid is valid and the storage covers exactly its volume.
    pub open spec fn wf(self) -> bool {
        &&& self.grid_spec().wf()
        &&& self.contents_spec().len() == self.grid_spec().volume_spec()
    }

    /// The block at `p`, for `p` within the grid.
    pub open spec fn spec_get(self, p: GridPoint) -> Block
        recommends
            self.wf(),
            self.grid_spec().contains_spec(p),
    {
        self.contents_spec()[self.grid_spec().index_spec(p)]
    }

    /// An all-air space filling `grid`.
    pub fn empty(grid: Grid) -> (s: Space)
        requires
            grid.wf(),
        ensures
            s.wf(),
            s.grid_spec() == grid,
            forall|i: int|
                0 <= i < grid.volume_spec() ==> s.contents_spec()[i] == Block::Air,
    {
        let n: usize = grid.volume();
        let mut contents: Vec<Block> = Vec::new();
        let mut k: usize = 0;
        while k < n
            invariant
                k <= n,
                contents@.len() == k,
                forall|i: int| 0 <= i < k ==> contents@[i] == Block::Air,
            decreases n - k,
        {
            contents.push(Block::Air);
            k = k + 1;
        }
        Space { grid, contents }
    }

    /// An all-air space whose lower corner is the origin.
    pub fn empty_positive(wx: i32, wy: i32, wz: i32) -> (s: Space)
        requires
            0 <= wx,
            0 <= wy,
            0 <= wz,
            wx * wy * wz <= usize::MAX,
        ensures
            s.wf(),
            s.grid_spec().lower() == (GridPoint { x: 0, y: 0, z: 0 }),
            s.grid_spec().size() == (GridPoint { x: wx, y: wy, z: wz }),
            forall|i: int|
                0 <= i < s.grid_spec().volume_spec() ==> s.contents_spec()[i] == Block::Air,
    {
        Space::empty(
            Grid::new(GridPoint { x: 0, y: 0, z: 0 }, GridPoint { x: wx, y: wy, z: wz }),
        )
    }

    /// The box this space occupies.
    pub fn grid(&self) -> (g: Grid)
        ensures
            g == self.grid_spec(),
    {
        self.grid
    }

    /// The block at `p`, or `None` if `p` is outside the space.
    pub fn get(&self, p: GridPoint) -> (r: Option<Block>)
        requires
            self.wf(),
        ensures
            r == if self.grid_spec().contains_spec(p) {
                Some(self.spec_get(p))
            } else {
                Option::<Block>::None
            },
    {
        match self.grid.index(p) {
            Some(i) => Some(self.contents[i]),
            None => None,
        }
    }

    /// Replace the block at `p`. Returns whether the contents changed, or an
    /// error if `p` is outside the space; on error nothing is modified.
    pub fn set(&mut self, p: GridPoint, block: &Block) -> (r: Result<bool, SetCubeError>)
        requires
            old(self).wf(),
        ensures
            final(self).wf(),
            final(self).grid_spec() == old(self).grid_spec(),
            !old(self).grid_spec().contains_spec(p) ==> r == Err::<bool, SetCubeError>(
                SetCubeError::OutOfBounds,
            ) && final(self).contents_spec() == old(self).contents_spec(),
            old(self).grid_spec().contains_spec(p) ==> r == Ok::<bool, SetCubeError>(
                old(self).spec_get(p) != *block,
            ) && final(self).contents_spec() == old(self).contents_spec().update(
                old(self).grid_spec().index_spec(p),
                *block,
            ),
    {
        match self.grid.index(p) {
            None => Err(SetCubeError::OutOfBounds),
            Some(i) => {
                let changed: bool = self.contents[i] != *block;
                if changed {
                    self.contents.set(i, *block);
                }
                proof {
                    assert(self.contents_spec() =~= old(self).contents_spec().update(
                        old(self).grid_spec().index_spec(p),
                        *block,
                    ));
                }
                Ok(changed)
            },
        }
    }
}

} // verus!
