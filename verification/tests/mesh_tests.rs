//! Tests for the meshing containers, texture allocation bookkeeping, and
//! the block value types.

use all_is_cubes::block::{Block, BlockChange, Evoxel, AIR};
use all_is_cubes::math::{GridPoint, Rgba};
use all_is_cubes::space::Grid;
use all_is_cubes::texalloc::{NoTextures, TestTextureAllocator};
use all_is_cubes::triangulator::SpaceTriangulation;

/// Exercise the counting texture allocator.
#[test]
fn test_texture_allocator() {
    let grid = Grid::for_block(7);
    let mut allocator = TestTextureAllocator::new();
    assert_eq!(allocator.count_allocated(), 0);
    assert!(allocator.allocate(grid).is_some());
    assert!(allocator.allocate(grid).is_some());
    assert_eq!(allocator.count_allocated(), 2);
    allocator.set_capacity(3);
    assert!(allocator.allocate(grid).is_some());
    assert!(allocator.allocate(grid).is_none());
}

#[test]
fn test_texture_tile_remembers_grid() {
    let grid = Grid::for_block(4);
    let mut allocator = TestTextureAllocator::new();
    let tile = allocator.allocate(grid).unwrap();
    assert_eq!(tile.grid(), grid);
}

#[test]
fn no_textures_allocates_nothing() {
    let mut n = NoTextures;
    assert!(n.allocate(Grid::for_block(2)).is_none());
}

#[test]
fn space_triangulation_empty() {
    let t: SpaceTriangulation<u64> = SpaceTriangulation::new();
    assert!(t.is_empty());
    assert_eq!(t.vertices(), &[]);
    assert_eq!(t.indices(), &[]);
    assert_eq!(t.opaque_range(), 0..0);
    assert_eq!(t.transparent_range(), 0..0);
}

#[test]
fn space_triangulation_from_buffers() {
    // Two triangles over four vertices; the second triangle is transparent.
    let t: SpaceTriangulation<u64> =
        SpaceTriangulation::from_buffers(vec![10, 20, 30, 40], vec![0, 1, 2, 1, 2, 3], 3);
    assert!(!t.is_empty());
    assert_eq!(t.vertices(), &[10, 20, 30, 40]);
    assert_eq!(t.indices(), &[0, 1, 2, 1, 2, 3]);
    assert_eq!(t.opaque_range(), 0..3);
    assert_eq!(t.transparent_range(), 3..6);
}

#[test]
fn block_evaluation() {
    assert_eq!(AIR, Block::Air);
    let e = AIR.evaluate();
    assert!(!e.visible);
    assert!(!e.opaque);
    let solid = Block::from_color(Rgba::new(1, 2, 3, 255));
    let e = solid.evaluate();
    assert!(e.visible);
    assert!(e.opaque);
    assert_eq!(e.color, Rgba::new(1, 2, 3, 255));
    let translucent = Block::from_color(Rgba::new(1, 2, 3, 100));
    let e = translucent.evaluate();
    assert!(e.visible);
    assert!(!e.opaque);
}

#[test]
fn evoxel_constructors() {
    let c = Rgba::new(9, 9, 9, 255);
    let e = Evoxel::from_color(c);
    assert_eq!(e.color, c);
    assert!(e.selectable);
    let from_block = Evoxel::from_block(&Block::from_color(c).evaluate());
    assert_eq!(from_block.color, c);
    assert!(from_block.selectable);
    let invisible = Evoxel::from_block(&AIR.evaluate());
    assert!(!invisible.selectable);
    let _ = BlockChange::new();
}

#[test]
fn grid_indexing_round_trips() {
    let grid = Grid::new(GridPoint::new(-1, 0, 2), GridPoint::new(2, 3, 4));
    assert_eq!(grid.volume(), 24);
    let mut seen = vec![false; 24];
    for x in -1..1 {
        for y in 0..3 {
            for z in 2..6 {
                let p = GridPoint::new(x, y, z);
                assert!(grid.contains(p));
                let i = grid.index(p).unwrap();
                assert!(i < 24);
                assert!(!seen[i], "index must be unique per cube");
                seen[i] = true;
            }
        }
    }
    assert!(grid.index(GridPoint::new(1, 0, 2)).is_none());
    assert!(!grid.contains(GridPoint::new(-2, 0, 2)));
}
