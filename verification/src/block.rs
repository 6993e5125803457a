//! Blocks: the unit-cube values that voxel spaces are filled with.
//!
//! Block evaluation (resolving a block definition to displayable data) is a
//! client of the object graph; only the small value types live here.

use vstd::prelude::*;

use crate::math::Rgba;

verus! {

/// A voxel block: either empty air or a solid unit cube of one color.
#[derive(Clone, Copy, Debug, PartialEq, Eq, Hash, Structural)]
pub enum Block {
    /// Invisible block filling all otherwise-unassigned space.
    Air,
    /// A uniformly colored solid block.
    Atom(Rgba),
}

/// The block which is placed everywhere a [`crate::space::Space`] has not
/// been given any other value.
pub const AIR: Block = Block::Air;

impl Block {
    /// Construct a solid block of the given color.
    pub fn from_color(color: Rgba) -> (b: Block)
        ensures
            b == Block::Atom(color),
    {
        Block::Atom(color)
    }

    /// Compute the rendering-relevant facts about this block.
    pub fn evaluate(&self) -> (e: EvaluatedBlock)
        ensures
            e == self.evaluate_spec(),
    {
        match self {
            Block::Air => EvaluatedBlock {
                color: Rgba { red: 0, green: 0, blue: 0, alpha: 0 },
                visible: false,
                opaque: false,
            },
            Block::Atom(color) => EvaluatedBlock {
                color: *color,
                visible: color.alpha != 0,
                opaque: color.alpha == 255,
            },
        }
    }

    /// What [`Block::evaluate`] returns.
    pub open spec fn evaluate_spec(self) -> EvaluatedBlock {
        match self {
            Block::Air => EvaluatedBlock {
                color: Rgba { red: 0, green: 0, blue: 0, alpha: 0 },
                visible: false,
                opaque: false,
            },
            Block::Atom(color) => EvaluatedBlock {
                color,
                visible: color.alpha != 0,
                opaque: color.alpha == 255,
            },
        }
    }
}

/// The result of evaluating a [`Block`]: what a renderer needs to know.
#[derive(Clone, Copy, Debug, PartialEq, Eq, Hash, Structural)]
pub struct EvaluatedBlock {
    /// Overall color of the block.
    pub color: Rgba,
    /// Whether the block has any visible appearance at all.
    pub visible: bool,
    /// Whether the block completely hides whatever is behind it.
    pub opaque: bool,
}

/// One voxel of an evaluated block: the per-cell data a mesher reads.
#[derive(Clone, Copy, Debug, PartialEq, Eq, Hash, Structural)]
pub struct Evoxel {
    /// Color of this voxel.
    pub color: Rgba,
    /// Whether a cursor may select this voxel.
    pub selectable: bool,
}

impl Evoxel {
    /// Derive the voxel data for a block that is a uniform single voxel.
    pub fn from_block(block: &EvaluatedBlock) -> (v: Evoxel)
        ensures
            v == (Evoxel { color: block.color, selectable: block.visible }),
    {
        Evoxel { color: block.color, selectable: block.visible }
    }

    /// A voxel of the given color with default attributes.
    pub fn from_color(color: Rgba) -> (v: Evoxel)
        ensures
            v == (Evoxel { color, selectable: true }),
    {
        Evoxel { color, selectable: true }
    }
}

/// Notification value reporting that a block definition's evaluation may have
/// changed. It carries no further detail; receivers re-evaluate on demand.
#[derive(Clone, Copy, Debug, PartialEq, Eq, Hash, Structural)]
pub struct BlockChange {}

impl BlockChange {
    pub fn new() -> (c: BlockChange)
        ensures
            c == (BlockChange {}),
    {
        BlockChange {}
    }
}

/// A named block definition: the member type that lets many spaces share one
/// block value through the universe.
#[derive(Clone, Copy, Debug, PartialEq, Eq, Hash, Structural)]
pub struct BlockDef {
    /// The block this definition denotes.
    pub block: Block,
}

impl BlockDef {
    pub fn new(block: Block) -> (d: BlockDef)
        ensures
            d == (BlockDef { block }),
    {
        BlockDef { block }
    }
}

} // verus!
