//! The block datum: a block-type id with optional facing and color.
use vstd::prelude::*;

verus! {

pub type BlockIndexType = u16;

pub type BlockColorType = u8;

/// The facing of a directional block.
#[derive(Clone, Copy, PartialEq, Eq, Structural, Debug)]
pub enum BlockFace {
    Down,
    Up,
    North,
    South,
    West,
    East,
}

impl BlockFace {
    /// Stable numbering of the faces, used by the binary codec.
    pub open spec fn spec_index(self) -> int {
        match self {
            BlockFace::Down => 0,
            BlockFace::Up => 1,
            BlockFace::North => 2,
            BlockFace::South => 3,
            BlockFace::West => 4,
            BlockFace::East => 5,
        }
    }
}

/// One block's data: type id, optional facing, optional decorative color.
///
/// Equality considers `id` and `face` only: the color is decorative
/// metadata, though the codec still round-trips it.
#[derive(Clone, Copy, Debug)]
pub struct BlockDataInfo {
    pub id: BlockIndexType,
    pub face: Option<BlockFace>,
    pub color: Option<BlockColorType>,
}

impl PartialEq for BlockDataInfo {
    fn eq(&self, other: &Self) -> (r: bool) {
        let faces_equal = match (self.face, other.face) {
            (None, None) => true,
            (Some(a), Some(b)) => a == b,
            _ => false,
        };
        self.id == other.id && faces_equal
    }
}

impl vstd::std_specs::cmp::PartialEqSpecImpl for BlockDataInfo {
    open spec fn obeys_eq_spec() -> bool {
        true
    }

    open spec fn eq_spec(&self, other: &Self) -> bool {
        self.id == other.id && self.face == other.face
    }
}

impl BlockDataInfo {
    pub open spec fn spec_id(self) -> BlockIndexType {
        self.id
    }

    pub open spec fn spec_face(self) -> Option<BlockFace> {
        self.face
    }

    pub open spec fn spec_color(self) -> Option<BlockColorType> {
        self.color
    }

    pub fn create(id: BlockIndexType) -> (r: Self)
        ensures
            r == (BlockDataInfo { id, face: None, color: None }),
    {
        BlockDataInfo { id, face: None, color: None }
    }

    /// Builder step: the same datum with this facing attached.
    pub fn face(self, face: BlockFace) -> (r: Self)
        ensures
            r == (BlockDataInfo { face: Some(face), ..self }),
    {
        BlockDataInfo { face: Some(face), ..self }
    }

    /// Builder step: the same datum with this color attached.
    pub fn color(self, color: BlockColorType) -> (r: Self)
        ensures
            r == (BlockDataInfo { color: Some(color), ..self }),
    {
        BlockDataInfo { color: Some(color), ..self }
    }

    pub fn get_id(&self) -> (r: BlockIndexType)
        ensures
            r == self.spec_id(),
    {
        self.id
    }

    pub fn get_face(&self) -> (r: &Option<BlockFace>)
        ensures
            *r == self.spec_face(),
    {
        &self.face
    }

    pub fn set_face(&mut self, face: Option<BlockFace>)
        ensures
            *final(self) == (BlockDataInfo { face, ..*old(self) }),
    {
        self.face = face;
    }

    pub fn get_color(&self) -> (r: &Option<BlockColorType>)
        ensures
            *r == self.spec_color(),
    {
        &self.color
    }
}

} // verus!
