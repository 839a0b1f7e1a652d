//! Position algebra: world-space block positions, per-section local positions
//! and their linearization, and chunk column coordinates.
use vstd::prelude::*;
use vstd::arithmetic::div_mod::{lemma_add_mod_noop, lemma_mod_self_0, lemma_small_mod};

verus! {

/// Local coordinates of one block inside a section, each in `[0, 16)`.
#[derive(Clone, Copy, PartialEq, Eq, Structural, Debug)]
pub struct ChunkBlockPosition {
    pub x: u8,
    pub y: u8,
    pub z: u8,
}

impl ChunkBlockPosition {
    pub open spec fn wf(self) -> bool {
        self.x < 16 && self.y < 16 && self.z < 16
    }

    pub open spec fn spec_x(self) -> u8 {
        self.x
    }

    pub open spec fn spec_y(self) -> u8 {
        self.y
    }

    pub open spec fn spec_z(self) -> u8 {
        self.z
    }

    /// The fixed linear index of a local position: `(y * 16 + z) * 16 + x`.
    /// This ordering is part of the on-disk contract and never changes.
    pub open spec fn spec_linearize(self) -> int {
        (self.y * 16 + self.z) * 16 + self.x
    }

    pub fn new(x: u8, y: u8, z: u8) -> (r: Self)
        requires
            x < 16,
            y < 16,
            z < 16,
        ensures
            r == (ChunkBlockPosition { x, y, z }),
    {
        ChunkBlockPosition { x, y, z }
    }

    /// Linear slot index inside the section, in `[0, 4096)`.
    pub fn linearize(&self) -> (r: u16)
        requires
            self.wf(),
        ensures
            r == self.spec_linearize(),
            r < 4096,
    {
        ((self.y as u16 * 16 + self.z as u16) * 16) + self.x as u16
    }
}

/// Every linear index of a well-formed local position lies below the section
/// volume, and the linearization is a bijection on `[0,16)^3`: two
/// well-formed positions with the same index are the same position.
pub proof fn lemma_linearize_injective(a: ChunkBlockPosition, b: ChunkBlockPosition)
    requires
        a.wf(),
        b.wf(),
        a.spec_linearize() == b.spec_linearize(),
    ensures
        a == b,
{
    assert(a.spec_x() == b.spec_x() && a.spec_y() == b.spec_y() && a.spec_z() == b.spec_z())
        by (nonlinear_arith)
        requires
            a.wf(),
            b.wf(),
            a.spec_linearize() == b.spec_linearize(),
    ;
}

/// World-space integer block coordinates.
#[derive(Clone, Copy, PartialEq, Eq, Structural, Debug)]
pub struct BlockPosition {
    pub x: i64,
    pub y: i64,
    pub z: i64,
}

/// Mathematical modulus with a non-negative result for a positive modulus.
pub open spec fn pos_mod(a: int, m: int) -> int {
    ((a % m) + m) % m
}

proof fn lemma_pos_mod_16(a: int)
    ensures
        0 <= pos_mod(a, 16) < 16,
        a >= 0 ==> pos_mod(a, 16) == a % 16,
{
    assert(0 <= a % 16 < 16) by (nonlinear_arith);
    lemma_mod_self_0(16);
    lemma_add_mod_noop(a % 16, 16, 16);
    lemma_small_mod((a % 16) as nat, 16nat);
    assert(pos_mod(a, 16) == ((a % 16) % 16 + 16int % 16) % 16);
}

impl BlockPosition {
    pub open spec fn spec_x(self) -> i64 {
        self.x
    }

    pub open spec fn spec_y(self) -> i64 {
        self.y
    }

    pub open spec fn spec_z(self) -> i64 {
        self.z
    }

    pub fn new(x: i64, y: i64, z: i64) -> (r: Self)
        ensures
            r == (BlockPosition { x, y, z }),
    {
        BlockPosition { x, y, z }
    }

    /// Splits a world position into its section index (`y / 16`) and the
    /// local position inside that section (each coordinate taken modulo 16).
    pub fn get_block_position(&self) -> (r: (u32, ChunkBlockPosition))
        requires
            0 <= self.spec_y() < 256,
        ensures
            r.0 == self.spec_y() / 16,
            r.0 < 16,
            r.1.wf(),
            r.1.spec_x() == pos_mod(self.spec_x() as int, 16),
            r.1.spec_y() == pos_mod(self.spec_y() as int, 16),
            r.1.spec_z() == pos_mod(self.spec_z() as int, 16),
    {
        let section = (self.y / 16) as u32;
        let lx = Self::mod16(self.x);
        let ly = Self::mod16(self.y);
        let lz = Self::mod16(self.z);
        (section, ChunkBlockPosition::new(lx, ly, lz))
    }

    /// The coordinate modulo 16, mapped into `[0, 16)` also for negatives.
    fn mod16(v: i64) -> (r: u8)
        ensures
            r == pos_mod(v as int, 16),
            r < 16,
    {
        proof {
            lemma_pos_mod_16(v as int);
        }
        if v >= 0 {
            (v % 16) as u8
        } else {
            let w = (-1 - v) % 16;
            proof {
                lemma_pos_mod_16((-1 - v) as int);
                assert(15 - ((-1 - v) % 16) == pos_mod(v as int, 16)) by (nonlinear_arith);
            }
            (15 - w) as u8
        }
    }
}

/// Chunk column coordinates `(x, z)`; the primary key for persistence.
#[derive(Clone, Copy, PartialEq, Eq, Structural, Debug)]
pub struct ChunkPosition {
    pub x: i32,
    pub z: i32,
}

impl ChunkPosition {
    pub fn new(x: i32, z: i32) -> (r: Self)
        ensures
            r == (ChunkPosition { x, z }),
    {
        ChunkPosition { x, z }
    }
}

} // verus!
