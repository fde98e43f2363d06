//! Voxels: what one tile of the screen shows, and the three faces of a block.

use vstd::prelude::*;
use crate::rendering::color::Color;

verus! {

/// How far a glyph is turned, in quarter turns.
#[derive(Clone, Copy, Debug, PartialEq, Eq, Structural)]
pub enum VoxelRotation {
    Rotation0,
    Rotation90,
    Rotation180,
    Rotation270,
}

/// Along which axes a glyph is mirrored.
#[derive(Clone, Copy, Debug, PartialEq, Eq, Structural)]
pub enum VoxelMirror {
    MirrorNone,
    MirrorX,
    MirrorY,
    MirrorBoth,
}

/// One of the three visible faces of a block.
#[derive(Clone, Copy, Debug, PartialEq, Eq, Structural)]
pub enum VoxelFace {
    X,
    Y,
    Z,
}

/// A glyph with its colours and orientation.
#[derive(Clone, Copy, Debug, PartialEq, Eq, Structural)]
pub struct Voxel2 {
    pub char_offset: u16,
    pub foreground: Color,
    pub background: Option<Color>,
    pub rotation: VoxelRotation,
    pub mirror: VoxelMirror,
}

/// A block, seen as one glyph per face.
#[derive(Clone, Copy, Debug, PartialEq, Eq, Structural)]
pub struct Voxel3 {
    pub x: Voxel2,
    pub y: Voxel2,
    pub z: Voxel2,
}

impl VoxelMirror {
    /// The sign of the scale along each screen axis: `true` where the glyph is
    /// flipped along that axis.
    pub open spec fn spec_flips(self) -> (bool, bool) {
        match self {
            VoxelMirror::MirrorNone => (false, false),
            VoxelMirror::MirrorX => (true, false),
            VoxelMirror::MirrorY => (false, true),
            VoxelMirror::MirrorBoth => (true, true),
        }
    }

    /// Whether the glyph is flipped along the x axis and along the y axis.
    pub fn flips(&self) -> (f: (bool, bool))
        ensures
            f == self.spec_flips(),
    {
        match self {
            VoxelMirror::MirrorNone => (false, false),
            VoxelMirror::MirrorX => (true, false),
            VoxelMirror::MirrorY => (false, true),
            VoxelMirror::MirrorBoth => (true, true),
        }
    }
}

impl Voxel2 {
    /// The plain white glyph at `char_offset`.
    pub open spec fn plain(char_offset: u16) -> Self {
        Voxel2 {
            char_offset,
            foreground: Color { r: 255, g: 255, b: 255 },
            background: None,
            rotation: VoxelRotation::Rotation0,
            mirror: VoxelMirror::MirrorNone,
        }
    }

    /// A white glyph without background, upright and not mirrored.
    pub fn new(char_offset: u16) -> (v: Self)
        ensures
            v == Self::plain(char_offset),
    {
        Self {
            char_offset,
            foreground: crate::rendering::color::white(),
            background: None,
            rotation: VoxelRotation::Rotation0,
            mirror: VoxelMirror::MirrorNone,
        }
    }

    /// The same glyph in another colour.
    pub fn foreground(self, foreground: Color) -> (v: Self)
        ensures
            v == (Voxel2 { foreground, ..self }),
    {
        Self { foreground, ..self }
    }

    /// The same glyph on another background.
    pub fn background(self, background: Option<Color>) -> (v: Self)
        ensures
            v == (Voxel2 { background, ..self }),
    {
        Self { background, ..self }
    }

    /// The same glyph, turned.
    pub fn rotation(self, rotation: VoxelRotation) -> (v: Self)
        ensures
            v == (Voxel2 { rotation, ..self }),
    {
        Self { rotation, ..self }
    }

    /// The same glyph, mirrored.
    pub fn mirror(self, mirror: VoxelMirror) -> (v: Self)
        ensures
            v == (Voxel2 { mirror, ..self }),
    {
        Self { mirror, ..self }
    }
}

impl Default for Voxel2 {
    fn default() -> (v: Self)
        ensures
            v == Voxel2::plain(0),
    {
        Self::new(0)
    }
}

impl Voxel3 {
    /// The glyph on a face.
    pub open spec fn spec_face(self, face: VoxelFace) -> Voxel2 {
        match face {
            VoxelFace::X => self.x,
            VoxelFace::Y => self.y,
            VoxelFace::Z => self.z,
        }
    }

    /// This block with the glyph on one face replaced.
    pub open spec fn spec_with_face(self, face: VoxelFace, v: Voxel2) -> Self {
        match face {
            VoxelFace::X => Voxel3 { x: v, ..self },
            VoxelFace::Y => Voxel3 { y: v, ..self },
            VoxelFace::Z => Voxel3 { z: v, ..self },
        }
    }

    pub fn new(x: Voxel2, y: Voxel2, z: Voxel2) -> (v: Self)
        ensures
            v == (Voxel3 { x, y, z }),
    {
        Self { x, y, z }
    }

    /// The glyph on `face`.
    pub fn face(&self, face: VoxelFace) -> (v: &Voxel2)
        ensures
            *v == self.spec_face(face),
    {
        match face {
            VoxelFace::X => &self.x,
            VoxelFace::Y => &self.y,
            VoxelFace::Z => &self.z,
        }
    }

    /// The glyph on `face`, to be written through.
    pub fn face_mut(&mut self, face: VoxelFace) -> (v: &mut Voxel2)
        ensures
            *v == old(self).spec_face(face),
            *final(self) == old(self).spec_with_face(face, *final(v)),
    {
        match face {
            VoxelFace::X => &mut self.x,
            VoxelFace::Y => &mut self.y,
            VoxelFace::Z => &mut self.z,
        }
    }
}

impl Default for Voxel3 {
    fn default() -> (v: Self)
        ensures
            v == (Voxel3 { x: Voxel2::plain(0), y: Voxel2::plain(0), z: Voxel2::plain(0) }),
    {
        Self { x: Voxel2::new(0), y: Voxel2::new(0), z: Voxel2::new(0) }
    }
}

} // verus!
