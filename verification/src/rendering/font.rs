//! Glyphs: where a character sits in the font, and the list of glyphs to
//! draw.

use vstd::prelude::*;
use crate::geometry::point::Point2;
use crate::rendering::voxel::Voxel2;

verus! {

/// The column and the row of the glyph with the given index in a font that
/// holds `charset_width` glyphs in each row.
pub fn glyph_cell(index: u16, charset_width: u16) -> (cell: (u16, u16))
    requires
        charset_width > 0,
    ensures
        cell.0 == index % charset_width,
        cell.1 == index / charset_width,
{
    (index % charset_width, index / charset_width)
}

/// A voxel to draw at a place on the tile screen.
#[derive(Clone, Copy, Debug, PartialEq, Eq)]
pub struct Glyph {
    pub voxel: Voxel2,
    pub dest: Point2,
}

/// The glyphs that are to be drawn, in the order in which they were added.
pub struct KataFontBatch {
    glyphs: Vec<Glyph>,
}

impl View for KataFontBatch {
    type V = Seq<Glyph>;

    closed spec fn view(&self) -> Seq<Glyph> {
        self.glyphs@
    }
}

impl KataFontBatch {
    /// A batch without glyphs.
    pub fn new() -> (batch: Self)
        ensures
            batch@ == Seq::<Glyph>::empty(),
    {
        KataFontBatch { glyphs: Vec::new() }
    }

    /// Adds a voxel to be drawn at `dest`.
    pub fn add(&mut self, voxel: &Voxel2, dest: Point2)
        ensures
            final(self)@ == old(self)@.push(Glyph { voxel: *voxel, dest }),
    {
        self.glyphs.push(Glyph { voxel: *voxel, dest });
    }

    /// Removes all glyphs.
    pub fn clear(&mut self)
        ensures
            final(self)@ == Seq::<Glyph>::empty(),
    {
        self.glyphs.clear();
    }

    /// The glyphs to draw.
    pub fn glyphs(&self) -> (glyphs: &Vec<Glyph>)
        ensures
            glyphs@ == self@,
    {
        &self.glyphs
    }
}

} // verus!
