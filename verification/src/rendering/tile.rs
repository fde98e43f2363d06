//! The cells of the world grid.

use vstd::prelude::*;
use crate::rendering::color::Color;

verus! {

/// What a cell of the world is made of.
#[derive(Debug, PartialEq, Eq, Clone, Copy, Structural)]
pub enum TileType {
    Air,
    Rock0,
    Rock1,
    Rock2,
    Rock3,
    Rock4,
    Rock5,
    Rock6,
    Rock7,
    Mushroom,
    Candle,
    FrontSight,
    RearSight,
    Barrel,
    BarrelEnd,
    GasBlock,
    RecUpper,
    RecLower,
    RecLowerHalf,
    RecLowerBack,
    Magazine,
    Stock,
    StockUpper,
    Grip,
}

/// One cell of the world: its material and the light that currently falls on it.
#[derive(Debug, PartialEq, Eq, Clone, Copy, Structural)]
pub struct Tile {
    pub illumination_color: Color,
    pub tile_type: TileType,
}

impl TileType {
    /// Whether the material is one of the eight kinds of rock.
    pub open spec fn is_rock(self) -> bool {
        matches!(
            self,
            TileType::Rock0
                | TileType::Rock1
                | TileType::Rock2
                | TileType::Rock3
                | TileType::Rock4
                | TileType::Rock5
                | TileType::Rock6
                | TileType::Rock7
        )
    }

    /// Whether the material belongs to the world: air, rock, a light, or one
    /// of the two stock pieces. Only for these is it settled whether they
    /// stop movement.
    pub open spec fn has_collision_rule(self) -> bool {
        self.is_rock() || matches!(
            self,
            TileType::Air
                | TileType::Mushroom
                | TileType::Candle
                | TileType::StockUpper
                | TileType::Stock
        )
    }

    /// Whether sight and light pass through the material: through everything
    /// but rock.
    pub open spec fn transparent(self) -> bool {
        !self.is_rock()
    }

    /// Whether the material stops movement: rock does, nothing else.
    pub fn collides(&self) -> (b: bool)
        requires
            self.has_collision_rule(),
        ensures
            b == self.is_rock(),
    {
        match self {
            TileType::Rock0
            | TileType::Rock1
            | TileType::Rock2
            | TileType::Rock3
            | TileType::Rock4
            | TileType::Rock5
            | TileType::Rock6
            | TileType::Rock7 => true,
            _ => false,
        }
    }

    /// Whether sight and light pass through the material.
    pub fn is_transparent(&self) -> (b: bool)
        ensures
            b == self.transparent(),
    {
        match self {
            TileType::Rock0
            | TileType::Rock1
            | TileType::Rock2
            | TileType::Rock3
            | TileType::Rock4
            | TileType::Rock5
            | TileType::Rock6
            | TileType::Rock7 => false,
            _ => true,
        }
    }

    /// Whether the material gives off light: mushrooms and candles do.
    pub fn illuminates(&self) -> (b: bool)
        ensures
            b == (self == TileType::Mushroom || self == TileType::Candle),
    {
        match self {
            TileType::Mushroom => true,
            TileType::Candle => true,
            _ => false,
        }
    }

    /// The index of the material's glyph in the font.
    pub fn char_index(&self) -> (i: u16)
        ensures
            i == self.spec_char_index(),
    {
        match self {
            TileType::Air => 0,
            TileType::Rock0 => 0x2B0,
            TileType::Rock1 => 0x2B1,
            TileType::Rock2 => 0x2B2,
            TileType::Rock3 => 0x2B3,
            TileType::Rock4 => 0x2B4,
            TileType::Rock5 => 0x2B5,
            TileType::Rock6 => 0x2B6,
            TileType::Rock7 => 0x2B7,
            TileType::Mushroom => 0x2E1,
            TileType::Candle => 0x21A,
            TileType::FrontSight => 0x211,
            TileType::RearSight => 0x203,
            TileType::GasBlock => 0x7C,
            TileType::Barrel => 0x3A,
            TileType::BarrelEnd => 0x2E9,
            TileType::RecUpper => 0x2DD,
            TileType::RecLower => 0x319,
            TileType::RecLowerHalf => 0xDF,
            TileType::RecLowerBack => 0x2C5,
            TileType::Magazine => 0x1AB,
            TileType::Stock => 0x319,
            TileType::StockUpper => 0x2DD,
            TileType::Grip => 0x283,
        }
    }

    /// The index of the material's glyph in the font.
    pub open spec fn spec_char_index(self) -> u16 {
        match self {
            TileType::Air => 0,
            TileType::Rock0 => 0x2B0,
            TileType::Rock1 => 0x2B1,
            TileType::Rock2 => 0x2B2,
            TileType::Rock3 => 0x2B3,
            TileType::Rock4 => 0x2B4,
            TileType::Rock5 => 0x2B5,
            TileType::Rock6 => 0x2B6,
            TileType::Rock7 => 0x2B7,
            TileType::Mushroom => 0x2E1,
            TileType::Candle => 0x21A,
            TileType::FrontSight => 0x211,
            TileType::RearSight => 0x203,
            TileType::GasBlock => 0x7C,
            TileType::Barrel => 0x3A,
            TileType::BarrelEnd => 0x2E9,
            TileType::RecUpper => 0x2DD,
            TileType::RecLower => 0x319,
            TileType::RecLowerHalf => 0xDF,
            TileType::RecLowerBack => 0x2C5,
            TileType::Magazine => 0x1AB,
            TileType::Stock => 0x319,
            TileType::StockUpper => 0x2DD,
            TileType::Grip => 0x283,
        }
    }

    /// By how many quarter turns the material's glyph is drawn turned.
    pub fn quarter_turns(&self) -> (q: u8)
        ensures
            q == match self {
                TileType::RecLower => 1u8,
                TileType::Stock => 1u8,
                TileType::RearSight => 3u8,
                _ => 0u8,
            },
    {
        match self {
            TileType::RecLower => 1,
            TileType::Stock => 1,
            TileType::RearSight => 3,
            _ => 0,
        }
    }
}

impl Tile {
    /// A dark tile of the given material.
    pub fn new(tile_type: TileType) -> (t: Self)
        ensures
            t == (Tile { illumination_color: Color { r: 0, g: 0, b: 0 }, tile_type }),
    {
        Tile { illumination_color: crate::rendering::color::black(), tile_type }
    }

    /// Whether any light falls on the tile.
    pub open spec fn lit(self) -> bool {
        self.illumination_color.r > 0 || self.illumination_color.g > 0 || self.illumination_color.b
            > 0
    }

    /// Whether any light falls on the tile.
    pub fn illuminated(&self) -> (b: bool)
        ensures
            b == self.lit(),
    {
        self.illumination_color.r > 0 || self.illumination_color.g > 0 || self.illumination_color.b
            > 0
    }
}

} // verus!
