use vstd::prelude::*;

verus! {

/// One cell of a glyph row: a printable symbol or the font's hardblank.
#[derive(Clone, Copy, Debug, PartialEq, Eq, Structural)]
pub enum SubCharacter {
    Symbol(char),
    Blank,
}

impl SubCharacter {
    /// A literal space symbol (the hardblank is not one).
    pub open spec fn spec_is_space(self) -> bool {
        self == SubCharacter::Symbol(' ')
    }

    pub fn is_blank(&self) -> (r: bool)
        ensures
            r == (*self is Blank),
    {
        match self {
            SubCharacter::Blank => true,
            SubCharacter::Symbol(_) => false,
        }
    }

    pub fn is_space(&self) -> (r: bool)
        ensures
            r == self.spec_is_space(),
    {
        match self {
            SubCharacter::Symbol(c) => *c == ' ',
            SubCharacter::Blank => false,
        }
    }

    /// The text the cell prints as.
    pub fn to_char(&self) -> (r: char)
        ensures
            r == (match *self {
                SubCharacter::Symbol(c) => c,
                SubCharacter::Blank => ' ',
            }),
    {
        match self {
            SubCharacter::Symbol(c) => *c,
            SubCharacter::Blank => ' ',
        }
    }
}

pub const HORIZONTAL_EQUAL: u32 = 1;
pub const HORIZONTAL_LOWLINE: u32 = 2;
pub const HORIZONTAL_HIERARCHY: u32 = 4;
pub const HORIZONTAL_PAIR: u32 = 8;
pub const HORIZONTAL_BIGX: u32 = 16;
pub const HORIZONTAL_HARDBLANK: u32 = 32;
pub const HORIZONTAL_KERNING: u32 = 64;
pub const HORIZONTAL_SMUSH: u32 = 128;
/// The six controlled rules together with the smush toggle.
pub const SMUSH_MASK: u32 = 191;

/// The font's layout flags, as a set of bits.
#[derive(Clone, Copy, Debug, PartialEq, Eq, Structural)]
pub struct Layout {
    pub bits: u32,
}

impl Layout {
    pub open spec fn has(self, flag: u32) -> bool {
        self.bits & flag == flag
    }

    pub fn contains(&self, flag: u32) -> (r: bool)
        ensures
            r == self.has(flag),
    {
        self.bits & flag == flag
    }

    pub open spec fn spec_needs_smushing(self) -> bool {
        self.has(HORIZONTAL_SMUSH)
    }

    pub open spec fn spec_needs_kerning(self) -> bool {
        self.has(HORIZONTAL_KERNING) || self.spec_needs_smushing()
    }

    /// Smushing is on but none of the controlled rules is: the universal rule applies.
    pub open spec fn spec_is_universal(self) -> bool {
        self.bits & SMUSH_MASK == HORIZONTAL_SMUSH
    }

    pub fn needs_smushing(&self) -> (r: bool)
        ensures
            r == self.spec_needs_smushing(),
    {
        self.contains(HORIZONTAL_SMUSH)
    }

    pub fn needs_kerning(&self) -> (r: bool)
        ensures
            r == self.spec_needs_kerning(),
    {
        self.contains(HORIZONTAL_KERNING) || self.needs_smushing()
    }

    pub fn is_universal(&self) -> (r: bool)
        ensures
            r == self.spec_is_universal(),
    {
        self.bits & SMUSH_MASK == HORIZONTAL_SMUSH
    }
}

#[derive(Clone, Copy, Debug, PartialEq, Eq, Structural)]
pub enum PrintDirection {
    LeftToRight,
    RightToLeft,
}

} // verus!
