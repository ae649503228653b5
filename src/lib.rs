//! Rendering of text into large banner glyphs: cell merge rules, line
//! composition with kerning and smushing, and greedy paragraph wrapping.

mod cell;
mod figure;
mod font;
mod kern;
mod line;
mod smush;
mod utils;

pub use crate::cell::{
    Layout, PrintDirection, SubCharacter, HORIZONTAL_BIGX, HORIZONTAL_EQUAL,
    HORIZONTAL_HARDBLANK, HORIZONTAL_HIERARCHY, HORIZONTAL_KERNING, HORIZONTAL_LOWLINE,
    HORIZONTAL_PAIR, HORIZONTAL_SMUSH,
};
pub use crate::figure::FIGure;
pub use crate::font::{Font, Glyph, GLYPH_WIDTH_LIMIT};
pub use crate::line::FIGline;
pub use crate::smush::{
    bigx_smush, controlled_smush, equal_smush, get_smush_char, hardblank_smush, hierarchy_class,
    hierarchy_smush, opposite_smush, space_smush, underscore_smush,
};
pub use crate::utils::SplitWords;
