use vstd::prelude::*;
use crate::cell::{Layout, PrintDirection, SubCharacter};
use crate::kern::rows_view;

verus! {

/// The widest glyph row a font may hold; keeps every composed line's length
/// within the machine's word.
pub const GLYPH_WIDTH_LIMIT: usize = 0x1000_0000;

/// The code of the glyph drawn for a code the font lacks.
pub const FALLBACK_CODE: i32 = 126;

/// One glyph of a font: its code and its rows of cells.
#[derive(Clone, Debug)]
pub struct Glyph {
    pub code: i32,
    pub rows: Vec<Vec<SubCharacter>>,
}

/// A font as the composition engine reads it: height, layout flags, print
/// direction and the glyph table.
#[derive(Clone, Debug)]
pub struct Font {
    pub height: usize,
    pub layout: Layout,
    pub direction: PrintDirection,
    pub glyphs: Vec<Glyph>,
}

/// Index of the first glyph at or after `i` with the given code, or the table's length.
pub open spec fn find_from(gs: Seq<Glyph>, code: i32, i: int) -> int
    decreases gs.len() - i,
{
    if i < 0 || i >= gs.len() {
        gs.len() as int
    } else if gs[i].code == code {
        i
    } else {
        find_from(gs, code, i + 1)
    }
}

pub open spec fn glyph_ok(g: Glyph, height: usize) -> bool {
    &&& g.rows@.len() == height
    &&& forall|j: int| 0 <= j < height ==> #[trigger] g.rows@[j]@.len() <= GLYPH_WIDTH_LIMIT
}

impl Font {
    /// Well-formed: positive height, every glyph exactly `height` rows of bounded
    /// width, and a fallback glyph present.
    pub open spec fn wf(&self) -> bool {
        &&& self.height >= 1
        &&& forall|i: int| 0 <= i < self.glyphs@.len() ==> glyph_ok(#[trigger] self.glyphs@[i], self.height)
        &&& find_from(self.glyphs@, FALLBACK_CODE, 0) < self.glyphs@.len()
    }

    /// The rows drawn for `code`: its glyph, or the fallback glyph if the font lacks it.
    pub open spec fn glyph_rows(&self, code: i32) -> Seq<Seq<SubCharacter>> {
        let i = find_from(self.glyphs@, code, 0);
        let j = if i < self.glyphs@.len() {
            i
        } else {
            find_from(self.glyphs@, FALLBACK_CODE, 0)
        };
        rows_view(self.glyphs@[j].rows@)
    }

    /// Builds a font; `None` unless it is well-formed.
    pub fn new(height: usize, layout: Layout, direction: PrintDirection, glyphs: Vec<Glyph>) -> (r:
        Option<Font>)
        ensures
            r is Some <==> (Font { height, layout, direction, glyphs }).wf(),
            r matches Some(f) ==> f == (Font { height, layout, direction, glyphs }),
    {
        let f = Font { height, layout, direction, glyphs };
        if height == 0 {
            return None;
        }
        let mut i: usize = 0;
        while i < f.glyphs.len()
            invariant
                i <= f.glyphs@.len(),
                f == (Font { height, layout, direction, glyphs }),
                forall|j: int| 0 <= j < i ==> glyph_ok(#[trigger] f.glyphs@[j], f.height),
            decreases f.glyphs@.len() - i,
        {
            let g = &f.glyphs[i];
            if g.rows.len() != height {
                assert(!glyph_ok(f.glyphs@[i as int], f.height));
                return None;
            }
            let mut j: usize = 0;
            while j < height
                invariant
                    j <= height == g.rows@.len(),
                    i < f.glyphs@.len(),
                    *g == f.glyphs@[i as int],
                    f == (Font { height, layout, direction, glyphs }),
                    forall|m: int| 0 <= m < j ==> #[trigger] g.rows@[m]@.len() <= GLYPH_WIDTH_LIMIT,
                decreases height - j,
            {
                if g.rows[j].len() > GLYPH_WIDTH_LIMIT {
                    assert(!glyph_ok(f.glyphs@[i as int], f.height));
                    return None;
                }
                j += 1;
            }
            assert(glyph_ok(f.glyphs@[i as int], f.height));
            i += 1;
        }
        if f.find(FALLBACK_CODE) < f.glyphs.len() {
            Some(f)
        } else {
            None
        }
    }

    /// Index of the first glyph with the given code, or the table's length.
    pub fn find(&self, code: i32) -> (r: usize)
        ensures
            r == find_from(self.glyphs@, code, 0),
    {
        let mut i: usize = 0;
        while i < self.glyphs.len()
            invariant
                i <= self.glyphs@.len(),
                find_from(self.glyphs@, code, 0) == find_from(self.glyphs@, code, i as int),
            decreases self.glyphs@.len() - i,
        {
            if self.glyphs[i].code == code {
                return i;
            }
            i += 1;
        }
        i
    }

    /// The rows of the glyph drawn for `code`, copied out.
    pub fn glyph(&self, code: i32) -> (r: Vec<Vec<SubCharacter>>)
        requires
            self.wf(),
        ensures
            rows_view(r@) == self.glyph_rows(code),
            r@.len() == self.height,
            forall|j: int| 0 <= j < self.height ==> #[trigger] r@[j]@.len() <= GLYPH_WIDTH_LIMIT,
    {
        let i = self.find(code);
        let i = if i < self.glyphs.len() {
            i
        } else {
            self.find(FALLBACK_CODE)
        };
        let src = &self.glyphs[i].rows;
        assert(glyph_ok(self.glyphs@[i as int], self.height));
        let mut out: Vec<Vec<SubCharacter>> = Vec::new();
        let mut j: usize = 0;
        while j < src.len()
            invariant
                j <= src@.len(),
                out@.len() == j,
                forall|m: int| 0 <= m < j ==> #[trigger] out@[m]@ == src@[m]@,
            decreases src@.len() - j,
        {
            let row = crate::kern::take_prefix(&src[j], src[j].len());
            assert(src@[j as int]@.take(src@[j as int]@.len() as int) =~= src@[j as int]@);
            out.push(row);
            j += 1;
        }
        assert(rows_view(out@) =~= rows_view(src@));
        out
    }
}

} // verus!
