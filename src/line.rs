use vstd::prelude::*;
use crate::cell::{Layout, PrintDirection, SubCharacter, HORIZONTAL_EQUAL};
use crate::font::Font;
use crate::kern::{
    append_from, apply_kerning, gap, kern_left, kern_right, lead, leading_spaces, lemma_lead_bound,
    lemma_trail_bound, max_kerning, min_gap, min_lead, min_trail, rows_view, take_prefix,
    trail, trailing_spaces,
};
use crate::smush::{controlled_cells, get_smush_char, smush_rows};

verus! {

/// Rows of cells, one sequence per row of the font.
pub type Rows = Seq<Seq<SubCharacter>>;

/// Each left row followed by the right row beside it.
pub open spec fn join_rows(l: Rows, r: Rows) -> Rows {
    Seq::new(l.len(), |i: int| l[i] + r[i])
}

/// A left row and a right row fused by one merged cell that replaces the left row's
/// last cell and the right row's first.
pub open spec fn merge_row(l: Seq<SubCharacter>, r: Seq<SubCharacter>, m: SubCharacter) -> Seq<
    SubCharacter,
> {
    (if l.len() > 0 {
        l.drop_last()
    } else {
        l
    }).push(m) + (if r.len() > 0 {
        r.drop_first()
    } else {
        r
    })
}

/// Every row yields a merged cell.
pub open spec fn all_smush(l: Rows, r: Rows, layout: Layout) -> bool {
    forall|i: int| 0 <= i < l.len() ==> (#[trigger] smush_rows(l[i], r[i], layout)) is Some
}

pub open spec fn smushed(l: Rows, r: Rows, layout: Layout) -> Rows {
    Seq::new(l.len(), |i: int| merge_row(l[i], r[i], smush_rows(l[i], r[i], layout)->Some_0))
}

/// The side that ends up on the left: the buffer when printing left to right.
pub open spec fn left_of(buf: Rows, inc: Rows, dir: PrintDirection) -> Rows {
    if dir is LeftToRight {
        buf
    } else {
        inc
    }
}

pub open spec fn right_of(buf: Rows, inc: Rows, dir: PrintDirection) -> Rows {
    if dir is LeftToRight {
        inc
    } else {
        buf
    }
}

/// The two sides after kerning and merging: all rows merge or none does.
pub open spec fn fuse(l: Rows, r: Rows, layout: Layout) -> Rows {
    let k = min_gap(l, r, l.len());
    let l2 = kern_left(l, k);
    let r2 = kern_right(l, r, k);
    if layout.spec_needs_smushing() && all_smush(l2, r2, layout) {
        smushed(l2, r2, layout)
    } else {
        join_rows(l2, r2)
    }
}

/// A non-empty buffer with incoming rows appended: plain concatenation when the
/// layout neither kerns nor smushes, else kerning and all-or-nothing merging.
pub open spec fn compose(buf: Rows, inc: Rows, layout: Layout, dir: PrintDirection) -> Rows {
    let l = left_of(buf, inc, dir);
    let r = right_of(buf, inc, dir);
    if !layout.spec_needs_kerning() {
        join_rows(l, r)
    } else {
        fuse(l, r, layout)
    }
}

/// The first glyph of a line: its outer whitespace toward the reading start is
/// trimmed by the same amount in every row when the layout kerns or smushes.
pub open spec fn first_trim(g: Rows, layout: Layout, dir: PrintDirection) -> Rows {
    if !layout.spec_needs_kerning() {
        g
    } else if dir is LeftToRight {
        Seq::new(g.len(), |i: int| g[i].skip(min_lead(g, g.len()) as int))
    } else {
        Seq::new(g.len(), |i: int| g[i].take(g[i].len() - min_trail(g, g.len())))
    }
}

/// Rows after adding incoming rows to a line whose glyph count is `n`.
pub open spec fn add_rows(buf: Rows, n: nat, inc: Rows, layout: Layout, dir: PrintDirection) -> Rows {
    if n == 0 {
        first_trim(inc, layout, dir)
    } else {
        compose(buf, inc, layout, dir)
    }
}

/// Lengths of corresponding rows add up within the machine's word.
pub open spec fn fits(a: Rows, b: Rows) -> bool {
    forall|i: int| 0 <= i < a.len() ==> #[trigger] a[i].len() + b[i].len() <= usize::MAX
}

/// The greatest row length among the first `n` rows.
pub open spec fn max_len(rows: Rows, n: nat) -> nat
    decreases n,
{
    if n == 0 {
        0
    } else {
        let m = max_len(rows, (n - 1) as nat);
        if rows[n - 1].len() > m {
            rows[n - 1].len()
        } else {
            m
        }
    }
}

pub proof fn lemma_min_lead(g: Rows, n: nat, i: int)
    requires
        0 <= i < n <= g.len(),
    ensures
        min_lead(g, n) <= lead(g[i]),
    decreases n,
{
    if n > 1 && i < n - 1 {
        lemma_min_lead(g, (n - 1) as nat, i);
    }
}

pub proof fn lemma_min_trail(g: Rows, n: nat, i: int)
    requires
        0 <= i < n <= g.len(),
    ensures
        min_trail(g, n) <= trail(g[i]),
    decreases n,
{
    if n > 1 && i < n - 1 {
        lemma_min_trail(g, (n - 1) as nat, i);
    }
}

pub proof fn lemma_max_len(rows: Rows, n: nat, i: int)
    requires
        0 <= i < n <= rows.len(),
    ensures
        rows[i].len() <= max_len(rows, n),
    decreases n,
{
    if i < n - 1 {
        lemma_max_len(rows, (n - 1) as nat, i);
    }
}

/// The greatest row length is the length of some row, or zero without rows.
pub proof fn lemma_max_len_attained(rows: Rows, n: nat)
    requires
        n <= rows.len(),
    ensures
        n == 0 ==> max_len(rows, n) == 0,
        n > 0 ==> exists|i: int| 0 <= i < n && rows[i].len() == max_len(rows, n),
    decreases n,
{
    if n > 1 {
        lemma_max_len_attained(rows, (n - 1) as nat);
    }
    if n == 1 {
        assert(max_len(rows, 0) == 0);
        assert(rows[0].len() == max_len(rows, n));
    } else if n > 1 {
        let m = max_len(rows, (n - 1) as nat);
        if !(rows[n - 1].len() > m) {
            let i = choose|i: int| 0 <= i < n - 1 && rows[i].len() == m;
            assert(0 <= i < n && rows[i].len() == max_len(rows, n));
        } else {
            assert(rows[n - 1].len() == max_len(rows, n));
        }
    }
}

fn join_row(l: &Vec<SubCharacter>, r: &Vec<SubCharacter>) -> (out: Vec<SubCharacter>)
    ensures
        out@ == l@ + r@,
{
    let mut out = take_prefix(l, l.len());
    assert(l@.take(l@.len() as int) =~= l@);
    append_from(&mut out, r, 0);
    assert(r@.skip(0) =~= r@);
    out
}

fn merge_cells(l: &Vec<SubCharacter>, r: &Vec<SubCharacter>, m: SubCharacter) -> (out: Vec<
    SubCharacter,
>)
    ensures
        out@ == merge_row(l@, r@, m),
{
    let n = if l.len() > 0 {
        l.len() - 1
    } else {
        0
    };
    let mut out = take_prefix(l, n);
    assert(l@.len() > 0 ==> l@.take(n as int) =~= l@.drop_last());
    assert(l@.len() == 0 ==> l@.take(n as int) =~= l@);
    out.push(m);
    let s: usize = if r.len() > 0 {
        1
    } else {
        0
    };
    append_from(&mut out, r, s);
    assert(r@.len() > 0 ==> r@.skip(s as int) =~= r@.drop_first());
    assert(r@.len() == 0 ==> r@.skip(s as int) =~= r@);
    out
}

fn join_all(l: &Vec<Vec<SubCharacter>>, r: &Vec<Vec<SubCharacter>>) -> (out: Vec<
    Vec<SubCharacter>,
>)
    requires
        l@.len() == r@.len(),
    ensures
        rows_view(out@) == join_rows(rows_view(l@), rows_view(r@)),
{
    let mut out: Vec<Vec<SubCharacter>> = Vec::new();
    let mut i: usize = 0;
    while i < l.len()
        invariant
            i <= l@.len() == r@.len(),
            out@.len() == i,
            forall|j: int| 0 <= j < i ==> #[trigger] out@[j]@ == l@[j]@ + r@[j]@,
        decreases l@.len() - i,
    {
        out.push(join_row(&l[i], &r[i]));
        i += 1;
    }
    assert(rows_view(out@) =~= join_rows(rows_view(l@), rows_view(r@)));
    out
}

/// Kerns a left and a right side and merges them, all rows or none.
fn fuse_rows(l: &Vec<Vec<SubCharacter>>, r: &Vec<Vec<SubCharacter>>, layout: Layout) -> (out: Vec<
    Vec<SubCharacter>,
>)
    requires
        l@.len() == r@.len() >= 1,
        fits(rows_view(l@), rows_view(r@)),
    ensures
        rows_view(out@) == fuse(rows_view(l@), rows_view(r@), layout),
{
    let ghost lv = rows_view(l@);
    let ghost rv = rows_view(r@);
    assert forall|i: int| 0 <= i < l@.len() implies l@[i]@.len() + r@[i]@.len() <= usize::MAX by {
        assert(lv[i].len() + rv[i].len() <= usize::MAX);
    }
    let k = max_kerning(l, r);
    let (l2, r2) = apply_kerning(l, r, k);
    let ghost lk = rows_view(l2@);
    let ghost rk = rows_view(r2@);
    if !layout.needs_smushing() {
        return join_all(&l2, &r2);
    }
    assert(lv.len() == l@.len());
    let ghost whole = fuse(lv, rv, layout);
    assert(whole == if all_smush(lk, rk, layout) {
        smushed(lk, rk, layout)
    } else {
        join_rows(lk, rk)
    });
    let mut cells: Vec<SubCharacter> = Vec::new();
    let mut i: usize = 0;
    while i < l2.len()
        invariant
            i <= l2@.len() == r2@.len() == l@.len(),
            lk == rows_view(l2@),
            rk == rows_view(r2@),
            cells@.len() == i,
            whole == fuse(lv, rv, layout),
            lv == rows_view(l@),
            rv == rows_view(r@),
            whole == if all_smush(lk, rk, layout) {
                smushed(lk, rk, layout)
            } else {
                join_rows(lk, rk)
            },
            forall|j: int| 0 <= j < i ==> smush_rows(lk[j], rk[j], layout) == Some(
                #[trigger] cells@[j],
            ),
        decreases l2@.len() - i,
    {
        assert(lk[i as int] == l2@[i as int]@ && rk[i as int] == r2@[i as int]@);
        match get_smush_char(&l2[i], &r2[i], layout) {
            Some(c) => {
                cells.push(c);
            },
            None => {
                assert(!all_smush(lk, rk, layout));
                return join_all(&l2, &r2);
            },
        }
        i += 1;
    }
    assert(all_smush(lk, rk, layout)) by {
        assert forall|j: int| 0 <= j < lk.len() implies (#[trigger] smush_rows(
            lk[j],
            rk[j],
            layout,
        )) is Some by {
            assert(smush_rows(lk[j], rk[j], layout) == Some(cells@[j]));
        }
    }
    let mut out: Vec<Vec<SubCharacter>> = Vec::new();
    let mut i: usize = 0;
    while i < l2.len()
        invariant
            i <= l2@.len() == r2@.len() == cells@.len(),
            lk == rows_view(l2@),
            rk == rows_view(r2@),
            whole == fuse(lv, rv, layout),
            lv == rows_view(l@),
            rv == rows_view(r@),
            whole == smushed(lk, rk, layout),
            forall|j: int| 0 <= j < l2@.len() ==> smush_rows(lk[j], rk[j], layout) == Some(
                #[trigger] cells@[j],
            ),
            out@.len() == i,
            forall|j: int| 0 <= j < i ==> #[trigger] out@[j]@ == smushed(lk, rk, layout)[j],
        decreases l2@.len() - i,
    {
        assert(lk[i as int] == l2@[i as int]@ && rk[i as int] == r2@[i as int]@);
        out.push(merge_cells(&l2[i], &r2[i], cells[i]));
        i += 1;
    }
    assert(rows_view(out@) =~= smushed(lk, rk, layout));
    out
}

/// Appends incoming rows to a non-empty buffer under the font's layout and direction.
pub fn compose_rows(
    buf: &Vec<Vec<SubCharacter>>,
    inc: &Vec<Vec<SubCharacter>>,
    layout: Layout,
    dir: PrintDirection,
) -> (out: Vec<Vec<SubCharacter>>)
    requires
        buf@.len() == inc@.len() >= 1,
        fits(rows_view(buf@), rows_view(inc@)),
    ensures
        rows_view(out@) == compose(rows_view(buf@), rows_view(inc@), layout, dir),
{
    let ghost bv = rows_view(buf@);
    let ghost iv = rows_view(inc@);
    let (l, r) = match dir {
        PrintDirection::LeftToRight => (buf, inc),
        PrintDirection::RightToLeft => (inc, buf),
    };
    if !layout.needs_kerning() {
        join_all(l, r)
    } else {
        assert(fits(rows_view(l@), rows_view(r@))) by {
            assert forall|i: int| 0 <= i < l@.len() implies #[trigger] rows_view(l@)[i].len()
                + rows_view(r@)[i].len() <= usize::MAX by {
                assert(bv[i].len() + iv[i].len() <= usize::MAX);
            }
        }
        fuse_rows(l, r, layout)
    }
}

/// The first glyph of a line, trimmed toward the reading start when the layout kerns.
pub fn trim_first(g: &Vec<Vec<SubCharacter>>, layout: Layout, dir: PrintDirection) -> (out: Vec<
    Vec<SubCharacter>,
>)
    ensures
        rows_view(out@) == first_trim(rows_view(g@), layout, dir),
{
    let ghost gv = rows_view(g@);
    let n = g.len();
    let kern = layout.needs_kerning();
    let ltr = match dir {
        PrintDirection::LeftToRight => true,
        PrintDirection::RightToLeft => false,
    };
    // the amount every row loses
    let mut m: usize = 0;
    let mut i: usize = 0;
    while i < n
        invariant
            i <= n == g@.len(),
            gv == rows_view(g@),
            kern == layout.spec_needs_kerning(),
            ltr == (dir is LeftToRight),
            i > 0 && ltr ==> m == min_lead(gv, i as nat),
            i > 0 && !ltr ==> m == min_trail(gv, i as nat),
        decreases n - i,
    {
        let c = if ltr {
            leading_spaces(&g[i])
        } else {
            trailing_spaces(&g[i])
        };
        if i == 0 || c < m {
            m = c;
        }
        i += 1;
    }
    let mut out: Vec<Vec<SubCharacter>> = Vec::new();
    let mut i: usize = 0;
    while i < n
        invariant
            i <= n == g@.len(),
            gv == rows_view(g@),
            kern == layout.spec_needs_kerning(),
            ltr == (dir is LeftToRight),
            n > 0 && ltr ==> m == min_lead(gv, n as nat),
            n > 0 && !ltr ==> m == min_trail(gv, n as nat),
            out@.len() == i,
            forall|j: int| 0 <= j < i ==> #[trigger] out@[j]@ == first_trim(gv, layout, dir)[j],
        decreases n - i,
    {
        let row = &g[i];
        assert(gv[i as int] == row@);
        if !kern {
            let c = take_prefix(row, row.len());
            assert(gv[i as int].take(gv[i as int].len() as int) =~= gv[i as int]);
            assert(c@ == first_trim(gv, layout, dir)[i as int]);
            out.push(c);
        } else if ltr {
            proof {
                lemma_min_lead(gv, n as nat, i as int);
                lemma_lead_bound(gv[i as int]);
            }
            let mut c: Vec<SubCharacter> = Vec::new();
            append_from(&mut c, row, m);
            assert(c@ =~= gv[i as int].skip(m as int));
            assert(c@ == first_trim(gv, layout, dir)[i as int]);
            out.push(c);
        } else {
            proof {
                lemma_min_trail(gv, n as nat, i as int);
                lemma_trail_bound(gv[i as int]);
            }
            let c = take_prefix(row, row.len() - m);
            assert(c@ == first_trim(gv, layout, dir)[i as int]);
            out.push(c);
        }
        i += 1;
    }
    assert(rows_view(out@) =~= first_trim(gv, layout, dir));
    out
}

} // verus!

verus! {

/// `n` empty rows.
pub open spec fn empty_rows(n: nat) -> Rows {
    Seq::new(n, |i: int| Seq::<SubCharacter>::empty())
}

/// The first glyph keeps no row longer than it was.
pub proof fn lemma_first_trim_len(g: Rows, layout: Layout, dir: PrintDirection, i: int)
    requires
        0 <= i < g.len(),
    ensures
        first_trim(g, layout, dir)[i].len() <= g[i].len(),
{
    if layout.spec_needs_kerning() {
        if dir is LeftToRight {
            lemma_min_lead(g, g.len(), i);
            lemma_lead_bound(g[i]);
        } else {
            lemma_min_trail(g, g.len(), i);
            lemma_trail_bound(g[i]);
        }
    }
}

/// Rows after appending another line of `m` glyphs to a line of `n` glyphs.
pub open spec fn join_line_rows(
    buf: Rows,
    n: nat,
    other: Rows,
    m: nat,
    layout: Layout,
    dir: PrintDirection,
) -> Rows {
    if m == 0 {
        buf
    } else if n == 0 {
        other
    } else {
        compose(buf, other, layout, dir)
    }
}

/// One output line under construction: the glyph codes added so far and one row
/// buffer per row of the font.
#[derive(Clone, Debug)]
pub struct FIGline<'a> {
    pub font: &'a Font,
    pub chars: Vec<i32>,
    pub lines: Vec<Vec<SubCharacter>>,
}

impl<'a> FIGline<'a> {
    pub open spec fn rows(&self) -> Rows {
        rows_view(self.lines@)
    }

    pub open spec fn spec_layout(&self) -> Layout {
        self.font.layout
    }

    pub open spec fn spec_direction(&self) -> PrintDirection {
        self.font.direction
    }

    /// The width: the length of the longest row, every cell being one column wide.
    pub open spec fn spec_width(&self) -> nat {
        max_len(self.rows(), self.font.height as nat)
    }

    /// Exactly one buffer per font row; a line without glyphs has empty rows.
    pub open spec fn wf(&self) -> bool {
        &&& self.font.wf()
        &&& self.lines@.len() == self.font.height
        &&& self.chars@.len() == 0 ==> forall|i: int|
            0 <= i < self.lines@.len() ==> (#[trigger] self.lines@[i])@.len() == 0
    }

    pub fn new(font: &'a Font) -> (r: FIGline<'a>)
        requires
            font.wf(),
        ensures
            r.wf(),
            r.font == font,
            r.chars@.len() == 0,
            r.rows() == empty_rows(font.height as nat),
    {
        let mut lines: Vec<Vec<SubCharacter>> = Vec::new();
        let mut i: usize = 0;
        while i < font.height
            invariant
                i <= font.height,
                lines@.len() == i,
                forall|j: int| 0 <= j < i ==> (#[trigger] lines@[j])@.len() == 0,
            decreases font.height - i,
        {
            lines.push(Vec::new());
            i += 1;
        }
        let r = FIGline { font, chars: Vec::new(), lines };
        assert forall|j: int| 0 <= j < font.height implies r.rows()[j] == Seq::<
            SubCharacter,
        >::empty() by {
            assert(lines@[j]@.len() == 0);
            assert(r.rows()[j] =~= Seq::<SubCharacter>::empty());
        }
        assert(r.rows() =~= empty_rows(font.height as nat));
        r
    }

    /// A copy of the line, sharing its font.
    pub fn duplicate(&self) -> (r: FIGline<'a>)
        ensures
            r.font == self.font,
            r.chars@ == self.chars@,
            r.rows() == self.rows(),
            r.lines@.len() == self.lines@.len(),
            self.wf() ==> r.wf(),
    {
        let mut chars: Vec<i32> = Vec::new();
        let mut i: usize = 0;
        while i < self.chars.len()
            invariant
                i <= self.chars@.len(),
                chars@ == self.chars@.take(i as int),
            decreases self.chars@.len() - i,
        {
            chars.push(self.chars[i]);
            i += 1;
            assert(chars@ =~= self.chars@.take(i as int));
        }
        assert(self.chars@.take(i as int) =~= self.chars@);
        let mut lines: Vec<Vec<SubCharacter>> = Vec::new();
        let mut i: usize = 0;
        while i < self.lines.len()
            invariant
                i <= self.lines@.len(),
                lines@.len() == i,
                forall|j: int| 0 <= j < i ==> #[trigger] lines@[j]@ == self.lines@[j]@,
            decreases self.lines@.len() - i,
        {
            let row = take_prefix(&self.lines[i], self.lines[i].len());
            assert(self.lines@[i as int]@.take(self.lines@[i as int]@.len() as int)
                =~= self.lines@[i as int]@);
            lines.push(row);
            i += 1;
        }
        assert(rows_view(lines@) =~= self.rows());
        let r = FIGline { font: self.font, chars, lines };
        assert(forall|j: int| 0 <= j < r.lines@.len() ==> r.lines@[j]@ == self.lines@[j]@);
        r
    }

    /// Adds the glyph of `ch`: the first glyph is trimmed toward the reading start,
    /// later ones are kerned and smushed onto the line as the layout asks.
    pub fn add_char(&mut self, ch: i32)
        requires
            old(self).wf(),
            fits(old(self).rows(), old(self).font.glyph_rows(ch)),
        ensures
            final(self).wf(),
            final(self).font == old(self).font,
            final(self).chars@ == old(self).chars@.push(ch),
            final(self).rows() == add_rows(
                old(self).rows(),
                old(self).chars@.len(),
                old(self).font.glyph_rows(ch),
                old(self).spec_layout(),
                old(self).spec_direction(),
            ),
    {
        let g = self.font.glyph(ch);
        let layout = self.font.layout;
        let dir = self.font.direction;
        let first = self.chars.len() == 0;
        self.chars.push(ch);
        let rows = if first {
            trim_first(&g, layout, dir)
        } else {
            compose_rows(&self.lines, &g, layout, dir)
        };
        assert(rows_view(rows@).len() == rows@.len());
        self.lines = rows;
    }

    /// Appends another line built with the same font, as if its glyphs had been
    /// added here one by one.
    pub fn add_line(&mut self, line: &FIGline)
        requires
            old(self).wf(),
            line.wf(),
            line.font.height == old(self).font.height,
            fits(old(self).rows(), line.rows()),
        ensures
            final(self).wf(),
            final(self).font == old(self).font,
            final(self).chars@ == old(self).chars@ + line.chars@,
            final(self).rows() == join_line_rows(
                old(self).rows(),
                old(self).chars@.len(),
                line.rows(),
                line.chars@.len(),
                old(self).spec_layout(),
                old(self).spec_direction(),
            ),
    {
        let ghost chars0 = self.chars@;
        let was_empty = self.chars.len() == 0;
        let mut i: usize = 0;
        while i < line.chars.len()
            invariant
                i <= line.chars@.len(),
                self.chars@ == chars0 + line.chars@.take(i as int),
                self.lines == old(self).lines,
                self.font == old(self).font,
                chars0 == old(self).chars@,
                was_empty == (chars0.len() == 0),
            decreases line.chars@.len() - i,
        {
            self.chars.push(line.chars[i]);
            i += 1;
            assert(self.chars@ =~= chars0 + line.chars@.take(i as int));
        }
        assert(line.chars@.take(i as int) =~= line.chars@);
        if line.chars.len() == 0 {
            return;
        }
        if was_empty {
            let copy = line.duplicate();
            self.lines = copy.lines;
        } else {
            let rows = compose_rows(&self.lines, &line.lines, self.font.layout, self.font.direction);
            assert(rows_view(rows@).len() == rows@.len());
            self.lines = rows;
        }
    }

    /// The width in columns: the longest row.
    pub fn width(&self) -> (r: usize)
        requires
            self.wf(),
        ensures
            r == self.spec_width(),
    {
        let mut m: usize = 0;
        let mut i: usize = 0;
        while i < self.lines.len()
            invariant
                i <= self.lines@.len() == self.font.height,
                m == max_len(self.rows(), i as nat),
            decreases self.lines@.len() - i,
        {
            assert(self.rows()[i as int] == self.lines@[i as int]@);
            if self.lines[i].len() > m {
                m = self.lines[i].len();
            }
            i += 1;
        }
        m
    }

    pub fn height(&self) -> (r: usize)
        ensures
            r == self.font.height,
    {
        self.font.height
    }

    pub fn is_empty(&self) -> (r: bool)
        ensures
            r == (self.chars@.len() == 0),
    {
        self.chars.len() == 0
    }

    /// The row buffers.
    pub fn lines(&self) -> (r: &Vec<Vec<SubCharacter>>)
        ensures
            r == &self.lines,
    {
        &self.lines
    }
}

} // verus!

verus! {

pub proof fn lemma_lead_spaces(r: Seq<SubCharacter>, j: int)
    requires
        0 <= j < lead(r),
    ensures
        r[j].spec_is_space(),
    decreases r.len(),
{
    lemma_lead_bound(r);
    if j > 0 {
        lemma_lead_spaces(r.drop_first(), j - 1);
        assert(r.drop_first()[j - 1] == r[j]);
    }
}

pub proof fn lemma_trail_spaces(r: Seq<SubCharacter>, j: int)
    requires
        0 <= j < trail(r),
    ensures
        r[r.len() - 1 - j].spec_is_space(),
    decreases r.len(),
{
    lemma_trail_bound(r);
    if j > 0 {
        lemma_trail_spaces(r.drop_last(), j - 1);
        assert(r.drop_last()[r.len() - 1 - j] == r[r.len() - 1 - j]);
    }
}

pub proof fn lemma_min_lead_attained(g: Rows, n: nat)
    requires
        1 <= n <= g.len(),
    ensures
        exists|i: int| 0 <= i < n && min_lead(g, n) == lead(g[i]),
    decreases n,
{
    if n == 1 {
        assert(min_lead(g, 1) == lead(g[0]));
    } else {
        lemma_min_lead_attained(g, (n - 1) as nat);
        if lead(g[n - 1]) < min_lead(g, (n - 1) as nat) {
            assert(min_lead(g, n) == lead(g[n - 1]));
        } else {
            let i = choose|i: int| 0 <= i < n - 1 && min_lead(g, (n - 1) as nat) == lead(g[i]);
            assert(min_lead(g, n) == lead(g[i]));
        }
    }
}

pub proof fn lemma_min_trail_attained(g: Rows, n: nat)
    requires
        1 <= n <= g.len(),
    ensures
        exists|i: int| 0 <= i < n && min_trail(g, n) == trail(g[i]),
    decreases n,
{
    if n == 1 {
        assert(min_trail(g, 1) == trail(g[0]));
    } else {
        lemma_min_trail_attained(g, (n - 1) as nat);
        if trail(g[n - 1]) < min_trail(g, (n - 1) as nat) {
            assert(min_trail(g, n) == trail(g[n - 1]));
        } else {
            let i = choose|i: int| 0 <= i < n - 1 && min_trail(g, (n - 1) as nat) == trail(g[i]);
            assert(min_trail(g, n) == trail(g[i]));
        }
    }
}

/// The first glyph of a line keeps its rows, less one uniform amount `m` of leading
/// (left to right) or trailing (right to left) cells; the removed cells are all
/// literal spaces, and `m` is as large as that allows: some row has no further space
/// on that side. Without kerning or smushing the rows are kept whole.
pub proof fn lemma_empty_merge_trim(buf: Rows, g: Rows, layout: Layout, dir: PrintDirection)
    requires
        g.len() >= 1,
    ensures
        !layout.spec_needs_kerning() ==> add_rows(buf, 0, g, layout, dir) == g,
        layout.spec_needs_kerning() && dir is LeftToRight ==> ({
                let m = min_lead(g, g.len());
                &&& forall|i: int|
                    0 <= i < g.len() ==> #[trigger] add_rows(buf, 0, g, layout, dir)[i] == g[i].skip(
                        m as int,
                    )
                &&& forall|i: int, j: int| 0 <= i < g.len() && 0 <= j < m ==> (#[trigger] g[i][j]).spec_is_space()
                &&& exists|i: int| 0 <= i < g.len() && m == lead(#[trigger] g[i])
            }),
        layout.spec_needs_kerning() && dir is RightToLeft ==> ({
                let m = min_trail(g, g.len());
                &&& forall|i: int|
                    0 <= i < g.len() ==> #[trigger] add_rows(buf, 0, g, layout, dir)[i] == g[i].take(
                        g[i].len() - m,
                    )
                &&& forall|i: int, j: int|
                    0 <= i < g.len() && g[i].len() - m <= j < g[i].len() ==> (#[trigger] g[i][j]).spec_is_space()
                &&& exists|i: int| 0 <= i < g.len() && m == trail(#[trigger] g[i])
            }),
{
    if layout.spec_needs_kerning() {
        if dir is LeftToRight {
            let m = min_lead(g, g.len());
            lemma_min_lead_attained(g, g.len());
            assert forall|i: int, j: int| 0 <= i < g.len() && 0 <= j < m implies (#[trigger] g[i][j]).spec_is_space() by {
                lemma_min_lead(g, g.len(), i);
                lemma_lead_spaces(g[i], j);
            }
            assert(forall|i: int| 0 <= i < g.len() ==> #[trigger] add_rows(buf, 0, g, layout, dir)[i] == g[i].skip(m as int));
        } else {
            let m = min_trail(g, g.len());
            lemma_min_trail_attained(g, g.len());
            assert forall|i: int, j: int|
                0 <= i < g.len() && g[i].len() - m <= j < g[i].len() implies (#[trigger] g[i][j]).spec_is_space() by {
                lemma_min_trail(g, g.len(), i);
                lemma_trail_spaces(g[i], g[i].len() - 1 - j);
            }
            assert(forall|i: int| 0 <= i < g.len() ==> #[trigger] add_rows(buf, 0, g, layout, dir)[i] == g[i].take(g[i].len() - m));
        }
    }
}

/// When some row of a kerned pair yields no merged cell, no row merges: every row is
/// the plain concatenation of its two kerned sides.
pub proof fn lemma_all_or_nothing(buf: Rows, inc: Rows, layout: Layout, dir: PrintDirection, i: int)
    requires
        layout.spec_needs_kerning(),
        0 <= i < buf.len(),
        buf.len() == inc.len(),
        ({
            let l = left_of(buf, inc, dir);
            let r = right_of(buf, inc, dir);
            let k = min_gap(l, r, l.len());
            smush_rows(kern_left(l, k)[i], kern_right(l, r, k)[i], layout) is None
        }),
    ensures
        ({
            let l = left_of(buf, inc, dir);
            let r = right_of(buf, inc, dir);
            let k = min_gap(l, r, l.len());
            compose(buf, inc, layout, dir) == join_rows(kern_left(l, k), kern_right(l, r, k))
        }),
{
    let l = left_of(buf, inc, dir);
    let r = right_of(buf, inc, dir);
    let k = min_gap(l, r, l.len());
    let kl = kern_left(l, k);
    let kr = kern_right(l, r, k);
    assert(smush_rows(kl[i], kr[i], layout) is None);
    assert(!all_smush(kl, kr, layout));
}

} // verus!

verus! {

pub open spec fn cell_char(c: SubCharacter) -> char {
    match c {
        SubCharacter::Symbol(x) => x,
        SubCharacter::Blank => ' ',
    }
}

/// The text of one row.
pub open spec fn row_text(r: Seq<SubCharacter>) -> Seq<char> {
    r.map_values(|c: SubCharacter| cell_char(c))
}

/// The text of rows, separated by newlines.
pub open spec fn rows_text(rows: Rows) -> Seq<char>
    decreases rows.len(),
{
    if rows.len() == 0 {
        Seq::empty()
    } else if rows.len() == 1 {
        row_text(rows[0])
    } else {
        rows_text(rows.drop_last()).push('\n') + row_text(rows.last())
    }
}

/// Appends the text of a row to `out`.
pub fn push_row_text(out: &mut Vec<char>, row: &Vec<SubCharacter>)
    ensures
        final(out)@ == old(out)@ + row_text(row@),
{
    let mut j: usize = 0;
    while j < row.len()
        invariant
            j <= row@.len(),
            out@ == old(out)@ + row_text(row@.take(j as int)),
        decreases row@.len() - j,
    {
        out.push(row[j].to_char());
        j += 1;
        assert(out@ =~= old(out)@ + row_text(row@.take(j as int)));
    }
    assert(row@.take(j as int) =~= row@);
}

/// Appends the text of rows, one per line, to `out`.
pub fn push_rows_text(out: &mut Vec<char>, rows: &Vec<Vec<SubCharacter>>)
    ensures
        final(out)@ == old(out)@ + rows_text(rows_view(rows@)),
{
    let ghost rv = rows_view(rows@);
    let mut i: usize = 0;
    while i < rows.len()
        invariant
            i <= rows@.len(),
            rv == rows_view(rows@),
            out@ == old(out)@ + rows_text(rv.take(i as int)),
        decreases rows@.len() - i,
    {
        let ghost before = out@;
        if i > 0 {
            out.push('\n');
        }
        push_row_text(out, &rows[i]);
        proof {
            let t = rv.take(i + 1);
            assert(t.drop_last() =~= rv.take(i as int));
            assert(t.last() == rows@[i as int]@);
            if i == 0 {
                assert(rows_text(rv.take(0)) =~= Seq::<char>::empty());
                assert(out@ =~= old(out)@ + rows_text(t));
            } else {
                assert(out@ =~= old(out)@ + rows_text(t));
            }
        }
        i += 1;
    }
    assert(rv.take(i as int) =~= rv);
}

impl<'a> FIGline<'a> {
    /// The line as text: its rows separated by newlines.
    pub fn to_string(&self) -> (r: String)
        ensures
            r@ == rows_text(self.rows()),
    {
        let mut out: Vec<char> = Vec::new();
        push_rows_text(&mut out, &self.lines);
        assert(out@ =~= rows_text(self.rows()));
        crate::utils::string_from_chars(&out)
    }
}

} // verus!

verus! {

proof fn lemma_min_gap_zero(l: Rows, r: Rows, n: nat)
    requires
        1 <= n <= l.len(),
        forall|i: int| 0 <= i < n ==> #[trigger] gap(l, r, i) == 0,
    ensures
        min_gap(l, r, n) == 0,
    decreases n,
{
    if n > 1 {
        lemma_min_gap_zero(l, r, (n - 1) as nat);
        assert(gap(l, r, n - 1) == 0);
    } else {
        assert(gap(l, r, 0) == 0);
    }
}

/// When the equal rule is on and, in every row, the buffer ends with the same
/// non-space symbol `x` that the incoming rows start with, the two touching columns
/// become one shared `x` column in every row: each row is one cell shorter than plain
/// concatenation.
pub proof fn lemma_equal_smush(buf: Rows, inc: Rows, layout: Layout, x: char)
    requires
        layout.spec_needs_smushing(),
        layout.has(HORIZONTAL_EQUAL),
        x != ' ',
        buf.len() == inc.len() >= 1,
        forall|i: int| 0 <= i < buf.len() ==> #[trigger] buf[i].len() > 0 && buf[i].last()
            == SubCharacter::Symbol(x),
        forall|i: int| 0 <= i < inc.len() ==> #[trigger] inc[i].len() > 0 && inc[i][0]
            == SubCharacter::Symbol(x),
    ensures
        forall|i: int|
            0 <= i < buf.len() ==> #[trigger] compose(buf, inc, layout, PrintDirection::LeftToRight)[i]
                == buf[i] + inc[i].drop_first(),
        forall|i: int|
            0 <= i < buf.len() ==> (#[trigger] compose(buf, inc, layout, PrintDirection::LeftToRight)[i]).len()
                == buf[i].len() + inc[i].len() - 1,
{
    let bits = layout.bits;
    assert(bits & 1u32 == 1u32 ==> bits & 191u32 != 128u32) by (bit_vector);
    assert(!layout.spec_is_universal());
    assert forall|i: int| 0 <= i < buf.len() implies #[trigger] gap(buf, inc, i) == 0 by {
        assert(buf[i].len() > 0 && inc[i].len() > 0);
    }
    lemma_min_gap_zero(buf, inc, buf.len());
    let kl = kern_left(buf, 0);
    let kr = kern_right(buf, inc, 0);
    assert forall|i: int| 0 <= i < buf.len() implies kl[i] == buf[i] && kr[i] == inc[i] by {
        assert(buf[i].len() > 0 && inc[i].len() > 0);
        assert(buf[i].take(buf[i].len() as int) =~= buf[i]);
        assert(inc[i].skip(0) =~= inc[i]);
    }
    assert forall|i: int| 0 <= i < buf.len() implies #[trigger] smush_rows(kl[i], kr[i], layout)
        == Some(SubCharacter::Symbol(x)) by {
        assert(buf[i].len() > 0 && inc[i].len() > 0);
        assert(controlled_cells(buf[i].last(), inc[i][0], layout) == Some(SubCharacter::Symbol(x)));
    }
    assert(all_smush(kl, kr, layout));
    assert forall|i: int| 0 <= i < buf.len() implies #[trigger] compose(
        buf,
        inc,
        layout,
        PrintDirection::LeftToRight,
    )[i] == buf[i] + inc[i].drop_first() by {
        assert(buf[i].len() > 0 && inc[i].len() > 0);
        assert(smush_rows(kl[i], kr[i], layout) == Some(SubCharacter::Symbol(x)));
        assert(buf[i].drop_last().push(SubCharacter::Symbol(x)) =~= buf[i]);
    }
}

} // verus!
