use vstd::prelude::*;
use encoding::all::ISO_8859_1;
use encoding::{EncoderTrap, Encoding};
use crate::font::{Font, GLYPH_WIDTH_LIMIT};
use crate::line::{
    add_rows, empty_rows, first_trim, join_line_rows, join_rows, left_of,
    lemma_first_trim_len, lemma_max_len, lemma_max_len_attained, max_len, push_rows_text, right_of,
    rows_text, FIGline, Rows,
};
use crate::utils::{split_words, SplitWords};

verus! {

/// A line as its glyph codes and its rows.
pub type LineModel = (Seq<i32>, Rows);

/// ISO-8859-1 with replacement: a character up to U+00FF is its own byte, any other a `?`.
pub open spec fn latin1(s: Seq<char>) -> Seq<u8> {
    s.map_values(|c: char| if (c as u32) <= 255 { (c as u32) as u8 } else { 63u8 })
}

/// The glyph codes of a token.
pub open spec fn codes_of(s: Seq<char>) -> Seq<i32> {
    latin1(s).map_values(|b: u8| b as i32)
}

pub open spec fn blank_line(font: Font) -> LineModel {
    (Seq::empty(), empty_rows(font.height as nat))
}

/// A line with one more glyph.
pub open spec fn with_code(font: Font, m: LineModel, c: i32) -> LineModel {
    (m.0.push(c), add_rows(m.1, m.0.len(), font.glyph_rows(c), font.layout, font.direction))
}

pub open spec fn model_width(font: Font, m: LineModel) -> nat {
    max_len(m.1, font.height as nat)
}

/// The candidates flushed so far and the one being built, after reading `codes`: a
/// glyph that would push a non-empty candidate past the width starts the next one.
pub open spec fn build(font: Font, w: nat, codes: Seq<i32>) -> (Seq<LineModel>, LineModel)
    decreases codes.len(),
{
    if codes.len() == 0 {
        (Seq::empty(), blank_line(font))
    } else {
        let prev = build(font, w, codes.drop_last());
        let c = codes.last();
        let next = with_code(font, prev.1, c);
        if model_width(font, next) > w && prev.1.0.len() > 0 {
            (prev.0.push(prev.1), with_code(font, blank_line(font), c))
        } else {
            (prev.0, next)
        }
    }
}

/// The candidates one token yields.
pub open spec fn word_candidates(font: Font, w: nat, codes: Seq<i32>) -> Seq<LineModel> {
    let b = build(font, w, codes);
    if b.1.0.len() > 0 {
        b.0.push(b.1)
    } else {
        b.0
    }
}

/// The candidates of a sequence of tokens, in order.
pub open spec fn candidates(font: Font, w: nat, toks: Seq<Seq<char>>) -> Seq<LineModel>
    decreases toks.len(),
{
    if toks.len() == 0 {
        Seq::empty()
    } else {
        candidates(font, w, toks.drop_last()) + word_candidates(font, w, codes_of(toks.last()))
    }
}

/// Two lines joined by the line-merge operation.
pub open spec fn joined(font: Font, a: LineModel, b: LineModel) -> LineModel {
    (a.0 + b.0, join_line_rows(a.1, a.0.len(), b.1, b.0.len(), font.layout, font.direction))
}

/// Offers a candidate to the paragraph: it joins the last line if the result fits,
/// else it starts a new line.
pub open spec fn place(font: Font, w: nat, lines: Seq<LineModel>, word: LineModel) -> Seq<
    LineModel,
> {
    if lines.len() == 0 {
        seq![word]
    } else {
        let merged = joined(font, lines.last(), word);
        if model_width(font, merged) > w {
            lines.push(word)
        } else {
            lines.drop_last().push(merged)
        }
    }
}

pub open spec fn place_all(font: Font, w: nat, lines: Seq<LineModel>, words: Seq<LineModel>) -> Seq<
    LineModel,
>
    decreases words.len(),
{
    if words.len() == 0 {
        lines
    } else {
        place(font, w, place_all(font, w, lines, words.drop_last()), words.last())
    }
}

/// The paragraph's lines after adding a text.
pub open spec fn paragraph_add(font: Font, w: nat, lines: Seq<LineModel>, text: Seq<char>) -> Seq<
    LineModel,
> {
    place_all(font, w, lines, candidates(font, w, split_words(text)))
}

pub open spec fn model_of(l: FIGline) -> LineModel {
    (l.chars@, l.rows())
}

pub open spec fn models_of<'a>(v: Seq<FIGline<'a>>) -> Seq<LineModel> {
    v.map_values(|l: FIGline<'a>| model_of(l))
}

/// Relies on encoding's ISO_8859_1 encoder with the Replace trap: a character up to
/// U+00FF becomes its own byte, any other one byte `?`, and the call does not fail.
#[verifier::external_body]
fn encode_latin1(s: &str) -> (r: Result<Vec<u8>, String>)
    ensures
        r is Ok,
        r->Ok_0@ == latin1(s@),
{
    ISO_8859_1.encode(s, EncoderTrap::Replace).map_err(|e| e.into_owned())
}

/// The text of a paragraph: each line's rows followed by a newline.
pub open spec fn paragraph_text(lines: Seq<LineModel>) -> Seq<char>
    decreases lines.len(),
{
    if lines.len() == 0 {
        Seq::empty()
    } else {
        paragraph_text(lines.drop_last()) + rows_text(lines.last().1).push('\n')
    }
}

/// Every glyph of a well-formed font is at most the width limit.
pub proof fn lemma_glyph_bounded(font: Font, c: i32, i: int)
    requires
        font.wf(),
        0 <= i < font.height,
    ensures
        font.glyph_rows(c).len() == font.height,
        font.glyph_rows(c)[i].len() <= GLYPH_WIDTH_LIMIT,
{
    let k = crate::font::find_from(font.glyphs@, c, 0);
    let j = if k < font.glyphs@.len() {
        k
    } else {
        crate::font::find_from(font.glyphs@, crate::font::FALLBACK_CODE, 0)
    };
    lemma_find_from_range(font.glyphs@, c, 0);
    lemma_find_from_range(font.glyphs@, crate::font::FALLBACK_CODE, 0);
    assert(crate::font::glyph_ok(font.glyphs@[j], font.height));
    assert(font.glyphs@[j].rows@[i]@.len() <= GLYPH_WIDTH_LIMIT);
}

proof fn lemma_find_from_range(gs: Seq<crate::font::Glyph>, code: i32, i: int)
    requires
        0 <= i,
    ensures
        0 <= crate::font::find_from(gs, code, i) <= gs.len(),
    decreases gs.len() - i,
{
    if i < gs.len() && gs[i].code != code {
        lemma_find_from_range(gs, code, i + 1);
    }
}

/// A line of one glyph is no wider than the width limit.
proof fn lemma_single_width(font: Font, c: i32)
    requires
        font.wf(),
    ensures
        model_width(font, with_code(font, blank_line(font), c)) <= GLYPH_WIDTH_LIMIT,
{
    let g = font.glyph_rows(c);
    lemma_glyph_bounded(font, c, 0);
    let t = first_trim(g, font.layout, font.direction);
    lemma_max_len_attained(t, font.height as nat);
    let i = choose|i: int| 0 <= i < font.height && t[i].len() == max_len(t, font.height as nat);
    lemma_first_trim_len(g, font.layout, font.direction, i);
    lemma_glyph_bounded(font, c, i);
}

/// A paragraph: lines of glyphs wrapped greedily to a target width.
pub struct FIGure<'a> {
    pub width: usize,
    pub font: &'a Font,
    pub lines: Vec<FIGline<'a>>,
}

impl<'a> FIGure<'a> {
    pub open spec fn models(&self) -> Seq<LineModel> {
        models_of(self.lines@)
    }

    /// A line of the paragraph: built with its font, within the width unless it is a
    /// single glyph wider than the target.
    pub open spec fn line_ok(&self, l: FIGline) -> bool {
        &&& l.wf()
        &&& l.font == self.font
        &&& l.spec_width() <= GLYPH_WIDTH_LIMIT
        &&& (l.spec_width() <= self.width || l.chars@.len() == 1)
    }

    pub open spec fn wf(&self) -> bool {
        &&& self.font.wf()
        &&& self.width <= GLYPH_WIDTH_LIMIT
        &&& forall|i: int| 0 <= i < self.lines@.len() ==> self.line_ok(#[trigger] self.lines@[i])
    }

    /// An empty paragraph. The target width is at most the glyph width limit, which
    /// keeps every row length within the machine's word.
    pub fn new(font: &'a Font, width: usize) -> (r: FIGure<'a>)
        requires
            font.wf(),
            width <= GLYPH_WIDTH_LIMIT,
        ensures
            r.wf(),
            r.font == font,
            r.width == width,
            r.lines@.len() == 0,
    {
        FIGure { width, font, lines: Vec::new() }
    }

    pub fn width(&self) -> (r: usize)
        ensures
            r == self.width,
    {
        self.width
    }

    pub fn font(&self) -> (r: &'a Font)
        ensures
            r == self.font,
    {
        self.font
    }

    /// Adds a text: its tokens become candidates glyph by glyph, and each candidate
    /// joins the last line if the result stays within the width, else starts a line.
    pub fn add(&mut self, text: &str) -> (r: Result<(), String>)
        requires
            old(self).wf(),
        ensures
            r is Ok,
            final(self).wf(),
            final(self).font == old(self).font,
            final(self).width == old(self).width,
            final(self).models() == paragraph_add(
                *old(self).font,
                old(self).width as nat,
                old(self).models(),
                text@,
            ),
    {
        let font = self.font;
        let w = self.width;
        let ghost fv = *font;
        let mut splitter = SplitWords::new(text);
        let tokens = splitter.collect_words();
        let ghost toks = tokens@.map_values(|s: String| s@);
        assert(toks == split_words(text@));
        let mut words: Vec<FIGline<'a>> = Vec::new();
        let mut t: usize = 0;
        while t < tokens.len()
            invariant
                t <= tokens@.len(),
                toks == tokens@.map_values(|s: String| s@),
                fv == *font,
                font.wf(),
                w <= GLYPH_WIDTH_LIMIT,
                models_of(words@) == candidates(fv, w as nat, toks.take(t as int)),
                forall|k: int| 0 <= k < words@.len() ==> self.line_ok(#[trigger] words@[k]),
                self.font == font,
                self.width == w,
            decreases tokens@.len() - t,
        {
            let bytes = match encode_latin1(tokens[t].as_str()) {
                Ok(b) => b,
                Err(e) => {
                    return Err(e);
                },
            };
            let ghost codes = codes_of(toks[t as int]);
            let ghost before = models_of(words@);
            let mut cur = FIGline::new(font);
            let mut j: usize = 0;
            proof {
                lemma_max_len_attained(cur.rows(), fv.height as nat);
                assert(codes.take(0) =~= Seq::<i32>::empty());
                assert(before =~= before + build(fv, w as nat, codes.take(0)).0);
            }
            while j < bytes.len()
                invariant
                    j <= bytes@.len() == codes.len(),
                    forall|k: int| 0 <= k < codes.len() ==> codes[k] == #[trigger] bytes@[k] as i32,
                    fv == *font,
                    font.wf(),
                    w <= GLYPH_WIDTH_LIMIT,
                    self.font == font,
                    self.width == w,
                    models_of(words@) == before + build(fv, w as nat, codes.take(j as int)).0,
                    model_of(cur) == build(fv, w as nat, codes.take(j as int)).1,
                    self.line_ok(cur),
                    forall|k: int| 0 <= k < words@.len() ==> self.line_ok(#[trigger] words@[k]),
                decreases bytes@.len() - j,
            {
                let c = bytes[j] as i32;
                let ghost prev = build(fv, w as nat, codes.take(j as int));
                proof {
                    assert(codes.take(j + 1).drop_last() =~= codes.take(j as int));
                    assert(codes.take(j + 1).last() == c);
                    assert forall|i: int| 0 <= i < cur.rows().len() implies #[trigger] cur.rows()[i].len()
                        + fv.glyph_rows(c)[i].len() <= usize::MAX by {
                        lemma_max_len(cur.rows(), fv.height as nat, i);
                        lemma_glyph_bounded(fv, c, i);
                    }
                    lemma_single_width(fv, c);
                }
                let mut next = cur.duplicate();
                next.add_char(c);
                let nw = next.width();
                assert(model_of(next) == with_code(fv, prev.1, c));
                if nw > w && !cur.is_empty() {
                    let ghost wbefore = models_of(words@);
                    let ghost cm = model_of(cur);
                    words.push(cur);
                    proof {
                        assert(models_of(words@) =~= wbefore.push(cm));
                        assert(build(fv, w as nat, codes.take(j + 1)).0 == prev.0.push(prev.1));
                        assert(before + prev.0.push(prev.1) =~= (before + prev.0).push(prev.1));
                    }
                    cur = FIGline::new(font);
                    proof {
                        assert forall|i: int| 0 <= i < cur.rows().len() implies #[trigger] cur.rows()[i].len()
                            + fv.glyph_rows(c)[i].len() <= usize::MAX by {
                            lemma_glyph_bounded(fv, c, i);
                        }
                    }
                    cur.add_char(c);
                    proof {
                        assert(models_of(words@) =~= before + build(fv, w as nat, codes.take(j + 1)).0);
                    }
                } else {
                    cur = next;
                }
                j += 1;
            }
            proof {
                assert(codes.take(j as int) =~= codes);
                assert(toks.take(t + 1).drop_last() =~= toks.take(t as int));
                assert(toks.take(t + 1).last() == toks[t as int]);
            }
            let ghost wbefore = models_of(words@);
            let ghost cm = model_of(cur);
            let ghost b = build(fv, w as nat, codes);
            assert(b == build(fv, w as nat, codes.take(j as int)));
            if !cur.is_empty() {
                words.push(cur);
                proof {
                    assert(models_of(words@) =~= wbefore.push(cm));
                    assert(before + b.0.push(b.1) =~= (before + b.0).push(b.1));
                }
            }
            proof {
                assert(models_of(words@) == before + word_candidates(fv, w as nat, codes));
                assert(models_of(words@) =~= candidates(fv, w as nat, toks.take(t + 1)));
            }
            t += 1;
        }
        proof {
            assert(toks.take(t as int) =~= toks);
        }
        let ghost wm = models_of(words@);
        let ghost start = self.models();
        let mut i: usize = 0;
        proof {
            assert(wm.take(0) =~= Seq::<LineModel>::empty());
        }
        while i < words.len()
            invariant
                i <= words@.len(),
                wm == models_of(words@),
                fv == *font,
                font.wf(),
                w <= GLYPH_WIDTH_LIMIT,
                self.font == font,
                self.width == w,
                self.wf(),
                start == old(self).models(),
                self.models() == place_all(fv, w as nat, start, wm.take(i as int)),
                forall|k: int| 0 <= k < words@.len() ==> self.line_ok(#[trigger] words@[k]),
            decreases words@.len() - i,
        {
            let word = words[i].duplicate();
            let ghost placed = self.models();
            proof {
                assert(wm.take(i + 1).drop_last() =~= wm.take(i as int));
                assert(wm.take(i + 1).last() == model_of(words@[i as int]));
                assert(self.line_ok(words@[i as int]));
            }
            if self.lines.len() == 0 {
                self.lines.push(word);
                proof {
                    assert(self.models() =~= place(fv, w as nat, placed, model_of(word)));
                }
            } else {
                let last = self.lines.pop().unwrap();
                proof {
                    assert(self.models() =~= placed.drop_last());
                    assert(model_of(last) == placed.last());
                    assert forall|k: int| 0 <= k < last.rows().len() implies #[trigger] last.rows()[k].len()
                        + word.rows()[k].len() <= usize::MAX by {
                        lemma_max_len(last.rows(), fv.height as nat, k);
                        lemma_max_len(word.rows(), fv.height as nat, k);
                    }
                }
                let mut merged = last.duplicate();
                merged.add_line(&word);
                let mw = merged.width();
                if mw > w {
                    self.lines.push(last);
                    self.lines.push(word);
                } else {
                    self.lines.push(merged);
                }
                proof {
                    assert(self.models() =~= place(fv, w as nat, placed, model_of(word)));
                }
            }
            i += 1;
        }
        proof {
            assert(wm.take(i as int) =~= wm);
        }
        Ok(())
    }

    /// The paragraph as text: every line's rows, each line ended by a newline.
    pub fn to_string(&self) -> (r: String)
        ensures
            r@ == paragraph_text(self.models()),
    {
        let ghost m = self.models();
        let mut out: Vec<char> = Vec::new();
        let mut i: usize = 0;
        while i < self.lines.len()
            invariant
                i <= self.lines@.len(),
                m == self.models(),
                out@ == paragraph_text(m.take(i as int)),
            decreases self.lines@.len() - i,
        {
            push_rows_text(&mut out, &self.lines[i].lines);
            out.push('\n');
            proof {
                let t = m.take(i + 1);
                assert(t.drop_last() =~= m.take(i as int));
                assert(t.last() == model_of(self.lines@[i as int]));
                assert(out@ =~= paragraph_text(t));
            }
            i += 1;
        }
        assert(m.take(i as int) =~= m);
        crate::utils::string_from_chars(&out)
    }

    /// Adds a single character.
    pub fn add_char(&mut self, ch: char) -> (r: Result<(), String>)
        requires
            old(self).wf(),
        ensures
            r is Ok,
            final(self).wf(),
            final(self).font == old(self).font,
            final(self).width == old(self).width,
            final(self).models() == paragraph_add(
                *old(self).font,
                old(self).width as nat,
                old(self).models(),
                seq![ch],
            ),
    {
        let mut v: Vec<char> = Vec::new();
        v.push(ch);
        let s = crate::utils::string_from_chars(&v);
        assert(v@ =~= seq![ch]);
        self.add(s.as_str())
    }
}

} // verus!

verus! {

/// A line built from `codes` one glyph at a time, starting empty.
pub open spec fn line_of(font: Font, codes: Seq<i32>) -> LineModel
    decreases codes.len(),
{
    if codes.len() == 0 {
        blank_line(font)
    } else {
        with_code(font, line_of(font, codes.drop_last()), codes.last())
    }
}

/// Without kerning or smushing, a line of `codes` holds those codes and one row per
/// font row.
pub proof fn lemma_plain_line_shape(font: Font, codes: Seq<i32>)
    requires
        font.wf(),
        !font.layout.spec_needs_kerning(),
    ensures
        line_of(font, codes).0 == codes,
        line_of(font, codes).1.len() == font.height,
    decreases codes.len(),
{
    if codes.len() > 0 {
        lemma_plain_line_shape(font, codes.drop_last());
        lemma_glyph_bounded(font, codes.last(), 0);
        assert(codes.drop_last().push(codes.last()) =~= codes);
    }
}

/// Composing a word glyph by glyph equals composing its two halves apart and joining
/// them with the line-merge operation, for layouts that neither kern nor smush.
pub proof fn lemma_split_composition(font: Font, a: Seq<i32>, b: Seq<i32>)
    requires
        font.wf(),
        !font.layout.spec_needs_kerning(),
    ensures
        line_of(font, a + b) == joined(font, line_of(font, a), line_of(font, b)),
    decreases b.len(),
{
    let h = font.height as nat;
    lemma_plain_line_shape(font, a);
    lemma_plain_line_shape(font, b);
    lemma_plain_line_shape(font, a + b);
    let lhs = line_of(font, a + b);
    let rhs = joined(font, line_of(font, a), line_of(font, b));
    if a.len() == 0 {
        assert(a + b =~= b);
        assert(rhs.0 =~= lhs.0);
        assert(rhs == lhs);
    } else if b.len() == 0 {
        assert(a + b =~= a);
        assert(rhs.0 =~= lhs.0);
        assert(rhs == lhs);
    } else {
        let b1 = b.drop_last();
        let c = b.last();
        assert((a + b).drop_last() =~= a + b1);
        assert((a + b).last() == c);
        lemma_split_composition(font, a, b1);
        lemma_plain_line_shape(font, b1);
        lemma_glyph_bounded(font, c, 0);
        let la = line_of(font, a).1;
        let lb1 = line_of(font, b1).1;
        let g = font.glyph_rows(c);
        let dir = font.direction;
        assert(lhs.0 =~= rhs.0);
        if b1.len() == 0 {
            assert(line_of(font, b).1 == g);
            assert(lhs.1 =~= rhs.1);
        } else {
            let x = join_rows(left_of(la, lb1, dir), right_of(la, lb1, dir));
            assert(line_of(font, a + b1).1 == x);
            let y = join_rows(left_of(lb1, g, dir), right_of(lb1, g, dir));
            assert(line_of(font, b).1 == y);
            assert(lhs.1 == join_rows(left_of(x, g, dir), right_of(x, g, dir)));
            assert(rhs.1 == join_rows(left_of(la, y, dir), right_of(la, y, dir)));
            assert forall|i: int| 0 <= i < h implies lhs.1[i] == rhs.1[i] by {
                if dir is LeftToRight {
                    assert((la[i] + lb1[i]) + g[i] =~= la[i] + (lb1[i] + g[i]));
                } else {
                    assert(g[i] + (lb1[i] + la[i]) =~= (g[i] + lb1[i]) + la[i]);
                }
            }
            assert(lhs.1 =~= rhs.1);
        }
    }
}

/// Every line of a well-formed paragraph is within the target width, except a line
/// that is a single glyph wider than the target.
pub proof fn lemma_width_bound(p: FIGure)
    requires
        p.wf(),
    ensures
        forall|i: int|
            0 <= i < p.lines@.len() ==> (#[trigger] p.lines@[i]).spec_width() <= p.width
                || p.lines@[i].chars@.len() == 1,
{
    assert forall|i: int| 0 <= i < p.lines@.len() implies (#[trigger] p.lines@[i]).spec_width()
        <= p.width || p.lines@[i].chars@.len() == 1 by {
        assert(p.line_ok(p.lines@[i]));
    }
}

/// Adding the same text to two paragraphs with the same font, width and lines leaves
/// them with the same lines.
pub proof fn lemma_add_deterministic(p: FIGure, q: FIGure, p_after: FIGure, q_after: FIGure, text: Seq<char>)
    requires
        *p.font == *q.font,
        p.width == q.width,
        p.models() == q.models(),
        p_after.models() == paragraph_add(*p.font, p.width as nat, p.models(), text),
        q_after.models() == paragraph_add(*q.font, q.width as nat, q.models(), text),
    ensures
        p_after.models() == q_after.models(),
        paragraph_text(p_after.models()) == paragraph_text(q_after.models()),
{
}

} // verus!

verus! {

/// Under a layout that neither kerns nor smushes, a line of two glyphs holds both
/// glyphs' rows verbatim side by side: the first glyph on the left when printing left
/// to right, on the right otherwise.
pub proof fn lemma_plain_pair(font: Font, a: i32, b: i32)
    requires
        font.wf(),
        !font.layout.spec_needs_kerning(),
    ensures
        line_of(font, seq![a, b]).0 == seq![a, b],
        line_of(font, seq![a, b]).1.len() == font.height,
        forall|r: int|
            0 <= r < font.height ==> line_of(font, seq![a, b]).1[r] == if font.direction is LeftToRight {
                #[trigger] font.glyph_rows(a)[r] + font.glyph_rows(b)[r]
            } else {
                font.glyph_rows(b)[r] + font.glyph_rows(a)[r]
            },
{
    let codes = seq![a, b];
    assert(codes.drop_last() =~= seq![a]);
    assert(seq![a].drop_last() =~= Seq::<i32>::empty());
    lemma_plain_line_shape(font, codes);
    lemma_glyph_bounded(font, a, 0);
    lemma_glyph_bounded(font, b, 0);
    assert(line_of(font, seq![a]).1 == font.glyph_rows(a));
}

} // verus!
