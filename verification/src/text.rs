//! Bitmap fonts and the song title drawn with them along the bottom of the
//! panel.
//!
//! A glyph is a grid of pixels, `width` columns by `height` rows, pixel
//! (x, y) counted from 0 at its top-left corner. The title is drawn glyph
//! after glyph from column 1 of the panel, shifted left by the scroll
//! offset, each glyph resting on the bottom edge of the panel. Characters
//! for which the font has no glyph take no room.

use vstd::prelude::*;

use crate::renderer::{Color, ColorTypes};
use crate::renderer::frame::{Frame, lemma_index_in_grid, lemma_set_reads_back};
use crate::renderer::panel::Renderer;

verus! {

/// The bitmap of one character.
pub struct Glyph {
    width: u32,
    height: u32,
    bitmap: Vec<bool>,
}

impl View for Glyph {
    type V = Frame<bool>;

    closed spec fn view(&self) -> Frame<bool> {
        Frame { width: self.width as nat, height: self.height as nat, cells: self.bitmap@ }
    }
}

impl Glyph {
    #[verifier::type_invariant]
    spec fn bitmap_fills_grid(self) -> bool {
        self.bitmap@.len() == self.width * self.height
    }

    /// The glyph of `width` columns and `height` rows whose pixels are
    /// `bitmap`, row after row; `None` when `bitmap` has not exactly
    /// `width * height` pixels.
    pub fn new(width: u32, height: u32, bitmap: Vec<bool>) -> (g: Option<Glyph>)
        ensures
            g is Some <==> bitmap@.len() == width * height,
            g matches Some(g) ==> g@ == (Frame { width: width as nat, height: height as nat, cells: bitmap@ }),
    {
        let n = bitmap.len();
        let w = width as u64;
        let h = height as u64;
        assert(w * h <= u64::MAX) by (nonlinear_arith)
            requires
                w <= u32::MAX,
                h <= u32::MAX,
        {
            assert(w * h <= (u32::MAX as int) * (u32::MAX as int));
        }
        if w * h == n as u64 {
            Some(Glyph { width, height, bitmap })
        } else {
            None
        }
    }

    /// The number of pixel columns.
    pub fn width(&self) -> (w: u32)
        ensures
            w == self@.width,
            self@.wf(),
    {
        proof {
            use_type_invariant(self);
        }
        self.width
    }

    /// The number of pixel rows.
    pub fn height(&self) -> (h: u32)
        ensures
            h == self@.height,
            self@.wf(),
    {
        proof {
            use_type_invariant(self);
        }
        self.height
    }

    /// Whether pixel (x, y) is lit.
    pub fn pixel(&self, x: u32, y: u32) -> (lit: bool)
        requires
            x < self@.width,
            y < self@.height,
        ensures
            lit == glyph_pixel(self@, x as int, y as int),
    {
        proof {
            use_type_invariant(self);
            lemma_index_in_grid(self@, y + 1, x + 1);
            assert((y + 1 - 1) * self.width + (x + 1 - 1) == y * self.width + x);
            assert(y * self.width + x < self.bitmap.len());
        }
        let idx = y as usize * self.width as usize + x as usize;
        self.bitmap[idx]
    }
}

/// Whether pixel (x, y) of a glyph is lit.
pub open spec fn glyph_pixel(g: Frame<bool>, x: int, y: int) -> bool {
    g.at(y + 1, x + 1)
}

/// The glyph that a list of (character, glyph) entries gives a character:
/// the last entry for it.
pub open spec fn lookup(entries: Seq<(char, Frame<bool>)>, c: char) -> Option<Frame<bool>>
    decreases entries.len(),
{
    if entries.len() == 0 {
        None
    } else if entries.last().0 == c {
        Some(entries.last().1)
    } else {
        lookup(entries.drop_last(), c)
    }
}

/// A bitmap font: a glyph for each of some characters.
pub struct Font {
    glyphs: Vec<(char, Glyph)>,
}

impl Font {
    /// The entries of the font as (character, glyph bitmap).
    pub closed spec fn entries(&self) -> Seq<(char, Frame<bool>)> {
        self.glyphs@.map_values(|e: (char, Glyph)| (e.0, e.1@))
    }

    /// The glyph of `c`, if the font has one.
    pub open spec fn glyph_of(&self, c: char) -> Option<Frame<bool>> {
        lookup(self.entries(), c)
    }

    /// A font without glyphs.
    pub fn new() -> (f: Font)
        ensures
            forall|c: char| #[trigger] f.glyph_of(c) is None,
    {
        let f = Font { glyphs: Vec::new() };
        assert(f.entries() =~= Seq::<(char, Frame<bool>)>::empty());
        f
    }

    /// Gives `c` the glyph `g`, replacing any glyph it had.
    pub fn insert(&mut self, c: char, g: Glyph)
        ensures
            final(self).glyph_of(c) == Some(g@),
            forall|d: char| d != c ==> #[trigger] final(self).glyph_of(d) == old(self).glyph_of(d),
    {
        let ghost gv = g@;
        self.glyphs.push((c, g));
        proof {
            assert(self.entries() =~= old(self).entries().push((c, gv)));
            assert(self.entries().drop_last() =~= old(self).entries());
        }
    }

    /// The glyph of `c`, if the font has one.
    pub fn get(&self, c: char) -> (g: Option<&Glyph>)
        ensures
            g matches Some(g) ==> self.glyph_of(c) == Some(g@),
            g is None ==> self.glyph_of(c) is None,
    {
        let mut i = self.glyphs.len();
        assert(self.entries().take(i as int) =~= self.entries());
        while i > 0
            invariant
                i <= self.glyphs@.len(),
                lookup(self.entries(), c) == lookup(self.entries().take(i as int), c),
            decreases i,
        {
            proof {
                assert(self.entries().take(i as int).drop_last() =~= self.entries().take(i - 1));
            }
            if self.glyphs[i - 1].0 == c {
                return Some(&self.glyphs[i - 1].1);
            }
            i = i - 1;
        }
        None
    }
}

/// The columns that the glyphs of `text` take, characters without a glyph
/// taking none.
pub open spec fn glyph_span(font: Font, text: Seq<char>) -> nat
    decreases text.len(),
{
    if text.len() == 0 {
        0
    } else {
        glyph_span(font, text.drop_last()) + match font.glyph_of(text.last()) {
            Some(g) => g.width,
            None => 0,
        }
    }
}

/// The panel column where pixel column `x` of a glyph lands, when the glyph
/// starts `start` columns into the title and the title is scrolled left by
/// `offset`. The column is computed in `i32`, which it is cast to.
pub open spec fn pixel_column(start: nat, offset: int, x: int) -> int {
    ((x + 1 + start) as i32) as int - offset
}

/// Scrolling is a translation for every offset, negative ones included: one
/// column less of offset lands every pixel one column further right.
pub proof fn lemma_scroll_shifts_column(start: nat, offset: int, x: int)
    ensures
        pixel_column(start, offset - 1, x) == pixel_column(start, offset, x) + 1,
{
}

/// Unless the column wraps around in `i32`, pixel column `x` of a glyph that
/// starts `start` columns into the title lands on panel column
/// `x + 1 + start - offset`.
pub proof fn lemma_pixel_column_exact(start: nat, offset: int, x: int)
    requires
        0 <= x,
        x + 1 + start <= i32::MAX,
    ensures
        pixel_column(start, offset, x) == x + 1 + start - offset,
{
}

/// The panel row where pixel row `y` of a glyph of height `glyph_height`
/// lands: the glyph rests on the bottom row `panel_height`.
pub open spec fn pixel_row(panel_height: nat, glyph_height: nat, y: int) -> int {
    y + 1 + (panel_height - glyph_height)
}

/// Pixel (x, y) of `g` is lit and lands on panel cell (row, col), which lies
/// at or right of column 0.
pub open spec fn paints_pixel(
    g: Frame<bool>,
    start: nat,
    offset: int,
    panel_height: nat,
    x: int,
    y: int,
    row: int,
    col: int,
) -> bool {
    &&& 0 <= x < g.width
    &&& 0 <= y < g.height
    &&& glyph_pixel(g, x, y)
    &&& pixel_column(start, offset, x) >= 0
    &&& pixel_column(start, offset, x) == col
    &&& pixel_row(panel_height, g.height, y) == row
}

/// Some lit pixel of `g` lands on panel cell (row, col).
pub open spec fn glyph_paints(g: Frame<bool>, start: nat, offset: int, panel_height: nat, row: int, col: int) -> bool {
    exists|x: int, y: int| #[trigger] paints_pixel(g, start, offset, panel_height, x, y, row, col)
}

/// Some lit pixel of `g` before pixel (x_lim, y_lim), rows first, lands on
/// panel cell (row, col).
pub open spec fn painted_before(
    g: Frame<bool>,
    start: nat,
    offset: int,
    panel_height: nat,
    y_lim: int,
    x_lim: int,
    row: int,
    col: int,
) -> bool {
    exists|x: int, y: int|
        #[trigger] paints_pixel(g, start, offset, panel_height, x, y, row, col) && (y < y_lim || (y == y_lim && x < x_lim))
}

/// A glyph drawn at one column less of offset paints exactly the cells it
/// paints at `offset`, moved one column right.
pub proof fn lemma_glyph_shift(g: Frame<bool>, start: nat, offset: int, panel_height: nat, row: int, col: int)
    requires
        col >= 0,
    ensures
        glyph_paints(g, start, offset - 1, panel_height, row, col + 1) == glyph_paints(g, start, offset, panel_height, row, col),
{
    if glyph_paints(g, start, offset, panel_height, row, col) {
        let (x, y) = choose|x: int, y: int| #[trigger] paints_pixel(g, start, offset, panel_height, x, y, row, col);
        lemma_scroll_shifts_column(start, offset, x);
        assert(paints_pixel(g, start, offset - 1, panel_height, x, y, row, col + 1));
    }
    if glyph_paints(g, start, offset - 1, panel_height, row, col + 1) {
        let (x, y) = choose|x: int, y: int| #[trigger] paints_pixel(g, start, offset - 1, panel_height, x, y, row, col + 1);
        lemma_scroll_shifts_column(start, offset, x);
        assert(paints_pixel(g, start, offset, panel_height, x, y, row, col));
    }
}

/// Drawing `g` from `start` at scroll `offset` on a panel of height
/// `panel_height` stays within the machine's integers: the glyph ends within
/// `u32`, and every lit pixel's column fits in `i32`; a glyph with a lit
/// pixel at or right of column 0 is no taller than the panel.
pub open spec fn glyph_drawable(g: Frame<bool>, start: nat, offset: int, panel_height: nat) -> bool {
    &&& start + g.width <= u32::MAX
    &&& forall|x: int, y: int|
        0 <= x < g.width && 0 <= y < g.height && #[trigger] glyph_pixel(g, x, y) ==> {
            &&& i32::MIN <= pixel_column(start, offset, x) <= i32::MAX
            &&& pixel_column(start, offset, x) >= 0 ==> g.height <= panel_height
        }
}

/// Draws the lit pixels of `g` in green, the glyph starting `start` columns
/// into the title and the title scrolled left by `offset`.
pub fn draw_glyph(r: &mut Renderer, g: &Glyph, start: u32, offset: i32)
    requires
        old(r)@.wf(),
        glyph_drawable(g@, start as nat, offset as int, old(r)@.height),
    ensures
        final(r)@.wf(),
        final(r)@.width == old(r)@.width,
        final(r)@.height == old(r)@.height,
        forall|row: int, col: int|
            old(r)@.contains(row, col) ==> #[trigger] final(r)@.at(row, col) == if glyph_paints(
                g@,
                start as nat,
                offset as int,
                old(r)@.height,
                row,
                col,
            ) {
                Color::Green
            } else {
                old(r)@.at(row, col)
            },
{
    let ghost begin = r@;
    let ghost gv = g@;
    let ghost ph = begin.height;
    let ghost st = start as nat;
    let ghost off = offset as int;
    let (_, panel_height) = r.size();
    let gw = g.width();
    let gh = g.height();
    let mut y: u32 = 0;
    while y < gh
        invariant
            y <= gh,
            gh == gv.height,
            gw == gv.width,
            gv == g@,
            panel_height == ph,
            ph == begin.height,
            glyph_drawable(gv, st, off, ph),
            st == start,
            off == offset,
            r@.wf(),
            r@.width == begin.width,
            r@.height == begin.height,
            forall|row: int, col: int|
                begin.contains(row, col) ==> #[trigger] r@.at(row, col) == if painted_before(gv, st, off, ph, y as int, 0, row, col) {
                    Color::Green
                } else {
                    begin.at(row, col)
                },
        decreases gh - y,
    {
        let mut x: u32 = 0;
        while x < gw
            invariant
                x <= gw,
                y < gh,
                gh == gv.height,
                gw == gv.width,
                gv == g@,
                panel_height == ph,
                ph == begin.height,
                glyph_drawable(gv, st, off, ph),
                st == start,
                off == offset,
                r@.wf(),
                r@.width == begin.width,
                r@.height == begin.height,
                forall|row: int, col: int|
                    begin.contains(row, col) ==> #[trigger] r@.at(row, col) == if painted_before(gv, st, off, ph, y as int, x as int, row, col) {
                        Color::Green
                    } else {
                        begin.at(row, col)
                    },
            decreases gw - x,
        {
            let ghost before = r@;
            let lit = g.pixel(x, y);
            let mut painted = false;
            if lit {
                let sum: usize = x as usize + 1 + start as usize;
                let column: i32 = (sum as i32) - offset;
                if column >= 0 {
                    let row: usize = y as usize + 1 + (panel_height - gh as usize);
                    r.update_framebuffer(row, column as usize, ColorTypes::Color(Color::Green));
                    painted = true;
                }
            }
            proof {
                let xi = x as int;
                let yi = y as int;
                let trow = pixel_row(ph, gv.height, yi);
                let tcol = pixel_column(st, off, xi);
                assert(painted <==> (glyph_pixel(gv, xi, yi) && tcol >= 0));
                if painted {
                    assert(r@ == before.set(trow, tcol, Color::Green));
                } else {
                    assert(r@ == before);
                }
                assert forall|row: int, col: int| begin.contains(row, col) implies #[trigger] r@.at(row, col) == if painted_before(gv, st, off, ph, yi, xi + 1, row, col) {
                    Color::Green
                } else {
                    begin.at(row, col)
                } by {
                    assert(before.contains(row, col));
                    if painted {
                        lemma_set_reads_back(before, trow, tcol, Color::Green, row, col);
                    }
                    let here = paints_pixel(gv, st, off, ph, xi, yi, row, col);
                    if here {
                        assert(painted_before(gv, st, off, ph, yi, xi + 1, row, col));
                    }
                    if painted_before(gv, st, off, ph, yi, xi, row, col) {
                        let (wx, wy) = choose|wx: int, wy: int| #[trigger] paints_pixel(gv, st, off, ph, wx, wy, row, col) && (wy < yi || (wy == yi && wx < xi));
                        assert(paints_pixel(gv, st, off, ph, wx, wy, row, col) && (wy < yi || (wy == yi && wx < xi + 1)));
                    }
                    if painted_before(gv, st, off, ph, yi, xi + 1, row, col) {
                        let (wx, wy) = choose|wx: int, wy: int| #[trigger] paints_pixel(gv, st, off, ph, wx, wy, row, col) && (wy < yi || (wy == yi && wx < xi + 1));
                        if !(wx == xi && wy == yi) {
                            assert(paints_pixel(gv, st, off, ph, wx, wy, row, col) && (wy < yi || (wy == yi && wx < xi)));
                        }
                    }
                }
            }
            x = x + 1;
        }
        proof {
            assert forall|row: int, col: int| begin.contains(row, col) implies #[trigger] r@.at(row, col) == if painted_before(gv, st, off, ph, y + 1, 0, row, col) {
                Color::Green
            } else {
                begin.at(row, col)
            } by {
                if painted_before(gv, st, off, ph, y as int, gw as int, row, col) {
                    let (wx, wy) = choose|wx: int, wy: int| #[trigger] paints_pixel(gv, st, off, ph, wx, wy, row, col) && (wy < y || (wy == y && wx < gw));
                    assert(paints_pixel(gv, st, off, ph, wx, wy, row, col) && (wy < y + 1 || (wy == y + 1 && wx < 0)));
                }
                if painted_before(gv, st, off, ph, y + 1, 0, row, col) {
                    let (wx, wy) = choose|wx: int, wy: int| #[trigger] paints_pixel(gv, st, off, ph, wx, wy, row, col) && (wy < y + 1 || (wy == y + 1 && wx < 0));
                    assert(paints_pixel(gv, st, off, ph, wx, wy, row, col) && (wy < y || (wy == y && wx < gw)));
                }
            }
        }
        y = y + 1;
    }
    proof {
        assert forall|row: int, col: int| begin.contains(row, col) implies #[trigger] r@.at(row, col) == if glyph_paints(gv, st, off, ph, row, col) {
            Color::Green
        } else {
            begin.at(row, col)
        } by {
            if glyph_paints(gv, st, off, ph, row, col) {
                let (wx, wy) = choose|wx: int, wy: int| #[trigger] paints_pixel(gv, st, off, ph, wx, wy, row, col);
                assert(paints_pixel(gv, st, off, ph, wx, wy, row, col) && (wy < gh || (wy == gh && wx < 0)));
            }
            if painted_before(gv, st, off, ph, gh as int, 0, row, col) {
                let (wx, wy) = choose|wx: int, wy: int| #[trigger] paints_pixel(gv, st, off, ph, wx, wy, row, col) && (wy < gh || (wy == gh && wx < 0));
                assert(paints_pixel(gv, st, off, ph, wx, wy, row, col));
            }
        }
    }
}

/// Character `k` of `text` has a glyph, and a lit pixel of it lands on
/// panel cell (row, col).
pub open spec fn char_paints(font: Font, text: Seq<char>, offset: int, panel_height: nat, k: int, row: int, col: int) -> bool {
    match font.glyph_of(text[k]) {
        Some(g) => glyph_paints(g, glyph_span(font, text.take(k)), offset, panel_height, row, col),
        None => false,
    }
}

/// Some character of `text` before character `k_lim` paints panel cell
/// (row, col).
pub open spec fn text_paints_before(font: Font, text: Seq<char>, offset: int, panel_height: nat, k_lim: int, row: int, col: int) -> bool {
    exists|k: int| 0 <= k < k_lim && #[trigger] char_paints(font, text, offset, panel_height, k, row, col)
}

/// Some character of `text` paints panel cell (row, col).
pub open spec fn text_paints(font: Font, text: Seq<char>, offset: int, panel_height: nat, row: int, col: int) -> bool {
    text_paints_before(font, text, offset, panel_height, text.len() as int, row, col)
}

/// A title drawn at one column less of offset paints exactly the cells it
/// paints at `offset`, moved one column right: scrolling moves the title,
/// whatever the sign of the offset.
pub proof fn lemma_title_shift(font: Font, text: Seq<char>, offset: int, panel_height: nat, row: int, col: int)
    requires
        col >= 0,
    ensures
        text_paints(font, text, offset - 1, panel_height, row, col + 1) == text_paints(font, text, offset, panel_height, row, col),
{
    assert forall|k: int| 0 <= k < text.len() implies #[trigger] char_paints(font, text, offset - 1, panel_height, k, row, col + 1)
        == char_paints(font, text, offset, panel_height, k, row, col) by {
        if let Some(g) = font.glyph_of(text[k]) {
            lemma_glyph_shift(g, glyph_span(font, text.take(k)), offset, panel_height, row, col);
        }
    }
    if text_paints(font, text, offset, panel_height, row, col) {
        let k = choose|k: int| 0 <= k < text.len() && #[trigger] char_paints(font, text, offset, panel_height, k, row, col);
        assert(char_paints(font, text, offset - 1, panel_height, k, row, col + 1));
    }
    if text_paints(font, text, offset - 1, panel_height, row, col + 1) {
        let k = choose|k: int| 0 <= k < text.len() && #[trigger] char_paints(font, text, offset - 1, panel_height, k, row, col + 1);
        assert(char_paints(font, text, offset, panel_height, k, row, col));
    }
}

/// Drawing `text` at scroll `offset` on a panel of height `panel_height`
/// stays within the machine's integers: the glyphs take at most `u32::MAX`
/// columns, and each glyph is drawable where it stands.
pub open spec fn text_drawable(font: Font, text: Seq<char>, offset: int, panel_height: nat) -> bool {
    &&& glyph_span(font, text) <= u32::MAX
    &&& forall|k: int|
        0 <= k < text.len() ==> match #[trigger] font.glyph_of(text[k]) {
            Some(g) => glyph_drawable(g, glyph_span(font, text.take(k)), offset, panel_height),
            None => true,
        }
}

/// The glyphs of a prefix of `text` take no more columns than those of
/// `text`.
proof fn lemma_span_prefix(font: Font, text: Seq<char>, k: int)
    requires
        0 <= k <= text.len(),
    ensures
        glyph_span(font, text.take(k)) <= glyph_span(font, text),
    decreases text.len() - k,
{
    if k < text.len() {
        lemma_span_prefix(font, text, k + 1);
        assert(text.take(k + 1).drop_last() =~= text.take(k));
    } else {
        assert(text.take(k) =~= text);
    }
}

/// Draws the song title `text` in green along the bottom of the panel,
/// scrolled left by `offset` columns.
pub fn draw_text(r: &mut Renderer, font: &Font, text: &Vec<char>, offset: i32)
    requires
        old(r)@.wf(),
        text_drawable(*font, text@, offset as int, old(r)@.height),
    ensures
        final(r)@.wf(),
        final(r)@.width == old(r)@.width,
        final(r)@.height == old(r)@.height,
        forall|row: int, col: int|
            old(r)@.contains(row, col) ==> #[trigger] final(r)@.at(row, col) == if text_paints(
                *font,
                text@,
                offset as int,
                old(r)@.height,
                row,
                col,
            ) {
                Color::Green
            } else {
                old(r)@.at(row, col)
            },
{
    let ghost begin = r@;
    let ghost ph = begin.height;
    let ghost off = offset as int;
    let ghost t = text@;
    let n = text.len();
    let mut start: u32 = 0;
    let mut i: usize = 0;
    assert(t.take(0) =~= Seq::<char>::empty());
    while i < n
        invariant
            i <= n,
            n == t.len(),
            t == text@,
            ph == begin.height,
            off == offset,
            text_drawable(*font, t, off, ph),
            start == glyph_span(*font, t.take(i as int)),
            r@.wf(),
            r@.width == begin.width,
            r@.height == begin.height,
            forall|row: int, col: int|
                begin.contains(row, col) ==> #[trigger] r@.at(row, col) == if text_paints_before(*font, t, off, ph, i as int, row, col) {
                    Color::Green
                } else {
                    begin.at(row, col)
                },
        decreases n - i,
    {
        let ghost before = r@;
        let c = text[i];
        proof {
            assert(t.take(i + 1).drop_last() =~= t.take(i as int));
            assert(t.take(i + 1).last() == c);
            lemma_span_prefix(*font, t, i + 1);
        }
        match font.get(c) {
            Some(g) => {
                let ghost gv = g@;
                assert(glyph_drawable(gv, start as nat, off, ph));
                let gw = g.width();
                draw_glyph(r, g, start, offset);
                proof {
                    assert forall|row: int, col: int| begin.contains(row, col) implies #[trigger] r@.at(row, col) == if text_paints_before(*font, t, off, ph, i + 1, row, col) {
                        Color::Green
                    } else {
                        begin.at(row, col)
                    } by {
                        assert(before.contains(row, col));
                        assert(char_paints(*font, t, off, ph, i as int, row, col) == glyph_paints(gv, start as nat, off, ph, row, col));
                        if text_paints_before(*font, t, off, ph, i as int, row, col) {
                            let k = choose|k: int| 0 <= k < i && #[trigger] char_paints(*font, t, off, ph, k, row, col);
                            assert(0 <= k < i + 1 && char_paints(*font, t, off, ph, k, row, col));
                        }
                        if char_paints(*font, t, off, ph, i as int, row, col) {
                            assert(text_paints_before(*font, t, off, ph, i + 1, row, col));
                        }
                        if text_paints_before(*font, t, off, ph, i + 1, row, col) {
                            let k = choose|k: int| 0 <= k < i + 1 && #[trigger] char_paints(*font, t, off, ph, k, row, col);
                            if k != i {
                                assert(0 <= k < i && char_paints(*font, t, off, ph, k, row, col));
                            }
                        }
                    }
                }
                start = start + gw;
            },
            None => {
                proof {
                    assert forall|row: int, col: int| begin.contains(row, col) implies #[trigger] r@.at(row, col) == if text_paints_before(*font, t, off, ph, i + 1, row, col) {
                        Color::Green
                    } else {
                        begin.at(row, col)
                    } by {
                        assert(!char_paints(*font, t, off, ph, i as int, row, col));
                        if text_paints_before(*font, t, off, ph, i as int, row, col) {
                            let k = choose|k: int| 0 <= k < i && #[trigger] char_paints(*font, t, off, ph, k, row, col);
                            assert(0 <= k < i + 1 && char_paints(*font, t, off, ph, k, row, col));
                        }
                        if text_paints_before(*font, t, off, ph, i + 1, row, col) {
                            let k = choose|k: int| 0 <= k < i + 1 && #[trigger] char_paints(*font, t, off, ph, k, row, col);
                            if k != i {
                                assert(0 <= k < i && char_paints(*font, t, off, ph, k, row, col));
                            }
                        }
                    }
                }
            },
        }
        i = i + 1;
    }
}

/// The width of the title as the visualiser sums it: each glyph's width
/// cast to `i32`, characters without a glyph adding nothing.
pub open spec fn title_width(font: Font, text: Seq<char>) -> int
    decreases text.len(),
{
    if text.len() == 0 {
        0
    } else {
        title_width(font, text.drop_last()) + match font.glyph_of(text.last()) {
            Some(g) => (g.width as i32) as int,
            None => 0,
        }
    }
}

/// The width of the title in panel columns, summed in `i32`.
pub fn text_width(font: &Font, text: &Vec<char>) -> (total: i32)
    requires
        forall|k: int| 0 <= k <= text@.len() ==> i32::MIN <= #[trigger] title_width(*font, text@.take(k)) <= i32::MAX,
    ensures
        total == title_width(*font, text@),
{
    let ghost t = text@;
    let n = text.len();
    let mut total: i32 = 0;
    let mut i: usize = 0;
    assert(t.take(0) =~= Seq::<char>::empty());
    while i < n
        invariant
            i <= n,
            n == t.len(),
            t == text@,
            forall|k: int| 0 <= k <= t.len() ==> i32::MIN <= #[trigger] title_width(*font, t.take(k)) <= i32::MAX,
            total == title_width(*font, t.take(i as int)),
        decreases n - i,
    {
        let c = text[i];
        proof {
            assert(t.take(i + 1).drop_last() =~= t.take(i as int));
            assert(t.take(i + 1).last() == c);
            assert(i32::MIN <= title_width(*font, t.take(i + 1)) <= i32::MAX);
        }
        let w: i32 = match font.get(c) {
            Some(g) => g.width() as i32,
            None => 0,
        };
        total = total + w;
        i = i + 1;
    }
    assert(t.take(n as int) =~= t);
    total
}

/// Whether `g` is drawable from `start` at scroll `offset` on a panel of
/// height `panel_height` (see `glyph_drawable`).
pub fn glyph_fits(g: &Glyph, start: u64, offset: i32, panel_height: usize) -> (ok: bool)
    requires
        start <= u32::MAX,
    ensures
        ok == glyph_drawable(g@, start as nat, offset as int, panel_height as nat),
{
    let ghost gv = g@;
    let gw = g.width();
    let gh = g.height();
    if start + gw as u64 > u32::MAX as u64 {
        return false;
    }
    let mut y: u32 = 0;
    while y < gh
        invariant
            y <= gh,
            gw == gv.width,
            gh == gv.height,
            gv == g@,
            start + gw <= u32::MAX,
            forall|px: int, py: int|
                0 <= px < gw && 0 <= py < y && #[trigger] glyph_pixel(gv, px, py) ==> {
                    &&& i32::MIN <= pixel_column(start as nat, offset as int, px) <= i32::MAX
                    &&& pixel_column(start as nat, offset as int, px) >= 0 ==> gv.height <= panel_height
                },
        decreases gh - y,
    {
        let mut x: u32 = 0;
        while x < gw
            invariant
                x <= gw,
                y < gh,
                gw == gv.width,
                gh == gv.height,
                gv == g@,
                start + gw <= u32::MAX,
                forall|px: int, py: int|
                    0 <= px < gw && 0 <= py < y && #[trigger] glyph_pixel(gv, px, py) ==> {
                        &&& i32::MIN <= pixel_column(start as nat, offset as int, px) <= i32::MAX
                        &&& pixel_column(start as nat, offset as int, px) >= 0 ==> gv.height <= panel_height
                    },
                forall|px: int|
                    0 <= px < x && #[trigger] glyph_pixel(gv, px, y as int) ==> {
                        &&& i32::MIN <= pixel_column(start as nat, offset as int, px) <= i32::MAX
                        &&& pixel_column(start as nat, offset as int, px) >= 0 ==> gv.height <= panel_height
                    },
            decreases gw - x,
        {
            if g.pixel(x, y) {
                let sum: u64 = x as u64 + 1 + start;
                let column: i64 = (sum as i32) as i64 - offset as i64;
                assert(column == pixel_column(start as nat, offset as int, x as int));
                if column < i32::MIN as i64 || column > i32::MAX as i64 {
                    return false;
                }
                if column >= 0 && gh as usize > panel_height {
                    return false;
                }
            }
            x = x + 1;
        }
        y = y + 1;
    }
    true
}

/// Whether the title `text` can be drawn at scroll `offset` on a panel of
/// height `panel_height`, its width summed in `i32`, and the scroll offset
/// of the next frame computed, all within the machine's integers: the
/// conditions under which `compose_frame` takes a title.
pub fn title_fits(font: &Font, text: &Vec<char>, offset: i32, panel_height: usize) -> (ok: bool)
    ensures
        ok == ({
            &&& text_drawable(*font, text@, offset as int, panel_height as nat)
            &&& forall|k: int| 0 <= k <= text@.len() ==> i32::MIN <= #[trigger] title_width(*font, text@.take(k)) <= i32::MAX
            &&& (offset < i32::MAX || offset > title_width(*font, text@))
        }),
{
    let ghost t = text@;
    let ghost ph = panel_height as nat;
    let ghost off = offset as int;
    let n = text.len();
    let mut start: u64 = 0;
    let mut total: i64 = 0;
    let mut i: usize = 0;
    assert(t.take(0) =~= Seq::<char>::empty());
    while i < n
        invariant
            i <= n,
            n == t.len(),
            t == text@,
            off == offset,
            ph == panel_height,
            start == glyph_span(*font, t.take(i as int)),
            start <= u32::MAX,
            total == title_width(*font, t.take(i as int)),
            forall|k: int| 0 <= k < i ==> match #[trigger] font.glyph_of(t[k]) {
                Some(g) => glyph_drawable(g, glyph_span(*font, t.take(k)), off, ph),
                None => true,
            },
            forall|k: int| 0 <= k <= i ==> i32::MIN <= #[trigger] title_width(*font, t.take(k)) <= i32::MAX,
        decreases n - i,
    {
        let c = text[i];
        proof {
            assert(t.take(i + 1).drop_last() =~= t.take(i as int));
            assert(t.take(i + 1).last() == c);
            lemma_span_prefix(*font, t, i + 1);
        }
        match font.get(c) {
            Some(g) => {
                if !glyph_fits(g, start, offset, panel_height) {
                    assert(!text_drawable(*font, t, off, ph));
                    return false;
                }
                let gw = g.width();
                start = start + gw as u64;
                if start > u32::MAX as u64 {
                    assert(!text_drawable(*font, t, off, ph));
                    return false;
                }
                total = total + (gw as i32) as i64;
            },
            None => {},
        }
        assert(total == title_width(*font, t.take(i + 1)));
        if total < i32::MIN as i64 || total > i32::MAX as i64 {
            assert(!(i32::MIN <= title_width(*font, t.take(i + 1)) <= i32::MAX));
            return false;
        }
        i = i + 1;
    }
    assert(t.take(n as int) =~= t);
    offset < i32::MAX || offset as i64 > total
}

} // verus!
