//! What one frame of the visualiser shows on the panel: the spectrum bars,
//! the progress bar of the current song, and the scrolling of its title.

use vstd::prelude::*;

use crate::renderer::{Color, ColorTypes};
use crate::renderer::frame::{Frame, lemma_set_reads_back};
use crate::renderer::panel::Renderer;
use crate::text::{Font, draw_text, text_drawable, text_paints, text_width, title_width};

verus! {

/// The row below the last one that the spectrum bars reach.
pub const BAR_FLOOR: isize = 38;

/// Rows that the progress bar stays above the bottom edge of the panel.
pub const PROGRESS_LIFT: usize = 10;

/// Cell (row, col) belongs to a spectrum bar: column `col` has a bar whose
/// top row `tops[col]` is at or above `row`, and `row` is above the floor.
pub open spec fn bar_lit(tops: Seq<isize>, row: int, col: int) -> bool {
    &&& 0 <= col < tops.len()
    &&& 0 <= tops[col] <= row < BAR_FLOOR
}

/// Draws the spectrum bars: the bar of column `pos` fills the rows from
/// `tops[pos]` down to the floor, where `tops[pos]` is not negative. Column 0
/// lies left of the panel, so the bar of position 0 is never seen.
pub fn draw_spectrum(r: &mut Renderer, tops: &Vec<isize>)
    requires
        old(r)@.wf(),
    ensures
        final(r)@.wf(),
        final(r)@.width == old(r)@.width,
        final(r)@.height == old(r)@.height,
        forall|row: int, col: int|
            old(r)@.contains(row, col) ==> #[trigger] final(r)@.at(row, col) == if bar_lit(tops@, row, col) {
                Color::Green
            } else {
                old(r)@.at(row, col)
            },
{
    let ghost start = r@;
    let n = tops.len();
    let mut pos: usize = 0;
    while pos < n
        invariant
            pos <= n,
            n == tops@.len(),
            r@.wf(),
            r@.width == start.width,
            r@.height == start.height,
            forall|row: int, col: int|
                start.contains(row, col) ==> #[trigger] r@.at(row, col) == if col < pos && bar_lit(tops@, row, col) {
                    Color::Green
                } else {
                    start.at(row, col)
                },
        decreases n - pos,
    {
        let f = tops[pos];
        if f >= 0 {
            let mut i: isize = f;
            while i < BAR_FLOOR
                invariant
                    f >= 0,
                    f == tops@[pos as int],
                    pos < n,
                    n == tops@.len(),
                    f <= i,
                    i <= BAR_FLOOR || i == f,
                    r@.wf(),
                    r@.width == start.width,
                    r@.height == start.height,
                    forall|row: int, col: int|
                        start.contains(row, col) ==> #[trigger] r@.at(row, col) == if (col < pos && bar_lit(tops@, row, col)) || (col == pos && f <= row < i) {
                            Color::Green
                        } else {
                            start.at(row, col)
                        },
                decreases BAR_FLOOR - i,
            {
                let ghost before = r@;
                r.update_framebuffer(i as usize, pos, ColorTypes::Color(Color::Green));
                proof {
                    assert forall|row: int, col: int| start.contains(row, col) implies #[trigger] r@.at(row, col) == if (col < pos && bar_lit(tops@, row, col)) || (col == pos && f <= row < i + 1) {
                        Color::Green
                    } else {
                        start.at(row, col)
                    } by {
                        assert(before.contains(row, col));
                        lemma_set_reads_back(before, i as int, pos as int, Color::Green, row, col);
                    }
                }
                i = i + 1;
            }
        }
        pos = pos + 1;
    }
}

/// The colour that the progress bar gives cell (row, col) of a panel of
/// `width` columns and `height` rows, when `filled` of its cells are done:
/// the bar runs along row `height - 10`, done cells green, the rest up to
/// column `width` orange. Its end is the column number `width + 1` held in a
/// `u16`, so on a panel wider than `u16` can count it wraps around.
pub open spec fn progress_color(width: nat, height: nat, filled: u16, row: int, col: int) -> Option<Color> {
    if row == height - PROGRESS_LIFT && col < filled {
        Some(Color::Green)
    } else if row == height - PROGRESS_LIFT && filled <= col < ((width + 1) as u16) {
        Some(Color::Orange)
    } else {
        None
    }
}

/// On a panel at least ten rows high whose width plus one a `u16` can hold,
/// the progress bar spans row `height - 10` from column 1 to column `width`:
/// the columns before `filled` green, every other one orange, whatever
/// `filled` is (0 included); no other row is touched.
pub proof fn lemma_progress_bar_row(width: nat, height: nat, filled: u16, row: int, col: int)
    requires
        height >= PROGRESS_LIFT,
        width + 1 <= u16::MAX,
        1 <= row <= height,
        1 <= col <= width,
    ensures
        row == height - PROGRESS_LIFT && col < filled ==> progress_color(width, height, filled, row, col) == Some(Color::Green),
        row == height - PROGRESS_LIFT && col >= filled ==> progress_color(width, height, filled, row, col) == Some(Color::Orange),
        row != height - PROGRESS_LIFT ==> progress_color(width, height, filled, row, col) is None,
{
    assert(((width + 1) as u16) == width + 1);
}

/// Draws the progress bar of the current song with `filled` cells done.
pub fn draw_progress(r: &mut Renderer, filled: u16)
    requires
        old(r)@.wf(),
        old(r)@.width < usize::MAX,
        old(r)@.height >= PROGRESS_LIFT || (filled == 0 && ((old(r)@.width + 1) as u16) == 0),
    ensures
        final(r)@.wf(),
        final(r)@.width == old(r)@.width,
        final(r)@.height == old(r)@.height,
        forall|row: int, col: int|
            old(r)@.contains(row, col) ==> #[trigger] final(r)@.at(row, col) == match progress_color(
                old(r)@.width,
                old(r)@.height,
                filled,
                row,
                col,
            ) {
                Some(c) => c,
                None => old(r)@.at(row, col),
            },
{
    let ghost start = r@;
    let (width, height) = r.size();
    let end: u16 = (width + 1) as u16;
    let mut i: u16 = 0;
    while i < filled
        invariant
            i <= filled,
            filled > 0 ==> height >= PROGRESS_LIFT,
            width == start.width,
            height == start.height,
            r@.wf(),
            r@.width == start.width,
            r@.height == start.height,
            forall|row: int, col: int|
                start.contains(row, col) ==> #[trigger] r@.at(row, col) == if row == height - PROGRESS_LIFT && col < i {
                    Color::Green
                } else {
                    start.at(row, col)
                },
        decreases filled - i,
    {
        let ghost before = r@;
        r.update_framebuffer(height - PROGRESS_LIFT, i as usize, ColorTypes::Color(Color::Green));
        proof {
            assert forall|row: int, col: int| start.contains(row, col) implies #[trigger] r@.at(row, col) == if row == height - PROGRESS_LIFT && col < i + 1 {
                Color::Green
            } else {
                start.at(row, col)
            } by {
                assert(before.contains(row, col));
                lemma_set_reads_back(before, height - PROGRESS_LIFT, i as int, Color::Green, row, col);
            }
        }
        i = i + 1;
    }
    let mut j: u16 = filled;
    while j < end
        invariant
            filled <= j,
            j <= end || j == filled,
            end == ((start.width + 1) as u16),
            filled < end ==> height >= PROGRESS_LIFT,
            width == start.width,
            height == start.height,
            r@.wf(),
            r@.width == start.width,
            r@.height == start.height,
            forall|row: int, col: int|
                start.contains(row, col) ==> #[trigger] r@.at(row, col) == if row == height - PROGRESS_LIFT && col < filled {
                    Color::Green
                } else if row == height - PROGRESS_LIFT && filled <= col < j {
                    Color::Orange
                } else {
                    start.at(row, col)
                },
        decreases end - j,
    {
        let ghost before = r@;
        r.update_framebuffer(height - PROGRESS_LIFT, j as usize, ColorTypes::Color(Color::Orange));
        proof {
            assert forall|row: int, col: int| start.contains(row, col) implies #[trigger] r@.at(row, col) == if row == height - PROGRESS_LIFT && col < filled {
                Color::Green
            } else if row == height - PROGRESS_LIFT && filled <= col < j + 1 {
                Color::Orange
            } else {
                start.at(row, col)
            } by {
                assert(before.contains(row, col));
                lemma_set_reads_back(before, height - PROGRESS_LIFT, j as int, Color::Orange, row, col);
            }
        }
        j = j + 1;
    }
}

/// Where the song title starts scrolling from in the next frame, given the
/// width `total` of the title, the width of the panel and the current
/// offset: a title that fits stays put at offset 0; a wider one moves one
/// column per frame and, once it has scrolled past its end, comes back in
/// from the right edge of the panel.
pub open spec fn spec_next_scroll(total: int, panel_width: int, offset: int) -> int {
    if total > panel_width {
        if offset > total {
            -panel_width
        } else {
            offset + 1
        }
    } else {
        0
    }
}

/// The scroll offset of the song title in the next frame.
pub fn next_scroll(total_width: i32, panel_width: usize, offset: i32) -> (next: i32)
    requires
        panel_width <= i32::MAX,
        offset < i32::MAX || offset > total_width,
    ensures
        next == spec_next_scroll(total_width as int, panel_width as int, offset as int),
{
    let w = panel_width as i32;
    if total_width > w {
        if offset > total_width {
            0 - w
        } else {
            offset + 1
        }
    } else {
        0
    }
}

/// The scroll offset stays between the left edge of the panel's width and
/// one column past the end of the title: from any offset in that range, the
/// next one is in it too.
pub proof fn lemma_scroll_stays_in_range(total: int, panel_width: int, offset: int)
    requires
        total >= 0,
        panel_width >= 0,
        -panel_width <= offset <= total + 1,
    ensures
        -panel_width <= spec_next_scroll(total, panel_width, offset) <= total + 1,
{
}

/// What cell (row, col) shows once a frame is composed over `before`: the
/// title over the progress bar over the spectrum bars over what was there.
pub open spec fn composed_cell(
    before: Frame<Color>,
    tops: Seq<isize>,
    filled: u16,
    font: Font,
    title: Seq<char>,
    offset: int,
    row: int,
    col: int,
) -> Color {
    if text_paints(font, title, offset, before.height, row, col) {
        Color::Green
    } else {
        match progress_color(before.width, before.height, filled, row, col) {
            Some(c) => c,
            None => if bar_lit(tops, row, col) {
                Color::Green
            } else {
                before.at(row, col)
            },
        }
    }
}

/// Composes one frame of the visualiser: the spectrum bars with tops
/// `tops`, the progress bar with `filled` cells done, and the song title
/// scrolled left by `offset`. Returns the scroll offset of the next frame.
pub fn compose_frame(r: &mut Renderer, tops: &Vec<isize>, filled: u16, font: &Font, title: &Vec<char>, offset: i32) -> (next: i32)
    requires
        old(r)@.wf(),
        old(r)@.width <= i32::MAX,
        old(r)@.height >= PROGRESS_LIFT || (filled == 0 && ((old(r)@.width + 1) as u16) == 0),
        text_drawable(*font, title@, offset as int, old(r)@.height),
        forall|k: int| 0 <= k <= title@.len() ==> i32::MIN <= #[trigger] title_width(*font, title@.take(k)) <= i32::MAX,
        offset < i32::MAX || offset > title_width(*font, title@),
    ensures
        final(r)@.wf(),
        final(r)@.width == old(r)@.width,
        final(r)@.height == old(r)@.height,
        forall|row: int, col: int|
            old(r)@.contains(row, col) ==> #[trigger] final(r)@.at(row, col) == composed_cell(
                old(r)@,
                tops@,
                filled,
                *font,
                title@,
                offset as int,
                row,
                col,
            ),
        next == spec_next_scroll(title_width(*font, title@), old(r)@.width as int, offset as int),
{
    let ghost begin = r@;
    draw_spectrum(r, tops);
    let ghost with_bars = r@;
    draw_progress(r, filled);
    let ghost with_progress = r@;
    let total = text_width(font, title);
    draw_text(r, font, title, offset);
    assert forall|row: int, col: int| begin.contains(row, col) implies #[trigger] r@.at(row, col) == composed_cell(
        begin,
        tops@,
        filled,
        *font,
        title@,
        offset as int,
        row,
        col,
    ) by {
        assert(with_bars.contains(row, col));
        assert(with_progress.contains(row, col));
    }
    let (width, _) = r.size();
    next_scroll(total, width, offset)
}

} // verus!
