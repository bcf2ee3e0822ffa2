use visualizer::renderer::panel::Renderer;
use visualizer::renderer::{Color, ColorTypes};
use visualizer::scene::{compose_frame, draw_progress, draw_spectrum, next_scroll};
use visualizer::spectrum::merge_channels;
use visualizer::text::{draw_glyph, draw_text, glyph_fits, text_width, title_fits, Font, Glyph};
use visualizer::track::{join, song_label};

fn cell(r: &Renderer, row: usize, col: usize) -> Color {
    let (w, _) = r.size();
    r.framebuffer()[(row - 1) * w + (col - 1)]
}

fn lit_cells(r: &Renderer) -> Vec<(usize, usize, Color)> {
    let (w, _) = r.size();
    r.framebuffer()
        .iter()
        .enumerate()
        .filter(|(_, c)| **c != Color::Blank)
        .map(|(i, c)| (i / w + 1, i % w + 1, *c))
        .collect()
}

#[test]
fn merge_mirrors_left_before_right() {
    assert_eq!(merge_channels(vec![vec![1, 2, 3], vec![4, 5]]), vec![3, 2, 1, 4, 5]);
    assert_eq!(merge_channels(vec![vec![1], vec![2], vec![3]]), vec![1, 2]);
    assert_eq!(merge_channels(vec![vec![7, 8]]), vec![7, 8]);
    assert_eq!(merge_channels(Vec::<Vec<u8>>::new()), Vec::<u8>::new());
    assert_eq!(merge_channels(vec![Vec::<u8>::new(), vec![1]]), vec![1]);
}

#[test]
fn spectrum_bars_run_from_top_to_floor() {
    let mut r = Renderer::new(4, 40);
    draw_spectrum(&mut r, &vec![5, 36, -1, 40]);
    // Column 0 is left of the panel; column 2 has no bar; column 3 starts below the floor.
    assert_eq!(lit_cells(&r), vec![(36, 1, Color::Green), (37, 1, Color::Green)]);
    assert_eq!(cell(&r, 38, 1), Color::Blank);
}

#[test]
fn progress_bar_is_green_then_orange() {
    let mut r = Renderer::new(5, 12);
    draw_progress(&mut r, 3);
    assert_eq!(
        lit_cells(&r),
        vec![
            (2, 1, Color::Green),
            (2, 2, Color::Green),
            (2, 3, Color::Orange),
            (2, 4, Color::Orange),
            (2, 5, Color::Orange),
        ]
    );
}

#[test]
fn progress_bar_done_is_all_green() {
    let mut r = Renderer::new(3, 10);
    draw_progress(&mut r, 10);
    // The bar row is row 0, above the panel: nothing shows.
    assert!(lit_cells(&r).is_empty());
    let mut r = Renderer::new(3, 11);
    draw_progress(&mut r, 10);
    assert_eq!(lit_cells(&r), vec![(1, 1, Color::Green), (1, 2, Color::Green), (1, 3, Color::Green)]);
}

#[test]
fn scroll_moves_wide_titles_and_wraps() {
    assert_eq!(next_scroll(10, 20, 5), 0);
    assert_eq!(next_scroll(20, 20, 5), 0);
    assert_eq!(next_scroll(30, 20, 5), 6);
    assert_eq!(next_scroll(30, 20, 30), 31);
    assert_eq!(next_scroll(30, 20, 31), -20);
    assert_eq!(next_scroll(30, 20, -20), -19);
}

fn glyph(width: u32, height: u32, rows: &[&str]) -> Glyph {
    let bits: Vec<bool> = rows.iter().flat_map(|r| r.chars().map(|c| c == '#')).collect();
    Glyph::new(width, height, bits).unwrap()
}

fn small_font() -> Font {
    let mut f = Font::new();
    f.insert('a', glyph(2, 2, &["#.", ".#"]));
    f.insert('b', glyph(1, 3, &["#", ".", "#"]));
    f
}

#[test]
fn glyph_needs_a_full_bitmap() {
    assert!(Glyph::new(2, 2, vec![true; 3]).is_none());
    let g = glyph(3, 1, &["#.#"]);
    assert_eq!((g.width(), g.height()), (3, 1));
    assert!(g.pixel(0, 0) && !g.pixel(1, 0) && g.pixel(2, 0));
}

#[test]
fn font_insert_replaces_and_leaves_others() {
    let mut f = small_font();
    assert_eq!(f.get('a').map(|g| g.width()), Some(2));
    assert!(f.get('z').is_none());
    f.insert('a', glyph(1, 1, &["#"]));
    assert_eq!(f.get('a').map(|g| g.width()), Some(1));
    assert_eq!(f.get('b').map(|g| g.height()), Some(3));
}

#[test]
fn title_width_skips_unknown_characters() {
    let f = small_font();
    assert_eq!(text_width(&f, &"ab?a".chars().collect()), 5);
    assert_eq!(text_width(&f, &Vec::new()), 0);
}

#[test]
fn glyph_rests_on_bottom_row() {
    let f = small_font();
    let mut r = Renderer::new(6, 4);
    draw_glyph(&mut r, f.get('b').unwrap(), 2, 0);
    assert_eq!(lit_cells(&r), vec![(2, 3, Color::Green), (4, 3, Color::Green)]);
}

#[test]
fn title_is_drawn_glyph_after_glyph_and_scrolled() {
    let f = small_font();
    let text: Vec<char> = "a?b".chars().collect();
    let mut r = Renderer::new(6, 4);
    draw_text(&mut r, &f, &text, 0);
    assert_eq!(
        lit_cells(&r),
        vec![(2, 3, Color::Green), (3, 1, Color::Green), (4, 2, Color::Green), (4, 3, Color::Green)]
    );
    let mut r = Renderer::new(6, 4);
    draw_text(&mut r, &f, &text, 1);
    // Shifted one column left: what fell on column 1 now lands on column 0, off the panel.
    assert_eq!(lit_cells(&r), vec![(2, 2, Color::Green), (4, 1, Color::Green), (4, 2, Color::Green)]);
}

#[test]
fn title_fits_rejects_a_visible_glyph_taller_than_the_panel() {
    let f = small_font();
    let text: Vec<char> = "b".chars().collect();
    assert!(title_fits(&f, &text, 0, 3));
    assert!(!title_fits(&f, &text, 0, 2));
    // Scrolled fully off to the left, the tall glyph is never placed.
    assert!(title_fits(&f, &text, 5, 2));
    assert!(glyph_fits(f.get('b').unwrap(), 0, 0, 3));
    assert!(!glyph_fits(f.get('b').unwrap(), u32::MAX as u64, 0, 3));
}

#[test]
fn join_separates_names() {
    assert_eq!(join(&vec![], ", "), "");
    assert_eq!(join(&vec!["A"], ", "), "A");
    assert_eq!(join(&vec!["A", "B", "C"], ", "), "A, B, C");
}

#[test]
fn song_label_fills_in_what_is_missing() {
    assert_eq!(song_label(None), "No song playing");
    assert_eq!(song_label(Some((Some("Song"), Some(vec!["X", "Y"])))), "Song - X, Y");
    assert_eq!(song_label(Some((None, Some(vec!["X"])))), "No Title - X");
    assert_eq!(song_label(Some((Some("Song"), None))), "Song - No Artist");
    assert_eq!(song_label(Some((Some("Song"), Some(vec![])))), "Song - ");
}

#[test]
fn frame_layers_title_over_progress_over_bars() {
    let f = small_font();
    let title: Vec<char> = "b".chars().collect();
    let mut r = Renderer::new(3, 12);
    let next = compose_frame(&mut r, &vec![0, 1, -1, 39], 2, &f, &title, 0);
    assert_eq!(next, 0);
    assert_eq!(cell(&r, 1, 1), Color::Green);
    assert_eq!(cell(&r, 2, 1), Color::Green);
    assert_eq!(cell(&r, 2, 2), Color::Orange);
    assert_eq!(cell(&r, 2, 3), Color::Orange);
    assert_eq!(cell(&r, 10, 1), Color::Green);
    assert_eq!(cell(&r, 11, 1), Color::Green);
    assert_eq!(cell(&r, 12, 1), Color::Green);
    assert_eq!(cell(&r, 11, 2), Color::Blank);
    assert_eq!(cell(&r, 12, 3), Color::Blank);
    r.update_framebuffer(12, 3, ColorTypes::Color(Color::Red));
    assert_eq!(cell(&r, 12, 3), Color::Red);
}

#[test]
fn scroll_offset_stays_between_panel_edge_and_title_end() {
    let (total, width) = (30, 20);
    let mut offset = 0;
    let mut wrapped = 0;
    for _ in 0..500 {
        let next = next_scroll(total, width, offset);
        assert!(-(width as i32) <= next && next <= total + 1);
        if next < offset {
            wrapped += 1;
        }
        offset = next;
    }
    assert!(wrapped > 0);
}
