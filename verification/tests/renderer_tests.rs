use visualizer::renderer::ffmpeg;
use visualizer::renderer::panel;
use visualizer::renderer::{Color, ColorTypes, Pixel};

fn px(red: u8, green: u8, blue: u8) -> Pixel {
    Pixel { red, green, blue }
}

#[test]
fn color_to_pixel_gives_the_four_shades() {
    assert_eq!(Color::Blank.to_pixel(), px(0, 0, 0));
    assert_eq!(Color::Red.to_pixel(), px(255, 0, 0));
    assert_eq!(Color::Orange.to_pixel(), px(255, 200, 0));
    assert_eq!(Color::Green.to_pixel(), px(0, 255, 0));
}

#[test]
fn pixel_bytes_are_red_green_blue() {
    assert_eq!(px(1, 2, 3).into_bytes(), [1, 2, 3]);
}

#[test]
fn panel_starts_blank_with_its_size() {
    let r = panel::Renderer::new(4, 3);
    assert_eq!(r.size(), (4, 3));
    assert_eq!(r.framebuffer().len(), 12);
    assert!(r.framebuffer().iter().all(|c| *c == Color::Blank));
}

#[test]
fn panel_update_paints_row_major_one_based_cell() {
    let mut r = panel::Renderer::new(4, 3);
    r.update_framebuffer(2, 3, ColorTypes::Color(Color::Orange));
    let fb = r.framebuffer();
    for (i, c) in fb.iter().enumerate() {
        if i == (2 - 1) * 4 + (3 - 1) {
            assert_eq!(*c, Color::Orange);
        } else {
            assert_eq!(*c, Color::Blank);
        }
    }
}

#[test]
fn panel_update_outside_the_grid_changes_nothing() {
    let mut r = panel::Renderer::new(4, 3);
    r.update_framebuffer(0, 1, ColorTypes::Color(Color::Green));
    r.update_framebuffer(1, 0, ColorTypes::Color(Color::Green));
    r.update_framebuffer(4, 1, ColorTypes::Color(Color::Green));
    r.update_framebuffer(1, 5, ColorTypes::Color(Color::Green));
    assert!(r.framebuffer().iter().all(|c| *c == Color::Blank));
    r.update_framebuffer(3, 4, ColorTypes::Color(Color::Green));
    assert_eq!(r.framebuffer()[11], Color::Green);
}

#[test]
fn panel_paints_raw_pixels_red() {
    let mut r = panel::Renderer::new(2, 2);
    r.update_framebuffer(1, 1, ColorTypes::Pixel(px(9, 9, 9)));
    assert_eq!(r.framebuffer()[0], Color::Red);
}

#[test]
fn panel_last_write_wins_and_clear_forgets() {
    let mut r = panel::Renderer::new(3, 2);
    r.update_framebuffer(1, 2, ColorTypes::Color(Color::Green));
    r.update_framebuffer(1, 2, ColorTypes::Color(Color::Red));
    assert_eq!(r.framebuffer()[1], Color::Red);
    r.clear_framebuffer();
    assert_eq!(r.size(), (3, 2));
    assert_eq!(r.framebuffer().clone(), vec![Color::Blank; 6]);
}

#[test]
fn panel_packet_packs_two_bits_per_cell() {
    let mut r = panel::Renderer::new(3, 2);
    let cells = [Color::Red, Color::Green, Color::Orange, Color::Blank, Color::Green, Color::Red];
    for (i, c) in cells.iter().enumerate() {
        r.update_framebuffer(i / 3 + 1, i % 3 + 1, ColorTypes::Color(*c));
    }
    // 10 01 11 00 | 01 10
    assert_eq!(r.frame_packet(), vec![0x3a, 0x30, 0x30, 0b1001_1100, 0b0110]);
}

#[test]
fn panel_blank_packet_is_header_and_zeros() {
    let r = panel::Renderer::new(120, 48);
    let packet = r.frame_packet();
    assert_eq!(packet.len(), 3 + (120 * 48 + 3) / 4);
    assert_eq!(&packet[..3], b":00");
    assert!(packet[3..].iter().all(|b| *b == 0));
}

#[test]
fn panel_packet_of_empty_frame_is_header_only() {
    let r = panel::Renderer::new(0, 5);
    assert_eq!(r.frame_packet(), vec![0x3a, 0x30, 0x30]);
}

#[test]
fn panel_different_frames_travel_as_different_packets() {
    let mut a = panel::Renderer::new(5, 1);
    let mut b = panel::Renderer::new(5, 1);
    a.update_framebuffer(1, 5, ColorTypes::Color(Color::Green));
    b.update_framebuffer(1, 5, ColorTypes::Color(Color::Red));
    assert_ne!(a.frame_packet(), b.frame_packet());
    assert_eq!(a.frame_packet(), vec![0x3a, 0x30, 0x30, 0, 0b01]);
    assert_eq!(b.frame_packet(), vec![0x3a, 0x30, 0x30, 0, 0b10]);
}

#[test]
fn ffmpeg_starts_black_and_paints_true_colour() {
    let mut r = ffmpeg::Renderer::new(2, 2);
    assert_eq!(r.size(), (2, 2));
    assert_eq!(r.frame_bytes(), vec![0; 12]);
    r.update_framebuffer(1, 2, ColorTypes::Color(Color::Orange));
    r.update_framebuffer(2, 1, ColorTypes::Pixel(px(7, 8, 9)));
    r.update_framebuffer(3, 1, ColorTypes::Pixel(px(1, 1, 1)));
    assert_eq!(r.frame_bytes(), vec![0, 0, 0, 255, 200, 0, 7, 8, 9, 0, 0, 0]);
    r.clear_framebuffer();
    assert_eq!(r.frame_bytes(), vec![0; 12]);
}

#[test]
fn flatten_keeps_row_and_array_order() {
    let grid: Vec<Vec<[u8; 2]>> = vec![vec![[1, 2], [3, 4]], vec![], vec![[5, 6]]];
    assert_eq!(ffmpeg::flatten(grid.clone()), vec![1, 2, 3, 4, 5, 6]);
    assert_eq!(panel::flatten(grid), vec![1, 2, 3, 4, 5, 6]);
    let words: Vec<Vec<[String; 1]>> = vec![vec![["a".to_string()]], vec![["b".to_string()], ["c".to_string()]]];
    assert_eq!(panel::flatten(words), vec!["a".to_string(), "b".to_string(), "c".to_string()]);
    let empty: Vec<Vec<[u8; 3]>> = vec![];
    assert_eq!(ffmpeg::flatten(empty), Vec::<u8>::new());
}

#[test]
fn decimal_writes_numbers_without_leading_zeros() {
    assert_eq!(ffmpeg::decimal(0), "0");
    assert_eq!(ffmpeg::decimal(7), "7");
    assert_eq!(ffmpeg::decimal(10), "10");
    assert_eq!(ffmpeg::decimal(120), "120");
    assert_eq!(ffmpeg::decimal(1234567), "1234567");
    assert_eq!(ffmpeg::decimal(usize::MAX), usize::MAX.to_string());
}

#[test]
fn player_args_describe_raw_rgb_on_stdin() {
    let args = ffmpeg::player_args(120, 48, 30);
    assert_eq!(
        args,
        vec!["-f", "rawvideo", "-pixel_format", "rgb24", "-video_size", "120x48", "-framerate", "30", "-"]
    );
}

#[test]
fn panel_writes_to_different_cells_commute() {
    let mut a = panel::Renderer::new(3, 3);
    let mut b = panel::Renderer::new(3, 3);
    a.update_framebuffer(1, 1, ColorTypes::Color(Color::Red));
    a.update_framebuffer(3, 2, ColorTypes::Color(Color::Green));
    b.update_framebuffer(3, 2, ColorTypes::Color(Color::Green));
    b.update_framebuffer(1, 1, ColorTypes::Color(Color::Red));
    assert_eq!(a.framebuffer().clone(), b.framebuffer().clone());
    assert_eq!(a.frame_packet(), b.frame_packet());
}
