use embedded_graphics::pixelcolor::{IntoStorage, Rgb565};
use frugger::frugger::{HEIGHT, WIDTH};
use frugger::span::diff_spans;
use frugger::{Frugger, Palette, Pixel, Span};

const ALL: [Palette; 16] = [
    Palette::Black,
    Palette::Purple,
    Palette::Red,
    Palette::Orange,
    Palette::Yellow,
    Palette::Lime,
    Palette::Green,
    Palette::Teal,
    Palette::NavyBlue,
    Palette::DarkBlue,
    Palette::Blue,
    Palette::LightBlue,
    Palette::White,
    Palette::LightGrey,
    Palette::DarkGrey,
    Palette::BlueGrey,
];

/// A frugger whose committed frame is all `bg`, with nothing drawn since.
fn settled(bg: Palette) -> Frugger {
    let mut f = Frugger::new(bg);
    f.commit();
    f
}

fn span_cols(s: &Span) -> (u16, u16, u16, usize) {
    (s.row, s.start_col, s.length, s.colors.len())
}

#[test]
fn from_index_maps_every_index() {
    for (i, c) in ALL.iter().enumerate() {
        assert_eq!(Palette::from_index(&(i as u8)), Some(*c));
        assert_eq!(c.bits(), i as u8);
    }
    assert_eq!(Palette::from_index(&16), None);
    assert_eq!(Palette::from_index(&255), None);
}

#[test]
fn colour_values_are_rgb565_words() {
    assert_eq!(Palette::Red.color(), (22u16 << 11) | (15 << 5) | 10);
    assert_eq!(Palette::Red.color(), 45546);
    assert_eq!(Palette::Black.color(), Rgb565::new(3, 7, 5).into_storage());
    assert_eq!(Palette::Yellow.color(), Rgb565::new(31, 51, 14).into_storage());
    assert_eq!(Palette::BlueGrey.color(), Rgb565::new(6, 15, 11).into_storage());
    assert_eq!(Palette::White.channels(), (30, 60, 30));
}

#[test]
fn new_fills_pending_with_background() {
    let f = Frugger::new(Palette::Teal);
    for y in [0u16, 1, 120, 239] {
        for x in [0u16, 1, 2, 160, 318, 319] {
            assert_eq!(f.get_pixel_value_next(x, y), Palette::Teal);
            assert_eq!(f.get_pixel_value(x, y), None);
        }
    }
}

#[test]
fn set_then_get_returns_colour_for_every_palette_entry() {
    let mut f = Frugger::new(Palette::Black);
    for (i, c) in ALL.iter().enumerate() {
        let x = (i * 19) as i32;
        let y = (i * 13) as i32;
        f.set_pixel(x, y, *c);
        assert_eq!(f.get_pixel_value_next(x as u16, y as u16), *c);
        f.set_pixel(x + 1, y, Palette::Red);
        assert_eq!(f.get_pixel_value_next(x as u16, y as u16), *c);
        assert_eq!(f.get_pixel_value_next(x as u16 + 1, y as u16), Palette::Red);
    }
    f.write_pixel_value(319, 239, Palette::Lime);
    assert_eq!(f.get_pixel_value_next(319, 239), Palette::Lime);
    assert_eq!(f.get_pixel_value_next(318, 239), Palette::Black);
}

#[test]
fn commit_copies_pending_and_resets_to_background() {
    let mut f = Frugger::new(Palette::Blue);
    f.set_pixel(5, 7, Palette::Red);
    f.set_pixel(6, 7, Palette::Green);
    f.commit();
    assert_eq!(f.get_pixel_value(5, 7), Some(Palette::Red));
    assert_eq!(f.get_pixel_value(6, 7), Some(Palette::Green));
    assert_eq!(f.get_pixel_value(7, 7), Some(Palette::Blue));
    assert_eq!(f.get_pixel_value_next(5, 7), Palette::Blue);
    assert_eq!(f.get_pixel_value_next(6, 7), Palette::Blue);
    let spans = f.diff();
    assert_eq!(spans.len(), 1);
    assert_eq!(span_cols(&spans[0]), (7, 5, 2, 2));
}

#[test]
fn single_span() {
    let mut f = settled(Palette::BlueGrey);
    let row = 42;
    for x in 10..20 {
        f.set_pixel(x, row, Palette::Red);
    }
    let spans = f.diff();
    assert_eq!(spans.len(), 1);
    assert_eq!(span_cols(&spans[0]), (42, 10, 10, 10));
    assert_eq!(spans[0].colors, vec![Palette::Red.color(); 10]);
}

#[test]
fn split_span() {
    let mut f = settled(Palette::BlueGrey);
    let row = 42;
    for x in 10..20 {
        if x != 15 {
            f.set_pixel(x, row, Palette::Red);
        }
    }
    let spans = f.diff();
    assert_eq!(spans.len(), 2);
    assert_eq!(span_cols(&spans[0]), (42, 10, 5, 5));
    assert_eq!(span_cols(&spans[1]), (42, 16, 4, 4));
}

#[test]
fn spans_are_row_major_and_stop_at_row_end() {
    let mut f = settled(Palette::Black);
    f.set_pixel(318, 3, Palette::Red);
    f.set_pixel(319, 3, Palette::Orange);
    f.set_pixel(0, 4, Palette::White);
    f.set_pixel(5, 1, Palette::Lime);
    let spans = f.diff();
    assert_eq!(spans.len(), 3);
    assert_eq!(span_cols(&spans[0]), (1, 5, 1, 1));
    assert_eq!(span_cols(&spans[1]), (3, 318, 2, 2));
    assert_eq!(spans[1].colors, vec![Palette::Red.color(), Palette::Orange.color()]);
    assert_eq!(span_cols(&spans[2]), (4, 0, 1, 1));
}

#[test]
fn diff_touches_exactly_the_changed_pixels() {
    let mut f = settled(Palette::Black);
    let points = [(0, 0), (1, 0), (3, 0), (100, 50), (319, 239)];
    for (x, y) in points {
        f.set_pixel(x, y, Palette::Purple);
    }
    // Drawing the background colour changes nothing.
    f.set_pixel(200, 200, Palette::Black);
    let spans = f.diff();
    let mut touched = Vec::new();
    for s in &spans {
        for k in 0..s.length {
            touched.push((s.start_col as i32 + k as i32, s.row as i32));
        }
    }
    assert_eq!(touched, points.to_vec());
}

#[test]
fn span_diff_of_frame_against_itself_is_empty() {
    let mut f = Frugger::new(Palette::Green);
    f.set_pixel(10, 10, Palette::Red);
    let first = f.draw_frame();
    assert!(!first.is_empty());
    let mut frame = Frugger::new(Palette::Green);
    frame.set_pixel(10, 10, Palette::Red);
    // Diffing the drawn frame against an identical committed frame.
    frame.commit();
    frame.set_pixel(10, 10, Palette::Red);
    assert!(frame.diff().is_empty());
    let bytes = vec![0x5au8; 38400];
    assert!(diff_spans(&bytes, &bytes, false).is_empty());
    assert_eq!(diff_spans(&bytes, &bytes, true).len(), HEIGHT as usize);
}

#[test]
fn forced_full_redraw_covers_every_pixel() {
    let mut f = settled(Palette::Blue);
    assert!(f.diff().is_empty());
    f.clear_buffer();
    let spans = f.diff();
    assert_eq!(spans.len(), HEIGHT as usize);
    for (y, s) in spans.iter().enumerate() {
        assert_eq!(span_cols(s), (y as u16, 0, WIDTH, WIDTH as usize));
    }
    let fresh = Frugger::new(Palette::Red);
    let covered: usize = fresh.diff().iter().map(|s| s.length as usize).sum();
    assert_eq!(covered, 320 * 240);
}

#[test]
fn out_of_bounds_draw_changes_nothing() {
    let mut f = settled(Palette::Black);
    f.set_pixel(WIDTH as i32, 0, Palette::Red);
    f.set_pixel(0, HEIGHT as i32, Palette::Red);
    f.set_pixel(-1, 0, Palette::Red);
    f.set_pixel(0, -1, Palette::Red);
    f.write_pixel_value(320, 0, Palette::Red);
    assert!(f.diff().is_empty());
    for x in 0..WIDTH {
        assert_eq!(f.get_pixel_value_next(x, 0), Palette::Black);
    }
}

#[test]
fn draw_iter_keeps_last_write_and_drops_off_frame() {
    let mut f = settled(Palette::Black);
    let pixels = [
        Pixel { x: 2, y: 2, color: Palette::Red },
        Pixel { x: 400, y: 2, color: Palette::Red },
        Pixel { x: 2, y: 2, color: Palette::Teal },
        Pixel { x: 3, y: 2, color: Palette::Yellow },
    ];
    f.draw_iter(&pixels);
    assert_eq!(f.get_pixel_value_next(2, 2), Palette::Teal);
    assert_eq!(f.get_pixel_value_next(3, 2), Palette::Yellow);
    let spans = f.diff();
    assert_eq!(spans.len(), 1);
    assert_eq!(span_cols(&spans[0]), (2, 2, 2, 2));
}

#[test]
fn fill_contiguous_fills_row_major_and_clips() {
    let mut f = settled(Palette::Black);
    let colors = [Palette::Red, Palette::Green, Palette::Blue, Palette::White, Palette::Lime, Palette::Teal];
    f.fill_contiguous(318, 5, 3, 2, &colors);
    assert_eq!(f.get_pixel_value_next(318, 5), Palette::Red);
    assert_eq!(f.get_pixel_value_next(319, 5), Palette::Green);
    assert_eq!(f.get_pixel_value_next(318, 6), Palette::White);
    assert_eq!(f.get_pixel_value_next(319, 6), Palette::Lime);
    assert_eq!(f.get_pixel_value_next(317, 5), Palette::Black);
    let spans = f.diff();
    assert_eq!(spans.len(), 2);
    assert_eq!(span_cols(&spans[0]), (5, 318, 2, 2));
    assert_eq!(span_cols(&spans[1]), (6, 318, 2, 2));
    f.fill_contiguous(-1, -1, 2, 2, &colors[..4]);
    assert_eq!(f.get_pixel_value_next(0, 0), Palette::White);
}

#[test]
fn draw_frame_returns_diff_and_commits() {
    let mut f = settled(Palette::Black);
    f.set_pixel(7, 8, Palette::Orange);
    let spans = f.draw_frame();
    assert_eq!(spans.len(), 1);
    assert_eq!(span_cols(&spans[0]), (8, 7, 1, 1));
    assert_eq!(spans[0].colors[0], Palette::Orange.color());
    assert_eq!(f.get_pixel_value(7, 8), Some(Palette::Orange));
    assert_eq!(f.get_pixel_value_next(7, 8), Palette::Black);
    // The next frame redraws the pixel back to the background.
    let spans = f.draw_frame();
    assert_eq!(spans.len(), 1);
    assert_eq!(spans[0].colors[0], Palette::Black.color());
    assert!(f.draw_frame().is_empty());
}

fn assert_full_redraw(spans: &[Span]) {
    assert_eq!(spans.len(), HEIGHT as usize);
    for (y, s) in spans.iter().enumerate() {
        assert_eq!(span_cols(s), (y as u16, 0, WIDTH, WIDTH as usize));
    }
}

#[test]
fn forced_full_redraw_with_blue_grey_background() {
    let mut f = Frugger::new(Palette::BlueGrey);
    let spans = f.draw_frame();
    assert_full_redraw(&spans);
    assert!(spans[0].colors.iter().all(|c| *c == Palette::BlueGrey.color()));
    assert_eq!(f.get_pixel_value(0, 0), Some(Palette::BlueGrey));
    assert!(f.draw_frame().is_empty());
}

#[test]
fn clear_buffer_redraws_blue_grey_pixels() {
    let mut f = settled(Palette::Black);
    f.set_pixel(4, 4, Palette::BlueGrey);
    f.set_pixel(5, 4, Palette::BlueGrey);
    f.draw_frame();
    f.set_pixel(4, 4, Palette::BlueGrey);
    f.set_pixel(5, 4, Palette::BlueGrey);
    f.clear_buffer();
    assert_eq!(f.get_pixel_value(4, 4), None);
    let spans = f.draw_frame();
    assert_full_redraw(&spans);
    assert_eq!(spans[4].colors[4], Palette::BlueGrey.color());
    assert_eq!(spans[4].colors[5], Palette::BlueGrey.color());
    assert_eq!(spans[4].colors[6], Palette::Black.color());
}
