use frugger::onebit::{diff_pixels, ONEBIT_PIXELS};
use frugger::{BinaryColor, OneBit, Orientation, Pixel};

fn settled(o: Orientation) -> OneBit {
    let mut f = OneBit::new(o);
    f.commit();
    f
}

fn positions(updates: &[Pixel<BinaryColor>]) -> Vec<(i32, i32)> {
    updates.iter().map(|p| (p.x, p.y)).collect()
}

#[test]
fn dimensions_follow_orientation() {
    let mut f = OneBit::new(Orientation::Landscape);
    assert_eq!(f.bounding_box(), (128, 64));
    f.set_orientation(Orientation::Portrait);
    assert_eq!(f.bounding_box(), (64, 128));
    assert_eq!(f.get_orientation(), Orientation::Portrait);
}

#[test]
fn set_then_get_round_trip() {
    let mut f = OneBit::new(Orientation::Portrait);
    f.set_pixel(63, 127, BinaryColor::On);
    assert_eq!(f.get_pixel_value_next(63, 127), BinaryColor::On);
    assert_eq!(f.get_pixel_value_next(62, 127), BinaryColor::Off);
    f.set_pixel(63, 127, BinaryColor::Off);
    assert_eq!(f.get_pixel_value_next(63, 127), BinaryColor::Off);
}

#[test]
fn first_frame_redraws_everything() {
    let mut f = OneBit::new(Orientation::Landscape);
    assert_eq!(f.get_pixel_value(0, 0), None);
    let updates = f.draw_frame();
    assert_eq!(updates.len(), ONEBIT_PIXELS);
    assert_eq!((updates[0].x, updates[0].y), (0, 0));
    assert_eq!((updates[129].x, updates[129].y), (1, 1));
    assert_eq!((updates[8191].x, updates[8191].y), (127, 63));
    assert!(updates.iter().all(|p| p.color == BinaryColor::Off));
    assert_eq!(f.get_pixel_value(5, 5), Some(BinaryColor::Off));
    assert!(f.draw_frame().is_empty());
}

#[test]
fn pixel_diff_lists_changed_pixels_in_row_major_order() {
    let mut f = settled(Orientation::Portrait);
    f.set_pixel(10, 100, BinaryColor::On);
    f.set_pixel(3, 2, BinaryColor::On);
    f.set_pixel(4, 2, BinaryColor::Off);
    f.set_pixel(64, 0, BinaryColor::On);
    let updates = f.diff();
    assert_eq!(positions(&updates), vec![(3, 2), (10, 100)]);
    assert!(updates.iter().all(|p| p.color == BinaryColor::On));
}

#[test]
fn commit_copies_and_clears() {
    let mut f = settled(Orientation::Landscape);
    f.set_pixel(1, 1, BinaryColor::On);
    f.commit();
    assert_eq!(f.get_pixel_value(1, 1), Some(BinaryColor::On));
    assert_eq!(f.get_pixel_value(2, 1), Some(BinaryColor::Off));
    assert_eq!(f.get_pixel_value_next(1, 1), BinaryColor::Off);
    let updates = f.draw_frame();
    assert_eq!(positions(&updates), vec![(1, 1)]);
    assert_eq!(updates[0].color, BinaryColor::Off);
}

#[test]
fn clear_buffer_forces_full_redraw() {
    let mut f = settled(Orientation::Portrait);
    assert!(f.diff().is_empty());
    f.clear_buffer();
    let updates = f.diff();
    assert_eq!(updates.len(), 64 * 128);
    assert_eq!((updates[64].x, updates[64].y), (0, 1));
}

#[test]
fn out_of_bounds_draw_is_dropped() {
    let mut f = settled(Orientation::Landscape);
    f.set_pixel(128, 0, BinaryColor::On);
    f.set_pixel(0, 64, BinaryColor::On);
    f.set_pixel(-1, 3, BinaryColor::On);
    assert!(f.diff().is_empty());
}

#[test]
fn draw_iter_and_fill_contiguous() {
    let mut f = settled(Orientation::Landscape);
    f.draw_iter(&[
        Pixel { x: 0, y: 0, color: BinaryColor::On },
        Pixel { x: 0, y: 0, color: BinaryColor::Off },
        Pixel { x: 9, y: 9, color: BinaryColor::On },
    ]);
    assert_eq!(positions(&f.diff()), vec![(9, 9)]);
    let colors = [BinaryColor::On, BinaryColor::Off, BinaryColor::On, BinaryColor::On];
    f.fill_contiguous(127, 63, 2, 2, &colors);
    assert_eq!(f.get_pixel_value_next(127, 63), BinaryColor::On);
    assert_eq!(positions(&f.diff()), vec![(9, 9), (127, 63)]);
}

#[test]
fn pixel_diff_of_frame_against_itself_is_empty() {
    let frame = vec![1u8; ONEBIT_PIXELS];
    assert!(diff_pixels(&frame, &frame, 128).is_empty());
    assert!(diff_pixels(&frame, &frame, 64).is_empty());
}
