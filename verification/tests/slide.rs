use matrix_frames::image_matrix::ImageSequence;
use matrix_frames::Direction;
use matrix_frames::SlideAnimation;

fn lit_pixels(s: &ImageSequence, idx: usize) -> Vec<(usize, usize)> {
    s.iter_pixels(idx)
        .expect("frame exists")
        .into_iter()
        .filter(|&(_, _, v)| v)
        .map(|(x, y, _)| (x, y))
        .collect()
}

#[test]
fn slide_out_right_walks_a_pixel_off_the_grid() {
    // 8 x 8 px grid, single frame, pixel (0, 0) lit.
    let mut s = ImageSequence::new(1, 1);
    s.set(0, 0, 0, true);
    s.slide(0, Direction::Right, SlideAnimation::SlideOut);
    assert_eq!(s.get_frame_count(), 8);
    // Offset 0 is the unmodified source.
    assert_eq!(lit_pixels(&s, 0), vec![(0, 0)]);
    // Offset 1 has the pixel one step to the right.
    assert_eq!(s.get(1, 0, 1), Some(true));
    assert_eq!(s.get(0, 0, 1), Some(false));
    // Every offset shifts by exactly that many pixels; the largest shift
    // on an 8 px axis is 7, which leaves the pixel on the last column.
    for i in 0..8 {
        assert_eq!(lit_pixels(&s, i), vec![(i, 0)]);
    }
}

#[test]
fn slide_in_right_arrives_on_the_last_frame() {
    let mut s = ImageSequence::new(1, 1);
    s.set(0, 3, 0, true);
    s.slide(0, Direction::Right, SlideAnimation::SlideIn);
    assert_eq!(s.get_frame_count(), 8);
    // The final offset carries zero shift: it equals the source.
    assert_eq!(lit_pixels(&s, 7), vec![(0, 3)]);
    // Offset i carries the pixel displaced by 7 - i along the step vector.
    for i in 0..8 {
        assert_eq!(lit_pixels(&s, i), vec![(7 - i, 3)]);
    }
}

#[test]
fn slide_in_clips_content_pushed_over_the_edge() {
    let mut s = ImageSequence::new(1, 1);
    s.set(7, 0, 0, true);
    s.slide(0, Direction::Right, SlideAnimation::SlideIn);
    // Shift 7 - i pushes the pixel at x = 7 off an 8 px grid until the
    // shift reaches zero on the last frame.
    for i in 0..7 {
        assert_eq!(lit_pixels(&s, i), vec![]);
    }
    assert_eq!(lit_pixels(&s, 7), vec![(7, 0)]);
}

#[test]
fn slide_axis_follows_the_direction() {
    // 2 x 1 units: 16 px wide, 8 px tall.
    let mut s = ImageSequence::new(2, 1);
    s.slide(0, Direction::Left, SlideAnimation::SlideOut);
    assert_eq!(s.get_frame_count(), 16);

    let mut t = ImageSequence::new(2, 1);
    t.slide(0, Direction::Top, SlideAnimation::SlideOut);
    assert_eq!(t.get_frame_count(), 8);
}

#[test]
fn slide_directions_move_along_their_step_vectors() {
    for (direction, expected) in [
        (Direction::Top, (3usize, 2usize)),
        (Direction::Left, (2, 3)),
        (Direction::Bottom, (3, 4)),
        (Direction::Right, (4, 3)),
    ] {
        let mut s = ImageSequence::new(1, 1);
        s.set(3, 3, 0, true);
        s.slide(0, direction, SlideAnimation::SlideOut);
        assert_eq!(lit_pixels(&s, 0), vec![(3, 3)]);
        assert_eq!(lit_pixels(&s, 1), vec![expected]);
    }
}

#[test]
fn slide_leaves_surrounding_frames_untouched() {
    let mut s = ImageSequence::new(1, 1);
    s.set(0, 0, 0, true);
    s.add_frame();
    s.set(1, 1, 1, true);
    s.add_frame();
    s.set(2, 2, 2, true);
    s.slide(1, Direction::Right, SlideAnimation::SlideOut);
    assert_eq!(s.get_frame_count(), 2 + 8);
    assert_eq!(lit_pixels(&s, 0), vec![(0, 0)]);
    assert_eq!(lit_pixels(&s, 9), vec![(2, 2)]);
    assert_eq!(lit_pixels(&s, 1), vec![(1, 1)]);
}

#[test]
fn slide_frames_derive_from_the_snapshot_independently() {
    // Two lit pixels: one clips away while the other keeps moving, which
    // only holds when each output frame is computed from the snapshot.
    let mut s = ImageSequence::new(1, 1);
    s.set(6, 0, 0, true);
    s.set(1, 0, 0, true);
    s.slide(0, Direction::Right, SlideAnimation::SlideOut);
    assert_eq!(lit_pixels(&s, 0), vec![(1, 0), (6, 0)]);
    assert_eq!(lit_pixels(&s, 1), vec![(2, 0), (7, 0)]);
    assert_eq!(lit_pixels(&s, 2), vec![(3, 0)]);
    assert_eq!(lit_pixels(&s, 6), vec![(7, 0)]);
    assert_eq!(lit_pixels(&s, 7), vec![]);
}

#[test]
fn largest_grid_slides_whole_axis() {
    let mut s = ImageSequence::new(8, 8);
    s.set(0, 0, 0, true);
    s.slide(0, Direction::Bottom, SlideAnimation::SlideOut);
    assert_eq!(s.get_frame_count(), 64);
    assert_eq!(lit_pixels(&s, 63), vec![(0, 63)]);
}

#[test]
fn direction_and_animation_enumerations() {
    assert_eq!(Direction::iter().len(), 4);
    assert_eq!(SlideAnimation::iter().len(), 2);
    assert_eq!(Direction::Top.label(), "Top");
    assert_eq!(Direction::Left.label(), "Left");
    assert_eq!(Direction::Bottom.label(), "Bottom");
    assert_eq!(Direction::Right.label(), "Right");
    assert_eq!(SlideAnimation::SlideIn.label(), "Slide in");
    assert_eq!(SlideAnimation::SlideOut.label(), "Slide out");
}
