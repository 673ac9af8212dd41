use matrix_frames::image_matrix::ImageSequence;

fn pixel(s: &ImageSequence, x: usize, y: usize, idx: usize) -> bool {
    s.get(x, y, idx).expect("pixel in range")
}

fn frame_pixels(s: &ImageSequence, idx: usize) -> Vec<bool> {
    s.get_frame(idx).expect("frame in range").clone()
}

#[test]
fn fresh_store_has_one_blank_frame_of_derived_size() {
    for w in 1..=8u8 {
        for h in 1..=8u8 {
            let s = ImageSequence::new(w, h);
            assert_eq!(s.get_frame_count(), 1);
            let dims = s.get_dimensions_pixels();
            assert_eq!(dims[0], usize::from(w) * 8);
            assert_eq!(dims[1], usize::from(h) * 8);
            let frame = frame_pixels(&s, 0);
            assert_eq!(frame.len(), dims[0] * dims[1]);
            assert!(frame.iter().all(|&p| !p));
        }
    }
}

#[test]
fn get_and_set_are_bounds_checked() {
    let mut s = ImageSequence::new(2, 1);
    assert_eq!(s.get(0, 0, 0), Some(false));
    assert!(s.set(3, 5, 0, true));
    assert_eq!(s.get(3, 5, 0), Some(true));
    // x, y and frame index out of range each yield an absent result.
    assert_eq!(s.get(16, 0, 0), None);
    assert_eq!(s.get(0, 8, 0), None);
    assert_eq!(s.get(0, 0, 1), None);
    assert!(!s.set(16, 0, 0, true));
    assert!(!s.set(0, 8, 0, true));
    assert!(!s.set(0, 0, 1, true));
    // The failed writes changed nothing.
    assert_eq!(s.get_frame_count(), 1);
    assert_eq!(s.get(3, 5, 0), Some(true));
}

#[test]
fn row_major_addressing() {
    let mut s = ImageSequence::new(2, 1);
    // width is 16 px, so (x, y) = (3, 2) is flat index 2 * 16 + 3 = 35.
    assert!(s.set(3, 2, 0, true));
    let frame = frame_pixels(&s, 0);
    assert!(frame[35]);
    assert_eq!(frame.iter().filter(|&&p| p).count(), 1);
}

#[test]
fn add_frame_appends_blank() {
    let mut s = ImageSequence::new(1, 1);
    s.set(0, 0, 0, true);
    s.add_frame();
    assert_eq!(s.get_frame_count(), 2);
    assert!(pixel(&s, 0, 0, 0));
    assert!(frame_pixels(&s, 1).iter().all(|&p| !p));
}

#[test]
fn insert_then_delete_restores_sequence() {
    let mut s = ImageSequence::new(1, 1);
    s.set(0, 0, 0, true);
    s.add_frame();
    s.set(7, 7, 1, true);
    let before: Vec<Vec<bool>> = s.iter_frames().clone();
    s.insert_frame(1);
    assert_eq!(s.get_frame_count(), 3);
    assert!(frame_pixels(&s, 1).iter().all(|&p| !p));
    s.delete_frame(1);
    assert_eq!(s.get_frame_count(), 2);
    assert_eq!(s.iter_frames(), &before);
}

#[test]
fn insert_at_frame_count_appends() {
    let mut s = ImageSequence::new(1, 1);
    s.set(0, 0, 0, true);
    s.insert_frame(1);
    assert_eq!(s.get_frame_count(), 2);
    assert!(pixel(&s, 0, 0, 0));
    assert!(frame_pixels(&s, 1).iter().all(|&p| !p));
}

#[test]
fn duplicate_frame_copies_pixels_and_adds_one() {
    let mut s = ImageSequence::new(2, 2);
    s.set(1, 2, 0, true);
    s.set(15, 15, 0, true);
    s.add_frame();
    s.set(0, 0, 1, true);
    s.duplicate_frame(0);
    assert_eq!(s.get_frame_count(), 3);
    assert_eq!(frame_pixels(&s, 0), frame_pixels(&s, 1));
    assert!(pixel(&s, 0, 0, 2));
}

#[test]
fn move_up_and_move_down_are_inverses() {
    let mut s = ImageSequence::new(1, 1);
    s.set(0, 0, 0, true);
    s.add_frame();
    s.set(1, 1, 1, true);
    let before: Vec<Vec<bool>> = s.iter_frames().clone();
    assert!(s.move_up(1));
    assert!(pixel(&s, 1, 1, 0));
    assert!(pixel(&s, 0, 0, 1));
    assert!(s.move_down(0));
    assert_eq!(s.iter_frames(), &before);
}

#[test]
fn moves_fail_at_the_sequence_boundaries() {
    let mut s = ImageSequence::new(1, 1);
    s.set(0, 0, 0, true);
    s.add_frame();
    let before: Vec<Vec<bool>> = s.iter_frames().clone();
    assert!(!s.move_up(0));
    assert!(!s.move_down(1));
    assert_eq!(s.iter_frames(), &before);
}

#[test]
fn delete_frame_can_empty_the_store() {
    let mut s = ImageSequence::new(1, 1);
    s.delete_frame(0);
    assert_eq!(s.get_frame_count(), 0);
    s.add_frame();
    assert_eq!(s.get_frame_count(), 1);
}

#[test]
fn clear_frame_blanks_in_place() {
    let mut s = ImageSequence::new(1, 1);
    for x in 0..8 {
        s.set(x, x, 0, true);
    }
    s.add_frame();
    s.set(2, 2, 1, true);
    s.clear_frame(0);
    assert!(frame_pixels(&s, 0).iter().all(|&p| !p));
    assert!(pixel(&s, 2, 2, 1));
}

#[test]
fn set_frame_replaces_pixels_only_when_sized_right() {
    let mut s = ImageSequence::new(1, 1);
    let mut pixels = vec![false; 64];
    pixels[5] = true;
    assert!(s.set_frame(0, pixels.clone()));
    assert_eq!(frame_pixels(&s, 0), pixels);
    assert!(!s.set_frame(0, vec![true; 63]));
    assert!(!s.set_frame(1, vec![false; 64]));
    assert_eq!(frame_pixels(&s, 0), pixels);
}

#[test]
fn iter_pixels_yields_row_major_triples() {
    let mut s = ImageSequence::new(2, 1);
    s.set(3, 1, 0, true);
    let triples = s.iter_pixels(0).expect("frame exists");
    assert_eq!(triples.len(), 16 * 8);
    for (k, &(x, y, v)) in triples.iter().enumerate() {
        assert_eq!(x, k % 16);
        assert_eq!(y, k / 16);
        assert_eq!(v, k == 16 + 3);
    }
    assert!(s.iter_pixels(1).is_none());
}

#[test]
fn out_of_range_frame_reads_are_absent() {
    let s = ImageSequence::new(1, 1);
    assert!(s.get_frame(1).is_none());
    assert!(s.get_frame(0).is_some());
}
