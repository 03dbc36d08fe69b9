use wm::{PendingSync, Rect};

#[test]
fn rect_from_corner_and_size() {
    let r = Rect::from_xy(10, 20, 300, 400);
    assert_eq!(r, Rect::from_ltrb(10, 20, 310, 420));
    assert_eq!(r.x(), 10);
    assert_eq!(r.y(), 20);
    assert_eq!(r.width(), 300);
    assert_eq!(r.height(), 400);
}

#[test]
fn rect_translate_keeps_the_size() {
    let r = Rect::from_xy(10, 20, 300, 400).translate_to_coordinates(-5, 7);
    assert_eq!(r, Rect::from_ltrb(-5, 7, 295, 407));
}

#[test]
fn rect_center_in_a_rotated_monitor() {
    let placement = Rect::from_xy(100, 100, 300, 300);
    let outer = Rect::from_xy(1920, 0, 1080, 1920);
    assert_eq!(placement.translate_to_center(&outer), Rect::from_xy(2310, 810, 300, 300));
}

#[test]
fn rect_center_rounds_halves_down() {
    let placement = Rect::from_xy(0, 0, 5, 3);
    let outer = Rect::from_xy(0, 0, 10, 10);
    assert_eq!(placement.translate_to_center(&outer), Rect::from_ltrb(3, 4, 8, 7));
}

#[test]
fn rect_center_of_a_window_larger_than_the_monitor() {
    let placement = Rect::from_xy(0, 0, 200, 100);
    let outer = Rect::from_xy(-100, -100, 100, 100);
    assert_eq!(placement.translate_to_center(&outer), Rect::from_ltrb(-150, -100, 50, 0));
}

#[test]
fn rect_union_is_the_bounding_rectangle() {
    let a = Rect::from_ltrb(0, 0, 10, 10);
    let b = Rect::from_ltrb(-5, 3, 4, 20);
    assert_eq!(a.union(&b), Rect::from_ltrb(-5, 0, 10, 20));
    assert_eq!(b.union(&a), Rect::from_ltrb(-5, 0, 10, 20));
}

#[test]
fn rect_limits_are_checked() {
    assert!(Rect::from_ltrb(0, 0, 1920, 1080).check_fits_screen());
    assert!(!Rect::from_ltrb(10, 0, 0, 1080).check_fits_screen());
    assert!(!Rect::from_ltrb(0, 0, 300_000_000, 10).check_fits_screen());
    assert!(Rect::from_ltrb(i32::MAX - 10, 0, i32::MAX, 10).check_bounded_size());
    assert!(!Rect::from_ltrb(i32::MIN, 0, i32::MAX, 10).check_bounded_size());
    assert!(!Rect::from_ltrb(10, 0, 0, 10).check_bounded_size());
}

#[test]
fn queue_coalesces_and_keeps_order() {
    let mut queue = PendingSync::new();
    assert!(queue.is_empty());
    queue.queue_container_to_redraw(7);
    queue.queue_container_to_redraw(3);
    queue.queue_container_to_redraw(7);
    queue.queue_container_to_redraw(5);
    queue.queue_container_to_redraw(3);
    assert_eq!(queue.containers_to_redraw(), &vec![7, 3, 5]);
    assert!(!queue.has_cursor_jump());
    queue.queue_cursor_jump();
    queue.queue_cursor_jump();
    assert!(queue.has_cursor_jump());
    let drained = queue.drain();
    assert_eq!(drained.containers_to_redraw(), &vec![7, 3, 5]);
    assert!(drained.has_cursor_jump());
    assert!(queue.is_empty());
    queue.queue_container_to_redraw(1);
    queue.clear();
    assert!(queue.is_empty());
}
