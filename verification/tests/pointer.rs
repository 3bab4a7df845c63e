use sch_gui::{abs_i128, desktop_step, Cursor};

#[test]
fn abs_of_values() {
    assert_eq!(abs_i128(5), 5);
    assert_eq!(abs_i128(-5), 5);
    assert_eq!(abs_i128(0), 0);
    assert_eq!(abs_i128(i128::MAX), i128::MAX);
    assert_eq!(abs_i128(-i128::MAX), i128::MAX);
}

#[test]
fn cursor_starts_at_screen_centre() {
    let c = Cursor::centered(1025, 768);
    assert_eq!((c.x, c.y), (512, 384));
}

#[test]
fn cursor_is_drawn_at_absolute_coordinates() {
    let c = Cursor { x: -40, y: 7 };
    assert_eq!(c.position(), (40, 7));
    let far = Cursor { x: (1i128 << 64) + 3, y: -((1i128 << 64) + 9) };
    assert_eq!(far.position(), (3, 9));
}

#[test]
fn cursor_moves_by_movement_over_resolution_twice() {
    let mut c = Cursor { x: 10, y: -5 };
    c.follow([-7, 9, 100], [2, 4, 0]);
    assert_eq!((c.x, c.y), (4, -1));
    c.follow([3, -3, 0], [4, 4, 4]);
    assert_eq!((c.x, c.y), (4, -1));
}

#[test]
fn desktop_frame_draws_cursor_before_it_moves() {
    let mut c = Cursor { x: -20, y: 30 };
    let frame = desktop_step(&mut c, 25, 4, 9, [4, 2, 1], Some([8, -6, 0]));
    assert_eq!((frame.cursor_x, frame.cursor_y), (20, 30));
    assert_eq!(frame.clock, "01:04:09");
    assert_eq!(frame.resolution, "4,2,1");
    assert_eq!(frame.movement.as_deref(), Some("8,-6,0"));
    assert_eq!((c.x, c.y), (-16, 24));
}

#[test]
fn desktop_frame_without_pointer_state_keeps_cursor() {
    let mut c = Cursor { x: 5, y: 6 };
    let frame = desktop_step(&mut c, 12, 30, 0, [0, 0, 0], None);
    assert!(frame.movement.is_none());
    assert_eq!(frame.resolution, "0,0,0");
    assert_eq!((c.x, c.y), (5, 6));
    assert_eq!((frame.cursor_x, frame.cursor_y), (5, 6));
}

#[test]
fn cursor_can_follow_only_with_resolution_and_room() {
    let c = Cursor { x: 0, y: 0 };
    assert!(c.can_follow([1, 1, 1], [1, 1, 0]));
    assert!(!c.can_follow([1, 1, 1], [0, 1, 1]));
    assert!(!c.can_follow([1, 1, 1], [1, 0, 1]));
    let edge = Cursor { x: i128::MAX - 1, y: 0 };
    assert!(edge.can_follow([1, 0, 0], [2, 1, 1]));
    assert!(!edge.can_follow([2, 0, 0], [2, 1, 1]));
}
