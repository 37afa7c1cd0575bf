use cogru::user::{saturating_add, User};

fn user_at(point: isize) -> User {
    let mut u = User::new(String::from("alice"));
    u.update(Some(String::from("f.txt")), Some(point), None, None, None, None);
    u
}

#[test]
fn edit_at_cursor_shifts_it() {
    // The rule is `<=`: an edit exactly at the cursor moves the cursor.
    let mut u = user_at(10);
    u.move_by_delta(10, 3);
    assert_eq!(u.point, Some(13));
}

#[test]
fn edit_after_cursor_leaves_it() {
    let mut u = user_at(5);
    u.move_by_delta(7, 3);
    assert_eq!(u.point, Some(5));
}

#[test]
fn region_moves_with_cursor() {
    let mut u = User::new(String::from("bob"));
    u.update(Some(String::from("f.txt")), Some(10), Some(8), Some(12), None, None);
    u.move_by_delta(4, -2);
    assert_eq!(u.point, Some(8));
    assert_eq!(u.region_beg, Some(6));
    assert_eq!(u.region_end, Some(10));
}

#[test]
fn shift_round_trip_restores_cursor() {
    let mut u = user_at(42);
    u.move_by_delta(7, 5);
    u.move_by_delta(7, -5);
    assert_eq!(u.point, Some(42));
}

#[test]
fn missing_point_is_untouched() {
    let mut u = User::new(String::from("carol"));
    u.move_by_delta(0, 99);
    assert_eq!(u.point, None);
    assert_eq!(u.region_beg, None);
}

#[test]
fn saturating_add_clamps() {
    assert_eq!(saturating_add(isize::MAX, 1), isize::MAX);
    assert_eq!(saturating_add(isize::MIN, -1), isize::MIN);
    assert_eq!(saturating_add(40, 2), 42);
    assert_eq!(saturating_add(40, -2), 38);
}

#[test]
fn snapshot_copies_every_field() {
    let mut u = User::new(String::from("dave"));
    u.update(
        Some(String::from("g.txt")),
        Some(3),
        Some(1),
        Some(2),
        Some(String::from("#ff0000")),
        Some(String::from("#00ff00")),
    );
    let v = u.snapshot();
    assert_eq!(v.username, "dave");
    assert_eq!(v.path, Some(String::from("g.txt")));
    assert_eq!(v.point, Some(3));
    assert_eq!(v.region_beg, Some(1));
    assert_eq!(v.region_end, Some(2));
    assert_eq!(v.color_cursor, Some(String::from("#ff0000")));
    assert_eq!(v.color_region, Some(String::from("#00ff00")));
}
