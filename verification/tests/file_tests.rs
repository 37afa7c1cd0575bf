use cogru::file::File;

fn plain_file(contents: &str) -> File {
    File::new(
        String::from("/srv/room/f.txt"),
        String::from("f.txt"),
        false,
        String::from(contents),
    )
}

#[test]
fn new_file_holds_contents() {
    let f = plain_file("hello world");
    assert_eq!(f.buffer(), "hello world");
    assert_eq!(f.relative_path(), "f.txt");
    assert_eq!(f.path(), "/srv/room/f.txt");
}

#[test]
fn lf_file_normalizes_on_load() {
    let f = File::new(
        String::from("/srv/room/f.txt"),
        String::from("f.txt"),
        true,
        String::from("a\r\nb\rc"),
    );
    assert_eq!(f.buffer(), "a\nb\nc");
}

#[test]
fn update_add_splices_at_byte_offset() {
    let mut f = plain_file("hello");
    assert!(f.update(&String::from("add"), 2, 0, &String::from("XX")));
    assert_eq!(f.buffer(), "heXXllo");
}

#[test]
fn update_delete_removes_byte_range() {
    let mut f = plain_file("hello world");
    assert!(f.update(&String::from("delete"), 5, 11, &String::new()));
    assert_eq!(f.buffer(), "hello");
}

#[test]
fn add_then_delete_restores_text() {
    // The edit round trip: inserting and then deleting the inserted range
    // leaves the rope bit-identical.
    let mut f = plain_file("collaboration");
    assert!(f.update(&String::from("add"), 5, 0, &String::from("XYZ")));
    assert!(f.update(&String::from("delete"), 5, 8, &String::new()));
    assert_eq!(f.buffer(), "collaboration");
}

#[test]
fn off_boundary_edit_is_refused() {
    // 'é' is two bytes; offset 2 falls inside it.
    let mut f = plain_file("h\u{e9}llo");
    assert!(!f.update(&String::from("add"), 2, 0, &String::from("x")));
    assert_eq!(f.buffer(), "h\u{e9}llo");
}

#[test]
fn out_of_range_edit_is_refused() {
    let mut f = plain_file("abc");
    assert!(!f.update(&String::from("add"), 9, 0, &String::from("x")));
    assert!(!f.update(&String::from("delete"), 2, 1, &String::new()));
    assert_eq!(f.buffer(), "abc");
}

#[test]
fn unknown_operation_is_refused() {
    let mut f = plain_file("abc");
    assert!(!f.update(&String::from("replace"), 0, 1, &String::from("x")));
    assert_eq!(f.buffer(), "abc");
}
