use cogru::util::{normalize_le, parse_u64, starts_with, str_eq, strip_prefix, to_slash};

#[test]
fn to_slash_replaces_backslashes() {
    assert_eq!(to_slash(&String::from("C:\\work\\proj")), "C:/work/proj");
    assert_eq!(to_slash(&String::from("/already/fine")), "/already/fine");
}

#[test]
fn normalize_le_rewrites_cr_and_crlf() {
    // Runs the real line-ending crate: every \r\n pair and lone \r becomes \n.
    let input = String::from("This is a string \n with \r some \n\r\n random newlines\r\r\n\n");
    assert_eq!(
        normalize_le(&input),
        "This is a string \n with \n some \n\n random newlines\n\n\n"
    );
}

#[test]
fn parse_u64_happy_and_sad() {
    assert_eq!(parse_u64(Some(String::from("8786"))), Some(8786));
    assert_eq!(parse_u64(Some(String::from("0"))), Some(0));
    assert_eq!(parse_u64(Some(String::from("18446744073709551615"))), Some(u64::MAX));
    assert_eq!(parse_u64(Some(String::from("18446744073709551616"))), None);
    assert_eq!(parse_u64(Some(String::from(""))), None);
    assert_eq!(parse_u64(Some(String::from("12a"))), None);
    assert_eq!(parse_u64(None), None);
}

#[test]
fn prefix_helpers() {
    let root = String::from("/home/a/proj/");
    let inside = String::from("/home/a/proj/src/f.txt");
    let outside = String::from("/home/b/other/f.txt");
    assert!(starts_with(&inside, &root));
    assert!(!starts_with(&outside, &root));
    assert_eq!(strip_prefix(&inside, &root), "src/f.txt");
}

#[test]
fn str_eq_compares_by_characters() {
    assert!(str_eq(&String::from("add"), "add"));
    assert!(!str_eq(&String::from("add"), "delete"));
    assert!(!str_eq(&String::from("ad"), "add"));
}
