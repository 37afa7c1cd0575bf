use cogru::properties::Properties;

#[test]
fn parses_real_properties_text() {
    let text = b"cogru.Host=0.0.0.0\ncogru.Port=9000\ncogru.BufferSize=1024\n".to_vec();
    let prop = Properties::new(Some(&text));
    assert!(prop.read);
    assert_eq!(prop.get("cogru.Host"), Some(String::from("0.0.0.0")));
    assert_eq!(prop.get("cogru.Port"), Some(String::from("9000")));
    assert_eq!(prop.get("missing.key"), None);
    assert_eq!(prop.buf_size(), 1024);
}

#[test]
fn later_pairs_win() {
    let text = b"k=first\nk=second\n".to_vec();
    let prop = Properties::new(Some(&text));
    assert_eq!(prop.get("k"), Some(String::from("second")));
}

#[test]
fn defaults_when_no_file() {
    let prop = Properties::new(None);
    assert!(!prop.read);
    assert_eq!(prop.get("cogru.Host"), None);
    assert_eq!(prop.get_or_default("cogru.Host", "127.0.0.1"), "127.0.0.1");
    assert_eq!(prop.buf_size(), 8192);
}

#[test]
fn garbage_buffer_size_falls_back() {
    let text = b"cogru.BufferSize=enormous\n".to_vec();
    let prop = Properties::new(Some(&text));
    assert_eq!(prop.buf_size(), 8192);
}
