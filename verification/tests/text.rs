use openvoxel::text::{KeyCode, KeyEvent, SpecialKey, TextHistory, TextRecorder};

fn press(code: KeyCode) -> KeyEvent {
    KeyEvent { released: false, character: None, key_code: code }
}

fn typed(s: &str) -> KeyEvent {
    KeyEvent { released: false, character: Some(s.to_string()), key_code: KeyCode::Other }
}

#[test]
fn recorder_insert_and_cursor() {
    let mut t = TextRecorder::new();
    t.insert_str("helo");
    assert_eq!(t.read(), "helo");
    t.cursor_prev();
    t.insert('l');
    assert_eq!(t.read(), "hello");
    assert_eq!(t.len(), 5);
    assert_eq!(t.size(), 5);
    assert!(!t.is_at_end());
    t.go_to_end();
    assert!(t.is_at_end());
    assert_eq!(t.try_next(), None);
    t.go_to_home();
    assert_eq!(t.try_prev(), None);
    assert_eq!(t.try_next(), Some(1));
}

#[test]
fn recorder_backspace_and_delete() {
    let mut t = TextRecorder::new();
    t.set("abc".to_string());
    t.delete();
    assert_eq!(t.read(), "bc");
    t.backspace();
    assert_eq!(t.read(), "bc");
    t.go_to_end();
    t.backspace();
    assert_eq!(t.read(), "b");
    t.delete();
    assert_eq!(t.read(), "b");
}

#[test]
fn recorder_counts_characters_and_bytes() {
    let mut t = TextRecorder::new();
    t.insert_str("héllo");
    assert_eq!(t.len(), 5);
    assert_eq!(t.size(), 6);
}

#[test]
fn recorder_update_keys() {
    let mut t = TextRecorder::new();
    assert_eq!(t.update(&typed("hi")), None);
    assert_eq!(t.update(&press(KeyCode::Space)), None);
    assert_eq!(t.read(), "hi ");
    assert_eq!(t.update(&press(KeyCode::ArrowRight)), Some(SpecialKey::Autocomplete));
    assert_eq!(t.update(&press(KeyCode::Tab)), Some(SpecialKey::Autocomplete));
    assert_eq!(t.update(&press(KeyCode::Enter)), Some(SpecialKey::Submit));
    assert_eq!(t.update(&press(KeyCode::ArrowUp)), Some(SpecialKey::HistoryUp));
    assert_eq!(t.update(&press(KeyCode::ArrowDown)), Some(SpecialKey::HistoryDown));
    assert_eq!(t.update(&press(KeyCode::Other)), Some(SpecialKey::NoEffect));
    assert_eq!(t.update(&press(KeyCode::Backspace)), None);
    assert_eq!(t.read(), "hi");
    let released = KeyEvent { released: true, character: Some("x".to_string()), key_code: KeyCode::Other };
    assert_eq!(t.update(&released), None);
    assert_eq!(t.read(), "hi");
    assert_eq!(t.submit(), "hi".to_string());
    assert_eq!(t.read(), "");
}

#[test]
fn history_newest_first_with_limit() {
    let mut h = TextHistory::with_limit(2);
    assert_eq!(h.curr(), None);
    h.push("one".to_string());
    h.push("two".to_string());
    h.push("three".to_string());
    assert_eq!(h.curr(), Some("three"));
    assert_eq!(h.prev(), Some("three"));
    assert_eq!(h.prev(), Some("two"));
    assert_eq!(h.prev(), None);
    assert_eq!(h.curr(), Some("two"));
    h.go_to_start();
    assert_eq!(h.next(), None);
    h.clear();
    assert_eq!(h.curr(), None);
}
