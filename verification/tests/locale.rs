use openvoxel::locale::Locale;

#[test]
fn locale_falls_back_to_label() {
    let mut locale = Locale::default();
    assert_eq!(locale.get("menu.play"), "menu.play");
    locale.insert("menu.play".to_string(), "Play".to_string());
    locale.insert("menu.quit".to_string(), "Quit".to_string());
    assert_eq!(locale.get("menu.play"), "Play");
    assert_eq!(locale.get("menu.quit"), "Quit");
    assert_eq!(locale.get("menu.other"), "menu.other");
    // a later entry replaces an earlier one
    locale.insert("menu.play".to_string(), "Start".to_string());
    assert_eq!(locale.get("menu.play"), "Start");
}
