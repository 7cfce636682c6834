use repodiet::input::{key_matches, map_key_to_intent, to_qwerty, Intent, Key, ViewMode};

#[test]
fn russian_layout_maps_to_qwerty() {
    assert_eq!(to_qwerty('й'), 'q');
    assert_eq!(to_qwerty('Д'), 'L');
    assert_eq!(to_qwerty('x'), 'x');
}

#[test]
fn keys_match_letters_in_any_layout() {
    assert!(key_matches(&Key::Char('q'), 'q'));
    assert!(key_matches(&Key::Char('Q'), 'q'));
    assert!(key_matches(&Key::Char('й'), 'q'));
    assert!(key_matches(&Key::Char('L'), 'L'));
    assert!(!key_matches(&Key::Char('l'), 'L'));
    assert!(!key_matches(&Key::Esc, 'q'));
}

#[test]
fn key_map_per_view() {
    assert_eq!(map_key_to_intent(&Key::Char('q'), ViewMode::Tree, true, true), Some(Intent::SearchChar('q')));
    assert_eq!(map_key_to_intent(&Key::Esc, ViewMode::Tree, true, true), Some(Intent::ShowTree));
    assert_eq!(map_key_to_intent(&Key::Char('q'), ViewMode::Tree, false, true), Some(Intent::Quit));
    assert_eq!(map_key_to_intent(&Key::Esc, ViewMode::Tree, false, true), Some(Intent::Quit));
    assert_eq!(map_key_to_intent(&Key::Esc, ViewMode::Tree, false, false), Some(Intent::Back));
    assert_eq!(map_key_to_intent(&Key::Char('/'), ViewMode::LargeBlobs, false, true), Some(Intent::EnterSearch));
    // 'l' matches either case, and is tried first.
    assert_eq!(map_key_to_intent(&Key::Char('L'), ViewMode::Tree, false, true), Some(Intent::Enter));
    assert_eq!(map_key_to_intent(&Key::Char('L'), ViewMode::ByExtension, false, true), Some(Intent::ShowLargeBlobs));
    assert_eq!(map_key_to_intent(&Key::Char('l'), ViewMode::Tree, false, true), Some(Intent::Enter));
    assert_eq!(map_key_to_intent(&Key::Char('l'), ViewMode::LargeBlobs, false, true), Some(Intent::ShowTree));
    assert_eq!(map_key_to_intent(&Key::Char('t'), ViewMode::ByExtension, false, true), Some(Intent::ShowTree));
    assert_eq!(map_key_to_intent(&Key::Other, ViewMode::ByExtension, false, true), None);
}
