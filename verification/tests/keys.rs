use mf66::keys::map_key;

#[test]
fn named_keys() {
    assert_eq!(map_key("Enter"), Some((0x0D, 0)));
    assert_eq!(map_key("Return"), Some((0x0D, 0)));
    assert_eq!(map_key("Backspace"), Some((0x08, 0)));
    assert_eq!(map_key("Tab"), Some((0x09, 0)));
    assert_eq!(map_key("Escape"), Some((0x1B, 0)));
    assert_eq!(map_key("Left"), Some((0x25, 0)));
    assert_eq!(map_key("Up"), Some((0x26, 0)));
    assert_eq!(map_key("Right"), Some((0x27, 0)));
    assert_eq!(map_key("Down"), Some((0x28, 0)));
    assert_eq!(map_key("Home"), Some((0x24, 0)));
    assert_eq!(map_key("End"), Some((0x23, 0)));
    assert_eq!(map_key("Delete"), Some((0x2E, 0)));
}

#[test]
fn modifiers_accumulate() {
    assert_eq!(map_key("Shift+Tab"), Some((0x09, 1)));
    assert_eq!(map_key("Ctrl+s"), Some((b'S' as u32, 2)));
    assert_eq!(map_key("Control+s"), Some((b'S' as u32, 2)));
    assert_eq!(map_key("Alt+x"), Some((b'X' as u32, 4)));
    assert_eq!(map_key("Cmd+Shift+z"), Some((b'Z' as u32, 9)));
    assert_eq!(map_key("Command+Alt+Ctrl+Shift+Left"), Some((0x25, 15)));
}

#[test]
fn single_characters_upper_case_ascii() {
    assert_eq!(map_key("a"), Some((b'A' as u32, 0)));
    assert_eq!(map_key("7"), Some((b'7' as u32, 0)));
    assert_eq!(map_key("é"), Some(('é' as u32, 0)));
}

#[test]
fn unknown_names_are_none() {
    assert_eq!(map_key("Foo"), None);
    assert_eq!(map_key(""), None);
    assert_eq!(map_key("Shift+"), None);
}
