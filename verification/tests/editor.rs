use mf66::editor::{format_forth, Editor};

#[test]
fn typing_and_lines() {
    let mut e = Editor::new();
    e.insert_str("2 3 +");
    assert_eq!(e.text(), "2 3 +");
    assert_eq!(e.cursor(), (0, 5));
    e.newline();
    e.insert_str("dup");
    assert_eq!(e.line_count(), 2);
    assert_eq!(e.line(1), "dup");
    assert_eq!(e.cursor(), (1, 3));
}

#[test]
fn backspace_and_motion() {
    let mut e = Editor::new();
    e.insert_str("abc\ndef");
    e.move_up(); // → row 0, col 3 (goal 3)
    assert_eq!(e.cursor(), (0, 3));
    e.home();
    assert_eq!(e.cursor(), (0, 0));
    e.end();
    assert_eq!(e.cursor(), (0, 3));
    e.backspace();
    assert_eq!(e.line(0), "ab");
}

#[test]
fn format_reindents() {
    let src = ": sq dup * ;\n: f 0 if 1 else 2 then ;";
    let out = format_forth(src);
    // body of a definition / if-branch indents
    assert!(out.contains(": sq"), "{out}");
    assert!(out.lines().any(|l| l.starts_with("  ") && l.contains("dup")) || out.contains(": sq dup * ;"));
    // round-trips through the editor
    let mut e = Editor::new();
    e.set_text(src);
    e.format();
    assert_eq!(e.text(), out);
}

#[test]
fn file_roundtrip() {
    let mut e = Editor::new();
    e.insert_str(": greet 42 ;");
    assert!(e.dirty);
    e.save_as("/tmp/mf66_editor_test.f".to_string());
    e.mark_saved();
    assert!(!e.dirty);
    let saved = e.text();
    let mut e2 = Editor::new();
    e2.load("/tmp/mf66_editor_test.f".to_string(), &saved);
    assert_eq!(e2.text(), ": greet 42 ;");
    assert_eq!(e2.file_label(), "mf66_editor_test.f");
    assert!(!e2.dirty);
}

#[test]
fn a_new_editor_is_one_empty_line() {
    let e = Editor::new();
    assert_eq!(e.text(), "");
    assert_eq!(e.line_count(), 1);
    assert_eq!(e.cursor(), (0, 0));
    assert_eq!(e.file_label(), "untitled");
}

#[test]
fn backspace_undoes_a_typed_character() {
    let mut e = Editor::new();
    e.insert_str("1 2 +\n3");
    e.move_up();
    let before = e.text();
    let at = e.cursor();
    e.insert_char('x');
    assert_ne!(e.text(), before);
    e.backspace();
    assert_eq!(e.text(), before);
    assert_eq!(e.cursor(), at);
}

#[test]
fn backspace_at_line_start_joins_lines() {
    let mut e = Editor::new();
    e.insert_str("ab\ncd");
    e.home();
    e.backspace();
    assert_eq!(e.text(), "abcd");
    assert_eq!(e.cursor(), (0, 2));
    // nothing to delete at the very start
    e.home();
    e.backspace();
    assert_eq!(e.text(), "abcd");
}

#[test]
fn delete_forward_and_motion_edges() {
    let mut e = Editor::new();
    e.insert_str("xy");
    e.move_left();
    e.delete_forward();
    assert_eq!(e.text(), "x");
    e.delete_forward(); // at the end: nothing
    assert_eq!(e.text(), "x");
    e.move_right(); // at the end: stays
    assert_eq!(e.cursor(), (0, 1));
    e.move_down(); // last row: stays
    assert_eq!(e.cursor(), (0, 1));
}

#[test]
fn move_down_keeps_the_goal_column() {
    let mut e = Editor::new();
    e.insert_str("abcdef\nx\nabcdef");
    e.move_up();
    e.move_up();
    e.end();
    assert_eq!(e.cursor(), (0, 6));
    e.move_down();
    assert_eq!(e.cursor(), (1, 1)); // clamped to the short line
    e.move_down();
    assert_eq!(e.cursor(), (2, 6)); // the goal column comes back
}

#[test]
fn ensure_visible_scrolls_to_the_caret() {
    let mut e = Editor::new();
    e.insert_str("1\n2\n3\n4\n5\n6");
    e.ensure_visible(3);
    assert_eq!(e.top, 3);
    e.move_up();
    e.move_up();
    e.move_up();
    e.move_up();
    e.ensure_visible(3);
    assert_eq!(e.top, 1);
}

#[test]
fn format_indents_bodies_and_branches() {
    assert_eq!(format_forth(": f\n0 if\n1\nelse\n2\nthen ;"), ": f\n  0 if\n    1\n  else\n    2\n  then ;");
    assert_eq!(format_forth(""), "");
}

#[test]
fn format_keeps_comments_and_strings_as_they_stand() {
    assert_eq!(format_forth(": f ( a  b )\n1 ;"), ": f ( a  b )\n  1 ;");
    assert_eq!(format_forth("  1   2 \\ a   b  "), "1 2 \\ a   b");
    assert_eq!(format_forth("s\"  x  y\"   type"), "s\"  x  y\" type");
    assert_eq!(format_forth(".\" hi   there\"  cr"), ".\" hi   there\" cr");
    // an unclosed comment or string runs to the end of the line
    assert_eq!(format_forth("1  ( a   b"), "1 ( a   b");
    assert_eq!(format_forth("s\" a   b  "), "s\" a   b");
    // outside them, spacing collapses
    assert_eq!(format_forth("1    2  +"), "1 2 +");
}

#[test]
fn format_keeps_the_number_of_lines() {
    let src = ": f\n\n  1  ( a\n\n   b ) ;\n";
    let out = format_forth(src);
    assert_eq!(out.matches('\n').count(), src.matches('\n').count());
    assert_eq!(out, ": f\n\n  1 ( a\n\n  b ) ;\n");
}
