use mf66::editor::format_forth;
use mf66::workspace::{
    Focus, Kind, Reaction, UiInput, Workspace, MOD_COMMAND, MOD_SHIFT, VK_BACK, VK_DOWN, VK_RETURN, VK_TAB,
    VK_UP,
};

fn ch(c: char) -> UiInput {
    UiInput::Char { ch: c, modifiers: 0 }
}
fn key(vk: u32) -> UiInput {
    UiInput::Key { virtual_key: vk, modifiers: 0 }
}
fn keymod(vk: u32, m: u32) -> UiInput {
    UiInput::Key { virtual_key: vk, modifiers: m }
}
fn log_texts(w: &Workspace) -> Vec<String> {
    w.log().iter().map(|l| l.text.clone()).collect()
}

#[test]
fn repl_typing_and_submit() {
    let mut w = Workspace::new();
    for c in "2 3 +".chars() {
        assert_eq!(w.on_event(ch(c)), Reaction::Nothing);
    }
    assert!(w.screen_text().contains("2 3 +"));
    assert_eq!(w.on_event(key(VK_RETURN)), Reaction::Submit("2 3 +".into()));
}

#[test]
fn tab_switches_focus_and_editor_types() {
    let mut w = Workspace::new();
    assert_eq!(w.focus, Focus::Repl);
    w.on_event(key(VK_TAB));
    assert_eq!(w.focus, Focus::Editor);
    // typing now edits the editor buffer
    w.editor.new_file();
    for c in "9 dup *".chars() {
        w.on_event(ch(c));
    }
    assert_eq!(w.editor.text(), "9 dup *");
    // ⌘⏎ evaluates the buffer
    assert_eq!(w.on_event(keymod(VK_RETURN, MOD_COMMAND)), Reaction::EvalBuffer("9 dup *".into()));
}

#[test]
fn record_renders_output_stack_and_ok() {
    let mut w = Workspace::new();
    w.record("2 3 + .".into(), Ok("5 ".into()), vec![], false);
    let t = log_texts(&w);
    assert!(t.iter().any(|s| s.contains("2 3 + .")));
    assert!(t.iter().any(|s| s == "5 "));
    assert!(t.iter().any(|s| s == "ok"));
    w.record("7 11".into(), Ok(String::new()), vec![11, 7], false);
    // the stack view lists the top first
    assert_eq!(w.stack(), &vec![11, 7]);
}

#[test]
fn editor_save_reaction() {
    let mut w = Workspace::new();
    w.on_event(key(VK_TAB)); // → editor
    assert_eq!(w.on_event(keymod(0x53, MOD_COMMAND)), Reaction::Save);
}

#[test]
fn a_new_workspace_opens_on_the_repl_with_a_sample() {
    let w = Workspace::new();
    assert_eq!(w.focus, Focus::Repl);
    assert_eq!(w.editor.text(), "\\ Edit Forth here, then ⌘⏎ to run.\n: sq dup * ;\n: quad sq sq ;\n");
    assert_eq!(log_texts(&w).len(), 1);
    assert_eq!(w.log()[0].kind, Kind::Note);
    assert_eq!(w.input_text(), "");
    assert!(!w.compiling());
}

#[test]
fn history_recalls_older_and_newer_commands() {
    let mut w = Workspace::new();
    for line in ["1", "2"] {
        for c in line.chars() {
            w.on_event(ch(c));
        }
        w.on_event(key(VK_RETURN));
    }
    // a blank line is submitted but not remembered
    w.on_event(ch(' '));
    assert_eq!(w.on_event(key(VK_RETURN)), Reaction::Submit(" ".into()));
    w.on_event(key(VK_UP));
    assert_eq!(w.input_text(), "2");
    w.on_event(key(VK_UP));
    assert_eq!(w.input_text(), "1");
    w.on_event(key(VK_UP)); // stays at the oldest
    assert_eq!(w.input_text(), "1");
    w.on_event(key(VK_DOWN));
    assert_eq!(w.input_text(), "2");
    w.on_event(key(VK_DOWN)); // past the newest: an empty line
    assert_eq!(w.input_text(), "");
    // backspace erases, control characters are not typed
    w.on_event(ch('x'));
    w.on_event(ch('\u{7}'));
    assert_eq!(w.input_text(), "x");
    w.on_event(key(VK_BACK));
    assert_eq!(w.input_text(), "");
}

#[test]
fn record_echoes_multi_line_input_and_errors() {
    let mut w = Workspace::new();
    w.record(": sq\ndup * ;".into(), Ok("a\n\nb".into()), vec![], true);
    let t = log_texts(&w);
    assert_eq!(t[1..].to_vec(), vec!["ok> : sq", "  … dup * ;", "a", "b"]);
    // the definition left compiling on: the next echo takes the continuation prompt
    w.record("x".into(), Err("boom".into()), vec![], false);
    let t = log_texts(&w);
    assert_eq!(t[5..].to_vec(), vec!["  … x", "\u{2717} boom"]);
    assert_eq!(w.log()[6].kind, Kind::Failure);
}

#[test]
fn the_log_keeps_its_newest_two_thousand_lines() {
    let mut w = Workspace::new();
    for i in 0..1100 {
        w.record(format!("{i}"), Ok(String::new()), vec![], false);
    }
    let t = log_texts(&w);
    assert_eq!(t.len(), 2000);
    assert_eq!(t[t.len() - 2], "ok> 1099");
    assert_eq!(t[t.len() - 1], "ok");
}

#[test]
fn screen_text_shows_editor_log_and_prompt() {
    let mut w = Workspace::new();
    w.editor.set_text("1 2");
    w.on_event(ch('7'));
    let s = w.screen_text();
    assert!(s.starts_with("── editor ──\n1 2\n── repl ──\n"));
    assert!(s.ends_with("\nok> 7"));
}

#[test]
fn command_shift_f_formats_the_editor() {
    let mut w = Workspace::new();
    w.on_event(key(VK_TAB));
    w.editor.set_text(": sq\ndup * ;");
    w.on_event(keymod(0x46, MOD_COMMAND | MOD_SHIFT));
    assert_eq!(w.editor.text(), format_forth(": sq\ndup * ;"));
    assert!(w.editor.text().contains("  dup"));
    // without shift, ⌘F does nothing
    w.editor.set_text("a   b");
    w.on_event(keymod(0x46, MOD_COMMAND));
    assert_eq!(w.editor.text(), "a   b");
}
