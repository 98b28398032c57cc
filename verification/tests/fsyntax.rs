use mf66::fsyntax::{highlight, Tag};

fn tags(line: &str) -> Vec<(String, Tag)> {
    highlight(line).into_iter().filter(|(s, _)| !s.trim().is_empty()).collect()
}

#[test]
fn colon_def_name_and_control() {
    let v = tags(": sq dup * ;");
    assert_eq!(v[0], (":".into(), Tag::Def));
    assert_eq!(v[1], ("sq".into(), Tag::Def)); // the name
    assert_eq!(v[2], ("dup".into(), Tag::Core));
    assert_eq!(v[3], ("*".into(), Tag::Core));
    assert_eq!(v[4], (";".into(), Tag::Def));
    let c = tags("0 if 1 else 2 then");
    assert!(c.iter().any(|(s, t)| s == "if" && *t == Tag::Control));
    assert!(c.iter().any(|(s, t)| s == "else" && *t == Tag::Control));
}

#[test]
fn numbers_strings_comments() {
    assert!(tags("42 0xFF -7 3.14 1e3").iter().all(|(_, t)| *t == Tag::Number));
    assert_eq!(tags(r#"s" hi there""#)[0].1, Tag::Str);
    let c = highlight(r#"1 2 \ a comment"#);
    assert!(c.iter().any(|(s, t)| s.contains("comment") && *t == Tag::Comment));
    let p = highlight("( stack: a b -- c ) +");
    assert!(p.iter().any(|(s, t)| s.contains("stack") && *t == Tag::Comment));
    assert!(p.iter().any(|(s, t)| s == "+" && *t == Tag::Core));
}

#[test]
fn spans_cover_the_line_exactly() {
    for line in [": sq dup * ;", "  x  \\ trailing", "( open comment", "s\" abc\" type", ""] {
        let spans = highlight(line);
        let joined: String = spans.iter().map(|(s, _)| s.as_str()).collect();
        assert_eq!(joined, line);
        assert!(spans.iter().all(|(s, _)| !s.is_empty()));
    }
}

#[test]
fn unknown_words_are_plain() {
    let v = tags("frobnicate");
    assert_eq!(v, vec![("frobnicate".to_string(), Tag::Normal)]);
}
