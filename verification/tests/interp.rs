use mf66::interp::{
    read_locals_decl, skip_else_branch, skip_false_branch, skip_paren_comment, split_words, string_literal,
    word_is,
};

fn ws(text: &str) -> Vec<String> {
    split_words(text)
}

#[test]
fn words_split_on_any_whitespace() {
    assert_eq!(ws("  2 3\t+\n. "), vec!["2", "3", "+", "."]);
    assert!(ws("   ").is_empty());
    assert_eq!(ws(": sq dup * ;").len(), 5);
}

#[test]
fn words_compare_case_insensitively() {
    let w = ws("[IF] [Then] dup");
    assert!(word_is(&w[0], "[if]"));
    assert!(word_is(&w[1], "[then]"));
    assert!(!word_is(&w[2], "drop"));
    assert!(!word_is(&w[2], "dupe"));
}

#[test]
fn paren_comments_end_at_a_closing_word() {
    let w = ws("( a b -- c ) +");
    assert_eq!(skip_paren_comment(&w, 1), 6);
    assert_eq!(w[6], "+");
    let w = ws("( never closed");
    assert_eq!(skip_paren_comment(&w, 1), 3);
    let w = ws("(x) 1");
    assert_eq!(skip_paren_comment(&w, 0), 1);
}

#[test]
fn false_branches_skip_to_else_or_then() {
    // 0 [if] 1 [else] 2 [then]  → resume at 2
    let w = ws("1 [else] 2 [then] 3");
    assert_eq!(skip_false_branch(&w, 0), 2);
    // nested [if] … [then] inside the skipped branch
    let w = ws("[if] a [else] b [then] c [then] d");
    assert_eq!(skip_false_branch(&w, 0), 7);
    assert_eq!(w[7], "d");
    // unterminated: to the end
    let w = ws("a b");
    assert_eq!(skip_false_branch(&w, 0), 2);
}

#[test]
fn else_branches_skip_to_then() {
    let w = ws("2 [else] 3 [then] 4");
    assert_eq!(skip_else_branch(&w, 0), 4);
    let w = ws("[if] x [then] y [THEN] z");
    assert_eq!(skip_else_branch(&w, 0), 5);
}

#[test]
fn locals_declarations() {
    let w = ws("a b | c :} a b + c");
    let (names, inputs, next) = read_locals_decl(&w, 0);
    assert_eq!(names, vec!["a", "b", "c"]);
    assert_eq!(inputs, 2);
    assert_eq!(next, 5);
    let w = ws("x");
    let (names, inputs, next) = read_locals_decl(&w, 0);
    assert_eq!((names, inputs, next), (vec!["x".to_string()], 1, 1));
}

#[test]
fn a_string_literal_joins_its_words_up_to_the_closing_quote() {
    let w = ws("s\" hello   big world\" type");
    assert_eq!(string_literal(&w, 1), Some(("hello big world".to_string(), 4)));
    let w = ws(".\" hi\" cr");
    assert_eq!(string_literal(&w, 1), Some(("hi".to_string(), 2)));
    // an empty literal
    let w = ws("s\" \" 1");
    assert_eq!(string_literal(&w, 1), Some((String::new(), 2)));
}

#[test]
fn an_unclosed_string_literal_is_refused() {
    let w = ws("s\" never closed");
    assert_eq!(string_literal(&w, 1), None);
    assert_eq!(string_literal(&w, 3), None);
}
