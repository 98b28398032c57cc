use mf66::colon::{ColonDef, ControlWord};
use mf66::compile::{compile_send, compile_to, find_local, plan_token, resolve_send, SendTarget, TokenCase};
use mf66::oop::{Oop, CELL};
use mf66::opt::{Cmp, Mem, Tok};

fn def_with(toks: Vec<Tok>) -> ColonDef {
    let mut d = ColonDef::new("w".to_string(), 0x4000, false);
    d.toks = toks;
    d
}

#[test]
fn recurse_compiles_a_call_to_the_open_definition() {
    let mut d = def_with(vec![Tok::Lit(1)]);
    let mut o = Oop::new();
    assert_eq!(plan_token(&mut d, &mut o, "RECURSE"), TokenCase::Recurse);
    assert_eq!(d.toks, vec![Tok::Lit(1), Tok::Call(0x4000)]);
}

#[test]
fn a_local_name_in_any_case_fetches_its_slot() {
    let mut d = def_with(vec![]);
    d.locals = vec!["a".to_string(), "Count".to_string()];
    let mut o = Oop::new();
    assert_eq!(plan_token(&mut d, &mut o, "count"), TokenCase::Local(1));
    assert_eq!(d.toks, vec![Tok::LocalFetch(1)]);
}

#[test]
fn a_literal_index_before_pick_and_roll_becomes_static_motion() {
    let mut o = Oop::new();
    let mut d = def_with(vec![Tok::Lit(7), Tok::Lit(2)]);
    assert_eq!(plan_token(&mut d, &mut o, "PICK"), TokenCase::Pick(2));
    assert_eq!(d.toks, vec![Tok::Lit(7), Tok::PickN(2)]);
    let mut d = def_with(vec![Tok::Lit(3)]);
    assert_eq!(plan_token(&mut d, &mut o, "roll"), TokenCase::Roll(3));
    assert_eq!(d.toks, vec![Tok::RollN(3)]);
    // an index past 6 is left to the dictionary's runtime pick
    let mut d = def_with(vec![Tok::Lit(7)]);
    assert_eq!(plan_token(&mut d, &mut o, "pick"), TokenCase::Lookup);
    assert_eq!(d.toks, vec![Tok::Lit(7)]);
}

#[test]
fn a_compare_before_if_is_fused_and_detached() {
    let mut o = Oop::new();
    let mut d = def_with(vec![Tok::Lit(1), Tok::Cmp(Cmp::Lt)]);
    assert_eq!(plan_token(&mut d, &mut o, "if"), TokenCase::Fused(ControlWord::If, Cmp::Lt));
    assert_eq!(d.toks, vec![Tok::Lit(1)]);
    // `else` never fuses
    let mut d = def_with(vec![Tok::Cmp(Cmp::Eq)]);
    assert_eq!(plan_token(&mut d, &mut o, "ELSE"), TokenCase::Control(ControlWord::Else));
    assert_eq!(d.toks, vec![Tok::Cmp(Cmp::Eq)]);
    // without a compare, `until` is a plain control word
    let mut d = def_with(vec![Tok::Lit(0)]);
    assert_eq!(plan_token(&mut d, &mut o, "until"), TokenCase::Control(ControlWord::Until));
    assert_eq!(d.toks, vec![Tok::Lit(0)]);
}

#[test]
fn other_words_are_left_to_the_dictionary() {
    let mut o = Oop::new();
    let mut d = def_with(vec![Tok::Lit(5)]);
    assert_eq!(plan_token(&mut d, &mut o, "dup"), TokenCase::Lookup);
    assert_eq!(plan_token(&mut d, &mut o, "42"), TokenCase::Lookup);
    assert_eq!(d.toks, vec![Tok::Lit(5)]);
}

#[test]
fn inside_a_method_ivars_and_super_come_first() {
    let mut o = Oop::new();
    assert_eq!(o.start_class("point", "object"), Ok(()));
    assert_eq!(o.add_ivar("x", CELL), Ok(()));
    assert_eq!(o.begin_method("norm"), Ok(()));
    let mut d = def_with(vec![]);
    d.locals = vec!["x".to_string()];
    // the ivar shadows a local of the same name
    assert_eq!(plan_token(&mut d, &mut o, "x"), TokenCase::Ivar(8));
    assert_eq!(plan_token(&mut d, &mut o, "super"), TokenCase::Super);
    assert_eq!(d.toks, vec![Tok::IvarFetch(8), Tok::SelfPush]);
}

#[test]
fn to_stores_into_an_ivar_then_a_value_then_a_local() {
    let mut o = Oop::new();
    let mut d = def_with(vec![Tok::Lit(9)]);
    d.locals = vec!["n".to_string(), "acc".to_string()];
    assert!(compile_to(&mut d, &o, "ACC", None));
    assert_eq!(d.toks, vec![Tok::Lit(9), Tok::LocalStore(1)]);
    // a value of that name wins over the local
    assert!(compile_to(&mut d, &o, "acc", Some(0x7000)));
    assert_eq!(&d.toks[2..], &[Tok::Lit(0x7000), Tok::Mem(Mem::Store)]);
    // inside a method an ivar wins over both
    assert_eq!(o.start_class("p", "object"), Ok(()));
    assert_eq!(o.add_ivar("acc", CELL), Ok(()));
    assert_eq!(o.begin_method("m"), Ok(()));
    assert!(compile_to(&mut d, &o, "acc", Some(0x7000)));
    assert_eq!(d.toks.last(), Some(&Tok::IvarStore(8)));
}

#[test]
fn to_an_unknown_name_is_refused_and_changes_nothing() {
    let o = Oop::new();
    let mut d = def_with(vec![Tok::Lit(1)]);
    d.locals = vec!["a".to_string()];
    assert!(!compile_to(&mut d, &o, "b", None));
    assert_eq!(d.toks, vec![Tok::Lit(1)]);
    assert_eq!(find_local(&d.locals, "A"), Some(0));
    assert_eq!(find_local(&d.locals, "b"), None);
}

fn animal() -> Oop {
    let mut o = Oop::new();
    assert_eq!(o.start_class("animal", "object"), Ok(()));
    assert_eq!(o.begin_method("speak"), Ok(()));
    assert_eq!(o.end_method("speak", 0x5000), Ok(()));
    assert!(o.end_class(0x9000).is_ok());
    o
}

#[test]
fn a_send_to_a_known_class_binds_early() {
    let mut o = animal();
    o.set_receiver(Some("animal".to_string()));
    let mut d = def_with(vec![]);
    assert_eq!(compile_send(&mut d, &mut o, "speak", 0x100, 0x200), SendTarget::Method(0x5000));
    assert_eq!(d.toks, vec![Tok::Lit(0x5000), Tok::Call(0x200)]);
    // the receiver knowledge is used up
    assert_eq!(resolve_send(&mut o, "speak"), SendTarget::Selector(0));
}

#[test]
fn a_send_to_an_unknown_receiver_goes_by_selector_id() {
    let mut o = animal();
    let mut d = def_with(vec![Tok::Lit(1)]);
    assert_eq!(compile_send(&mut d, &mut o, "speak", 0x100, 0x200), SendTarget::Selector(0));
    assert_eq!(compile_send(&mut d, &mut o, "jump", 0x100, 0x200), SendTarget::Selector(1));
    assert_eq!(
        d.toks,
        vec![Tok::Lit(1), Tok::Lit(0), Tok::Call(0x100), Tok::Lit(1), Tok::Call(0x100)]
    );
    assert_eq!(o.selector_id("jump"), 1);
}
