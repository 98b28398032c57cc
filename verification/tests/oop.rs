use mf66::oop::{Oop, OopError, CELL};

#[test]
fn selector_ids_are_stable_and_dense() {
    let mut o = Oop::new();
    assert_eq!(o.selector_id("speak"), 0);
    assert_eq!(o.selector_id("describe"), 1);
    assert_eq!(o.selector_id("speak"), 0);
    assert_eq!(o.selector_id("noise"), 2);
    o.reset(); // selector ids survive a reset
    assert_eq!(o.selector_id("describe"), 1);
}

#[test]
fn a_class_lays_out_its_ivars_after_the_class_pointer() {
    let mut o = Oop::new();
    assert_eq!(o.start_class("point", "object"), Ok(()));
    assert_eq!(o.add_ivar("x", CELL), Ok(()));
    assert_eq!(o.add_ivar("y", 16), Ok(()));
    assert_eq!(o.begin_method("norm"), Ok(()));
    // inside a method, ivars resolve to their offsets
    assert_eq!(o.ivar_offset("x"), Some(8));
    assert_eq!(o.ivar_offset("y"), Some(16));
    assert_eq!(o.ivar_offset("z"), None);
    assert_eq!(o.end_method("norm", 0x5000), Ok(()));
    assert_eq!(o.ivar_offset("x"), None); // no method open
    let (sup, slots) = o.end_class(0x9000).unwrap();
    assert_eq!(sup, 0);
    assert_eq!(slots, vec![(0, 0x5000)]);
    assert_eq!(o.instance_of("point"), Ok((8 + 8 + 16, 0x9000)));
    assert_eq!(o.class_name_by_struct(0x9000), Some("point".to_string()));
    assert!(o.is_class_struct(0x9000));
    assert!(!o.is_class_struct(0)); // the root has no struct
    assert_eq!(o.class_at_struct(0), Some("object".to_string()));
}

#[test]
fn a_subclass_inherits_layout_and_methods_and_overrides() {
    let mut o = Oop::new();
    o.start_class("animal", "object").unwrap();
    o.add_ivar("legs", CELL).unwrap();
    o.begin_method("speak").unwrap();
    o.end_method("speak", 0x100).unwrap();
    o.begin_method("walk").unwrap();
    o.end_method("walk", 0x200).unwrap();
    o.end_class(0x1000).unwrap();
    o.start_class("dog", "animal").unwrap();
    o.add_ivar("tail", CELL).unwrap();
    o.begin_method("speak").unwrap();
    o.end_method("speak", 0x300).unwrap();
    let (sup, slots) = o.end_class(0x2000).unwrap();
    assert_eq!(sup, 0x1000);
    assert_eq!(slots, vec![(0, 0x300), (1, 0x200)]);
    assert_eq!(o.instance_of("dog"), Ok((24, 0x2000)));
    // a named instance binds sends early to its class's methods
    o.add_object("rex", 0x7000, "dog");
    assert_eq!(o.object_named("rex"), Some((0x7000, "dog".to_string())));
    assert!(o.is_defined("rex") && o.is_defined("dog") && !o.is_defined("cat"));
    o.set_receiver(Some("dog".to_string()));
    assert_eq!(o.bind_send("walk"), Some(0x200));
    assert_eq!(o.bind_send("walk"), None); // the receiver is consumed
}

#[test]
fn super_sends_bind_to_the_parents_method() {
    let mut o = Oop::new();
    o.start_class("a", "object").unwrap();
    o.begin_method("m").unwrap();
    o.end_method("m", 0xA).unwrap();
    o.end_class(0x100).unwrap();
    o.start_class("b", "a").unwrap();
    o.begin_method("m").unwrap();
    o.mark_super();
    assert_eq!(o.bind_send("m"), Some(0xA));
    assert_eq!(o.bind_send("m"), None);
}

#[test]
fn object_layer_errors() {
    let mut o = Oop::new();
    assert_eq!(o.start_class("x", "nope"), Err(OopError::UnknownParent));
    assert_eq!(o.add_ivar("v", 8), Err(OopError::IvarOutsideClass));
    assert_eq!(o.begin_method("m"), Err(OopError::MethodOutsideClass));
    assert_eq!(o.end_method("m", 1), Err(OopError::EndMethodOutsideClass));
    assert!(matches!(o.end_class(0x10), Err(OopError::EndWithoutClass)));
    assert_eq!(o.instance_of("ghost"), Err(OopError::UnknownClass));
}

#[test]
fn reset_keeps_only_the_root_class() {
    let mut o = Oop::new();
    o.start_class("c", "object").unwrap();
    o.end_class(0x40).unwrap();
    o.add_object("k", 0x80, "c");
    o.reset();
    assert_eq!(o.instance_of("c"), Err(OopError::UnknownClass));
    assert_eq!(o.instance_of("object"), Ok((CELL, 0)));
    assert_eq!(o.object_named("k"), None);
}
