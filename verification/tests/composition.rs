use reusable::{
    append_surviving, compose, compose_found, definition, entry_for, has_field, lookup_all, merge,
    register, registration, requested_keys, reusable, reuse, reuse_found, ComposeError, Field,
    FieldKind, Lookup, RecordDefinition, Registry, ReuseError, StoreEntry, StoreError,
};

fn names_of(record: &RecordDefinition) -> Vec<String> {
    record.fields.iter().map(|f| f.name.clone()).collect()
}

/// A text without its blanks: what is compared where a printer chose them.
fn squeeze(text: &str) -> String {
    text.split_whitespace().collect()
}

fn declarations_of(record: &RecordDefinition) -> Vec<String> {
    record.fields.iter().map(|f| squeeze(&f.declaration)).collect()
}

fn field(name: &str, declaration: &str) -> Field {
    Field { name: name.to_string(), declaration: declaration.to_string() }
}

fn record(name: &str, kind: FieldKind, fields: Vec<Field>) -> RecordDefinition {
    RecordDefinition {
        name: name.to_string(),
        kind,
        attributes: vec![],
        visibility: String::new(),
        generics: String::new(),
        bounds: String::new(),
        fields,
    }
}

fn bare(name: &str, fields: Vec<Field>) -> RecordDefinition {
    record(name, FieldKind::Named, fields)
}

fn keys(names: &[&str]) -> Vec<String> {
    names.iter().map(|n| n.to_string()).collect()
}

#[test]
fn merge_appends_two_groups_after_the_local_field() {
    let a = bare("A", vec![field("x", "x: u32"), field("y", "y: String")]);
    let b = bare("B", vec![field("z", "z: bool")]);
    let mut target = bare("T", vec![field("w", "w: u8")]);
    merge(&mut target, &vec![a, b]);
    assert_eq!(
        target,
        bare(
            "T",
            vec![field("w", "w: u8"), field("x", "x: u32"), field("y", "y: String"), field("z", "z: bool")]
        )
    );
}

#[test]
fn merge_keeps_the_local_field_and_drops_the_reused_one() {
    let a = bare("A", vec![field("x", "x: u32"), field("y", "y: String")]);
    let mut target = bare("T", vec![field("y", "pub y: i64")]);
    merge(&mut target, &vec![a]);
    assert_eq!(target, bare("T", vec![field("y", "pub y: i64"), field("x", "x: u32")]));
}

#[test]
fn merge_takes_a_group_whole_where_nothing_is_local() {
    let group = vec![field("b", "#[doc = \"b\"] pub b: Vec<u8>"), field("a", "a: Option<String>")];
    let mut target = bare("T", vec![]);
    merge(&mut target, &vec![bare("G", group)]);
    assert_eq!(
        target.fields,
        vec![field("b", "#[doc = \"b\"] pub b: Vec<u8>"), field("a", "a: Option<String>")]
    );
}

#[test]
fn merge_twice_from_the_same_start_gives_the_same() {
    let groups = vec![bare("A", vec![field("x", "x: u8"), field("y", "y: u8")])];
    let mut first = bare("T", vec![field("y", "y: u16")]);
    let mut second = bare("T", vec![field("y", "y: u16")]);
    merge(&mut first, &groups);
    merge(&mut second, &groups);
    assert_eq!(first, second);
    assert_eq!(names_of(&first), vec!["y", "x"]);
}

#[test]
fn merge_keeps_group_order_and_field_order() {
    let one = bare("One", vec![field("c", "c: u8"), field("a", "a: u8")]);
    let two = bare("Two", vec![field("b", "b: u8"), field("d", "d: u8")]);
    let mut target = bare("T", vec![field("z", "z: u8"), field("b", "b: i8")]);
    merge(&mut target, &vec![two, one]);
    assert_eq!(names_of(&target), vec!["z", "b", "d", "c", "a"]);
    assert_eq!(target.fields[1], field("b", "b: i8"));
}

#[test]
fn merge_takes_a_shared_name_from_both_groups() {
    let a = bare("A", vec![field("x", "x: u8")]);
    let b = bare("B", vec![field("x", "x: u16")]);
    let mut target = bare("T", vec![]);
    merge(&mut target, &vec![a, b]);
    assert_eq!(target.fields, vec![field("x", "x: u8"), field("x", "x: u16")]);
}

#[test]
fn merge_keeps_distinct_names_distinct() {
    let a = bare("A", vec![field("a", "a: u8"), field("shared", "shared: u8")]);
    let b = bare("B", vec![field("b", "b: u8"), field("own", "own: u8")]);
    let mut target = bare("T", vec![field("own", "own: i8"), field("shared", "shared: i8")]);
    merge(&mut target, &vec![a, b]);
    assert_eq!(names_of(&target), vec!["own", "shared", "a", "b"]);
}

#[test]
fn merge_leaves_a_record_without_named_fields_alone() {
    let group = bare("A", vec![field("x", "x: u8")]);
    let mut unit = record("U", FieldKind::Unit, vec![]);
    merge(&mut unit, &vec![bare("A", vec![field("x", "x: u8")])]);
    assert_eq!(unit, record("U", FieldKind::Unit, vec![]));
    let mut pair = record("P", FieldKind::Unnamed, vec![field("", "u8")]);
    merge(&mut pair, &vec![group]);
    assert_eq!(pair, record("P", FieldKind::Unnamed, vec![field("", "u8")]));
    let mut alone = bare("T", vec![field("w", "w: u8")]);
    merge(&mut alone, &vec![]);
    assert_eq!(alone, bare("T", vec![field("w", "w: u8")]));
}

#[test]
fn two_groups_follow_the_local_fields_in_order() {
    let mut registry = Registry::new();
    assert_eq!(reusable("A", "struct A { x: u32, y: String }", &mut registry), Ok("A".to_string()));
    assert_eq!(reusable("B", "struct B { z: bool }", &mut registry), Ok("B".to_string()));
    let result = reuse("A, B", "struct T { w: u8 }", &registry).unwrap();
    assert_eq!(names_of(&result), vec!["w", "x", "y", "z"]);
    assert_eq!(declarations_of(&result), vec!["w:u8", "x:u32", "y:String", "z:bool"]);
    assert_eq!(result.name, "T");
    assert_eq!(result.kind, FieldKind::Named);
}

#[test]
fn local_field_is_kept_and_reused_one_dropped() {
    let mut registry = Registry::new();
    reusable("A", "struct A { x: u32, y: String }", &mut registry).unwrap();
    let result = reuse("A", "struct T { y: i64 }", &registry).unwrap();
    assert_eq!(names_of(&result), vec!["y", "x"]);
    assert_eq!(declarations_of(&result), vec!["y:i64", "x:u32"]);
}

#[test]
fn unregistered_name_fails_with_its_key() {
    let registry = Registry::new();
    let result = reuse("Unregistered", "struct T { }", &registry);
    assert_eq!(
        result,
        Err(ReuseError::Compose(ComposeError::MissingRegistration("Unregistered".to_string())))
    );
}

#[test]
fn later_registration_wins() {
    let mut registry = Registry::new();
    reusable("A", "struct A { x: u32 }", &mut registry).unwrap();
    reusable("A", "struct A { x: String }", &mut registry).unwrap();
    let result = reuse("A", "struct T { }", &registry).unwrap();
    assert_eq!(names_of(&result), vec!["x"]);
    assert_eq!(declarations_of(&result), vec!["x:String"]);
}

#[test]
fn registered_fields_come_back_exactly() {
    let mut registry = Registry::new();
    let text = "struct A { pub first: Vec<u8>, #[allow(dead_code)] second: Option<String> }";
    reusable("A", text, &mut registry).unwrap();
    assert_eq!(registry.read("A"), Ok(text.to_string()));
    let result = reuse("A", "struct T { }", &registry).unwrap();
    let direct = definition(text).unwrap();
    assert_eq!(result.fields, direct.fields);
    assert_eq!(names_of(&result), vec!["first", "second"]);
    assert_eq!(
        declarations_of(&result),
        vec!["pubfirst:Vec<u8>", "#[allow(dead_code)]second:Option<String>"]
    );
}

#[test]
fn composing_twice_gives_the_same_record() {
    let mut registry = Registry::new();
    reusable("A", "struct A { x: u32, y: String }", &mut registry).unwrap();
    let first = reuse("A", "struct T { y: i64 }", &registry);
    let second = reuse("A", "struct T { y: i64 }", &registry);
    assert_eq!(first, second);
    assert!(first.is_ok());
    assert_eq!(registry.read("A"), Ok("struct A { x: u32, y: String }".to_string()));
}

#[test]
fn missing_key_leaves_the_target_alone() {
    let mut registry = Registry::new();
    register(&mut registry, "A", "struct A { x: u32 }").unwrap();
    let mut target = bare("T", vec![field("w", "w : u8")]);
    let outcome = compose(&mut target, &keys(&["A", "Nowhere"]), &registry);
    assert_eq!(outcome, Err(ComposeError::MissingRegistration("Nowhere".to_string())));
    assert_eq!(target, bare("T", vec![field("w", "w : u8")]));
}

#[test]
fn corrupt_entry_fails_with_its_key() {
    let mut registry = Registry::new();
    register(&mut registry, "Bad", "this is no record").unwrap();
    let mut target = bare("T", vec![field("w", "w : u8")]);
    let outcome = compose(&mut target, &keys(&["Bad"]), &registry);
    assert_eq!(outcome, Err(ComposeError::Corrupt("Bad".to_string())));
    assert_eq!(target, bare("T", vec![field("w", "w : u8")]));
}

#[test]
fn registered_record_without_named_fields() {
    let mut registry = Registry::new();
    register(&mut registry, "Pair", "struct Pair(u8, u8);").unwrap();
    register(&mut registry, "Unit", "struct Unit;").unwrap();
    register(&mut registry, "Empty", "struct Empty();").unwrap();
    let mut target = bare("T", vec![field("w", "w: u8")]);
    assert_eq!(
        compose(&mut target, &keys(&["Pair"]), &registry),
        Err(ComposeError::Corrupt("Pair".to_string()))
    );
    assert_eq!(compose(&mut target, &keys(&["Unit", "Empty"]), &registry), Ok(()));
    assert_eq!(target, bare("T", vec![field("w", "w: u8")]));
}

#[test]
fn first_failing_key_decides_the_error() {
    let mut registry = Registry::new();
    register(&mut registry, "Bad", "fn f() {}").unwrap();
    let mut target = bare("T", vec![]);
    assert_eq!(
        compose(&mut target, &keys(&["Bad", "Nowhere"]), &registry),
        Err(ComposeError::Corrupt("Bad".to_string()))
    );
    assert_eq!(
        compose(&mut target, &keys(&["Nowhere", "Bad"]), &registry),
        Err(ComposeError::MissingRegistration("Nowhere".to_string()))
    );
}

#[test]
fn repeated_key_is_read_and_appended_again() {
    let mut registry = Registry::new();
    register(&mut registry, "A", "struct A { x: u8 }").unwrap();
    let mut target = bare("T", vec![]);
    compose(&mut target, &keys(&["A", "A"]), &registry).unwrap();
    assert_eq!(names_of(&target), vec!["x", "x"]);
}

#[test]
fn no_keys_leave_the_target_as_it_is() {
    let registry = Registry::new();
    let mut target = bare("T", vec![field("w", "w : u8")]);
    assert_eq!(compose(&mut target, &keys(&[]), &registry), Ok(()));
    assert_eq!(target, bare("T", vec![field("w", "w : u8")]));
}

#[test]
fn target_without_named_fields_passes_through_unread() {
    let registry = Registry::new();
    let unit = reuse("Nowhere", "pub struct U;", &registry).unwrap();
    assert_eq!(unit.kind, FieldKind::Unit);
    assert_eq!(unit.name, "U");
    assert!(unit.fields.is_empty());
    let pair = reuse("Nowhere", "struct P(u8, String);", &registry).unwrap();
    assert_eq!(pair.kind, FieldKind::Unnamed);
    assert_eq!(declarations_of(&pair), vec!["u8", "String"]);
    assert_eq!(definition(&pair.to_source()), Ok(pair));
    assert_eq!(definition(&unit.to_source()), Ok(unit));
    let mut own = record("U", FieldKind::Unit, vec![]);
    assert_eq!(compose(&mut own, &keys(&["Nowhere"]), &registry), Ok(()));
    assert_eq!(own, record("U", FieldKind::Unit, vec![]));
}

fn found(key: &str, group: RecordDefinition) -> Lookup {
    Lookup { key: key.to_string(), found: Some(Some(group)) }
}

fn unreadable(key: &str) -> Lookup {
    Lookup { key: key.to_string(), found: Some(None) }
}

fn absent(key: &str) -> Lookup {
    Lookup { key: key.to_string(), found: None }
}

#[test]
fn found_groups_follow_the_local_field_in_key_order() {
    let a = bare("A", vec![field("x", "x: u8"), field("y", "y: u16")]);
    let b = bare("B", vec![field("z", "z: u32")]);
    let mut target = bare("T", vec![field("w", "w: bool")]);
    assert_eq!(compose_found(&mut target, &vec![found("A", a), found("B", b)]), Ok(()));
    assert_eq!(
        target,
        bare(
            "T",
            vec![field("w", "w: bool"), field("x", "x: u8"), field("y", "y: u16"), field("z", "z: u32")]
        )
    );
}

#[test]
fn found_group_gives_way_to_the_local_field() {
    let a = bare("A", vec![field("x", "x: u8"), field("y", "y: u16")]);
    let mut target = bare("T", vec![field("y", "y: bool")]);
    assert_eq!(compose_found(&mut target, &vec![found("A", a)]), Ok(()));
    assert_eq!(target, bare("T", vec![field("y", "y: bool"), field("x", "x: u8")]));
}

#[test]
fn found_groups_that_share_a_name_are_both_taken() {
    let a = bare("A", vec![field("x", "x: u8"), field("y", "y: u16")]);
    let b = bare("B", vec![field("y", "y: u32"), field("z", "z: u64")]);
    let mut target = bare("T", vec![field("w", "w: bool")]);
    assert_eq!(compose_found(&mut target, &vec![found("A", a), found("B", b)]), Ok(()));
    assert_eq!(
        target.fields,
        vec![
            field("w", "w: bool"),
            field("x", "x: u8"),
            field("y", "y: u16"),
            field("y", "y: u32"),
            field("z", "z: u64")
        ]
    );
}

#[test]
fn later_absent_key_fails_and_nothing_is_merged() {
    let a = bare("A", vec![field("x", "x: u8")]);
    let mut target = bare("T", vec![field("w", "w: bool")]);
    assert_eq!(
        compose_found(&mut target, &vec![found("A", a), absent("U")]),
        Err(ComposeError::MissingRegistration("U".to_string()))
    );
    assert_eq!(target, bare("T", vec![field("w", "w: bool")]));
}

#[test]
fn first_lookup_without_a_usable_record_decides() {
    let a = bare("A", vec![field("x", "x: u8")]);
    let pair = record("P", FieldKind::Unnamed, vec![field("", "u8")]);
    let mut target = bare("T", vec![field("w", "w: bool")]);
    assert_eq!(
        compose_found(&mut target, &vec![found("A", a), unreadable("Bad"), absent("U")]),
        Err(ComposeError::Corrupt("Bad".to_string()))
    );
    assert_eq!(
        compose_found(&mut target, &vec![absent("U"), unreadable("Bad")]),
        Err(ComposeError::MissingRegistration("U".to_string()))
    );
    assert_eq!(
        compose_found(&mut target, &vec![found("P", pair), absent("U")]),
        Err(ComposeError::Corrupt("P".to_string()))
    );
    assert_eq!(target, bare("T", vec![field("w", "w: bool")]));
}

#[test]
fn found_records_without_fields_add_nothing() {
    let unit = record("U", FieldKind::Unit, vec![]);
    let empty = record("E", FieldKind::Unnamed, vec![]);
    let mut target = bare("T", vec![field("w", "w: bool")]);
    assert_eq!(compose_found(&mut target, &vec![found("U", unit), found("E", empty)]), Ok(()));
    assert_eq!(target, bare("T", vec![field("w", "w: bool")]));
}

#[test]
fn target_without_named_fields_ignores_what_was_found() {
    let a = bare("A", vec![field("x", "x: u8")]);
    let mut unit = record("U", FieldKind::Unit, vec![]);
    assert_eq!(compose_found(&mut unit, &vec![absent("Nowhere"), found("A", a)]), Ok(()));
    assert_eq!(unit, record("U", FieldKind::Unit, vec![]));
}

#[test]
fn lookup_all_finds_what_is_registered() {
    let mut registry = Registry::new();
    register(&mut registry, "A", "struct A { x: u8 }").unwrap();
    register(&mut registry, "A", "struct A { x: u16 }").unwrap();
    register(&mut registry, "Bad", "fn f() {}").unwrap();
    let lookups = lookup_all(&keys(&["A", "Nowhere", "Bad", "A"]), &registry);
    assert_eq!(lookups.len(), 4);
    assert_eq!(lookups[0].key, "A");
    let group = lookups[0].found.as_ref().unwrap().as_ref().unwrap();
    assert_eq!(names_of(group), vec!["x"]);
    assert_eq!(declarations_of(group), vec!["x:u16"]);
    assert_eq!(lookups[1], absent("Nowhere"));
    assert_eq!(lookups[2], unreadable("Bad"));
    assert_eq!(lookups[3], lookups[0]);
    assert_eq!(lookup_all(&keys(&[]), &registry), vec![]);
}

#[test]
fn registration_needs_one_identifier() {
    let mut registry = Registry::new();
    assert_eq!(reusable("a b", "struct A { x: u8 }", &mut registry), Err(ReuseError::InvalidName));
    assert_eq!(reusable("", "struct A { x: u8 }", &mut registry), Err(ReuseError::InvalidName));
    assert_eq!(reusable("struct", "struct A { x: u8 }", &mut registry), Err(ReuseError::InvalidName));
    assert_eq!(reusable("1a", "struct A { x: u8 }", &mut registry), Err(ReuseError::InvalidName));
    assert_eq!(registry.read("a b"), Err(StoreError::NotFound));
    assert_eq!(registry.read("struct"), Err(StoreError::NotFound));
}

#[test]
fn registration_stores_under_the_identifier_not_the_raw_argument() {
    let mut registry = Registry::new();
    assert_eq!(reusable("  spaced  ", "struct A { x: u8 }", &mut registry), Ok("spaced".to_string()));
    assert_eq!(registry.read("spaced"), Ok("struct A { x: u8 }".to_string()));
    assert_eq!(registry.read("  spaced  "), Err(StoreError::NotFound));
}

#[test]
fn registration_stores_any_text_as_it_stands() {
    let mut registry = Registry::new();
    assert_eq!(reusable("odd", "enum E { A }", &mut registry), Ok("odd".to_string()));
    assert_eq!(registry.read("odd"), Ok("enum E { A }".to_string()));
    assert_eq!(
        reuse("odd", "struct T { }", &registry),
        Err(ReuseError::Compose(ComposeError::Corrupt("odd".to_string())))
    );
}

#[test]
fn reuse_reads_a_comma_separated_list() {
    let mut registry = Registry::new();
    reusable("A", "struct A { x: u8 }", &mut registry).unwrap();
    reusable("B", "struct B { y: u8 }", &mut registry).unwrap();
    let spaced = reuse(" B ,A , ", "struct T { }", &registry).unwrap();
    assert_eq!(names_of(&spaced), vec!["y", "x"]);
    assert_eq!(reuse("A B", "struct T { }", &registry), Err(ReuseError::InvalidName));
    assert_eq!(reuse("A;B", "struct T { }", &registry), Err(ReuseError::InvalidName));
    assert_eq!(reuse("A,,B", "struct T { }", &registry), Err(ReuseError::InvalidName));
}

#[test]
fn reuse_turns_down_what_is_no_record() {
    let registry = Registry::new();
    assert_eq!(reuse("", "fn f() {}", &registry), Err(ReuseError::InvalidDefinition));
    assert_eq!(reuse("", "struct {", &registry), Err(ReuseError::InvalidDefinition));
    assert_eq!(reuse("a b", "fn f() {}", &registry), Err(ReuseError::InvalidName));
    assert_eq!(reuse("Gone", "fn f() {}", &registry), Err(ReuseError::InvalidDefinition));
    assert_eq!(definition("enum E { A }"), Err(ReuseError::InvalidDefinition));
}

#[test]
fn reuse_found_orders_the_failures() {
    assert_eq!(
        reuse_found(Err(ReuseError::InvalidName), Err(ReuseError::InvalidDefinition), vec![]),
        Err(ReuseError::InvalidName)
    );
    assert_eq!(
        reuse_found(Ok(keys(&["A"])), Err(ReuseError::InvalidDefinition), vec![absent("A")]),
        Err(ReuseError::InvalidDefinition)
    );
    assert_eq!(
        reuse_found(Err(ReuseError::InvalidName), Ok(bare("T", vec![])), vec![]),
        Err(ReuseError::InvalidName)
    );
    assert_eq!(
        reuse_found(Ok(keys(&["A"])), Ok(bare("T", vec![])), vec![absent("A")]),
        Err(ReuseError::Compose(ComposeError::MissingRegistration("A".to_string())))
    );
    assert_eq!(
        reuse_found(
            Ok(keys(&["A"])),
            Ok(bare("T", vec![])),
            vec![found("A", bare("A", vec![field("x", "x: u16")]))]
        ),
        Ok(bare("T", vec![field("x", "x: u16")]))
    );
    assert_eq!(
        reuse_found(Ok(keys(&[])), Ok(bare("T", vec![field("w", "w: u8")])), vec![]),
        Ok(bare("T", vec![field("w", "w: u8")]))
    );
}

#[test]
fn definition_reads_the_parts_of_a_record() {
    let text = "#[derive(Debug)] #[allow(dead_code)] pub struct Pair<T: Clone> where T: Copy { pub left: T, right: T }";
    let record = definition(text).unwrap();
    assert_eq!(record.name, "Pair");
    assert_eq!(record.kind, FieldKind::Named);
    let attributes: Vec<String> = record.attributes.iter().map(|a| squeeze(a)).collect();
    assert_eq!(attributes, vec!["#[derive(Debug)]", "#[allow(dead_code)]"]);
    assert_eq!(record.visibility, "pub");
    assert_eq!(squeeze(&record.generics), "<T:Clone>");
    assert_eq!(squeeze(&record.bounds), "whereT:Copy");
    assert_eq!(names_of(&record), vec!["left", "right"]);
    assert_eq!(declarations_of(&record), vec!["publeft:T", "right:T"]);
}

#[test]
fn has_field_finds_by_name_only() {
    let fields = vec![field("a", "a : u8"), field("b", "pub b : u8")];
    assert!(has_field(&fields, &"a".to_string()));
    assert!(has_field(&fields, &"b".to_string()));
    assert!(!has_field(&fields, &"c".to_string()));
    assert!(!has_field(&fields, &"a : u8".to_string()));
    assert!(!has_field(&vec![], &"a".to_string()));
}

#[test]
fn append_surviving_filters_and_keeps_the_buffer() {
    let local = vec![field("y", "y : i64")];
    let group = vec![field("x", "x : u32"), field("y", "y : String"), field("z", "z : bool")];
    let mut buffer = vec![field("k", "k : u8")];
    append_surviving(&local, &group, &mut buffer);
    assert_eq!(buffer, vec![field("k", "k : u8"), field("x", "x : u32"), field("z", "z : bool")]);
    append_surviving(&vec![], &group, &mut buffer);
    assert_eq!(buffer.len(), 6);
    assert_eq!(buffer[4], field("y", "y : String"));
}

#[test]
fn source_text_of_a_record() {
    let mut named = bare("T", vec![field("a", "a : u8"), field("b", "pub b : T")]);
    assert_eq!(named.to_source(), " struct T  { a : u8, pub b : T, }");
    named.attributes = vec!["#[derive(Debug)]".to_string(), "#[repr(C)]".to_string()];
    named.visibility = "pub".to_string();
    named.generics = "<T>".to_string();
    named.bounds = "where T: Copy".to_string();
    assert_eq!(
        named.to_source(),
        "#[derive(Debug)] #[repr(C)] pub struct T<T> where T: Copy { a : u8, pub b : T, }"
    );
    assert_eq!(bare("E", vec![]).to_source(), " struct E  { }");
    let mut pair = record("P", FieldKind::Unnamed, vec![field("", "pub u8"), field("", "T")]);
    pair.generics = "<T>".to_string();
    pair.bounds = "where T: Copy".to_string();
    assert_eq!(pair.to_source(), " struct P<T> ( pub u8, T, ) where T: Copy ;");
    let mut unit = record("U", FieldKind::Unit, vec![]);
    unit.visibility = "pub".to_string();
    assert_eq!(unit.to_source(), "pub struct U  ;");
}

#[test]
fn source_text_reads_back_as_the_same_record() {
    let mut registry = Registry::new();
    reusable("A", "pub struct A<'a> { pub x: &'a str, y: (u8, u8) }", &mut registry).unwrap();
    let composed = reuse(
        "A",
        "#[derive(Clone)] pub(crate) struct T<'a, U> where U: Clone { #[doc = \"own\"] u: U }",
        &registry,
    )
    .unwrap();
    assert_eq!(names_of(&composed), vec!["u", "x", "y"]);
    let again = definition(&composed.to_source()).unwrap();
    assert_eq!(again, composed);
}

#[test]
fn registration_gives_the_entry_to_store() {
    assert_eq!(
        registration(" name ", "struct A { x: u8 }"),
        Ok(StoreEntry { key: "name".to_string(), value: "struct A { x: u8 }".to_string() })
    );
    assert_eq!(registration("two names", "struct A { x: u8 }"), Err(ReuseError::InvalidName));
    assert_eq!(registration("a,", "struct A { x: u8 }"), Err(ReuseError::InvalidName));
    assert_eq!(registration("fn", "struct A { x: u8 }"), Err(ReuseError::InvalidName));
    assert_eq!(
        entry_for(Some("k".to_string()), "text"),
        Ok(StoreEntry { key: "k".to_string(), value: "text".to_string() })
    );
    assert_eq!(entry_for(None, "text"), Err(ReuseError::InvalidName));
}

#[test]
fn requested_keys_are_the_listed_identifiers() {
    assert_eq!(requested_keys("a, b ,c"), Ok(keys(&["a", "b", "c"])));
    assert_eq!(requested_keys("a, a,"), Ok(keys(&["a", "a"])));
    assert_eq!(requested_keys(""), Ok(keys(&[])));
    assert_eq!(requested_keys("one"), Ok(keys(&["one"])));
    assert_eq!(requested_keys("a b"), Err(ReuseError::InvalidName));
    assert_eq!(requested_keys(", a"), Err(ReuseError::InvalidName));
    assert_eq!(requested_keys("a, struct"), Err(ReuseError::InvalidName));
    assert_eq!(requested_keys("\"open"), Err(ReuseError::InvalidName));
}

#[test]
fn writes_under_other_keys_do_not_change_a_composition() {
    let mut registry = Registry::new();
    register(&mut registry, "A", "struct A { x: u8, y: u8 }").unwrap();
    let before = reuse("A", "struct T { y: u16 }", &registry);
    register(&mut registry, "Elsewhere", "struct E { x: u64 }").unwrap();
    register(&mut registry, "Broken", "not a record").unwrap();
    let after = reuse("A", "struct T { y: u16 }", &registry);
    assert_eq!(before, after);
    assert_eq!(names_of(&after.unwrap()), vec!["y", "x"]);
}

#[test]
fn a_composed_record_can_be_registered_in_turn() {
    let mut registry = Registry::new();
    reusable("Base", "struct Base { id: u64 }", &mut registry).unwrap();
    let named = reuse("Base", "struct Named { name: String }", &registry).unwrap();
    register(&mut registry, "Named", &named.to_source()).unwrap();
    let full = reuse("Named", "struct Full { id: u32, extra: bool }", &registry).unwrap();
    assert_eq!(names_of(&full), vec!["id", "extra", "name"]);
    assert_eq!(declarations_of(&full), vec!["id:u32", "extra:bool", "name:String"]);
}
