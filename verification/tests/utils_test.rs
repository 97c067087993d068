use nbwipers::extra_keys::ExtraKey;
use nbwipers::json::Json;
use nbwipers::schema::{Cell, CodeCell, SourceValue};
use nbwipers::strip::pop_cell_key;
use nbwipers::utils::{get_value_child, pop_value_child};

fn obj(entries: Vec<(&str, Json)>) -> Json {
    Json::Object(entries.into_iter().map(|(k, v)| (k.to_string(), v)).collect())
}

fn text(s: &str) -> Json {
    Json::Text(s.to_string())
}

fn path(s: &str) -> Vec<String> {
    s.split('.').map(String::from).collect()
}

fn banana_cell() -> Cell {
    Cell::Code(CodeCell {
        execution_count: None,
        id: None,
        metadata: obj(vec![("banana", text("pear"))]),
        outputs: vec![],
        source: SourceValue::StringArray(vec!["from ipywidgets import interact".to_string()]),
    })
}

#[test]
fn extra_keys_test_pop_value_child() {
    let mut x = obj(vec![("hello", obj(vec![("world", text("baby")), ("banana", text("pear"))]))]);
    pop_value_child(&mut x, &path("hello.world"));
    assert_eq!(x, obj(vec![("hello", obj(vec![("banana", text("pear"))]))]));
}

#[test]
fn types_test_pop_value_child() {
    let mut x = obj(vec![("hello", obj(vec![("world", text("baby")), ("banana", text("pear"))]))]);
    let removed = pop_value_child(&mut x, &path("hello.world"));
    assert_eq!(removed, Some(text("baby")));
    assert_eq!(x, obj(vec![("hello", obj(vec![("banana", text("pear"))]))]));
}

#[test]
fn extra_keys_test_pop_key() {
    let mut cell = banana_cell();
    let extra_key = ExtraKey::from_str("cell.metadata.banana").unwrap();
    println!("{cell:?}");
    println!("{extra_key:?}");
    pop_cell_key(&mut cell, &extra_key);
    println!("{cell:?}");
    assert_eq!(cell.get_metadata(), &obj(vec![]));
}

#[test]
fn types_test_pop_key() {
    let mut cell = banana_cell();
    let extra_key = ExtraKey::from_str("cell.metadata.banana").unwrap();
    assert!(cell.as_codecell_mut().is_some());
    let removed = pop_cell_key(&mut cell, &extra_key);
    assert_eq!(removed, Some(text("pear")));
    let other = ExtraKey::from_str("metadata.banana").unwrap();
    let mut untouched = banana_cell();
    assert_eq!(pop_cell_key(&mut untouched, &other), None);
    assert_eq!(untouched, banana_cell());
}

#[test]
fn test_get_value_child_simple() {
    let metadata = obj(vec![("keep_output", Json::Bool(true))]);
    let keep_output = get_value_child(&metadata, &path("keep_output"));
    assert!(keep_output.is_some_and(|x| x.as_bool().is_some_and(|b| b)));
}

#[test]
fn test_get_value_child_period() {
    let mut metadata = obj(vec![("application/vnd.databricks.v1+cell", text("bananas"))]);
    let key = ExtraKey::from_str("cell.metadata.application/vnd.databricks.v1+cell").unwrap();
    println!("{:?}", key.get_parts());
    println!("{key:?}");

    let output = get_value_child(&metadata, key.get_parts());
    println!("{output:?}");

    assert!(output.is_some());
    assert_eq!(output.unwrap(), &text("bananas"));

    pop_value_child(&mut metadata, key.get_parts());

    assert_eq!(metadata, obj(vec![]));
}

#[test]
fn greedy_match_prefers_the_compound_key() {
    let make = || {
        obj(vec![
            ("a.b", Json::Number("1".to_string())),
            ("a", obj(vec![("b", Json::Number("2".to_string()))])),
        ])
    };
    let tree = make();
    assert_eq!(get_value_child(&tree, &path("a.b")), Some(&Json::Number("1".to_string())));
    let mut tree = make();
    assert_eq!(pop_value_child(&mut tree, &path("a.b")), Some(Json::Number("1".to_string())));
    assert_eq!(tree, obj(vec![("a", obj(vec![("b", Json::Number("2".to_string()))]))]));
}

#[test]
fn lookup_does_not_fall_back_after_a_match() {
    let tree = obj(vec![
        ("a.b", obj(vec![])),
        ("a", obj(vec![("b", obj(vec![("c", Json::Bool(true))]))])),
    ]);
    assert_eq!(get_value_child(&tree, &path("a.b.c")), None);
    let mut same = obj(vec![
        ("a.b", obj(vec![])),
        ("a", obj(vec![("b", obj(vec![("c", Json::Bool(true))]))])),
    ]);
    assert_eq!(pop_value_child(&mut same, &path("a.b.c")), None);
    assert_eq!(same, tree);
}

#[test]
fn empty_path_and_missing_keys() {
    let tree = obj(vec![("a", Json::Null), ("", text("blank"))]);
    let none: Vec<String> = vec![];
    assert_eq!(get_value_child(&tree, &none), Some(&tree));
    assert_eq!(get_value_child(&tree, &path("b")), None);
    assert_eq!(get_value_child(&Json::Null, &path("a")), None);
    assert_eq!(get_value_child(&tree, &path("a.b")), None);
    let mut t = obj(vec![("a", Json::Null), ("", text("blank"))]);
    assert_eq!(pop_value_child(&mut t, &path("b")), None);
    assert_eq!(t, tree);
    assert_eq!(pop_value_child(&mut t, &none), Some(text("blank")));
    assert_eq!(t, obj(vec![("a", Json::Null)]));
    let mut leaf = text("x");
    assert_eq!(pop_value_child(&mut leaf, &path("a")), None);
}

#[test]
fn pop_moves_the_last_entry_into_the_gap() {
    let mut tree = obj(vec![("a", Json::Null), ("b", Json::Bool(true)), ("c", text("x"))]);
    assert_eq!(pop_value_child(&mut tree, &path("a")), Some(Json::Null));
    assert_eq!(tree, obj(vec![("c", text("x")), ("b", Json::Bool(true))]));
    assert_eq!(pop_value_child(&mut tree, &path("a")), None);
}

#[test]
fn pop_joins_segments_with_dots() {
    let mut tree = obj(vec![("x.y.z", Json::Null), ("xyz", Json::Null), ("x", Json::Null)]);
    assert_eq!(pop_value_child(&mut tree, &path("x.y.z")), Some(Json::Null));
    assert_eq!(tree, obj(vec![("x", Json::Null), ("xyz", Json::Null)]));
}
