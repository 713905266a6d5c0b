use alias_manager::AliasStore;
use alias_manager::Doc;
use alias_manager::Entry;
use alias_manager::SchemaError;
use alias_manager::pack_alias_list;
use alias_manager::pack_entry;
use alias_manager::unpack_alias_list;
use alias_manager::unpack_entry;

fn entry(name: &str, command: &str, description: &str, tags: &[&str]) -> Entry {
    Entry {
        name: name.to_string(),
        command: command.to_string(),
        description: description.to_string(),
        tags: tags.iter().map(|t| t.to_string()).collect(),
    }
}

fn entry_obj(name: &str, command: &str, description: &str, tags: Vec<Doc>) -> Doc {
    Doc::Obj(vec![
        ("name".to_string(), Doc::Str(name.to_string())),
        ("command".to_string(), Doc::Str(command.to_string())),
        ("description".to_string(), Doc::Str(description.to_string())),
        ("tags".to_string(), Doc::Arr(tags)),
    ])
}

#[test]
fn entry_round_trip_keeps_every_field_and_tag_order() {
    let e = entry("ll", "ls -la", "long listing", &["fs", "list", "fs"]);
    let packed = pack_entry(&e);
    assert_eq!(unpack_entry(&packed), Ok(e));
}

#[test]
fn store_round_trip_keeps_key_set_and_entries() {
    let mut store = AliasStore::new();
    let a = entry("a", "echo a", "first", &["x"]);
    let b = entry("b", "echo b", "second", &[]);
    let c = entry("c", "echo c", "third", &["y", "z"]);
    store.insert_if_absent(a.clone()).unwrap();
    store.insert_if_absent(b.clone()).unwrap();
    store.insert_if_absent(c.clone()).unwrap();
    let packed = pack_alias_list(&store);
    let rebuilt = unpack_alias_list(&packed).unwrap();
    assert_eq!(rebuilt.len(), 3);
    assert_eq!(rebuilt.get("a"), Some(&a));
    assert_eq!(rebuilt.get("b"), Some(&b));
    assert_eq!(rebuilt.get("c"), Some(&c));
}

#[test]
fn empty_store_round_trips() {
    let store = AliasStore::new();
    let packed = pack_alias_list(&store);
    let rebuilt = unpack_alias_list(&packed).unwrap();
    assert_eq!(rebuilt.len(), 0);
}

#[test]
fn non_string_tag_element_is_a_schema_error() {
    let doc = Doc::Arr(vec![entry_obj(
        "n",
        "c",
        "d",
        vec![Doc::Str("t".to_string()), Doc::Num(json::number::Number::from(5))],
    )]);
    assert!(matches!(unpack_alias_list(&doc), Err(SchemaError::TagShape)));
}

#[test]
fn non_array_root_is_a_root_shape_error() {
    let doc = Doc::Obj(vec![("not".to_string(), Doc::Str("an array".to_string()))]);
    assert!(matches!(unpack_alias_list(&doc), Err(SchemaError::RootShape)));
}

#[test]
fn missing_field_is_an_entry_shape_error() {
    let doc = Doc::Obj(vec![
        ("name".to_string(), Doc::Str("n".to_string())),
        ("command".to_string(), Doc::Str("c".to_string())),
        ("tags".to_string(), Doc::Arr(Vec::new())),
    ]);
    assert_eq!(unpack_entry(&doc), Err(SchemaError::EntryShape));
}

#[test]
fn non_string_field_is_an_entry_shape_error() {
    let doc = Doc::Obj(vec![
        ("name".to_string(), Doc::Str("n".to_string())),
        ("command".to_string(), Doc::Bool(true)),
        ("description".to_string(), Doc::Str("d".to_string())),
        ("tags".to_string(), Doc::Arr(Vec::new())),
    ]);
    assert_eq!(unpack_entry(&doc), Err(SchemaError::EntryShape));
}

#[test]
fn tags_field_that_is_not_an_array_is_an_entry_shape_error() {
    let doc = Doc::Obj(vec![
        ("name".to_string(), Doc::Str("n".to_string())),
        ("command".to_string(), Doc::Str("c".to_string())),
        ("description".to_string(), Doc::Str("d".to_string())),
        ("tags".to_string(), Doc::Str("t".to_string())),
    ]);
    assert_eq!(unpack_entry(&doc), Err(SchemaError::EntryShape));
}

#[test]
fn non_object_element_is_an_entry_shape_error() {
    let doc = Doc::Arr(vec![Doc::Null]);
    assert!(matches!(unpack_alias_list(&doc), Err(SchemaError::EntryShape)));
}

#[test]
fn first_bad_element_aborts_the_whole_decode() {
    let doc = Doc::Arr(vec![
        entry_obj("good", "c", "d", Vec::new()),
        Doc::Null,
        entry_obj("later", "c", "d", Vec::new()),
    ]);
    assert!(matches!(unpack_alias_list(&doc), Err(SchemaError::EntryShape)));
}

#[test]
fn repeated_name_decodes_to_the_last_occurrence() {
    let doc = Doc::Arr(vec![
        entry_obj("dup", "first command", "one", Vec::new()),
        entry_obj("dup", "second command", "two", Vec::new()),
    ]);
    let store = unpack_alias_list(&doc).unwrap();
    assert_eq!(store.len(), 1);
    let e = store.get("dup").unwrap();
    assert_eq!(e.command, "second command");
    assert_eq!(e.description, "two");
}
