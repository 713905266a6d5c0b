use alias_manager::AliasStore;
use alias_manager::Doc;
use alias_manager::Entry;
use alias_manager::add_entry;
use alias_manager::pack_alias_list;
use alias_manager::parse_document;
use alias_manager::render_document;
use alias_manager::render_shell_definitions;
use alias_manager::unpack_alias_list;
use alias_manager::unpack_entry;

fn entry(name: &str, command: &str, description: &str, tags: &[&str]) -> Entry {
    Entry {
        name: name.to_string(),
        command: command.to_string(),
        description: description.to_string(),
        tags: tags.iter().map(|t| t.to_string()).collect(),
    }
}

#[test]
fn one_entry_renders_exactly_one_alias_line() {
    let mut store = AliasStore::new();
    store.insert_if_absent(entry("ll", "ls -la", "list long", &[])).unwrap();
    assert_eq!(render_shell_definitions(&store), "alias ll=\"ls -la\"\n");
}

#[test]
fn entries_render_one_line_each_in_store_order() {
    let mut store = AliasStore::new();
    store.insert_if_absent(entry("gs", "git status", "", &["git"])).unwrap();
    store.insert_if_absent(entry("gl", "git log", "", &["git"])).unwrap();
    assert_eq!(
        render_shell_definitions(&store),
        "alias gs=\"git status\"\nalias gl=\"git log\"\n"
    );
}

#[test]
fn empty_store_renders_nothing() {
    let store = AliasStore::new();
    assert_eq!(render_shell_definitions(&store), "");
}

#[test]
fn parse_then_decode_reads_a_store_from_text() {
    let text = "[{\"name\":\"gs\",\"command\":\"git status\",\
                \"description\":\"status\",\"tags\":[\"git\",\"vc\"]}]";
    let doc = parse_document(text).unwrap();
    let store = unpack_alias_list(&doc).unwrap();
    assert_eq!(store.len(), 1);
    assert_eq!(
        store.get("gs"),
        Some(&entry("gs", "git status", "status", &["git", "vc"]))
    );
}

#[test]
fn parse_rejects_text_that_is_not_json() {
    assert!(parse_document("[{oops").is_err());
    assert!(parse_document("").is_err());
}

#[test]
fn encode_render_parse_decode_round_trips_through_text() {
    let mut store = AliasStore::new();
    let a = entry("a", "echo \\\"x\\\"", "quoted", &["t1", "t2"]);
    let b = entry("b", "printf '%s' b", "", &[]);
    store.insert_if_absent(a.clone()).unwrap();
    store.insert_if_absent(b.clone()).unwrap();
    let text = render_document(&pack_alias_list(&store));
    let rebuilt = unpack_alias_list(&parse_document(&text).unwrap()).unwrap();
    assert_eq!(rebuilt.len(), 2);
    assert_eq!(rebuilt.get("a"), Some(&a));
    assert_eq!(rebuilt.get("b"), Some(&b));
}

#[test]
fn add_entry_appends_a_decodable_object_to_an_array() {
    let mut doc = Doc::Arr(Vec::new());
    add_entry(
        &mut doc,
        "np".to_string(),
        "nano -w".to_string(),
        "editor".to_string(),
        vec!["edit".to_string()],
    );
    match &doc {
        Doc::Arr(elems) => {
            assert_eq!(elems.len(), 1);
            assert_eq!(
                unpack_entry(&elems[0]),
                Ok(entry("np", "nano -w", "editor", &["edit"]))
            );
        }
        _ => panic!("document root is no longer an array"),
    }
}

#[test]
fn add_entry_leaves_a_non_array_document_alone() {
    let mut doc = Doc::Str("scalar".to_string());
    add_entry(
        &mut doc,
        "n".to_string(),
        "c".to_string(),
        "d".to_string(),
        Vec::new(),
    );
    assert!(matches!(doc, Doc::Str(ref s) if s == "scalar"));
}
