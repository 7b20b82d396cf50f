use fcp_rust::lsp::types::{Position, Range, SymbolKind};
use fcp_rust::resolver::fuzzy::FuzzyIndex;
use fcp_rust::resolver::index::{SymbolEntry, SymbolIndex};

fn make_range(line: u32) -> Range {
    Range { start: Position { line, character: 0 }, end: Position { line, character: 10 } }
}

fn make_entry(name: &str, kind: SymbolKind, uri: &str, container: Option<&str>) -> SymbolEntry {
    SymbolEntry {
        name: name.to_string(),
        kind,
        container_name: container.map(|s| s.to_string()),
        uri: uri.to_string(),
        range: make_range(0),
        selection_range: make_range(0),
    }
}

#[test]
fn test_insert_and_lookup_by_name() {
    let mut idx = SymbolIndex::new();
    idx.insert(make_entry("main", SymbolKind::Function, "file:///main.rs", None));
    let results = idx.lookup_by_name("main");
    assert_eq!(results.len(), 1);
    assert_eq!(results[0].name, "main");
}

#[test]
fn test_lookup_by_file() {
    let mut idx = SymbolIndex::new();
    idx.insert(make_entry("foo", SymbolKind::Function, "file:///lib.rs", None));
    idx.insert(make_entry("bar", SymbolKind::Function, "file:///lib.rs", None));
    idx.insert(make_entry("baz", SymbolKind::Function, "file:///main.rs", None));

    let results = idx.lookup_by_file("file:///lib.rs");
    assert_eq!(results.len(), 2);
}

#[test]
fn test_lookup_by_container() {
    let mut idx = SymbolIndex::new();
    idx.insert(make_entry("method_a", SymbolKind::Method, "file:///lib.rs", Some("MyStruct")));
    idx.insert(make_entry("method_b", SymbolKind::Method, "file:///lib.rs", Some("MyStruct")));

    let results = idx.lookup_by_container("MyStruct");
    assert_eq!(results.len(), 2);
}

#[test]
fn test_lookup_missing() {
    let idx = SymbolIndex::new();
    assert!(idx.lookup_by_name("nonexistent").is_empty());
    assert!(idx.lookup_by_file("file:///none.rs").is_empty());
    assert!(idx.lookup_by_container("Nothing").is_empty());
}

#[test]
fn test_multiple_entries_same_name() {
    let mut idx = SymbolIndex::new();
    idx.insert(make_entry("new", SymbolKind::Function, "file:///a.rs", Some("A")));
    idx.insert(make_entry("new", SymbolKind::Function, "file:///b.rs", Some("B")));

    let results = idx.lookup_by_name("new");
    assert_eq!(results.len(), 2);
}

#[test]
fn test_invalidate_file() {
    let mut idx = SymbolIndex::new();
    idx.insert(make_entry("foo", SymbolKind::Function, "file:///lib.rs", Some("Mod")));
    idx.insert(make_entry("bar", SymbolKind::Function, "file:///main.rs", None));

    idx.invalidate_file("file:///lib.rs");

    assert!(idx.lookup_by_file("file:///lib.rs").is_empty());
    assert!(idx.lookup_by_name("foo").is_empty());
    assert!(idx.lookup_by_container("Mod").is_empty());
    assert_eq!(idx.lookup_by_name("bar").len(), 1);
}

#[test]
fn test_size() {
    let mut idx = SymbolIndex::new();
    assert_eq!(idx.size(), 0);
    idx.insert(make_entry("a", SymbolKind::Function, "file:///a.rs", None));
    idx.insert(make_entry("b", SymbolKind::Function, "file:///a.rs", None));
    idx.insert(make_entry("c", SymbolKind::Function, "file:///b.rs", None));
    assert_eq!(idx.size(), 3);
}

#[test]
fn test_invalidate_then_size() {
    let mut idx = SymbolIndex::new();
    idx.insert(make_entry("a", SymbolKind::Function, "file:///a.rs", None));
    idx.insert(make_entry("b", SymbolKind::Function, "file:///b.rs", None));
    assert_eq!(idx.size(), 2);
    idx.invalidate_file("file:///a.rs");
    assert_eq!(idx.size(), 1);
}

#[test]
fn test_invalidate_nonexistent_file() {
    let mut idx = SymbolIndex::new();
    idx.insert(make_entry("a", SymbolKind::Function, "file:///a.rs", None));
    idx.invalidate_file("file:///nonexistent.rs");
    assert_eq!(idx.size(), 1);
}

#[test]
fn lookups_keep_insertion_order_after_invalidation() {
    let mut idx = SymbolIndex::default();
    idx.insert(make_entry("x", SymbolKind::Struct, "file:///1.rs", None));
    idx.insert(make_entry("x", SymbolKind::Enum, "file:///2.rs", None));
    idx.insert(make_entry("x", SymbolKind::Field, "file:///3.rs", None));
    idx.invalidate_file("file:///2.rs");
    let found = idx.lookup_by_name("x");
    assert_eq!(found.len(), 2);
    assert_eq!(found[0].uri, "file:///1.rs");
    assert_eq!(found[1].uri, "file:///3.rs");
    assert_eq!(idx.lookup_by_file("file:///3.rs").len(), 1);
}

#[test]
fn fuzzy_index_builds() {
    let _a = FuzzyIndex::new();
    let _b = FuzzyIndex::default();
}
