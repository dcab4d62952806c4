use vault_web::index::{
    default_query_fields, field_kind, field_name, note_document, schema_fields, FieldKind,
    IndexField, INDEX_WRITER_MEMORY, SEARCH_LIMIT,
};
use vault_web::pages::{landing_note, BaseTemplate, Note};
use vault_web::tree::{build_tree, recurse_tree, TreeNode};

fn s(x: &str) -> String {
    x.to_string()
}

fn node(name: &str, item: u8, children: Vec<usize>) -> TreeNode<u8> {
    TreeNode { name: s(name), item, children }
}

#[test]
fn tree_mirrors_the_arena() {
    let nodes = vec![node("root", 0, vec![2, 1]), node("a.md", 1, vec![]), node("dir", 0, vec![3]), node("b.md", 1, vec![])];
    let t = build_tree(&nodes, s("V"), s("a"));
    assert_eq!(t.name, "root");
    assert_eq!(t.vault_name, "V");
    assert_eq!(t.open_note_name, "a");
    assert_eq!(t.children.len(), 2);
    assert_eq!(t.children[0].name, "dir");
    assert_eq!(t.children[0].children[0].name, "b.md");
    assert_eq!(t.children[0].children[0].item, 1);
    assert_eq!(t.children[1].name, "a.md");
    assert!(t.children[1].children.is_empty());
}

#[test]
fn subtree_from_an_inner_node() {
    let nodes = vec![node("root", 0, vec![1]), node("dir", 0, vec![2]), node("n", 1, vec![])];
    let t = recurse_tree(&nodes, 1, s("V"), s(""));
    assert_eq!(t.name, "dir");
    assert_eq!(t.children[0].open_note_name, "");
}

#[test]
fn shared_children_appear_twice() {
    let nodes = vec![node("root", 0, vec![1, 1]), node("n", 1, vec![])];
    let t = build_tree(&nodes, s("V"), s("n"));
    assert_eq!(t.children.len(), 2);
    assert_eq!(t.children[1].name, "n");
}

#[test]
fn index_schema() {
    assert_eq!(
        schema_fields(),
        vec![IndexField::Title, IndexField::Vault, IndexField::Tag, IndexField::Body]
    );
    let names: Vec<String> = schema_fields().into_iter().map(field_name).collect();
    assert_eq!(names, vec![s("title"), s("vault"), s("tag"), s("body")]);
    assert_eq!(field_kind(IndexField::Title), FieldKind::Words);
    assert_eq!(field_kind(IndexField::Tag), FieldKind::Whole);
    assert_eq!(field_kind(IndexField::Vault), FieldKind::Whole);
    assert_eq!(field_kind(IndexField::Body), FieldKind::Words);
    assert_eq!(default_query_fields(), vec![IndexField::Title, IndexField::Body, IndexField::Vault]);
    assert_eq!(INDEX_WRITER_MEMORY, 50_000_000);
    assert_eq!(SEARCH_LIMIT, 50);
    assert!(schema_fields().into_iter().all(vault_web::index::field_stored));
}

#[test]
fn note_becomes_document() {
    let d = note_document(&s("Note"), &s("V"), &vec![s("t1"), s("t2")], &s("body"));
    assert_eq!(
        d,
        vec![
            (IndexField::Title, s("Note")),
            (IndexField::Vault, s("V")),
            (IndexField::Tag, s("t1")),
            (IndexField::Tag, s("t2")),
            (IndexField::Body, s("body")),
        ]
    );
    assert_eq!(note_document(&s(""), &s(""), &vec![], &s("")).len(), 3);
}

#[test]
fn landing_note_prefers_index() {
    assert_eq!(landing_note(&vec![s("a"), s("Index"), s("b")]), Some(1));
    assert_eq!(landing_note(&vec![s("a"), s("b")]), Some(0));
    assert_eq!(landing_note(&vec![]), None);
    assert_eq!(landing_note(&vec![s("index")]), Some(0));
}

#[test]
fn page_data_holds_fields() {
    let b = BaseTemplate { pagetitle: "Home", dark_mode: true };
    assert_eq!(b.pagetitle, "Home");
    let n = Note { name: s("n"), tags: vec![s("t")], content: s("<p>x</p>") };
    assert_eq!(n.tags.len(), 1);
}

#[test]
fn finite_within_rejects_cycles_and_missing_children() {
    let good = vec![node("root", 0, vec![1]), node("n", 1, vec![])];
    assert!(vault_web::tree::finite_within(&good, 0, 3));
    assert!(!vault_web::tree::finite_within(&good, 0, 1));
    let cyclic = vec![node("root", 0, vec![1]), node("d", 0, vec![0])];
    assert!(!vault_web::tree::finite_within(&cyclic, 0, 3));
    let missing = vec![node("root", 0, vec![5])];
    assert!(!vault_web::tree::finite_within(&missing, 0, 2));
    assert!(!vault_web::tree::finite_within(&good, 7, 3));
}
