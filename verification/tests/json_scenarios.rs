//! Scenario tests for the JSON grammar: structural mutations and their
//! typed failures.

use sapling::arena::Arena;
use sapling::ast::{to_text, Ast, DeleteError, InsertError};
use sapling::json::{Json, JsonFormat};

#[test]
fn insert_into_empty_object_synthesizes_field() {
    let mut arena: Arena<Json> = Arena::new();
    let t = arena.add_node(Json::True);
    let mut obj = Json::Object(Vec::new());
    assert_eq!(obj.children().len(), 0);
    assert_eq!(obj.min_children(), 0);
    assert_eq!(obj.max_children(), None);
    obj.insert_child(t, &mut arena, 0).unwrap();
    assert_eq!(obj.children().len(), 1);
    let f = obj.children()[0];
    match arena.get(f) {
        Json::Field(kids) => {
            assert_eq!(kids.len(), 2);
            match arena.get(kids[0]) {
                Json::Str(s) => assert_eq!(s, ""),
                other => panic!("expected string key, got {:?}", other),
            }
            assert!(matches!(arena.get(kids[1]), Json::True));
        },
        other => panic!("expected field, got {:?}", other),
    }
    let root = arena.add_node(obj);
    assert_eq!(to_text(&arena, root, &JsonFormat::Compact), "{\"\": true}");
}

#[test]
fn delete_only_child_of_array_yields_empty_array() {
    let mut arena: Arena<Json> = Arena::new();
    let t = arena.add_node(Json::True);
    let mut arr = Json::Array(vec![t]);
    assert_eq!(arr.min_children(), 0);
    arr.delete_child(0).unwrap();
    assert_eq!(arr.children().len(), 0);
    let root = arena.add_node(arr);
    assert_eq!(to_text(&arena, root, &JsonFormat::Compact), "[]");
}

#[test]
fn delete_only_child_of_root_is_too_few_children() {
    let mut arena: Arena<Json> = Arena::new();
    let t = arena.add_node(Json::True);
    let mut root = Json::Root(vec![t]);
    assert_eq!(root.min_children(), 1);
    let before = root.clone();
    let err = root.delete_child(0).unwrap_err();
    assert_eq!(
        err,
        DeleteError::TooFewChildren { name: "root".to_owned(), min_children: 1 }
    );
    assert_eq!(root, before);
}

#[test]
fn delete_at_child_count_is_index_out_of_range() {
    let mut arena: Arena<Json> = Arena::new();
    let t = arena.add_node(Json::True);
    let f = arena.add_node(Json::False);
    let mut arr = Json::Array(vec![t, f]);
    let before = arr.clone();
    let err = arr.delete_child(2).unwrap_err();
    assert_eq!(err, DeleteError::IndexOutOfRange { len: 2, index: 2 });
    assert_eq!(arr, before);
}

#[test]
fn delete_shifts_later_children_down() {
    let mut arena: Arena<Json> = Arena::new();
    let a = arena.add_node(Json::True);
    let b = arena.add_node(Json::False);
    let c = arena.add_node(Json::Str("x".to_owned()));
    let mut arr = Json::Array(vec![a, b, c]);
    arr.delete_child(1).unwrap();
    assert_eq!(arr.children(), vec![a, c]);
}

#[test]
fn insert_into_array_shifts_later_children_up() {
    let mut arena: Arena<Json> = Arena::new();
    let a = arena.add_node(Json::True);
    let b = arena.add_node(Json::False);
    let c = arena.add_node(Json::Str("x".to_owned()));
    let mut arr = Json::Array(vec![a, b]);
    arr.insert_child(c, &mut arena, 1).unwrap();
    assert_eq!(arr.children(), vec![a, c, b]);
}

#[test]
fn insert_into_leaf_is_too_many_children() {
    let mut arena: Arena<Json> = Arena::new();
    let t = arena.add_node(Json::True);
    let mut leaf = Json::False;
    let arena_len = arena.len();
    let err = leaf.insert_child(t, &mut arena, 0).unwrap_err();
    assert_eq!(
        err,
        InsertError::TooManyChildren { name: "false".to_owned(), max_children: 0 }
    );
    assert_eq!(leaf, Json::False);
    assert_eq!(arena.len(), arena_len);
}

#[test]
fn insert_into_full_field_is_too_many_children() {
    let mut arena: Arena<Json> = Arena::new();
    let k = arena.add_node(Json::Str(String::new()));
    let v = arena.add_node(Json::True);
    let extra = arena.add_node(Json::False);
    let mut field = Json::Field(vec![k, v]);
    let before = field.clone();
    let err = field.insert_child(extra, &mut arena, 1).unwrap_err();
    assert_eq!(
        err,
        InsertError::TooManyChildren { name: "field".to_owned(), max_children: 2 }
    );
    assert_eq!(field, before);
}

#[test]
fn child_counts_stay_within_declared_arity() {
    let mut arena: Arena<Json> = Arena::new();
    let t = arena.add_node(Json::True);
    let mut obj = Json::Object(Vec::new());
    assert!(obj.children().len() >= obj.min_children());
    obj.insert_child(t, &mut arena, 0).unwrap();
    assert!(obj.children().len() >= obj.min_children());
    // a failed mutation leaves the count unchanged
    let mut root = Json::Root(vec![t]);
    let count = root.children().len();
    assert!(root.delete_child(0).is_err());
    assert_eq!(root.children().len(), count);
    assert!(count >= root.min_children());
    assert_eq!(root.max_children(), Some(1));
    assert!(count <= 1);
}

#[test]
fn replace_child_swaps_one_reference_in_place() {
    let mut arena: Arena<Json> = Arena::new();
    let a = arena.add_node(Json::True);
    let b = arena.add_node(Json::False);
    let c = arena.add_node(Json::Str("y".to_owned()));
    let mut arr = Json::Array(vec![a, b]);
    arr.replace_child(1, c);
    assert_eq!(arr.children(), vec![a, c]);
}

#[test]
fn default_node_is_an_empty_object() {
    let d = Json::default();
    assert_eq!(d, Json::Object(Vec::new()));
}

#[test]
fn replace_and_insert_shortcut_characters() {
    let obj = Json::Object(Vec::new());
    assert!(obj.is_replace_char('t'));
    assert!(obj.is_replace_char('o'));
    assert!(!obj.is_replace_char('x'));
    assert_eq!(obj.from_char('t'), Some(Json::True));
    assert_eq!(obj.from_char('f'), Some(Json::False));
    assert_eq!(obj.from_char('s'), Some(Json::Str(String::new())));
    assert_eq!(obj.from_char('a'), Some(Json::Array(Vec::new())));
    assert_eq!(obj.from_char('o'), Some(Json::Object(Vec::new())));
    assert_eq!(obj.from_char('x'), None);
    let field = Json::Field(vec![0, 1]);
    assert_eq!(field.replace_chars(), Vec::new());
    assert_eq!(field.from_char('t'), None);
    assert!(!field.is_replace_char('t'));
    assert!(obj.is_insert_char('t'));
    assert!(!Json::True.is_insert_char('t'));
    assert_eq!(Json::True.insert_chars(), Vec::new());
    assert_eq!(obj.replace_chars(), vec!['t', 'f', 's', 'a', 'o']);
}

#[test]
fn error_messages_render_their_details() {
    let e1 = InsertError::TooManyChildren { name: "field".to_owned(), max_children: 2 };
    assert_eq!(e1.message(), "Can't exceed child count limit of 2 in field");
    let e2 = DeleteError::TooFewChildren { name: "root".to_owned(), min_children: 1 };
    assert_eq!(e2.message(), "Node type root can't have fewer than 1 children.");
    let e3 = DeleteError::IndexOutOfRange { len: 10, index: 25 };
    assert_eq!(e3.message(), "Deleting child index 25 is out of range 0..10");
}

#[test]
fn error_messages_render_zero_and_large_numbers() {
    let e1 = DeleteError::TooFewChildren { name: "object".to_owned(), min_children: 0 };
    assert_eq!(e1.message(), "Node type object can't have fewer than 0 children.");
    let e2 = DeleteError::IndexOutOfRange { len: 1234567890, index: 0 };
    assert_eq!(
        e2.message(),
        "Deleting child index 0 is out of range 0..1234567890"
    );
}
