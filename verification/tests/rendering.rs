//! Tests for the token stream, the text renderer and the tree-view
//! renderer.

use sapling::arena::Arena;
use sapling::ast::{display_tokens, to_text, tree_view, write_text, write_tree_view, Ast};
use sapling::display_token::{write_tokens, DisplayToken};
use sapling::json::{Json, JsonFormat};

/// An arena holding `{"a": true}` and the index of the object node.
fn small_object() -> (Arena<Json>, usize) {
    let mut arena: Arena<Json> = Arena::new();
    let k = arena.add_node(Json::Str("a".to_owned()));
    let t = arena.add_node(Json::True);
    let f = arena.add_node(Json::Field(vec![k, t]));
    let obj = arena.add_node(Json::Object(vec![f]));
    (arena, obj)
}

#[test]
fn compact_object_renders_on_one_line() {
    let (arena, obj) = small_object();
    assert_eq!(to_text(&arena, obj, &JsonFormat::Compact), "{\"a\": true}");
}

#[test]
fn pretty_object_renders_with_indentation() {
    let (arena, obj) = small_object();
    assert_eq!(
        to_text(&arena, obj, &JsonFormat::Pretty),
        "{\n    \"a\": true\n}"
    );
}

#[test]
fn compact_array_separates_children_with_comma_space() {
    let mut arena: Arena<Json> = Arena::new();
    let t = arena.add_node(Json::True);
    let f = arena.add_node(Json::False);
    let arr = arena.add_node(Json::Array(vec![t, f]));
    assert_eq!(to_text(&arena, arr, &JsonFormat::Compact), "[true, false]");
}

#[test]
fn pretty_array_puts_each_child_on_its_own_line() {
    let mut arena: Arena<Json> = Arena::new();
    let t = arena.add_node(Json::True);
    let f = arena.add_node(Json::False);
    let arr = arena.add_node(Json::Array(vec![t, f]));
    assert_eq!(
        to_text(&arena, arr, &JsonFormat::Pretty),
        "[\n    true,\n    false\n]"
    );
}

#[test]
fn nested_pretty_rendering_indents_twice() {
    let mut arena: Arena<Json> = Arena::new();
    let t = arena.add_node(Json::True);
    let inner = arena.add_node(Json::Array(vec![t]));
    let outer = arena.add_node(Json::Array(vec![inner]));
    assert_eq!(
        to_text(&arena, outer, &JsonFormat::Pretty),
        "[\n    [\n        true\n    ]\n]"
    );
}

#[test]
fn rendering_is_deterministic() {
    let (arena, obj) = small_object();
    for style in [JsonFormat::Compact, JsonFormat::Pretty] {
        let first = to_text(&arena, obj, &style);
        let second = to_text(&arena, obj, &style);
        assert_eq!(first, second);
    }
}

#[test]
fn display_tokens_is_idempotent() {
    let (arena, obj) = small_object();
    for style in [JsonFormat::Compact, JsonFormat::Pretty] {
        let first = display_tokens(&arena, obj, &style);
        let second = display_tokens(&arena, obj, &style);
        assert_eq!(first, second);
    }
}

#[test]
fn tokens_are_tagged_with_their_originating_node() {
    let (arena, obj) = small_object();
    let toks = display_tokens(&arena, obj, &JsonFormat::Compact);
    // the stream starts with the object's own opening brace
    match &toks[0] {
        (node, DisplayToken::Text(s, _)) => {
            assert_eq!(*node, obj);
            assert_eq!(s, "{");
        },
        other => panic!("unexpected first token {:?}", other),
    }
    // and splices in the key's quoted text, tagged with the key node
    assert!(toks.iter().any(|(node, tok)| {
        *node == 0 && matches!(tok, DisplayToken::Text(s, _) if s == "\"a\"")
    }));
}

#[test]
fn indents_and_dedents_balance_in_every_stream() {
    let mut arena: Arena<Json> = Arena::new();
    let t = arena.add_node(Json::True);
    let inner = arena.add_node(Json::Array(vec![t]));
    let k = arena.add_node(Json::Str("k".to_owned()));
    let f = arena.add_node(Json::Field(vec![k, inner]));
    let obj = arena.add_node(Json::Object(vec![f]));
    for style in [JsonFormat::Compact, JsonFormat::Pretty] {
        let toks = display_tokens(&arena, obj, &style);
        let indents = toks
            .iter()
            .filter(|(_, t2)| matches!(t2, DisplayToken::Indent))
            .count();
        let dedents = toks
            .iter()
            .filter(|(_, t2)| matches!(t2, DisplayToken::Dedent))
            .count();
        assert_eq!(indents, dedents);
    }
}

#[test]
fn whitespace_token_renders_as_spaces() {
    let (arena, obj) = small_object();
    // the field emits a one-space Whitespace token after the colon
    let text = to_text(&arena, obj, &JsonFormat::Compact);
    assert!(text.contains("\": true"));
}

#[test]
fn write_text_appends_to_an_existing_string() {
    let (arena, obj) = small_object();
    let mut s = "doc: ".to_owned();
    write_text(&arena, obj, &mut s, &JsonFormat::Compact);
    assert_eq!(s, "doc: {\"a\": true}");
}

#[test]
fn write_tokens_matches_to_text() {
    let (arena, obj) = small_object();
    let mut s = String::new();
    write_tokens(&arena, obj, &mut s, &JsonFormat::Pretty);
    assert_eq!(s, to_text(&arena, obj, &JsonFormat::Pretty));
}

#[test]
fn tree_view_lists_one_line_per_node() {
    let (arena, obj) = small_object();
    let view = tree_view(&arena, obj);
    assert_eq!(view, "object\n  field\n    \"a\"\n    true");
    // line count equals node count, with no trailing newline
    assert_eq!(view.lines().count(), 4);
    assert!(!view.ends_with('\n'));
}

#[test]
fn write_tree_view_appends_without_trailing_newline() {
    let mut arena: Arena<Json> = Arena::new();
    let t = arena.add_node(Json::True);
    let mut s = "tree: ".to_owned();
    write_tree_view(&arena, t, &mut s);
    assert_eq!(s, "tree: true");
}

#[test]
fn tree_view_line_count_grows_with_the_tree() {
    let mut arena: Arena<Json> = Arena::new();
    let a = arena.add_node(Json::True);
    let b = arena.add_node(Json::False);
    let c = arena.add_node(Json::Str("s".to_owned()));
    let arr = arena.add_node(Json::Array(vec![a, b, c]));
    let root = arena.add_node(Json::Root(vec![arr]));
    let view = tree_view(&arena, root);
    assert_eq!(view.lines().count(), 5);
    assert_eq!(view, "root\n  array\n    true\n    false\n    \"s\"");
}

#[test]
fn empty_containers_render_as_bare_brackets() {
    let mut arena: Arena<Json> = Arena::new();
    let arr = arena.add_node(Json::Array(Vec::new()));
    let obj = arena.add_node(Json::Object(Vec::new()));
    for style in [JsonFormat::Compact, JsonFormat::Pretty] {
        assert_eq!(to_text(&arena, arr, &style), "[]");
        assert_eq!(to_text(&arena, obj, &style), "{}");
    }
}

#[test]
fn mutation_then_rendering_round_trips_through_the_arena() {
    let mut arena: Arena<Json> = Arena::new();
    let t = arena.add_node(Json::True);
    let mut obj = Json::Object(Vec::new());
    obj.insert_child(t, &mut arena, 0).unwrap();
    // earlier references stay valid after the arena grew
    assert!(matches!(arena.get(t), Json::True));
    let root = arena.add_node(obj);
    assert_eq!(to_text(&arena, root, &JsonFormat::Compact), "{\"\": true}");
}
