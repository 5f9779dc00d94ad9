use rubocop::ast::{Node, NodeKind, ParentIndex, SyntaxTree};
use rubocop::config::{Config, ConfigTree, ConfigValue};
use rubocop::expect_offense::{normalize_source, AnnotatedSource};
use rubocop::reporter::{Color, Reporter};
use rubocop::source::{DecodedInput, Loc, RangeHelp, Side};

fn input(text: &str) -> DecodedInput {
    DecodedInput::new("t.rb".to_string(), text.as_bytes().to_vec())
}

#[test]
fn line_and_column_of_offsets() {
    let src = input("ab\ncd\n");
    assert_eq!(src.line_col_for_pos(0), (0, 0));
    assert_eq!(src.line_col_for_pos(2), (0, 2));
    assert_eq!(src.line_col_for_pos(3), (1, 0));
    assert_eq!(src.line_col_for_pos(4), (1, 1));
    assert_eq!(src.line_col_for_pos(6), (2, 0));
}

#[test]
fn source_text_of_a_range() {
    let src = input("puts 'x'");
    assert_eq!(src.source(Loc { begin: 0, end: 4 }), "puts");
    let bad = DecodedInput::new("b.rb".to_string(), vec![b'a', 0xff, b'b']);
    assert_eq!(bad.source(Loc { begin: 0, end: 3 }), "a\u{fffd}b");
    assert!(src.source_is(Loc { begin: 5, end: 8 }, b"'x'"));
    assert!(!src.source_is(Loc { begin: 5, end: 8 }, b"'y'"));
}

#[test]
fn intersect_clamps_to_the_buffer() {
    let src = input("abc");
    assert_eq!(src.intersect(Loc { begin: 1, end: 10 }), Loc { begin: 1, end: 3 });
    assert_eq!(src.intersect(Loc { begin: 0, end: 2 }), Loc { begin: 0, end: 2 });
    assert_eq!(src.intersect(Loc { begin: 10, end: 20 }), Loc { begin: 3, end: 3 });
}

#[test]
fn widening_over_commas() {
    let src = input("a,,b,c");
    let r = Loc { begin: 3, end: 4 };
    assert_eq!(src.range_with_surrounding_comma(r, Side::Both), Loc { begin: 1, end: 5 });
    assert_eq!(src.range_with_surrounding_comma(r, Side::Left), Loc { begin: 1, end: 4 });
    assert_eq!(src.range_with_surrounding_comma(r, Side::Right), Loc { begin: 3, end: 5 });
    assert_eq!(src.range_with_surrounding_comma(Loc { begin: 0, end: 1 }, Side::Left), Loc { begin: 0, end: 1 });
}

#[test]
fn widening_over_space() {
    let src = input("x = \\\n  y  \n\nz");
    let y = Loc { begin: 8, end: 9 };
    let plain = src.range_with_surrounding_space(y).build(&src);
    assert_eq!(plain, Loc { begin: 5, end: 13 });
    let cont = src.range_with_surrounding_space(y).continuations(true).side(Side::Left).build(&src);
    assert_eq!(cont, Loc { begin: 4, end: 9 });
    let no_newlines = src.range_with_surrounding_space(y).newlines(false).side(Side::Right).build(&src);
    assert_eq!(no_newlines, Loc { begin: 8, end: 11 });
    let all = src.range_with_surrounding_space(y).whitespace(true).build(&src);
    assert_eq!(all, Loc { begin: 5, end: 13 });
}

#[test]
fn widening_to_whole_lines() {
    let src = input("a\n  bc d\ne");
    let r = Loc { begin: 4, end: 5 };
    assert_eq!(src.range_by_whole_lines(r).build(&src), Loc { begin: 2, end: 8 });
    assert_eq!(src.range_by_whole_lines(r).include_final_newline(true).build(&src), Loc { begin: 2, end: 9 });
    let last = Loc { begin: 9, end: 10 };
    assert_eq!(src.range_by_whole_lines(last).include_final_newline(true).build(&src), Loc { begin: 9, end: 10 });
}

#[test]
fn join_and_with_end() {
    let a = Loc { begin: 2, end: 5 };
    let b = Loc { begin: 4, end: 9 };
    assert_eq!(a.join(b), Loc { begin: 2, end: 9 });
    assert_eq!(a.with_end(7), Loc { begin: 2, end: 7 });
}

#[test]
fn config_override_default_and_absent() {
    let mut defaults = ConfigTree::new();
    defaults.insert("Style/Not".to_string(), "Enabled".to_string(), ConfigValue::Bool(true));
    defaults.insert("AllCops".to_string(), "ActiveSupportExtensionsEnabled".to_string(), ConfigValue::Bool(true));
    let mut overrides = ConfigTree::new();
    overrides.insert("Style/Not".to_string(), "Enabled".to_string(), ConfigValue::Bool(false));
    overrides.insert("Style/Not".to_string(), "Enabled".to_string(), ConfigValue::Bool(true));
    let config = Config::new(Some(overrides), defaults);
    assert!(!config.is_cop_enabled(&"Style/Not".to_string()));
    assert!(!config.is_cop_enabled(&"Style/Other".to_string()));
    assert!(config.is_active_support_extensions_enabled());

    let bare = Config::new(None, ConfigTree::new());
    assert!(!bare.is_cop_enabled(&"Style/Not".to_string()));
    assert!(!bare.is_active_support_extensions_enabled());
    let stringy = {
        let mut t = ConfigTree::new();
        t.insert("Style/Not".to_string(), "Enabled".to_string(), ConfigValue::Str("yes".to_string()));
        Config::new(None, t)
    };
    assert!(!stringy.is_cop_enabled(&"Style/Not".to_string()));
    assert!(stringy.get(&"Style/Not".to_string(), &"Enabled".to_string()).is_some());
}

#[test]
fn parent_index_covers_every_node_but_the_root() {
    let l = Loc { begin: 0, end: 1 };
    let mut tree = SyntaxTree::new(Node::new(NodeKind::Other, l));
    let a = tree.add_node(0, Node::new(NodeKind::Send, l));
    let b = tree.add_node(0, Node::new(NodeKind::Const, l));
    let c = tree.add_node(a, Node::new(NodeKind::Str, l));
    let d = tree.add_node(c, Node::new(NodeKind::Array, l));
    let index = ParentIndex::build(&tree);
    assert_eq!(index.parent(0), None);
    assert_eq!(index.parent(a), Some(0));
    assert_eq!(index.parent(b), Some(0));
    assert_eq!(index.parent(c), Some(a));
    assert_eq!(index.parent(d), Some(c));
    let entries = (0..tree.node_count()).filter(|&j| index.parent(j).is_some()).count();
    assert_eq!(entries, tree.node_count() - 1);
    assert_eq!(tree.node(0).children(), &vec![a, b]);
}

#[test]
fn annotated_source_splits_annotations() {
    let a = AnnotatedSource::parse("foo bar\n    ^^^ msg\nbaz");
    assert_eq!(a.plain_source(), "foo bar\nbaz");
    let b = AnnotatedSource::parse("foo bar\n    ^^^ msg\nbaz");
    assert!(a.same_as(&b));
    let abbreviated = AnnotatedSource::parse("foo bar\n    ^^^ m[...]\nbaz");
    assert!(a.same_as(&abbreviated));
    let other = AnnotatedSource::parse("foo bar\n    ^^^ other\nbaz");
    assert!(!a.same_as(&other));
    let empty = AnnotatedSource::parse("x\n^{} at the start");
    assert_eq!(empty.plain_source(), "x");
    assert_eq!(empty.to_text(), "x\n^{} at the start\n");
}

#[test]
fn normalize_strips_the_test_indentation() {
    assert_eq!(normalize_source("\n    a\n      b\n    "), "a\n  b");
    assert_eq!(normalize_source("plain"), "plain");
}

#[test]
fn color_codes() {
    assert_eq!(Color::Red.fg_code(), 31);
    assert_eq!(Color::Red.bg_code(), 41);
    assert_eq!(Color::BrightWhite.fg_code(), 97);
    assert_eq!(Color::Black.bg_code(), 40);
    assert!(Reporter::new(true).no_color);
}

#[test]
fn format_source_fills_placeholders() {
    let r = vec![("m".to_string(), "abc".to_string())];
    assert_eq!(rubocop::expect_offense::format_source("x.%{m} ^{m}|_{m}|%{n}", &r), "x.abc ^^^|   |%{n}");
    assert_eq!(rubocop::expect_offense::format_source("%{m}%{m}", &r), "abcabc");
    assert_eq!(rubocop::expect_offense::format_source("none", &vec![]), "none");
}

#[test]
fn config_scoped_to_a_rule() {
    let mut defaults = ConfigTree::new();
    defaults.insert("Style/Not".to_string(), "Enabled".to_string(), ConfigValue::Bool(true));
    defaults.insert("AllCops".to_string(), "ActiveSupportExtensionsEnabled".to_string(), ConfigValue::Bool(false));
    let config = Config::new(None, defaults);
    let not = config.for_cop(&"Style/Not".to_string());
    assert!(matches!(not.get(&"Enabled".to_string()), Some(ConfigValue::Bool(true))));
    assert!(not.get(&"Missing".to_string()).is_none());
    let all = config.for_all_cops();
    assert!(matches!(all.get(&"ActiveSupportExtensionsEnabled".to_string()), Some(ConfigValue::Bool(false))));
}
