use rubocop::corrector::Corrector;
use rubocop::source::Loc;
use rubocop::Rewriter;

fn run(code: &[u8], edits: &[(&str, usize, usize, &str)]) -> String {
    let mut r = Rewriter::new(code);
    for &(kind, b, e, text) in edits {
        match kind {
            "replace" => r.replace(b, e, text.to_string()),
            "remove" => r.remove(b, e),
            "before" => r.insert_before(b, text.to_string()),
            "after" => r.insert_after(b, text.to_string()),
            _ => unreachable!(),
        }
    }
    String::from_utf8(r.process(code)).unwrap()
}

#[test]
fn no_edits_give_the_input_back() {
    assert_eq!(run(b"puts 1\n", &[]), "puts 1\n");
    assert_eq!(run(b"", &[]), "");
    assert!(Rewriter::new(b"abc").is_empty());
}

#[test]
fn disjoint_edits_commute() {
    let code = b"0123456789";
    let a = ("replace", 1, 3, "A");
    let b = ("replace", 5, 8, "B");
    assert_eq!(run(code, &[a, b]), "0A34B89");
    assert_eq!(run(code, &[b, a]), "0A34B89");
    let c = ("before", 3, 3, "<");
    assert_eq!(run(code, &[a, c]), run(code, &[c, a]));
}

#[test]
fn same_range_last_replacement_wins() {
    let code = b"0123456789";
    assert_eq!(run(code, &[("replace", 2, 6, "A"), ("replace", 2, 6, "B")]), "01B6789");
    assert_eq!(run(code, &[("replace", 2, 6, "B"), ("replace", 2, 6, "A")]), "01A6789");
    assert_eq!(run(code, &[("replace", 0, 10, "A"), ("replace", 0, 10, "B")]), "B");
}

#[test]
fn nested_edit_inside_replacement_has_no_effect() {
    assert_eq!(run(b"0123456789abc", &[("replace", 0, 10, "X"), ("replace", 2, 4, "Y")]), "Xabc");
    assert_eq!(run(b"0123456789", &[("replace", 0, 10, "X"), ("replace", 2, 4, "Y")]), "X");
}

#[test]
fn overlapping_edits_are_fused() {
    assert_eq!(run(b"0123456789", &[("replace", 0, 5, "A"), ("replace", 3, 8, "B")]), "B89");
    assert_eq!(run(b"01234567", &[("replace", 0, 5, "A"), ("replace", 3, 8, "B")]), "B");
}

#[test]
fn insertions_at_one_point_keep_their_order() {
    let code = b"abc";
    assert_eq!(run(code, &[("before", 1, 1, "x"), ("before", 1, 1, "y")]), "ayxbc");
    assert_eq!(run(code, &[("after", 1, 1, "x"), ("after", 1, 1, "y")]), "axybc");
}

#[test]
fn wrap_keeps_the_edits_inside() {
    let code = b"0123456789";
    let mut r = Rewriter::new(code);
    r.wrap(0, 10, "(".to_string(), ")".to_string());
    r.replace(2, 4, "Y".to_string());
    assert_eq!(String::from_utf8(r.process(code)).unwrap(), "(01Y456789)");
}

#[test]
fn remove_and_empty_insertions() {
    assert_eq!(run(b"hello world", &[("remove", 5, 11, "")]), "hello");
    let mut r = Rewriter::new(b"abc");
    r.insert_before(1, String::new());
    assert!(r.is_empty());
    r.insert_after(1, "!".to_string());
    assert!(!r.is_empty());
}

#[test]
fn corrector_removes_around_a_range() {
    let code = b"(abc)";
    let loc = Loc { begin: 1, end: 4 };
    let mut c = Corrector::new(code);
    assert!(c.is_empty());
    c.remove_preceding(loc, 1);
    c.remove_leading(loc, 1);
    c.remove_trailing(loc, 1);
    assert_eq!(c.process(code), b"b)".to_vec());

    let mut c = Corrector::new(code);
    c.insert_before(loc, "<".to_string());
    c.insert_after(loc, ">".to_string());
    assert_eq!(c.process(code), b"(<abc>)".to_vec());
}
