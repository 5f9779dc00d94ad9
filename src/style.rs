use vstd::prelude::*;

use regex_syntax::hir::{HirKind, Look};

use crate::ast::{NodeKind, ParentIndex, SyntaxTree};
use crate::config::Config;
use crate::cop::{concat, name_is, AutoCorrector, Context, Cop, Offense};
use crate::corrector::Corrector;
use crate::rewriter::{combine, edit, text_bytes, EditTree};
use crate::source::{line_of, lossy_text, space_range, Loc, RangeHelp, Side};

verus! {

/// Flags the keyword `not` and rewrites it to `!`.
pub struct Not;

/// Whether node `i` is a call of `!` with a receiver and a selector.
pub open spec fn is_negation(tree: SyntaxTree, i: int) -> bool {
    let n = tree.node_at(i);
    &&& n.kind == NodeKind::Send
    &&& n.has_receiver
    &&& n.kids().len() > 0
    &&& n.name@ == "!"@
    &&& n.selector is Some
}

/// `not` as the selector of node `i`, a negation (the bytes of `not` are 110, 111, 116).
pub open spec fn is_prefix_not(bytes: Seq<u8>, tree: SyntaxTree, i: int) -> bool {
    &&& is_negation(tree, i)
    &&& tree.node_at(i).selector matches Some(s) && s.begin <= s.end <= bytes.len() && bytes.subrange(
        s.begin as int,
        s.end as int,
    ) == seq![110u8, 111u8, 116u8]
}

/// The methods whose negation `Not` rewrites to another method, and that method.
pub open spec fn opposite_method(name: Seq<char>) -> Option<Seq<char>> {
    if name == "any?"@ {
        Some("any?"@)
    } else if name == "empty?"@ {
        Some("none?"@)
    } else if name == "none?"@ {
        Some("none?"@)
    } else if name == "one?"@ {
        Some("one?"@)
    } else if name == "many?"@ {
        Some("many?"@)
    } else {
        None
    }
}

fn opposite_methods(name: &String) -> (r: Option<&'static str>)
    ensures
        match r {
            Some(m) => opposite_method(name@) == Some(m@),
            None => opposite_method(name@) is None,
        },
{
    if name_is(name, "any?") {
        Some("any?")
    } else if name_is(name, "empty?") {
        Some("none?")
    } else if name_is(name, "none?") {
        Some("none?")
    } else if name_is(name, "one?") {
        Some("one?")
    } else if name_is(name, "many?") {
        Some("many?")
    } else {
        None
    }
}

/// Whether the negated expression needs parentheses after `!`.
fn requires_parens(tree: &SyntaxTree, i: usize) -> (r: bool)
    requires
        i < tree.len(),
    ensures
        r == (tree.node_at(i as int).kind == NodeKind::And || tree.node_at(i as int).kind == NodeKind::Or
            || tree.node_at(i as int).kind == NodeKind::If || (tree.node_at(i as int).kind == NodeKind::Send
            && is_binary_operation(*tree, i as int))),
{
    let n = tree.node(i);
    match n.kind {
        NodeKind::And | NodeKind::Or | NodeKind::If => true,
        NodeKind::Send => match n.selector {
            Some(selector) => n.expression.begin != selector.begin,
            None => false,
        },
        _ => false,
    }
}

/// A call whose selector does not start the expression, as in `a + b`.
pub open spec fn is_binary_operation(tree: SyntaxTree, i: int) -> bool {
    let n = tree.node_at(i);
    n.selector matches Some(s) && n.expression.begin != s.begin
}

impl Not {
    /// The message of the offense.
    pub fn message() -> (r: &'static str)
        ensures
            r@ == "Use `!` instead of `not`."@,
    {
        "Use `!` instead of `not`."
    }

    /// The receiver and the selector of node `i` where it is `not <receiver>`.
    pub fn prefix_not(ctx: &Context, tree: &SyntaxTree, i: usize) -> (r: Option<(usize, Loc)>)
        requires
            tree.wf(),
            i < tree.len(),
        ensures
            r is Some <==> is_prefix_not(ctx.bytes(), *tree, i as int),
            r matches Some((recv, selector)) ==> recv == tree.node_at(i as int).kids()[0] && tree.node_at(
                i as int,
            ).selector == Some(selector),
    {
        let n = tree.node(i);
        if !(n.kind == NodeKind::Send && n.has_receiver && n.children().len() > 0 && name_is(&n.name, "!")) {
            return None;
        }
        let selector = match n.selector {
            Some(s) => s,
            None => return None,
        };
        if !ctx.fits(selector) {
            return None;
        }
        let not_bytes: [u8; 3] = [110u8, 111u8, 116u8];
        if ctx.source_is(selector, not_bytes.as_slice()) {
            Some((n.children()[0], selector))
        } else {
            None
        }
    }
}

/// The edits of `Not` for the negation at node `i`, whose selector spans `selector`,
/// applied to `edits`.
pub open spec fn not_correction(bytes: Seq<u8>, tree: SyntaxTree, i: int, selector: Loc, edits: EditTree) -> EditTree {
    let range = space_range(bytes, selector, Side::Right, true, false, false);
    let recv = tree.node_at(i).kids()[0] as int;
    let r = tree.node_at(recv);
    let replace = |loc: Loc, t: Seq<char>|
        edit(loc.begin as int, loc.end as int, Some(text_bytes(t)), Seq::empty(), Seq::empty());
    if r.kind == NodeKind::Send && opposite_method(r.name@) is Some && (r.selector matches Some(rs)
        && rs.begin <= rs.end <= bytes.len()) {
        combine(
            combine(edits, edit(range.begin as int, range.end as int, Some(Seq::empty()), Seq::empty(), Seq::empty())),
            replace(r.selector->0, opposite_method(r.name@)->0),
        )
    } else if r.kind == NodeKind::And || r.kind == NodeKind::Or || r.kind == NodeKind::If || (r.kind
        == NodeKind::Send && is_binary_operation(tree, recv)) {
        let e = tree.node_at(i).expression;
        if e.end <= bytes.len() {
            combine(
                combine(edits, replace(range, "!("@)),
                edit(e.end as int, e.end as int, None, Seq::empty(), text_bytes(")"@)),
            )
        } else {
            combine(edits, replace(range, "!("@))
        }
    } else {
        combine(edits, replace(range, "!"@))
    }
}

/// End to end for `not test`: where node `i` is `not` applied to a plain call
/// (neither a predicate with an opposite nor a binary operation), the edits
/// that `Not` registers on a fresh buffer turn `not test` into `!test`.
pub proof fn lemma_not_test(tree: SyntaxTree, i: int)
    requires
        is_prefix_not(seq![110u8, 111u8, 116u8, 32u8, 116u8, 101u8, 115u8, 116u8], tree, i),
        tree.node_at(i).selector == Some(Loc { begin: 0, end: 3 }),
        tree.node_at(tree.node_at(i).kids()[0] as int).kind == NodeKind::Send,
        opposite_method(tree.node_at(tree.node_at(i).kids()[0] as int).name@) is None,
        !is_binary_operation(tree, tree.node_at(i).kids()[0] as int),
    ensures
        crate::rewriter::render(
            not_correction(
                seq![110u8, 111u8, 116u8, 32u8, 116u8, 101u8, 115u8, 116u8],
                tree,
                i,
                Loc { begin: 0, end: 3 },
                crate::rewriter::untouched(8),
            ),
            seq![110u8, 111u8, 116u8, 32u8, 116u8, 101u8, 115u8, 116u8],
        ) == text_bytes("!"@) + seq![116u8, 101u8, 115u8, 116u8],
{
    let b = seq![110u8, 111u8, 116u8, 32u8, 116u8, 101u8, 115u8, 116u8];
    reveal_strlit("!");
    let sel = Loc { begin: 0, end: 3 };
    assert(crate::source::skip_right(b, 4, crate::source::ByteClass::Blank) == 4);
    assert(crate::source::skip_right(b, 3, crate::source::ByteClass::Blank) == 4);
    assert(crate::source::skip_right(b, 4, crate::source::ByteClass::Newline) == 4);
    let range = space_range(b, sel, Side::Right, true, false, false);
    assert(range == Loc { begin: 0, end: 4 });
    let bang = text_bytes("!"@);
    assert(bang.len() > 0);
    let e = edit(0, 4, Some(bang), Seq::empty(), Seq::empty());
    let t = crate::rewriter::untouched(8);
    assert(not_correction(b, tree, i, sel, t) == combine(t, e));
    let c = combine(t, e);
    assert(c.children =~= seq![e]);
    assert(crate::rewriter::render(e, b) =~= bang);
    assert(crate::rewriter::render_children(c.children, b, 4, 8, 1) == crate::rewriter::slice(b, 4, 8));
    assert(b.subrange(4, 8) =~= seq![116u8, 101u8, 115u8, 116u8]);
    assert(crate::rewriter::render(c, b) =~= bang + seq![116u8, 101u8, 115u8, 116u8]);
}

impl Not {
    /// Handles a call: an offense and its correction where it is `not <expr>`.
    pub fn on_send(&self, ctx: &mut Context, corrector: &mut Corrector, tree: &SyntaxTree, node: usize)
        requires
            tree.wf(),
            node < tree.len(),
            old(corrector).len() == old(ctx).bytes().len(),
        ensures
            final(ctx).extends(old(ctx)),
            final(corrector).len() == old(corrector).len(),
            is_prefix_not(old(ctx).bytes(), *tree, node as int) ==> {
                &&& final(ctx).offenses() == old(ctx).offenses().push(
                    Offense {
                        loc: tree.node_at(node as int).selector->0,
                        correctable: true,
                        cop_name: final(ctx).offenses().last().cop_name,
                        message: final(ctx).offenses().last().message,
                    },
                )
                &&& final(ctx).offenses().last().cop_name@ == "Style/Not"@
                &&& final(ctx).offenses().last().message@ == "Use `!` instead of `not`."@
                &&& final(corrector).tree() == not_correction(
                    old(ctx).bytes(),
                    *tree,
                    node as int,
                    tree.node_at(node as int).selector->0,
                    old(corrector).tree(),
                )
            },
            !is_prefix_not(old(ctx).bytes(), *tree, node as int) ==> *final(ctx) == *old(ctx) && *final(corrector)
                == *old(corrector),
    {
        let (recv, selector) = match Self::prefix_not(ctx, tree, node) {
            Some(found) => found,
            None => return,
        };
        proof {
            tree.lemma_children_after(node as int);
        }
        let range = ctx.range_with_surrounding_space(selector).side(Side::Right).build(ctx.input());
        let r = tree.node(recv);
        let opposite = if r.kind == NodeKind::Send { opposite_methods(&r.name) } else { None };
        let mut done = false;
        if let Some(m) = opposite {
            if let Some(rs) = r.selector {
                if ctx.fits(rs) {
                    corrector.remove(range);
                    corrector.replace(rs, m.to_owned());
                    done = true;
                }
            }
        }
        if !done {
            if requires_parens(tree, recv) {
                corrector.replace(range, "!(".to_owned());
                let e = tree.node(node).expression;
                if e.end <= ctx.source_len() {
                    corrector.insert_after(Loc { begin: e.end, end: e.end }, ")".to_owned());
                }
            } else {
                corrector.replace(range, "!".to_owned());
            }
        }
        ctx.add_offense(
            Offense { loc: selector, correctable: true, cop_name: "Style/Not".to_owned(), message: Self::message().to_owned() },
        );
    }
}

impl Cop for Not {
    open spec fn quiet(&self, bytes: Seq<u8>, config: Config, parents: ParentIndex, tree: SyntaxTree, node: int) -> bool {
        !is_prefix_not(bytes, tree, node)
    }

    open spec fn spec_visit(&self, tree: SyntaxTree, node: int) -> bool {
        true
    }

    fn visit(&self, ctx: &Context, tree: &SyntaxTree, node: usize) -> (r: bool) {
        true
    }

    open spec fn spec_name(&self) -> Seq<char> {
        "Style/Not"@
    }

    open spec fn autocorrects(&self) -> bool {
        true
    }

    fn name(&self) -> (r: String) {
        "Style/Not".to_owned()
    }

    fn on_node(&self, ctx: &mut Context, corrector: &mut Corrector, tree: &SyntaxTree, node: usize) {
        if tree.node(node).kind == NodeKind::Send {
            self.on_send(ctx, corrector, tree, node);
        }
    }
}

impl AutoCorrector for Not {
}

/// Node `c` is the constant `Array` or `::Array`, or the constant `name` in general.
pub open spec fn is_toplevel_const(tree: SyntaxTree, c: int, name: Seq<char>) -> bool {
    let n = tree.node_at(c);
    &&& n.kind == NodeKind::Const
    &&& n.name@ == name
    &&& n.has_receiver ==> n.kids().len() > 0 && tree.node_at(n.kids()[0] as int).kind == NodeKind::Cbase
}

fn toplevel_const(tree: &SyntaxTree, c: usize, name: &str) -> (r: bool)
    requires
        tree.wf(),
        c < tree.len(),
    ensures
        r == is_toplevel_const(*tree, c as int, name@),
{
    proof {
        tree.lemma_children_after(c as int);
    }
    let n = tree.node(c);
    if !(n.kind == NodeKind::Const && name_is(&n.name, name)) {
        return false;
    }
    if n.has_receiver {
        n.children().len() > 0 && tree.node(n.children()[0]).kind == NodeKind::Cbase
    } else {
        true
    }
}

/// Flags `Array.new([...])`, `Array[...]` and `Array([...])`, and rewrites them to the literal.
pub struct RedundantArrayConstructor;

/// For a redundant `Array` constructor at node `i`: the range to flag, the range
/// to replace, and the range whose text replaces it.
pub open spec fn array_constructor(tree: SyntaxTree, i: int) -> Option<(Loc, Loc, Loc)> {
    let n = tree.node_at(i);
    let k = n.kids();
    if n.kind == NodeKind::Send && n.has_receiver && k.len() == 2 && is_toplevel_const(tree, k[0] as int, "Array"@)
        && n.name@ == "new"@ && tree.node_at(k[1] as int).kind == NodeKind::Array && n.selector is Some {
        Some((tree.node_at(k[0] as int).expression.with_end_spec(n.selector->0.end), n.expression, tree.node_at(k[1] as int).expression))
    } else if n.kind == NodeKind::Send && !n.has_receiver && k.len() == 1 && n.name@ == "Array"@ && tree.node_at(
        k[0] as int,
    ).kind == NodeKind::Array && n.selector is Some {
        Some((n.selector->0, n.expression, tree.node_at(k[0] as int).expression))
    } else if n.kind == NodeKind::Index && k.len() >= 1 && is_toplevel_const(tree, k[0] as int, "Array"@) && n.begin is Some
        && n.end is Some {
        Some((tree.node_at(k[0] as int).expression, n.expression, n.begin->0.with_end_spec(n.end->0.end)))
    } else {
        None
    }
}

/// Bytes below 0x80 are valid UTF-8.
pub proof fn lemma_ascii_valid(b: Seq<u8>)
    requires
        forall|i: int| 0 <= i < b.len() ==> b[i] < 0x80u8,
    ensures
        vstd::utf8::valid_utf8(b),
    decreases b.len(),
{
    if b.len() > 0 {
        let x = b[0];
        assert((x & 0x7fu8) <= 0x7fu8) by (bit_vector);
        let rest = vstd::utf8::pop_first_scalar(b);
        assert(rest =~= b.subrange(1, b.len() as int));
        lemma_ascii_valid(rest);
    }
}

/// End to end for `Array.new([])`: the literal's bytes are valid UTF-8, so the
/// rule's replacement of the whole call by the literal's text (whose bytes are
/// then the literal's bytes) turns the buffer into `[]`.
pub proof fn lemma_array_new_end_to_end(text: Seq<char>)
    requires
        text_bytes(text) == seq![91u8, 93u8],
    ensures
        vstd::utf8::valid_utf8(
            seq![65u8, 114u8, 114u8, 97u8, 121u8, 46u8, 110u8, 101u8, 119u8, 40u8, 91u8, 93u8, 41u8].subrange(10, 12),
        ),
        crate::rewriter::render(
            combine(crate::rewriter::untouched(13), edit(0, 13, Some(text_bytes(text)), Seq::empty(), Seq::empty())),
            seq![65u8, 114u8, 114u8, 97u8, 121u8, 46u8, 110u8, 101u8, 119u8, 40u8, 91u8, 93u8, 41u8],
        ) == seq![91u8, 93u8],
{
    let b = seq![65u8, 114u8, 114u8, 97u8, 121u8, 46u8, 110u8, 101u8, 119u8, 40u8, 91u8, 93u8, 41u8];
    assert(b.subrange(10, 12) =~= seq![91u8, 93u8]);
    lemma_ascii_valid(seq![91u8, 93u8]);
    let e = edit(0, 13, Some(text_bytes(text)), Seq::empty(), Seq::empty());
    let t = crate::rewriter::untouched(13);
    let c = combine(t, e);
    assert(c.replacement == Some(seq![91u8, 93u8]));
    assert(crate::rewriter::render(c, b) =~= seq![91u8, 93u8]);
}

impl RedundantArrayConstructor {
    pub fn message() -> (r: &'static str)
        ensures
            r@ == "Remove the redundant `Array` constructor."@,
    {
        "Remove the redundant `Array` constructor."
    }

    fn matches(tree: &SyntaxTree, i: usize) -> (r: Option<(Loc, Loc, Loc)>)
        requires
            tree.wf(),
            i < tree.len(),
        ensures
            r == array_constructor(*tree, i as int),
    {
        proof {
            tree.lemma_children_after(i as int);
        }
        let n = tree.node(i);
        let k = n.children();
        if n.kind == NodeKind::Send && n.has_receiver && k.len() == 2 && toplevel_const(tree, k[0], "Array")
            && name_is(&n.name, "new") && tree.node(k[1]).kind == NodeKind::Array && n.selector.is_some() {
            let selector = n.selector.unwrap();
            return Some((tree.node(k[0]).expression.with_end(selector.end), n.expression, tree.node(k[1]).expression));
        }
        if n.kind == NodeKind::Send && !n.has_receiver && k.len() == 1 && name_is(&n.name, "Array") && tree.node(k[0]).kind
            == NodeKind::Array && n.selector.is_some() {
            return Some((n.selector.unwrap(), n.expression, tree.node(k[0]).expression));
        }
        if n.kind == NodeKind::Index && k.len() >= 1 && toplevel_const(tree, k[0], "Array") && n.begin.is_some()
            && n.end.is_some() {
            return Some((tree.node(k[0]).expression, n.expression, n.begin.unwrap().with_end(n.end.unwrap().end)));
        }
        None
    }

    /// Handles a call or an index: an offense on the constructor, and the whole
    /// expression replaced by the text of the array literal.
    pub fn check(&self, ctx: &mut Context, corrector: &mut Corrector, tree: &SyntaxTree, node: usize)
        requires
            tree.wf(),
            node < tree.len(),
            old(corrector).len() == old(ctx).bytes().len(),
        ensures
            final(ctx).extends(old(ctx)),
            final(corrector).len() == old(corrector).len(),
            match array_constructor(*tree, node as int) {
                Some((range, expression, replacement)) if replacement.begin <= replacement.end <= old(ctx).bytes().len()
                    && expression.begin <= expression.end <= old(ctx).bytes().len() => {
                    &&& final(ctx).offenses().len() == old(ctx).offenses().len() + 1
                    &&& final(ctx).offenses().last().loc == range
                    &&& final(ctx).offenses().last().correctable
                    &&& final(ctx).offenses().last().cop_name@ == "Style/RedundantArrayConstructor"@
                    &&& vstd::utf8::valid_utf8(old(ctx).bytes().subrange(replacement.begin as int, replacement.end as int))
                        ==> text_bytes(lossy_text(old(ctx).bytes().subrange(replacement.begin as int, replacement.end as int)))
                        == old(ctx).bytes().subrange(replacement.begin as int, replacement.end as int)
                    &&& final(ctx).offenses().last().message@ == "Remove the redundant `Array` constructor."@
                    &&& final(corrector).tree() == combine(
                        old(corrector).tree(),
                        edit(
                            expression.begin as int,
                            expression.end as int,
                            Some(text_bytes(lossy_text(old(ctx).bytes().subrange(replacement.begin as int, replacement.end as int)))),
                            Seq::empty(),
                            Seq::empty(),
                        ),
                    )
                },
                _ => *final(ctx) == *old(ctx) && *final(corrector) == *old(corrector),
            },
    {
        let (range, expression, replacement) = match Self::matches(tree, node) {
            Some(found) => found,
            None => return,
        };
        if !(ctx.fits(replacement) && ctx.fits(expression)) {
            return;
        }
        let text = ctx.source(replacement);
        corrector.replace(expression, text);
        ctx.add_offense(
            Offense {
                loc: range,
                correctable: true,
                cop_name: "Style/RedundantArrayConstructor".to_owned(),
                message: Self::message().to_owned(),
            },
        );
    }
}

impl Cop for RedundantArrayConstructor {
    open spec fn quiet(&self, bytes: Seq<u8>, config: Config, parents: ParentIndex, tree: SyntaxTree, node: int) -> bool {
        match array_constructor(tree, node) {
            Some((range, expression, replacement)) => !(replacement.begin <= replacement.end <= bytes.len()
                && expression.begin <= expression.end <= bytes.len()),
            None => true,
        }
    }

    open spec fn spec_visit(&self, tree: SyntaxTree, node: int) -> bool {
        true
    }

    fn visit(&self, ctx: &Context, tree: &SyntaxTree, node: usize) -> (r: bool) {
        true
    }

    open spec fn spec_name(&self) -> Seq<char> {
        "Style/RedundantArrayConstructor"@
    }

    open spec fn autocorrects(&self) -> bool {
        true
    }

    fn name(&self) -> (r: String) {
        "Style/RedundantArrayConstructor".to_owned()
    }

    fn on_node(&self, ctx: &mut Context, corrector: &mut Corrector, tree: &SyntaxTree, node: usize) {
        self.check(ctx, corrector, tree, node);
    }
}

impl AutoCorrector for RedundantArrayConstructor {
}

/// Flags `Regexp.new(/re/)` and `Regexp.compile(/re/)`, and rewrites them to the literal.
pub struct RedundantRegexpConstructor;

/// For a redundant `Regexp` constructor at node `i`: the regexp literal's node.
pub open spec fn regexp_constructor(tree: SyntaxTree, i: int) -> Option<int> {
    let n = tree.node_at(i);
    let k = n.kids();
    if n.kind == NodeKind::Send && n.has_receiver && k.len() == 2 && is_toplevel_const(tree, k[0] as int, "Regexp"@)
        && (n.name@ == "new"@ || n.name@ == "compile"@) && tree.node_at(k[1] as int).kind == NodeKind::Regexp {
        Some(k[1] as int)
    } else {
        None
    }
}

impl RedundantRegexpConstructor {
    /// Handles a call: an offense on it, and the call replaced by the text of the literal.
    pub fn check(&self, ctx: &mut Context, corrector: &mut Corrector, tree: &SyntaxTree, node: usize)
        requires
            tree.wf(),
            node < tree.len(),
            old(corrector).len() == old(ctx).bytes().len(),
        ensures
            final(ctx).extends(old(ctx)),
            final(corrector).len() == old(corrector).len(),
            match regexp_constructor(*tree, node as int) {
                Some(re) if ({
                    let e = tree.node_at(node as int).expression;
                    let x = tree.node_at(re).expression;
                    e.begin <= e.end <= old(ctx).bytes().len() && x.begin <= x.end <= old(ctx).bytes().len()
                }) => {
                    let e = tree.node_at(node as int).expression;
                    let x = tree.node_at(re).expression;
                    &&& final(ctx).offenses().len() == old(ctx).offenses().len() + 1
                    &&& final(ctx).offenses().last().cop_name@ == "Style/RedundantRegexpConstructor"@
                    &&& vstd::utf8::valid_utf8(old(ctx).bytes().subrange(x.begin as int, x.end as int)) ==> text_bytes(
                        lossy_text(old(ctx).bytes().subrange(x.begin as int, x.end as int)),
                    ) == old(ctx).bytes().subrange(x.begin as int, x.end as int)
                    &&& final(ctx).offenses().last().loc == e
                    &&& final(ctx).offenses().last().message@ == "Remove the redundant `Regexp."@ + tree.node_at(node as int).name@
                        + "`."@
                    &&& final(corrector).tree() == combine(
                        old(corrector).tree(),
                        edit(
                            e.begin as int,
                            e.end as int,
                            Some(text_bytes(lossy_text(old(ctx).bytes().subrange(x.begin as int, x.end as int)))),
                            Seq::empty(),
                            Seq::empty(),
                        ),
                    )
                },
                _ => *final(ctx) == *old(ctx) && *final(corrector) == *old(corrector),
            },
    {
        proof {
            tree.lemma_children_after(node as int);
        }
        let n = tree.node(node);
        let k = n.children();
        if !(n.kind == NodeKind::Send && n.has_receiver && k.len() == 2 && toplevel_const(tree, k[0], "Regexp")
            && (name_is(&n.name, "new") || name_is(&n.name, "compile")) && tree.node(k[1]).kind == NodeKind::Regexp) {
            return;
        }
        let e = n.expression;
        let x = tree.node(k[1]).expression;
        if !(ctx.fits(e) && ctx.fits(x)) {
            return;
        }
        let text = ctx.source(x);
        corrector.replace(e, text);
        let head = concat("Remove the redundant `Regexp.", n.name.as_str());
        let message = concat(head.as_str(), "`.");
        ctx.add_offense(
            Offense { loc: e, correctable: true, cop_name: "Style/RedundantRegexpConstructor".to_owned(), message },
        );
    }
}

impl Cop for RedundantRegexpConstructor {
    open spec fn quiet(&self, bytes: Seq<u8>, config: Config, parents: ParentIndex, tree: SyntaxTree, node: int) -> bool {
        match regexp_constructor(tree, node) {
            Some(re) => {
                let e = tree.node_at(node).expression;
                let x = tree.node_at(re).expression;
                !(e.begin <= e.end <= bytes.len() && x.begin <= x.end <= bytes.len())
            },
            None => true,
        }
    }

    open spec fn spec_visit(&self, tree: SyntaxTree, node: int) -> bool {
        true
    }

    fn visit(&self, ctx: &Context, tree: &SyntaxTree, node: usize) -> (r: bool) {
        true
    }

    open spec fn spec_name(&self) -> Seq<char> {
        "Style/RedundantRegexpConstructor"@
    }

    open spec fn autocorrects(&self) -> bool {
        true
    }

    fn name(&self) -> (r: String) {
        "Style/RedundantRegexpConstructor".to_owned()
    }

    fn on_node(&self, ctx: &mut Context, corrector: &mut Corrector, tree: &SyntaxTree, node: usize) {
        self.check(ctx, corrector, tree, node);
    }
}

impl AutoCorrector for RedundantRegexpConstructor {
}

/// A top-level piece of a parsed regular expression.
pub enum RegexPiece {
    /// `\A`, the start of the text.
    Start,
    /// `\z`, the end of the text.
    End,
    /// A literal run of bytes.
    Literal(Vec<u8>),
    /// Anything else.
    Other,
}

/// The top-level pieces of `pattern` as regex_syntax parses it in multi-line
/// mode: the parts of a concatenation, or the whole expression as one piece;
/// none where it does not parse.
pub uninterp spec fn regexp_pieces(pattern: Seq<char>) -> Option<Seq<PieceView>>;

/// The value of a regexp piece.
pub enum PieceView {
    Start,
    End,
    Literal(Seq<u8>),
    Other,
}

impl RegexPiece {
    pub open spec fn view(self) -> PieceView {
        match self {
            RegexPiece::Start => PieceView::Start,
            RegexPiece::End => PieceView::End,
            RegexPiece::Literal(l) => PieceView::Literal(l@),
            RegexPiece::Other => PieceView::Other,
        }
    }
}

/// The values of the pieces of `v`.
pub open spec fn piece_views(v: Seq<RegexPiece>) -> Seq<PieceView> {
    Seq::new(v.len(), |i: int| v[i].view())
}

/// Relies on `regex_syntax::ParserBuilder` with `multi_line(true)` and on
/// `Hir::kind`: the pieces depend on the pattern alone.
#[verifier::external_body]
fn parse_regexp(pattern: &str) -> (r: Option<Vec<RegexPiece>>)
    ensures
        match r {
            Some(v) => regexp_pieces(pattern@) == Some(piece_views(v@)),
            None => regexp_pieces(pattern@) is None,
        },
{
    let hir = regex_syntax::ParserBuilder::new().multi_line(true).build().parse(pattern).ok()?;
    let parts = match hir.kind() {
        HirKind::Concat(parts) => parts.as_slice(),
        _ => std::slice::from_ref(&hir),
    };
    Some(parts.iter().map(|h| match h.kind() {
        HirKind::Look(Look::Start) => RegexPiece::Start,
        HirKind::Look(Look::End) => RegexPiece::End,
        HirKind::Literal(l) => RegexPiece::Literal(l.0.to_vec()),
        _ => RegexPiece::Other,
    }).collect())
}

/// The literal that a pattern of the form `\A<literal>\z` matches exactly.
pub open spec fn exact_literal(p: Seq<PieceView>) -> Option<Seq<u8>> {
    if p.len() == 3 && p[0] is Start && p[1] is Literal && p[2] is End {
        Some(p[1]->Literal_0)
    } else {
        None
    }
}

/// The literal that `pieces` match exactly, if they are `\A<literal>\z`.
pub fn exact_match_pattern(pieces: &Vec<RegexPiece>) -> (r: Option<&Vec<u8>>)
    ensures
        match r {
            Some(l) => exact_literal(piece_views(pieces@)) == Some(l@),
            None => exact_literal(piece_views(pieces@)) is None,
        },
{
    if pieces.len() != 3 {
        return None;
    }
    match (&pieces[0], &pieces[1], &pieces[2]) {
        (RegexPiece::Start, RegexPiece::Literal(l), RegexPiece::End) => Some(l),
        _ => None,
    }
}

/// Flags a match against a regexp that only matches one exact string, and
/// rewrites it to a comparison with that string.
pub struct ExactRegexpMatch;

pub open spec fn is_match_method(name: Seq<char>) -> bool {
    name == "=~"@ || name == "==="@ || name == "!~"@ || name == "match"@ || name == "match?"@
}

/// For a match of a receiver against a plain regexp literal at node `i`: the
/// receiver's node and the text of the regexp.
pub open spec fn regexp_match(tree: SyntaxTree, i: int) -> Option<(int, Seq<char>)> {
    let n = tree.node_at(i);
    let k = n.kids();
    if n.kind == NodeKind::Send && n.has_receiver && k.len() == 2 && is_match_method(n.name@) && tree.node_at(
        k[1] as int,
    ).kind == NodeKind::Regexp && tree.node_at(k[1] as int).kids().len() == 1 && tree.node_at(
        tree.node_at(k[1] as int).kids()[0] as int,
    ).kind == NodeKind::Str {
        Some((k[0] as int, tree.node_at(tree.node_at(k[1] as int).kids()[0] as int).name@))
    } else {
        None
    }
}

/// The comparison that replaces the match.
pub open spec fn preferred(receiver: Seq<char>, method: Seq<char>, literal: Seq<u8>) -> Seq<char> {
    receiver + (if method == "!~"@ {
        " != '"@
    } else {
        " == '"@
    }) + lossy_text(literal) + "'"@
}

impl ExactRegexpMatch {
    fn matches(tree: &SyntaxTree, i: usize) -> (r: Option<(usize, usize)>)
        requires
            tree.wf(),
            i < tree.len(),
        ensures
            match r {
                Some((recv, s)) => recv < tree.len() && s < tree.len() && regexp_match(*tree, i as int) == Some((recv as int, tree.node_at(s as int).name@)),
                None => regexp_match(*tree, i as int) is None,
            },
    {
        proof {
            tree.lemma_children_after(i as int);
        }
        let n = tree.node(i);
        let k = n.children();
        if !(n.kind == NodeKind::Send && n.has_receiver && k.len() == 2) {
            return None;
        }
        if !(name_is(&n.name, "=~") || name_is(&n.name, "===") || name_is(&n.name, "!~") || name_is(&n.name, "match")
            || name_is(&n.name, "match?")) {
            return None;
        }
        let re = tree.node(k[1]);
        proof {
            tree.lemma_children_after(k[1] as int);
        }
        if !(re.kind == NodeKind::Regexp && re.children().len() == 1) {
            return None;
        }
        let s = re.children()[0];
        if tree.node(s).kind != NodeKind::Str {
            return None;
        }
        Some((k[0], s))
    }

    /// Handles a call: an offense and its correction where the regexp matches one exact string.
    pub fn check(&self, ctx: &mut Context, corrector: &mut Corrector, tree: &SyntaxTree, node: usize)
        requires
            tree.wf(),
            node < tree.len(),
            old(corrector).len() == old(ctx).bytes().len(),
        ensures
            final(ctx).extends(old(ctx)),
            final(corrector).len() == old(corrector).len(),
            ({
                let n = tree.node_at(node as int);
                let (recv, re) = regexp_match(*tree, node as int)->0;
                let r = tree.node_at(recv).expression;
                let b = old(ctx).bytes();
                let found = regexp_match(*tree, node as int) is Some && (regexp_pieces(re) matches Some(p)
                    && exact_literal(p) is Some) && r.begin <= r.end <= b.len() && n.expression.begin
                    <= n.expression.end <= b.len();
                let prefer = preferred(
                    lossy_text(b.subrange(r.begin as int, r.end as int)),
                    n.name@,
                    exact_literal(regexp_pieces(re)->0)->0,
                );
                &&& found ==> {
                    &&& final(ctx).offenses().len() == old(ctx).offenses().len() + 1
                    &&& final(ctx).offenses().last().cop_name@ == "Style/ExactRegexpMatch"@
                    &&& final(ctx).offenses().last().loc == n.expression
                    &&& final(ctx).offenses().last().correctable
                    &&& final(ctx).offenses().last().message@ == "Use `"@ + prefer + "`."@
                    &&& final(corrector).tree() == combine(
                        old(corrector).tree(),
                        edit(n.expression.begin as int, n.expression.end as int, Some(text_bytes(prefer)), Seq::empty(), Seq::empty()),
                    )
                }
                &&& !found ==> *final(ctx) == *old(ctx) && *final(corrector) == *old(corrector)
            }),
    {
        let (recv, s) = match Self::matches(tree, node) {
            Some(found) => found,
            None => return,
        };
        let pieces = match parse_regexp(tree.node(s).name.as_str()) {
            Some(p) => p,
            None => return,
        };
        let literal = match exact_match_pattern(&pieces) {
            Some(l) => l,
            None => return,
        };
        let n = tree.node(node);
        let r = tree.node(recv).expression;
        if !(ctx.fits(r) && ctx.fits(n.expression)) {
            return;
        }
        let receiver = ctx.source(r);
        let op = if name_is(&n.name, "!~") { " != '" } else { " == '" };
        let lit = crate::source::text_of(literal.as_slice());
        let p1 = concat(receiver.as_str(), op);
        let p2 = concat(p1.as_str(), lit.as_str());
        let prefer = concat(p2.as_str(), "'");
        let m1 = concat("Use `", prefer.as_str());
        let message = concat(m1.as_str(), "`.");
        corrector.replace(n.expression, prefer);
        ctx.add_offense(Offense { loc: n.expression, correctable: true, cop_name: "Style/ExactRegexpMatch".to_owned(), message });
    }
}

impl Cop for ExactRegexpMatch {
    open spec fn quiet(&self, bytes: Seq<u8>, config: Config, parents: ParentIndex, tree: SyntaxTree, node: int) -> bool {
        let n = tree.node_at(node);
        let (recv, re) = regexp_match(tree, node)->0;
        let r = tree.node_at(recv).expression;
        let b = bytes;
        !(regexp_match(tree, node) is Some && (regexp_pieces(re) matches Some(p)
            && exact_literal(p) is Some) && r.begin <= r.end <= b.len() && n.expression.begin
            <= n.expression.end <= b.len())
    }

    open spec fn spec_visit(&self, tree: SyntaxTree, node: int) -> bool {
        true
    }

    fn visit(&self, ctx: &Context, tree: &SyntaxTree, node: usize) -> (r: bool) {
        true
    }

    open spec fn spec_name(&self) -> Seq<char> {
        "Style/ExactRegexpMatch"@
    }

    open spec fn autocorrects(&self) -> bool {
        true
    }

    fn name(&self) -> (r: String) {
        "Style/ExactRegexpMatch".to_owned()
    }

    fn on_node(&self, ctx: &mut Context, corrector: &mut Corrector, tree: &SyntaxTree, node: usize) {
        self.check(ctx, corrector, tree, node);
    }
}

impl AutoCorrector for ExactRegexpMatch {
}

/// Flags `select { ... }.any?` and the like, and rewrites them to the predicate with the block.
pub struct RedundantFilterChain;

pub open spec fn is_filter_method(name: Seq<char>) -> bool {
    name == "select"@ || name == "filter"@ || name == "find_all"@
}

/// The predicate that replaces a filter followed by `name`.
pub open spec fn replacement_method(name: Seq<char>) -> Option<Seq<char>> {
    opposite_method(name)
}

fn replacement_methods(name: &String) -> (r: Option<&'static str>)
    ensures
        match r {
            Some(m) => replacement_method(name@) == Some(m@),
            None => replacement_method(name@) is None,
        },
{
    opposite_methods(name)
}

/// The filtering call of the receiver `recv` of a predicate: the call of a block,
/// or a call with a block argument.
pub open spec fn filter_call(tree: SyntaxTree, recv: int) -> Option<int> {
    let r = tree.node_at(recv);
    if r.kind == NodeKind::Block && r.kids().len() > 0 {
        let c = r.kids()[0] as int;
        let call = tree.node_at(c);
        if call.kind == NodeKind::Send && is_filter_method(call.name@) && call.selector is Some {
            Some(c)
        } else {
            None
        }
    } else if r.kind == NodeKind::Send && is_filter_method(r.name@) && r.selector is Some && r.kids().len() == (if r.has_receiver {
        2int
    } else {
        1int
    }) && tree.node_at(r.kids()[r.kids().len() - 1] as int).kind == NodeKind::BlockPass {
        Some(recv)
    } else {
        None
    }
}

/// For a predicate call on a filter at node `i`: its receiver and the filtering call.
pub open spec fn filter_chain(tree: SyntaxTree, i: int) -> Option<(int, int)> {
    let n = tree.node_at(i);
    if n.kind == NodeKind::Send && n.has_receiver && n.kids().len() == 1 && replacement_method(n.name@) is Some
        && n.selector is Some && filter_call(tree, n.kids()[0] as int) is Some {
        Some((n.kids()[0] as int, filter_call(tree, n.kids()[0] as int)->0))
    } else {
        None
    }
}

impl RedundantFilterChain {
    fn filter_call(tree: &SyntaxTree, recv: usize) -> (r: Option<usize>)
        requires
            tree.wf(),
            recv < tree.len(),
        ensures
            match r {
                Some(c) => c < tree.len() && filter_call(*tree, recv as int) == Some(c as int),
                None => filter_call(*tree, recv as int) is None,
            },
    {
        proof {
            tree.lemma_children_after(recv as int);
        }
        let r = tree.node(recv);
        let k = r.children();
        if r.kind == NodeKind::Block && k.len() > 0 {
            let call = tree.node(k[0]);
            if call.kind == NodeKind::Send && (name_is(&call.name, "select") || name_is(&call.name, "filter") || name_is(
                &call.name,
                "find_all",
            )) && call.selector.is_some() {
                return Some(k[0]);
            }
            return None;
        }
        if r.kind == NodeKind::Send && (name_is(&r.name, "select") || name_is(&r.name, "filter") || name_is(&r.name, "find_all"))
            && r.selector.is_some() && k.len() == (if r.has_receiver { 2 } else { 1 }) && tree.node(k[k.len() - 1]).kind
            == NodeKind::BlockPass {
            return Some(recv);
        }
        None
    }

    /// Handles a call: an offense and its correction where a filter is followed by a predicate.
    pub fn check(&self, ctx: &mut Context, corrector: &mut Corrector, tree: &SyntaxTree, node: usize)
        requires
            tree.wf(),
            node < tree.len(),
            old(corrector).len() == old(ctx).bytes().len(),
        ensures
            final(ctx).extends(old(ctx)),
            final(corrector).len() == old(corrector).len(),
            ({
                let n = tree.node_at(node as int);
                let (recv, call) = filter_chain(*tree, node as int)->0;
                let b = old(ctx).bytes();
                let select_selector = tree.node_at(call).selector->0;
                let predicate_selector = n.selector->0;
                let removal = Loc { begin: tree.node_at(recv).expression.end, end: predicate_selector.end };
                let replacement = replacement_method(n.name@)->0;
                let found = filter_chain(*tree, node as int) is Some && !(old(ctx).parents().parent_of(node as int) matches Some(
                    p,
                ) && (p >= tree.len() || tree.node_at(p as int).kind == NodeKind::Block)) && (n.name@ == "many?"@
                    ==> crate::config::flag(old(ctx).config(), "AllCops"@, "ActiveSupportExtensionsEnabled"@))
                    && removal.begin <= removal.end <= b.len() && select_selector.begin <= select_selector.end <= b.len();
                &&& found ==> {
                    &&& final(ctx).offenses().len() == old(ctx).offenses().len() + 1
                    &&& final(ctx).offenses().last().cop_name@ == "Style/RedundantFilterChain"@
                    &&& final(ctx).offenses().last().loc == select_selector.join_spec(predicate_selector)
                    &&& final(ctx).offenses().last().correctable
                    &&& final(ctx).offenses().last().message@ == "Use `"@ + replacement + "` instead of `"@ + tree.node_at(
                        call,
                    ).name@ + "."@ + n.name@ + "`."@
                    &&& final(corrector).tree() == combine(
                        combine(
                            old(corrector).tree(),
                            edit(removal.begin as int, removal.end as int, Some(Seq::empty()), Seq::empty(), Seq::empty()),
                        ),
                        edit(
                            select_selector.begin as int,
                            select_selector.end as int,
                            Some(text_bytes(replacement)),
                            Seq::empty(),
                            Seq::empty(),
                        ),
                    )
                }
                &&& !found ==> *final(ctx) == *old(ctx) && *final(corrector) == *old(corrector)
            }),
    {
        proof {
            tree.lemma_children_after(node as int);
        }
        let n = tree.node(node);
        if !(n.kind == NodeKind::Send && n.has_receiver && n.children().len() == 1) {
            return;
        }
        if let Some(p) = ctx.parent(node) {
            if p < tree.node_count() && tree.node(p).kind == NodeKind::Block {
                return;
            }
            if p >= tree.node_count() {
                return;
            }
        }
        let replacement = match replacement_methods(&n.name) {
            Some(m) => m,
            None => return,
        };
        let predicate_selector = match n.selector {
            Some(s) => s,
            None => return,
        };
        let recv = n.children()[0];
        let call = match Self::filter_call(tree, recv) {
            Some(c) => c,
            None => return,
        };
        if name_is(&n.name, "many?") && !ctx.is_active_support_extensions_enabled() {
            return;
        }
        let select_node = tree.node(call);
        let select_selector = select_node.selector.unwrap();
        let receiver_end = tree.node(recv).expression.end;
        let removal = Loc { begin: receiver_end, end: predicate_selector.end };
        if !(ctx.fits(removal) && ctx.fits(select_selector)) {
            return;
        }
        corrector.remove(removal);
        corrector.replace(select_selector, replacement.to_owned());
        let m1 = concat("Use `", replacement);
        let m2 = concat(m1.as_str(), "` instead of `");
        let m3 = concat(m2.as_str(), select_node.name.as_str());
        let m4 = concat(m3.as_str(), ".");
        let m5 = concat(m4.as_str(), n.name.as_str());
        let message = concat(m5.as_str(), "`.");
        ctx.add_offense(
            Offense {
                loc: select_selector.join(predicate_selector),
                correctable: true,
                cop_name: "Style/RedundantFilterChain".to_owned(),
                message,
            },
        );
    }
}

impl Cop for RedundantFilterChain {
    open spec fn quiet(&self, bytes: Seq<u8>, config: Config, parents: ParentIndex, tree: SyntaxTree, node: int) -> bool {
        let n = tree.node_at(node);
        let (recv, call) = filter_chain(tree, node)->0;
        let b = bytes;
        let select_selector = tree.node_at(call).selector->0;
        let predicate_selector = n.selector->0;
        let removal = Loc { begin: tree.node_at(recv).expression.end, end: predicate_selector.end };
        let replacement = replacement_method(n.name@)->0;
        !(filter_chain(tree, node) is Some && !(parents.parent_of(node) matches Some(
            p,
        ) && (p >= tree.len() || tree.node_at(p as int).kind == NodeKind::Block)) && (n.name@ == "many?"@
            ==> crate::config::flag(config, "AllCops"@, "ActiveSupportExtensionsEnabled"@))
            && removal.begin <= removal.end <= b.len() && select_selector.begin <= select_selector.end <= b.len())
    }

    open spec fn spec_visit(&self, tree: SyntaxTree, node: int) -> bool {
        true
    }

    fn visit(&self, ctx: &Context, tree: &SyntaxTree, node: usize) -> (r: bool) {
        true
    }

    open spec fn spec_name(&self) -> Seq<char> {
        "Style/RedundantFilterChain"@
    }

    open spec fn autocorrects(&self) -> bool {
        true
    }

    fn name(&self) -> (r: String) {
        "Style/RedundantFilterChain".to_owned()
    }

    fn on_node(&self, ctx: &mut Context, corrector: &mut Corrector, tree: &SyntaxTree, node: usize) {
        self.check(ctx, corrector, tree, node);
    }
}

impl AutoCorrector for RedundantFilterChain {
}

/// Flags double-quoted strings that need no double quotes, and rewrites the quotes.
pub struct StringLiterals;

impl StringLiterals {
    pub fn message() -> (r: &'static str)
        ensures
            r@ == "Prefer single-quoted strings when you don't need string interpolation or special symbols."@,
    {
        "Prefer single-quoted strings when you don't need string interpolation or special symbols."
    }

    /// Handles a string: an offense where its opening quote is not `'`.
    pub fn check(&self, ctx: &mut Context, corrector: &mut Corrector, tree: &SyntaxTree, node: usize)
        requires
            tree.wf(),
            node < tree.len(),
            old(corrector).len() == old(ctx).bytes().len(),
        ensures
            final(ctx).extends(old(ctx)),
            final(corrector).len() == old(corrector).len(),
            ({
                let n = tree.node_at(node as int);
                let b = old(ctx).bytes();
                let found = n.kind == NodeKind::Str && (n.begin matches Some(q) && q.begin <= q.end <= b.len()
                    && b.subrange(q.begin as int, q.end as int) != seq![39u8]) && (n.end matches Some(q)
                    && q.begin <= q.end <= b.len());
                let quote = |l: Loc| edit(l.begin as int, l.end as int, Some(text_bytes("'"@)), Seq::empty(), Seq::empty());
                &&& found ==> {
                    &&& final(ctx).offenses().len() == old(ctx).offenses().len() + 1
                    &&& final(ctx).offenses().last().cop_name@ == "Style/StringLiterals"@
                    &&& final(ctx).offenses().last().loc == n.expression
                    &&& final(ctx).offenses().last().correctable
                    &&& final(corrector).tree() == combine(combine(old(corrector).tree(), quote(n.begin->0)), quote(n.end->0))
                }
                &&& !found ==> *final(ctx) == *old(ctx) && *final(corrector) == *old(corrector)
            }),
    {
        let n = tree.node(node);
        if n.kind != NodeKind::Str {
            return;
        }
        let (begin, end) = match (n.begin, n.end) {
            (Some(b), Some(e)) => (b, e),
            _ => return,
        };
        if !(ctx.fits(begin) && ctx.fits(end)) {
            return;
        }
        let quote: [u8; 1] = [39u8];
        let q = quote.as_slice();
        assert(q@ =~= seq![39u8]);
        if ctx.source_is(begin, q) {
            return;
        }
        corrector.replace(begin, "'".to_owned());
        corrector.replace(end, "'".to_owned());
        ctx.add_offense(
            Offense {
                loc: n.expression,
                correctable: true,
                cop_name: "Style/StringLiterals".to_owned(),
                message: Self::message().to_owned(),
            },
        );
    }
}

impl Cop for StringLiterals {
    open spec fn quiet(&self, bytes: Seq<u8>, config: Config, parents: ParentIndex, tree: SyntaxTree, node: int) -> bool {
        let n = tree.node_at(node);
        let b = bytes;
        !(n.kind == NodeKind::Str && (n.begin matches Some(q) && q.begin <= q.end <= b.len()
            && b.subrange(q.begin as int, q.end as int) != seq![39u8]) && (n.end matches Some(q)
            && q.begin <= q.end <= b.len()))
    }

    open spec fn spec_visit(&self, tree: SyntaxTree, node: int) -> bool {
        true
    }

    fn visit(&self, ctx: &Context, tree: &SyntaxTree, node: usize) -> (r: bool) {
        true
    }

    open spec fn spec_name(&self) -> Seq<char> {
        "Style/StringLiterals"@
    }

    open spec fn autocorrects(&self) -> bool {
        true
    }

    fn name(&self) -> (r: String) {
        "Style/StringLiterals".to_owned()
    }

    fn on_node(&self, ctx: &mut Context, corrector: &mut Corrector, tree: &SyntaxTree, node: usize) {
        self.check(ctx, corrector, tree, node);
    }
}

impl AutoCorrector for StringLiterals {
}

/// Flags a method definition with parameters but no parentheses, and adds them.
pub struct MethodDefParentheses;

impl MethodDefParentheses {
    pub fn message() -> (r: &'static str)
        ensures
            r@ == "Use def with parentheses when there are parameters."@,
    {
        "Use def with parentheses when there are parameters."
    }

    /// Handles a definition: an offense where its parameter list has no closing parenthesis.
    pub fn check(&self, ctx: &mut Context, corrector: &mut Corrector, tree: &SyntaxTree, node: usize)
        requires
            tree.wf(),
            node < tree.len(),
            old(corrector).len() == old(ctx).bytes().len(),
        ensures
            final(ctx).extends(old(ctx)),
            final(corrector).len() == old(corrector).len(),
            ({
                let n = tree.node_at(node as int);
                let b = old(ctx).bytes();
                let args = tree.node_at(n.kids()[0] as int);
                let a = args.expression;
                let gap = Loc { begin: n.name_loc->0.end, end: a.begin };
                let found = n.kind == NodeKind::Def && n.kids().len() > 0 && args.kind == NodeKind::Args && args.end is None
                    && n.name_loc is Some && gap.begin <= gap.end <= b.len() && a.begin <= a.end <= b.len();
                &&& found ==> {
                    &&& final(ctx).offenses().len() == old(ctx).offenses().len() + 1
                    &&& final(ctx).offenses().last().cop_name@ == "Style/MethodDefParentheses"@
                    &&& final(ctx).offenses().last().loc == a
                    &&& final(ctx).offenses().last().correctable
                    &&& final(corrector).tree() == combine(
                        combine(
                            old(corrector).tree(),
                            edit(gap.begin as int, gap.end as int, Some(text_bytes("("@)), Seq::empty(), Seq::empty()),
                        ),
                        edit(a.end as int, a.end as int, None, Seq::empty(), text_bytes(")"@)),
                    )
                }
                &&& !found ==> *final(ctx) == *old(ctx) && *final(corrector) == *old(corrector)
            }),
    {
        proof {
            tree.lemma_children_after(node as int);
        }
        let n = tree.node(node);
        if !(n.kind == NodeKind::Def && n.children().len() > 0) {
            return;
        }
        let args = tree.node(n.children()[0]);
        if args.kind != NodeKind::Args || args.end.is_some() {
            return;
        }
        let name_l = match n.name_loc {
            Some(l) => l,
            None => return,
        };
        let a = args.expression;
        let gap = Loc { begin: name_l.end, end: a.begin };
        if !(ctx.fits(gap) && ctx.fits(a)) {
            return;
        }
        corrector.replace(gap, "(".to_owned());
        corrector.insert_after(a, ")".to_owned());
        ctx.add_offense(
            Offense {
                loc: a,
                correctable: true,
                cop_name: "Style/MethodDefParentheses".to_owned(),
                message: Self::message().to_owned(),
            },
        );
    }
}

impl Cop for MethodDefParentheses {
    open spec fn quiet(&self, bytes: Seq<u8>, config: Config, parents: ParentIndex, tree: SyntaxTree, node: int) -> bool {
        let n = tree.node_at(node);
        let b = bytes;
        let args = tree.node_at(n.kids()[0] as int);
        let a = args.expression;
        let gap = Loc { begin: n.name_loc->0.end, end: a.begin };
        !(n.kind == NodeKind::Def && n.kids().len() > 0 && args.kind == NodeKind::Args && args.end is None
            && n.name_loc is Some && gap.begin <= gap.end <= b.len() && a.begin <= a.end <= b.len())
    }

    open spec fn spec_visit(&self, tree: SyntaxTree, node: int) -> bool {
        true
    }

    fn visit(&self, ctx: &Context, tree: &SyntaxTree, node: usize) -> (r: bool) {
        true
    }

    open spec fn spec_name(&self) -> Seq<char> {
        "Style/MethodDefParentheses"@
    }

    open spec fn autocorrects(&self) -> bool {
        true
    }

    fn name(&self) -> (r: String) {
        "Style/MethodDefParentheses".to_owned()
    }

    fn on_node(&self, ctx: &mut Context, corrector: &mut Corrector, tree: &SyntaxTree, node: usize) {
        self.check(ctx, corrector, tree, node);
    }
}

impl AutoCorrector for MethodDefParentheses {
}

/// Flags `then` after the condition of an `if` that spans several lines.
pub struct MultilineIfThen;

impl MultilineIfThen {
    /// Handles an `if`: an offense on its `then` where the `if` spans several lines.
    pub fn check(&self, ctx: &mut Context, tree: &SyntaxTree, node: usize)
        requires
            tree.wf(),
            node < tree.len(),
        ensures
            final(ctx).extends(old(ctx)),
            ({
                let n = tree.node_at(node as int);
                let b = old(ctx).bytes();
                let e = n.expression;
                let found = n.kind == NodeKind::If && e.begin <= e.end <= b.len() && (n.begin matches Some(t)
                    && t.begin <= t.end <= b.len() && line_of(b, e.begin as int) != line_of(b, e.end as int)
                    && b.subrange(t.begin as int, t.end as int) == seq![116u8, 104u8, 101u8, 110u8]);
                &&& found ==> final(ctx).offenses() == old(ctx).offenses().push(
                    Offense {
                        loc: n.begin->0,
                        correctable: false,
                        cop_name: final(ctx).offenses().last().cop_name,
                        message: final(ctx).offenses().last().message,
                    },
                ) && final(ctx).offenses().last().message@ == "Do not use `then` for multi-line `if`."@
                    && final(ctx).offenses().last().cop_name@ == "Style/MultilineIfThen"@
                &&& !found ==> *final(ctx) == *old(ctx)
            }),
    {
        let n = tree.node(node);
        if n.kind != NodeKind::If || !ctx.fits(n.expression) {
            return;
        }
        let then = match n.begin {
            Some(b) => b,
            None => return,
        };
        let (begin_line, _) = ctx.line_col_for_pos(n.expression.begin);
        let (end_line, _) = ctx.line_col_for_pos(n.expression.end);
        if begin_line == end_line || !ctx.fits(then) {
            return;
        }
        let word: [u8; 4] = [116u8, 104u8, 101u8, 110u8];
        let w = word.as_slice();
        assert(w@ =~= seq![116u8, 104u8, 101u8, 110u8]);
        if !ctx.source_is(then, w) {
            return;
        }
        ctx.add_offense(
            Offense {
                loc: then,
                correctable: false,
                cop_name: "Style/MultilineIfThen".to_owned(),
                message: "Do not use `then` for multi-line `if`.".to_owned(),
            },
        );
    }
}

impl Cop for MultilineIfThen {
    open spec fn quiet(&self, bytes: Seq<u8>, config: Config, parents: ParentIndex, tree: SyntaxTree, node: int) -> bool {
        let n = tree.node_at(node);
        let b = bytes;
        let e = n.expression;
        !(n.kind == NodeKind::If && e.begin <= e.end <= b.len() && (n.begin matches Some(t)
            && t.begin <= t.end <= b.len() && line_of(b, e.begin as int) != line_of(b, e.end as int)
            && b.subrange(t.begin as int, t.end as int) == seq![116u8, 104u8, 101u8, 110u8]))
    }

    open spec fn spec_visit(&self, tree: SyntaxTree, node: int) -> bool {
        true
    }

    fn visit(&self, ctx: &Context, tree: &SyntaxTree, node: usize) -> (r: bool) {
        true
    }

    open spec fn spec_name(&self) -> Seq<char> {
        "Style/MultilineIfThen"@
    }

    open spec fn autocorrects(&self) -> bool {
        false
    }

    fn name(&self) -> (r: String) {
        "Style/MultilineIfThen".to_owned()
    }

    fn on_node(&self, ctx: &mut Context, corrector: &mut Corrector, tree: &SyntaxTree, node: usize) {
        self.check(ctx, tree, node);
    }
}

/// Flags `BEGIN` blocks.
pub struct BeginBlock;

impl BeginBlock {
    /// Handles a `BEGIN` block: an offense on its keyword.
    pub fn check(&self, ctx: &mut Context, tree: &SyntaxTree, node: usize)
        requires
            tree.wf(),
            node < tree.len(),
        ensures
            final(ctx).extends(old(ctx)),
            ({
                let n = tree.node_at(node as int);
                &&& (n.kind == NodeKind::Preexe && n.keyword is Some) ==> final(ctx).offenses().len()
                    == old(ctx).offenses().len() + 1 && final(ctx).offenses().last().loc == n.keyword->0
                    && final(ctx).offenses().last().message@ == "Avoid the use of `BEGIN` blocks."@
                    && final(ctx).offenses().last().cop_name@ == "Style/BeginBlock"@
                &&& !(n.kind == NodeKind::Preexe && n.keyword is Some) ==> *final(ctx) == *old(ctx)
            }),
    {
        let n = tree.node(node);
        if n.kind != NodeKind::Preexe {
            return;
        }
        if let Some(keyword) = n.keyword {
            ctx.add_offense(
                Offense {
                    loc: keyword,
                    correctable: false,
                    cop_name: "Style/BeginBlock".to_owned(),
                    message: "Avoid the use of `BEGIN` blocks.".to_owned(),
                },
            );
        }
    }
}

impl Cop for BeginBlock {
    open spec fn quiet(&self, bytes: Seq<u8>, config: Config, parents: ParentIndex, tree: SyntaxTree, node: int) -> bool {
        !(tree.node_at(node).kind == NodeKind::Preexe && tree.node_at(node).keyword is Some)
    }

    open spec fn spec_visit(&self, tree: SyntaxTree, node: int) -> bool {
        true
    }

    fn visit(&self, ctx: &Context, tree: &SyntaxTree, node: usize) -> (r: bool) {
        true
    }

    open spec fn spec_name(&self) -> Seq<char> {
        "Style/BeginBlock"@
    }

    open spec fn autocorrects(&self) -> bool {
        false
    }

    fn name(&self) -> (r: String) {
        "Style/BeginBlock".to_owned()
    }

    fn on_node(&self, ctx: &mut Context, corrector: &mut Corrector, tree: &SyntaxTree, node: usize) {
        self.check(ctx, tree, node);
    }
}

} // verus!
