use vstd::prelude::*;
use vstd::string::StringExecFns;

use crate::ast::{NodeKind, ParentIndex, SyntaxTree};
use crate::config::Config;
use crate::cop::{concat, Context, Cop, Offense};
use crate::corrector::Corrector;
use crate::source::{line_of, line_start, Loc};

verus! {

/// The decimal digits of `n`.
pub open spec fn decimal(n: nat) -> Seq<char>
    decreases n,
{
    let d = seq![(48 + n % 10) as char];
    if n < 10 {
        d
    } else {
        decimal(n / 10) + d
    }
}

/// The digit `d` as text.
fn digit(d: usize) -> (r: &'static str)
    requires
        d < 10,
    ensures
        r@ == seq![(48 + d) as char],
{
    proof {
        reveal_strlit("0");
        reveal_strlit("1");
        reveal_strlit("2");
        reveal_strlit("3");
        reveal_strlit("4");
        reveal_strlit("5");
        reveal_strlit("6");
        reveal_strlit("7");
        reveal_strlit("8");
        reveal_strlit("9");
    }
    match d {
        0 => "0",
        1 => "1",
        2 => "2",
        3 => "3",
        4 => "4",
        5 => "5",
        6 => "6",
        7 => "7",
        8 => "8",
        _ => "9",
    }
}

/// `n` written in decimal.
fn decimal_text(n: usize) -> (r: String)
    ensures
        r@ == decimal(n as nat),
    decreases n,
{
    if n < 10 {
        let r = digit(n).to_owned();
        assert(r@ =~= decimal(n as nat));
        r
    } else {
        let mut s = decimal_text(n / 10);
        s.append(digit(n % 10));
        assert(s@ =~= decimal(n as nat));
        s
    }
}

/// "`end` at L, C is not aligned with `KEYWORD` at L, C.", with lines counted from 1.
pub open spec fn misaligned_end(end_line: nat, end_col: nat, keyword: Seq<char>, line: nat, col: nat) -> Seq<char> {
    "`end` at "@ + decimal(end_line + 1) + ", "@ + decimal(end_col) + " is not aligned with `"@ + keyword + "` at "@
        + decimal(line + 1) + ", "@ + decimal(col) + "."@
}

fn misaligned_end_message(end_line: usize, end_col: usize, keyword: &str, line: usize, col: usize) -> (r: String)
    requires
        end_line < usize::MAX,
        line < usize::MAX,
    ensures
        r@ == misaligned_end(end_line as nat, end_col as nat, keyword@, line as nat, col as nat),
{
    let a = concat("`end` at ", decimal_text(end_line + 1).as_str());
    let b = concat(a.as_str(), ", ");
    let c = concat(b.as_str(), decimal_text(end_col).as_str());
    let d = concat(c.as_str(), " is not aligned with `");
    let e = concat(d.as_str(), keyword);
    let f = concat(e.as_str(), "` at ");
    let g = concat(f.as_str(), decimal_text(line + 1).as_str());
    let h = concat(g.as_str(), ", ");
    let i = concat(h.as_str(), decimal_text(col).as_str());
    concat(i.as_str(), ".")
}

/// Where `keyword` and `other` are on different lines and in different columns:
/// the line and column of each.
fn misaligned(ctx: &Context, keyword: Loc, other: Loc) -> (r: Option<(usize, usize, usize, usize)>)
    ensures
        match r {
            Some((l1, c1, l2, c2)) => {
                &&& is_misaligned(ctx.bytes(), keyword, other)
                &&& l1 < usize::MAX && l2 < usize::MAX
                &&& l1 == line_of(ctx.bytes(), keyword.begin as int)
                &&& l2 == line_of(ctx.bytes(), other.begin as int)
                &&& c1 == keyword.begin - line_start(ctx.bytes(), keyword.begin as int)
                &&& c2 == other.begin - line_start(ctx.bytes(), other.begin as int)
            },
            None => !is_misaligned(ctx.bytes(), keyword, other) || line_of(ctx.bytes(), keyword.begin as int)
                >= usize::MAX || line_of(ctx.bytes(), other.begin as int) >= usize::MAX,
        },
{
    if keyword.begin > ctx.source_len() || other.begin > ctx.source_len() {
        return None;
    }
    let (l1, c1) = ctx.line_col_for_pos(keyword.begin);
    let (l2, c2) = ctx.line_col_for_pos(other.begin);
    if l1 == l2 || c1 == c2 || l1 == usize::MAX || l2 == usize::MAX {
        None
    } else {
        Some((l1, c1, l2, c2))
    }
}

/// `keyword` and `other` start on different lines and in different columns.
pub open spec fn is_misaligned(bytes: Seq<u8>, keyword: Loc, other: Loc) -> bool {
    &&& keyword.begin <= bytes.len()
    &&& other.begin <= bytes.len()
    &&& line_of(bytes, keyword.begin as int) != line_of(bytes, other.begin as int)
    &&& keyword.begin - line_start(bytes, keyword.begin as int) != other.begin - line_start(bytes, other.begin as int)
}

/// An offense on `end` where it is not aligned with `keyword`, saying where each is.
pub fn check_end(ctx: &mut Context, keyword: Loc, end: Loc, word: &str, cop_name: &str)
    ensures
        final(ctx).extends(old(ctx)),
        final(ctx).offenses().len() > old(ctx).offenses().len() ==> {
            let b = old(ctx).bytes();
            &&& is_misaligned(b, keyword, end)
            &&& final(ctx).offenses().len() == old(ctx).offenses().len() + 1
            &&& final(ctx).offenses().last().loc == end
            &&& !final(ctx).offenses().last().correctable
            &&& final(ctx).offenses().last().cop_name@ == cop_name@
            &&& final(ctx).offenses().last().message@ == misaligned_end(
                line_of(b, end.begin as int) as nat,
                (end.begin - line_start(b, end.begin as int)) as nat,
                word@,
                line_of(b, keyword.begin as int) as nat,
                (keyword.begin - line_start(b, keyword.begin as int)) as nat,
            )
        },
        final(ctx).offenses().len() == old(ctx).offenses().len() ==> *final(ctx) == *old(ctx),
        // an offense is added where the lines are told apart and the line numbers fit
        is_misaligned(old(ctx).bytes(), keyword, end) && line_of(old(ctx).bytes(), keyword.begin as int) < usize::MAX
            && line_of(old(ctx).bytes(), end.begin as int) < usize::MAX ==> final(ctx).offenses().len()
            > old(ctx).offenses().len(),
{
    if let Some((line, col, end_line, end_col)) = misaligned(ctx, keyword, end) {
        let message = misaligned_end_message(end_line, end_col, word, line, col);
        ctx.add_offense(Offense { loc: end, correctable: false, cop_name: cop_name.to_owned(), message });
    }
}

/// Flags an `end` of a method definition that is not aligned with its `def`.
pub struct DefEndAlignment;

impl Cop for DefEndAlignment {
    open spec fn quiet(&self, bytes: Seq<u8>, config: Config, parents: ParentIndex, tree: SyntaxTree, node: int) -> bool {
        let n = tree.node_at(node);
        !(n.kind == NodeKind::Def && n.keyword is Some && n.end is Some && is_misaligned(bytes, n.keyword->0, n.end->0))
    }

    open spec fn spec_visit(&self, tree: SyntaxTree, node: int) -> bool {
        true
    }

    fn visit(&self, ctx: &Context, tree: &SyntaxTree, node: usize) -> (r: bool) {
        true
    }

    open spec fn spec_name(&self) -> Seq<char> {
        "Layout/DefEndAlignment"@
    }

    open spec fn autocorrects(&self) -> bool {
        false
    }

    fn name(&self) -> (r: String) {
        "Layout/DefEndAlignment".to_owned()
    }

    fn on_node(&self, ctx: &mut Context, corrector: &mut Corrector, tree: &SyntaxTree, node: usize) {
        let n = tree.node(node);
        if n.kind != NodeKind::Def {
            return;
        }
        if let (Some(keyword), Some(end)) = (n.keyword, n.end) {
            check_end(ctx, keyword, end, "def", "Layout/DefEndAlignment");
        }
    }
}

/// Flags an `else` that is not aligned with its `if`.
pub struct ElseAlignment;

impl Cop for ElseAlignment {
    open spec fn quiet(&self, bytes: Seq<u8>, config: Config, parents: ParentIndex, tree: SyntaxTree, node: int) -> bool {
        let n = tree.node_at(node);
        !(n.kind == NodeKind::If && n.keyword is Some && n.else_loc is Some && is_misaligned(bytes, n.keyword->0, n.else_loc->0))
    }

    open spec fn spec_visit(&self, tree: SyntaxTree, node: int) -> bool {
        true
    }

    fn visit(&self, ctx: &Context, tree: &SyntaxTree, node: usize) -> (r: bool) {
        true
    }

    open spec fn spec_name(&self) -> Seq<char> {
        "Layout/ElseAlignment"@
    }

    open spec fn autocorrects(&self) -> bool {
        false
    }

    fn name(&self) -> (r: String) {
        "Layout/ElseAlignment".to_owned()
    }

    fn on_node(&self, ctx: &mut Context, corrector: &mut Corrector, tree: &SyntaxTree, node: usize) {
        let n = tree.node(node);
        if n.kind != NodeKind::If {
            return;
        }
        let (keyword, else_loc) = match (n.keyword, n.else_loc) {
            (Some(k), Some(e)) => (k, e),
            _ => return,
        };
        if misaligned(ctx, keyword, else_loc).is_some() {
            ctx.add_offense(
                Offense {
                    loc: else_loc,
                    correctable: false,
                    cop_name: "Layout/ElseAlignment".to_owned(),
                    message: "Align `else` with `if`.".to_owned(),
                },
            );
        }
    }
}

/// Flags an `end` of an `if` that is not aligned with its `if`.
pub struct EndAlignment;

impl Cop for EndAlignment {
    open spec fn quiet(&self, bytes: Seq<u8>, config: Config, parents: ParentIndex, tree: SyntaxTree, node: int) -> bool {
        let n = tree.node_at(node);
        !(n.kind == NodeKind::If && n.keyword is Some && n.end is Some && is_misaligned(bytes, n.keyword->0, n.end->0))
    }

    open spec fn spec_visit(&self, tree: SyntaxTree, node: int) -> bool {
        true
    }

    fn visit(&self, ctx: &Context, tree: &SyntaxTree, node: usize) -> (r: bool) {
        true
    }

    open spec fn spec_name(&self) -> Seq<char> {
        "Layout/EndAlignment"@
    }

    open spec fn autocorrects(&self) -> bool {
        false
    }

    fn name(&self) -> (r: String) {
        "Layout/EndAlignment".to_owned()
    }

    fn on_node(&self, ctx: &mut Context, corrector: &mut Corrector, tree: &SyntaxTree, node: usize) {
        let n = tree.node(node);
        if n.kind != NodeKind::If {
            return;
        }
        if let (Some(keyword), Some(end)) = (n.keyword, n.end) {
            check_end(ctx, keyword, end, "if", "Layout/EndAlignment");
        }
    }
}

} // verus!
