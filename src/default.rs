use vstd::prelude::*;

use crate::ast::{ParentIndex, SyntaxTree};
use crate::config::{Config, ConfigTree, ConfigValue};
use crate::cop::{Context, Cop};
use crate::corrector::Corrector;
use crate::layout::{DefEndAlignment, ElseAlignment, EndAlignment};
use crate::style::{
    BeginBlock, ExactRegexpMatch, MethodDefParentheses, MultilineIfThen, Not, RedundantArrayConstructor,
    RedundantFilterChain, RedundantRegexpConstructor, StringLiterals,
};

verus! {

/// The rules that come with the engine.
#[derive(Clone, Copy, Debug, PartialEq, Eq, Structural)]
pub enum BuiltinCop {
    DefEndAlignment,
    ElseAlignment,
    EndAlignment,
    BeginBlock,
    ExactRegexpMatch,
    MethodDefParentheses,
    MultilineIfThen,
    Not,
    RedundantArrayConstructor,
    RedundantFilterChain,
    RedundantRegexpConstructor,
    StringLiterals,
}

impl Cop for BuiltinCop {
    open spec fn quiet(&self, bytes: Seq<u8>, config: Config, parents: ParentIndex, tree: SyntaxTree, node: int) -> bool {
        match self {
            BuiltinCop::DefEndAlignment => DefEndAlignment.quiet(bytes, config, parents, tree, node),
            BuiltinCop::ElseAlignment => ElseAlignment.quiet(bytes, config, parents, tree, node),
            BuiltinCop::EndAlignment => EndAlignment.quiet(bytes, config, parents, tree, node),
            BuiltinCop::BeginBlock => BeginBlock.quiet(bytes, config, parents, tree, node),
            BuiltinCop::ExactRegexpMatch => ExactRegexpMatch.quiet(bytes, config, parents, tree, node),
            BuiltinCop::MethodDefParentheses => MethodDefParentheses.quiet(bytes, config, parents, tree, node),
            BuiltinCop::MultilineIfThen => MultilineIfThen.quiet(bytes, config, parents, tree, node),
            BuiltinCop::Not => Not.quiet(bytes, config, parents, tree, node),
            BuiltinCop::RedundantArrayConstructor => RedundantArrayConstructor.quiet(bytes, config, parents, tree, node),
            BuiltinCop::RedundantFilterChain => RedundantFilterChain.quiet(bytes, config, parents, tree, node),
            BuiltinCop::RedundantRegexpConstructor => RedundantRegexpConstructor.quiet(bytes, config, parents, tree, node),
            BuiltinCop::StringLiterals => StringLiterals.quiet(bytes, config, parents, tree, node),
        }
    }

    open spec fn spec_visit(&self, tree: SyntaxTree, node: int) -> bool {
        true
    }

    fn visit(&self, ctx: &Context, tree: &SyntaxTree, node: usize) -> (r: bool) {
        true
    }

    open spec fn spec_name(&self) -> Seq<char> {
        match self {
            BuiltinCop::DefEndAlignment => DefEndAlignment.spec_name(),
            BuiltinCop::ElseAlignment => ElseAlignment.spec_name(),
            BuiltinCop::EndAlignment => EndAlignment.spec_name(),
            BuiltinCop::BeginBlock => BeginBlock.spec_name(),
            BuiltinCop::ExactRegexpMatch => ExactRegexpMatch.spec_name(),
            BuiltinCop::MethodDefParentheses => MethodDefParentheses.spec_name(),
            BuiltinCop::MultilineIfThen => MultilineIfThen.spec_name(),
            BuiltinCop::Not => Not.spec_name(),
            BuiltinCop::RedundantArrayConstructor => RedundantArrayConstructor.spec_name(),
            BuiltinCop::RedundantFilterChain => RedundantFilterChain.spec_name(),
            BuiltinCop::RedundantRegexpConstructor => RedundantRegexpConstructor.spec_name(),
            BuiltinCop::StringLiterals => StringLiterals.spec_name(),
        }
    }

    open spec fn autocorrects(&self) -> bool {
        match self {
            BuiltinCop::DefEndAlignment => DefEndAlignment.autocorrects(),
            BuiltinCop::ElseAlignment => ElseAlignment.autocorrects(),
            BuiltinCop::EndAlignment => EndAlignment.autocorrects(),
            BuiltinCop::BeginBlock => BeginBlock.autocorrects(),
            BuiltinCop::ExactRegexpMatch => ExactRegexpMatch.autocorrects(),
            BuiltinCop::MethodDefParentheses => MethodDefParentheses.autocorrects(),
            BuiltinCop::MultilineIfThen => MultilineIfThen.autocorrects(),
            BuiltinCop::Not => Not.autocorrects(),
            BuiltinCop::RedundantArrayConstructor => RedundantArrayConstructor.autocorrects(),
            BuiltinCop::RedundantFilterChain => RedundantFilterChain.autocorrects(),
            BuiltinCop::RedundantRegexpConstructor => RedundantRegexpConstructor.autocorrects(),
            BuiltinCop::StringLiterals => StringLiterals.autocorrects(),
        }
    }

    fn name(&self) -> (r: String) {
        match self {
            BuiltinCop::DefEndAlignment => DefEndAlignment.name(),
            BuiltinCop::ElseAlignment => ElseAlignment.name(),
            BuiltinCop::EndAlignment => EndAlignment.name(),
            BuiltinCop::BeginBlock => BeginBlock.name(),
            BuiltinCop::ExactRegexpMatch => ExactRegexpMatch.name(),
            BuiltinCop::MethodDefParentheses => MethodDefParentheses.name(),
            BuiltinCop::MultilineIfThen => MultilineIfThen.name(),
            BuiltinCop::Not => Not.name(),
            BuiltinCop::RedundantArrayConstructor => RedundantArrayConstructor.name(),
            BuiltinCop::RedundantFilterChain => RedundantFilterChain.name(),
            BuiltinCop::RedundantRegexpConstructor => RedundantRegexpConstructor.name(),
            BuiltinCop::StringLiterals => StringLiterals.name(),
        }
    }

    fn on_node(&self, ctx: &mut Context, corrector: &mut Corrector, tree: &SyntaxTree, node: usize) {
        match self {
            BuiltinCop::DefEndAlignment => DefEndAlignment.on_node(ctx, corrector, tree, node),
            BuiltinCop::ElseAlignment => ElseAlignment.on_node(ctx, corrector, tree, node),
            BuiltinCop::EndAlignment => EndAlignment.on_node(ctx, corrector, tree, node),
            BuiltinCop::BeginBlock => BeginBlock.on_node(ctx, corrector, tree, node),
            BuiltinCop::ExactRegexpMatch => ExactRegexpMatch.on_node(ctx, corrector, tree, node),
            BuiltinCop::MethodDefParentheses => MethodDefParentheses.on_node(ctx, corrector, tree, node),
            BuiltinCop::MultilineIfThen => MultilineIfThen.on_node(ctx, corrector, tree, node),
            BuiltinCop::Not => Not.on_node(ctx, corrector, tree, node),
            BuiltinCop::RedundantArrayConstructor => RedundantArrayConstructor.on_node(ctx, corrector, tree, node),
            BuiltinCop::RedundantFilterChain => RedundantFilterChain.on_node(ctx, corrector, tree, node),
            BuiltinCop::RedundantRegexpConstructor => RedundantRegexpConstructor.on_node(ctx, corrector, tree, node),
            BuiltinCop::StringLiterals => StringLiterals.on_node(ctx, corrector, tree, node),
        }
    }
}

/// `! test` holds no `not`, so with `Not` alone every enabled rule stays quiet
/// on every node of any tree over it: the run reports nothing and edits nothing.
pub proof fn lemma_bang_test(config: Config, tree: SyntaxTree)
    ensures
        crate::commissioner::all_silent(seq![BuiltinCop::Not], config, seq![33u8, 32u8, 116u8, 101u8, 115u8, 116u8], tree),
{
    let b = seq![33u8, 32u8, 116u8, 101u8, 115u8, 116u8];
    let cops = seq![BuiltinCop::Not];
    assert forall|c: int, p: ParentIndex|
        0 <= c < cops.len() && crate::config::enabled(config, cops[c].spec_name()) implies #[trigger] crate::commissioner::silent(
        cops[c],
        b,
        config,
        p,
        tree,
    ) by {
        assert(cops[c] == BuiltinCop::Not);
        assert forall|n: int| 0 <= n < tree.len() implies #[trigger] cops[c].quiet(b, config, p, tree, n) by {
            if crate::style::is_prefix_not(b, tree, n) {
                let s = tree.node_at(n).selector->0;
                let sub = b.subrange(s.begin as int, s.end as int);
                assert(sub == seq![110u8, 111u8, 116u8]);
                assert(sub.len() == 3);
                assert(s.begin + 3 <= 6);
                assert(sub[0] == b[s.begin as int]);
                assert(sub[0] == 110u8);
                assert(false);
            }
            assert(Not.quiet(b, config, p, tree, n));
        }
    }
}

/// Every built-in rule, in the order in which a run applies them.
pub open spec fn all_cops() -> Seq<BuiltinCop> {
    seq![
        BuiltinCop::DefEndAlignment,
        BuiltinCop::ElseAlignment,
        BuiltinCop::EndAlignment,
        BuiltinCop::BeginBlock,
        BuiltinCop::ExactRegexpMatch,
        BuiltinCop::MethodDefParentheses,
        BuiltinCop::MultilineIfThen,
        BuiltinCop::Not,
        BuiltinCop::RedundantArrayConstructor,
        BuiltinCop::RedundantFilterChain,
        BuiltinCop::RedundantRegexpConstructor,
        BuiltinCop::StringLiterals,
    ]
}

/// Every built-in rule.
pub fn cops() -> (r: Vec<BuiltinCop>)
    ensures
        r@ == all_cops(),
{
    let v = vec![
        BuiltinCop::DefEndAlignment,
        BuiltinCop::ElseAlignment,
        BuiltinCop::EndAlignment,
        BuiltinCop::BeginBlock,
        BuiltinCop::ExactRegexpMatch,
        BuiltinCop::MethodDefParentheses,
        BuiltinCop::MultilineIfThen,
        BuiltinCop::Not,
        BuiltinCop::RedundantArrayConstructor,
        BuiltinCop::RedundantFilterChain,
        BuiltinCop::RedundantRegexpConstructor,
        BuiltinCop::StringLiterals,
    ];
    assert(v@ =~= all_cops());
    v
}

/// The built-in defaults: every built-in rule enabled, and the ActiveSupport
/// extensions not assumed.
pub fn config() -> (r: ConfigTree)
    ensures
        r.entries@.len() == 13,
        forall|i: int|
            0 <= i < 12 ==> (#[trigger] r.entries@[i]).cop@ == all_cops()[i].spec_name() && r.entries@[i].option@
                == "Enabled"@ && r.entries@[i].value == ConfigValue::Bool(true),
        r.entries@[12].cop@ == "AllCops"@,
        r.entries@[12].option@ == "ActiveSupportExtensionsEnabled"@,
        r.entries@[12].value == ConfigValue::Bool(false),
{
    let mut t = ConfigTree::new();
    let rules = cops();
    let mut i: usize = 0;
    while i < rules.len()
        invariant
            i <= rules@.len() == 12,
            rules@ == all_cops(),
            t.entries@.len() == i,
            forall|j: int|
                0 <= j < i ==> (#[trigger] t.entries@[j]).cop@ == all_cops()[j].spec_name() && t.entries@[j].option@
                    == "Enabled"@ && t.entries@[j].value == ConfigValue::Bool(true),
        decreases rules@.len() - i,
    {
        let name = rules[i].name();
        let option = "Enabled".to_owned();
        t.insert(name, option, ConfigValue::Bool(true));
        i = i + 1;
    }
    t.insert("AllCops".to_owned(), "ActiveSupportExtensionsEnabled".to_owned(), ConfigValue::Bool(false));
    t
}

} // verus!
