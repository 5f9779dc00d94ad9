use vstd::prelude::*;

use crate::ast::{ParentIndex, SyntaxTree};
use crate::config::{enabled, Config};
use crate::cop::{Context, Cop, Offense};
use crate::corrector::Corrector;
use crate::source::DecodedInput;

verus! {

/// Drives the rules over a syntax tree.
pub struct Commissioner;

/// The handler calls that `run` added: each is of an enabled rule of `cops`.
pub open spec fn calls_of_enabled<C: Cop>(cops: Seq<C>, config: Config, calls: Seq<(Seq<char>, int)>) -> bool {
    forall|i: int|
        0 <= i < calls.len() ==> enabled(config, #[trigger] calls[i].0) && exists|c: int|
            0 <= c < cops.len() && cops[c].spec_name() == calls[i].0
}

/// The offenses from index `from` on are all reported by the rule named `name`.
pub open spec fn named_from(offs: Seq<Offense>, from: int, name: Seq<char>) -> bool {
    forall|i: int| from <= i < offs.len() ==> (#[trigger] offs[i]).cop_name@ == name
}

/// `offs` starts with `before`.
pub open spec fn keeps(offs: Seq<Offense>, before: Seq<Offense>) -> bool {
    offs.len() >= before.len() && forall|i: int| 0 <= i < before.len() ==> #[trigger] offs[i] == before[i]
}

/// The offenses from index `from` on are all reported by enabled rules of `cops`.
pub open spec fn reported_by_enabled<C: Cop>(cops: Seq<C>, config: Config, offs: Seq<Offense>, from: int) -> bool {
    forall|i: int|
        from <= i < offs.len() ==> enabled(config, (#[trigger] offs[i]).cop_name@) && exists|c: int|
            0 <= c < cops.len() && cops[c].spec_name() == offs[i].cop_name@
}

/// No rule of `cops` that is enabled may register edits.
pub open spec fn no_enabled_corrector<C: Cop>(cops: Seq<C>, config: Config) -> bool {
    forall|c: int| 0 <= c < cops.len() && enabled(config, (#[trigger] cops[c]).spec_name()) ==> !cops[c].autocorrects()
}

/// Rule `cop` stays quiet on every node of `tree`.
pub open spec fn silent<C: Cop>(cop: C, bytes: Seq<u8>, config: Config, parents: ParentIndex, tree: SyntaxTree) -> bool {
    forall|n: int| 0 <= n < tree.len() ==> #[trigger] cop.quiet(bytes, config, parents, tree, n)
}

/// Every enabled rule of `cops` stays quiet on every node of `tree`, whatever the parent index.
pub open spec fn all_silent<C: Cop>(cops: Seq<C>, config: Config, bytes: Seq<u8>, tree: SyntaxTree) -> bool {
    forall|c: int, p: ParentIndex|
        0 <= c < cops.len() && enabled(config, cops[c].spec_name()) ==> #[trigger] silent(cops[c], bytes, config, p, tree)
}

/// The handler calls of one rule's depth-first, pre-order walk from node `n`:
/// where the rule's `visit` accepts `n`, the call on `n`, then the walks from its
/// children, left to right; where it declines, nothing below `n`.
pub open spec fn walk_calls<C: Cop>(cop: C, tree: SyntaxTree, n: int) -> Seq<(Seq<char>, int)>
    decreases tree.len() - n, 1int, 0int,
{
    if n < 0 || n >= tree.len() || !cop.spec_visit(tree, n) {
        Seq::empty()
    } else {
        seq![(cop.spec_name(), n)] + walk_children(cop, tree, n, 0)
    }
}

/// The walks from the children of `n`, from the `k`-th on, one after the other.
pub open spec fn walk_children<C: Cop>(cop: C, tree: SyntaxTree, n: int, k: int) -> Seq<(Seq<char>, int)>
    decreases tree.len() - n, 0int, tree.node_at(n).kids().len() - k,
{
    let kids = tree.node_at(n).kids();
    if n < 0 || n >= tree.len() || k < 0 || k >= kids.len() {
        Seq::empty()
    } else if n < kids[k] < tree.len() {
        walk_calls(cop, tree, kids[k] as int) + walk_children(cop, tree, n, k + 1)
    } else {
        walk_children(cop, tree, n, k + 1)
    }
}

/// The handler calls of a run of the first `i` rules of `cops`: one after the
/// other, each enabled rule's walk from the root; nothing for a disabled rule.
pub open spec fn run_calls<C: Cop>(cops: Seq<C>, config: Config, tree: SyntaxTree, i: int) -> Seq<(Seq<char>, int)>
    decreases i,
{
    if i <= 0 || i > cops.len() {
        Seq::empty()
    } else {
        run_calls(cops, config, tree, i - 1) + if enabled(config, cops[i - 1].spec_name()) {
            walk_calls(cops[i - 1], tree, 0)
        } else {
            Seq::empty()
        }
    }
}

/// Every call of a rule's walk is a call of that rule.
proof fn lemma_walk_names<C: Cop>(cop: C, tree: SyntaxTree, n: int)
    ensures
        forall|i: int|
            0 <= i < walk_calls(cop, tree, n).len() ==> (#[trigger] walk_calls(cop, tree, n)[i]).0 == cop.spec_name(),
    decreases tree.len() - n, 1int, 0int,
{
    if n < 0 || n >= tree.len() || !cop.spec_visit(tree, n) {
    } else {
        lemma_children_names(cop, tree, n, 0);
        let w = walk_calls(cop, tree, n);
        let c = walk_children(cop, tree, n, 0);
        assert forall|i: int| 0 <= i < w.len() implies (#[trigger] w[i]).0 == cop.spec_name() by {
            if i > 0 {
                assert(w[i] == c[i - 1]);
            }
        }
    }
}

proof fn lemma_children_names<C: Cop>(cop: C, tree: SyntaxTree, n: int, k: int)
    ensures
        forall|i: int|
            0 <= i < walk_children(cop, tree, n, k).len() ==> (#[trigger] walk_children(cop, tree, n, k)[i]).0
                == cop.spec_name(),
    decreases tree.len() - n, 0int, tree.node_at(n).kids().len() - k,
{
    let kids = tree.node_at(n).kids();
    if n < 0 || n >= tree.len() || k < 0 || k >= kids.len() {
    } else if n < kids[k] < tree.len() {
        lemma_walk_names(cop, tree, kids[k] as int);
        lemma_children_names(cop, tree, n, k + 1);
        let a = walk_calls(cop, tree, kids[k] as int);
        let b = walk_children(cop, tree, n, k + 1);
        let w = walk_children(cop, tree, n, k);
        assert forall|i: int| 0 <= i < w.len() implies (#[trigger] w[i]).0 == cop.spec_name() by {
            if i < a.len() {
                assert(w[i] == a[i]);
            } else {
                assert(w[i] == b[i - a.len()]);
            }
        }
    } else {
        lemma_children_names(cop, tree, n, k + 1);
        assert(walk_children(cop, tree, n, k) == walk_children(cop, tree, n, k + 1));
    }
}

/// Every call of a run is a call of an enabled rule of `cops`.
pub proof fn lemma_run_calls_enabled<C: Cop>(cops: Seq<C>, config: Config, tree: SyntaxTree, i: int)
    requires
        0 <= i <= cops.len(),
    ensures
        calls_of_enabled(cops, config, run_calls(cops, config, tree, i)),
    decreases i,
{
    if i > 0 {
        lemma_run_calls_enabled(cops, config, tree, i - 1);
        let c = cops[i - 1];
        lemma_walk_names(c, tree, 0);
        let prev = run_calls(cops, config, tree, i - 1);
        let last = if enabled(config, c.spec_name()) {
            walk_calls(c, tree, 0)
        } else {
            Seq::empty()
        };
        let all = run_calls(cops, config, tree, i);
        assert(all == prev + last);
        assert forall|j: int| 0 <= j < all.len() implies enabled(config, #[trigger] all[j].0) && exists|x: int|
            0 <= x < cops.len() && cops[x].spec_name() == all[j].0 by {
            if j < prev.len() {
                assert(all[j] == prev[j]);
            } else {
                assert(all[j] == last[j - prev.len()]);
                assert(cops[i - 1].spec_name() == all[j].0);
            }
        }
    }
}

impl Commissioner {
    /// Visits the subtree of `node` depth-first, parents before children. Where the
    /// rule's `visit` accepts a node, the rule inspects it and then its children;
    /// where `visit` declines, the rule leaves that subtree alone.
    fn walk<C: Cop>(cop: &C, ctx: &mut Context, corrector: &mut Corrector, tree: &SyntaxTree, node: usize)
        requires
            tree.wf(),
            node < tree.len(),
            old(corrector).len() == old(ctx).bytes().len(),
        ensures
            final(ctx).config() == old(ctx).config(),
            final(ctx).bytes() == old(ctx).bytes(),
            final(ctx).parents() == old(ctx).parents(),
            final(corrector).len() == old(corrector).len(),
            final(ctx).handled() == old(ctx).handled() + walk_calls(*cop, *tree, node as int),
            keeps(final(ctx).offenses(), old(ctx).offenses()),
            named_from(final(ctx).offenses(), old(ctx).offenses().len() as int, cop.spec_name()),
            !cop.autocorrects() ==> final(corrector).tree() == old(corrector).tree(),
            silent(*cop, old(ctx).bytes(), old(ctx).config(), old(ctx).parents(), *tree) ==> final(ctx).offenses()
                == old(ctx).offenses() && final(corrector).tree() == old(corrector).tree(),
        decreases tree.len() - node,
    {
        let ghost start = ctx.handled();
        let ghost offs0 = ctx.offenses();
        let ghost edits0 = corrector.tree();
        if !cop.visit(ctx, tree, node) {
            assert(ctx.handled() =~= start + walk_calls(*cop, *tree, node as int));
            return;
        }
        ctx.note_handled(Ghost(cop.spec_name()), Ghost(node as int));
        proof {
            if silent(*cop, ctx.bytes(), ctx.config(), ctx.parents(), *tree) {
                assert(cop.quiet(ctx.bytes(), ctx.config(), ctx.parents(), *tree, node as int));
            }
        }
        cop.on_node(ctx, corrector, tree, node);
        let kids = tree.node(node).children();
        proof {
            tree.lemma_children_after(node as int);
            assert(ctx.handled() + walk_children(*cop, *tree, node as int, 0) =~= start + walk_calls(*cop, *tree, node as int));
        }
        let mut k: usize = 0;
        while k < kids.len()
            invariant
                tree.wf(),
                node < tree.len(),
                kids@ == tree.node_at(node as int).kids(),
                k <= kids@.len(),
                ctx.config() == old(ctx).config(),
                ctx.bytes() == old(ctx).bytes(),
                ctx.parents() == old(ctx).parents(),
                corrector.len() == old(corrector).len(),
                corrector.len() == ctx.bytes().len(),
                ctx.handled() + walk_children(*cop, *tree, node as int, k as int) == start + walk_calls(*cop, *tree, node as int),
                keeps(ctx.offenses(), offs0),
                named_from(ctx.offenses(), offs0.len() as int, cop.spec_name()),
                !cop.autocorrects() ==> corrector.tree() == edits0,
                silent(*cop, ctx.bytes(), ctx.config(), ctx.parents(), *tree) ==> ctx.offenses() == offs0
                    && corrector.tree() == edits0,
                forall|j: int|
                    0 <= j < kids@.len() ==> node < #[trigger] tree.node_at(node as int).kids()[j] < tree.len(),
            decreases kids@.len() - k,
        {
            let ghost mid = ctx.handled();
            let ghost offs1 = ctx.offenses();
            let kid = kids[k];
            assert(node < tree.node_at(node as int).kids()[k as int] < tree.len());
            assert(walk_children(*cop, *tree, node as int, k as int) == walk_calls(*cop, *tree, kid as int)
                + walk_children(*cop, *tree, node as int, k + 1));
            Self::walk(cop, ctx, corrector, tree, kid);
            assert forall|i: int| offs0.len() <= i < ctx.offenses().len() implies (#[trigger] ctx.offenses()[i]).cop_name@
                == cop.spec_name() by {
                if i < offs1.len() {
                    assert(ctx.offenses()[i] == offs1[i]);
                }
            }
            assert(ctx.handled() + walk_children(*cop, *tree, node as int, k + 1) =~= mid + walk_children(
                *cop,
                *tree,
                node as int,
                k as int,
            ));
            k = k + 1;
        }
        assert(walk_children(*cop, *tree, node as int, k as int) == Seq::<(Seq<char>, int)>::empty());
        assert(ctx.handled() =~= start + walk_calls(*cop, *tree, node as int));
    }

    /// One rule's run: one full walk of the tree if the rule is enabled, nothing if not.
    pub fn run_cop<C: Cop>(cop: &C, ctx: &mut Context, corrector: &mut Corrector, tree: &SyntaxTree)
        requires
            tree.wf(),
            tree.len() > 0,
            old(corrector).len() == old(ctx).bytes().len(),
        ensures
            final(ctx).config() == old(ctx).config(),
            final(ctx).bytes() == old(ctx).bytes(),
            final(ctx).parents() == old(ctx).parents(),
            final(corrector).len() == old(corrector).len(),
            enabled(old(ctx).config(), cop.spec_name()) ==> final(ctx).handled() == old(ctx).handled() + walk_calls(
                *cop,
                *tree,
                0,
            ),
            keeps(final(ctx).offenses(), old(ctx).offenses()),
            named_from(final(ctx).offenses(), old(ctx).offenses().len() as int, cop.spec_name()),
            !cop.autocorrects() ==> final(corrector).tree() == old(corrector).tree(),
            silent(*cop, old(ctx).bytes(), old(ctx).config(), old(ctx).parents(), *tree) ==> final(ctx).offenses()
                == old(ctx).offenses() && final(corrector).tree() == old(corrector).tree(),
            !enabled(old(ctx).config(), cop.spec_name()) ==> *final(ctx) == *old(ctx) && *final(corrector)
                == *old(corrector),
    {
        let name = cop.name();
        if ctx.is_cop_enabled(&name) {
            Self::walk(cop, ctx, corrector, tree, 0);
        }
    }

    /// Runs each rule of `cops` in turn, in order: the handler calls are exactly
    /// the walks of the enabled rules, one after the other.
    pub fn run<C: Cop>(cops: &Vec<C>, ctx: &mut Context, corrector: &mut Corrector, tree: &SyntaxTree)
        requires
            tree.wf(),
            tree.len() > 0,
            old(corrector).len() == old(ctx).bytes().len(),
        ensures
            final(ctx).config() == old(ctx).config(),
            final(ctx).bytes() == old(ctx).bytes(),
            final(corrector).len() == old(corrector).len(),
            final(ctx).handled() == old(ctx).handled() + run_calls(cops@, old(ctx).config(), *tree, cops@.len() as int),
            calls_of_enabled(cops@, old(ctx).config(), run_calls(cops@, old(ctx).config(), *tree, cops@.len() as int)),
            keeps(final(ctx).offenses(), old(ctx).offenses()),
            reported_by_enabled(cops@, old(ctx).config(), final(ctx).offenses(), old(ctx).offenses().len() as int),
            no_enabled_corrector(cops@, old(ctx).config()) ==> final(corrector).tree() == old(corrector).tree(),
            all_silent(cops@, old(ctx).config(), old(ctx).bytes(), *tree) ==> final(ctx).offenses() == old(ctx).offenses()
                && final(corrector).tree() == old(corrector).tree(),
    {
        let ghost start = ctx.handled();
        let ghost offs0 = ctx.offenses();
        let mut i: usize = 0;
        assert(start + run_calls(cops@, ctx.config(), *tree, 0) =~= start);
        while i < cops.len()
            invariant
                tree.wf(),
                tree.len() > 0,
                i <= cops@.len(),
                ctx.config() == old(ctx).config(),
                ctx.bytes() == old(ctx).bytes(),
                corrector.len() == old(corrector).len(),
                corrector.len() == ctx.bytes().len(),
                ctx.handled() == start + run_calls(cops@, ctx.config(), *tree, i as int),
                keeps(ctx.offenses(), offs0),
                reported_by_enabled(cops@, ctx.config(), ctx.offenses(), offs0.len() as int),
                no_enabled_corrector(cops@, ctx.config()) ==> corrector.tree() == old(corrector).tree(),
                ctx.parents() == old(ctx).parents(),
                all_silent(cops@, ctx.config(), ctx.bytes(), *tree) ==> ctx.offenses() == offs0 && corrector.tree()
                    == old(corrector).tree(),
            decreases cops@.len() - i,
        {
            let ghost mid = ctx.handled();
            let ghost offs1 = ctx.offenses();
            proof {
                if all_silent(cops@, ctx.config(), ctx.bytes(), *tree) && enabled(ctx.config(), cops@[i as int].spec_name()) {
                    assert(silent(cops@[i as int], ctx.bytes(), ctx.config(), ctx.parents(), *tree));
                }
            }
            Self::run_cop(&cops[i], ctx, corrector, tree);
            assert forall|j: int| offs0.len() <= j < ctx.offenses().len() implies enabled(
                ctx.config(),
                (#[trigger] ctx.offenses()[j]).cop_name@,
            ) && exists|c: int| 0 <= c < cops@.len() && cops@[c].spec_name() == ctx.offenses()[j].cop_name@ by {
                if j < offs1.len() {
                    assert(ctx.offenses()[j] == offs1[j]);
                } else {
                    assert(ctx.offenses()[j].cop_name@ == cops@[i as int].spec_name());
                    assert(enabled(ctx.config(), cops@[i as int].spec_name()));
                }
            }
            assert(ctx.handled() =~= start + run_calls(cops@, ctx.config(), *tree, i + 1));
            i = i + 1;
        }
        proof {
            lemma_run_calls_enabled(cops@, old(ctx).config(), *tree, cops@.len() as int);
        }
    }

    /// A whole run over one file: with no tree there is nothing to do; else the
    /// parent index is built once, then each enabled rule walks the tree. The
    /// last part of the result is the record of the handler calls, in order.
    pub fn investigate<C: Cop>(cops: &Vec<C>, config: Config, input: DecodedInput, tree: Option<SyntaxTree>) -> (r: (
        DecodedInput,
        Vec<Offense>,
        Corrector,
        Ghost<Seq<(Seq<char>, int)>>,
    ))
        requires
            tree matches Some(t) ==> t.wf(),
        ensures
            r.0.bytes@ == input.bytes@,
            r.2.len() == input.bytes@.len(),
            tree is None ==> r.1@.len() == 0 && r.2.tree() == crate::rewriter::untouched(input.bytes@.len() as int)
                && r.3@.len() == 0,
            tree matches Some(t) ==> r.3@ == run_calls(cops@, config, t, cops@.len() as int),
            calls_of_enabled(cops@, config, r.3@),
            reported_by_enabled(cops@, config, r.1@, 0),
            no_enabled_corrector(cops@, config) ==> r.2.tree() == crate::rewriter::untouched(input.bytes@.len() as int),
            tree matches Some(t) && all_silent(cops@, config, input.bytes@, t) ==> r.1@.len() == 0 && r.2.tree()
                == crate::rewriter::untouched(input.bytes@.len() as int),
    {
        let corrector = Corrector::new(input.bytes.as_slice());
        match tree {
            None => (input, Vec::new(), corrector, Ghost(Seq::empty())),
            Some(t) => {
                let ghost cfg = config;
                let parents = ParentIndex::build(&t);
                let mut ctx = Context::new(config, input, parents);
                let mut corrector = corrector;
                if t.node_count() > 0 {
                    Self::run(cops, &mut ctx, &mut corrector, &t);
                } else {
                    proof {
                        lemma_run_calls_enabled(cops@, cfg, t, cops@.len() as int);
                        lemma_empty_tree_runs_nothing(cops@, cfg, t, cops@.len() as int);
                    }
                }
                let ghost calls = ctx.handled();
                assert(calls =~= run_calls(cops@, cfg, t, cops@.len() as int));
                let (input, offenses) = ctx.into_inner();
                (input, offenses, corrector, Ghost(calls))
            },
        }
    }
}

/// With no node, no rule has anything to walk.
proof fn lemma_empty_tree_runs_nothing<C: Cop>(cops: Seq<C>, config: Config, tree: SyntaxTree, i: int)
    requires
        tree.len() == 0,
    ensures
        run_calls(cops, config, tree, i) == Seq::<(Seq<char>, int)>::empty(),
    decreases i,
{
    if i > 0 && i <= cops.len() {
        lemma_empty_tree_runs_nothing(cops, config, tree, i - 1);
        assert(walk_calls(cops[i - 1], tree, 0) == Seq::<(Seq<char>, int)>::empty());
        assert(run_calls(cops, config, tree, i) =~= Seq::<(Seq<char>, int)>::empty());
    }
}

} // verus!
