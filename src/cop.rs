use vstd::prelude::*;
use vstd::string::StringExecFns;

use crate::ast::{ParentIndex, SyntaxTree};
use crate::config::{enabled, flag, Config};
use crate::corrector::Corrector;
use crate::source::{
    line_of, line_start, lossy_text, ByWholeLinesBuilder, DecodedInput, Loc, RangeHelp, Side,
    WithSurroundingSpaceBuilder,
};

verus! {

/// The text of `a` followed by the text of `b`.
pub(crate) fn concat(a: &str, b: &str) -> (r: String)
    ensures
        r@ == a@ + b@,
{
    let mut s = a.to_owned();
    s.append(b);
    s
}

/// Whether the text of `s` is `lit`.
pub(crate) fn name_is(s: &String, lit: &str) -> (r: bool)
    ensures
        r == (s@ == lit@),
{
    let owned = lit.to_owned();
    s.eq(&owned)
}

/// A reported issue.
pub struct Offense {
    pub loc: Loc,
    pub correctable: bool,
    pub cop_name: String,
    pub message: String,
}

/// The state of one run that the rules read and add offenses to.
pub struct Context {
    config: Config,
    input: DecodedInput,
    parents: ParentIndex,
    offenses: Vec<Offense>,
    handled: Ghost<Seq<(Seq<char>, int)>>,
}

impl Context {
    pub closed spec fn config(&self) -> Config {
        self.config
    }

    pub closed spec fn bytes(&self) -> Seq<u8> {
        self.input.bytes@
    }

    pub closed spec fn parents(&self) -> ParentIndex {
        self.parents
    }

    pub closed spec fn offenses(&self) -> Seq<Offense> {
        self.offenses@
    }

    /// Each call of a rule's handler in this run, as the rule's name and the node.
    pub closed spec fn handled(&self) -> Seq<(Seq<char>, int)> {
        self.handled@
    }

    /// `self` is `other` with offenses added.
    pub open spec fn extends(&self, other: &Context) -> bool {
        &&& self.config() == other.config()
        &&& self.bytes() == other.bytes()
        &&& self.parents() == other.parents()
        &&& self.handled() == other.handled()
        &&& self.offenses().len() >= other.offenses().len()
        &&& forall|i: int| 0 <= i < other.offenses().len() ==> self.offenses()[i] == other.offenses()[i]
    }

    pub fn new(config: Config, input: DecodedInput, parents: ParentIndex) -> (r: Context)
        ensures
            r.config() == config,
            r.bytes() == input.bytes@,
            r.parents() == parents,
            r.offenses().len() == 0,
            r.handled().len() == 0,
    {
        Context { config, input, parents, offenses: Vec::new(), handled: Ghost(Seq::empty()) }
    }

    /// The input and the offenses of the run.
    pub fn into_inner(self) -> (r: (DecodedInput, Vec<Offense>))
        ensures
            r.0.bytes@ == self.bytes(),
            r.1@ == self.offenses(),
    {
        (self.input, self.offenses)
    }

    /// Whether `loc` is a range of the source buffer.
    pub fn fits(&self, loc: Loc) -> (r: bool)
        ensures
            r == (loc.begin <= loc.end <= self.bytes().len()),
    {
        loc.begin <= loc.end && loc.end <= self.input.bytes.len()
    }

    pub fn source_len(&self) -> (r: usize)
        ensures
            r == self.bytes().len(),
    {
        self.input.bytes.len()
    }

    pub fn is_cop_enabled(&self, name: &String) -> (r: bool)
        ensures
            r == enabled(self.config(), name@),
    {
        self.config.is_cop_enabled(name)
    }

    pub fn is_active_support_extensions_enabled(&self) -> (r: bool)
        ensures
            r == flag(self.config(), "AllCops"@, "ActiveSupportExtensionsEnabled"@),
    {
        self.config.is_active_support_extensions_enabled()
    }

    /// Records an offense; nothing is checked, merged or sorted.
    pub fn add_offense(&mut self, offense: Offense)
        ensures
            final(self).offenses() == old(self).offenses().push(offense),
            final(self).extends(old(self)),
    {
        self.offenses.push(offense);
    }

    pub(crate) fn note_handled(&mut self, name: Ghost<Seq<char>>, node: Ghost<int>)
        ensures
            final(self).handled() == old(self).handled().push((name@, node@)),
            final(self).config() == old(self).config(),
            final(self).bytes() == old(self).bytes(),
            final(self).parents() == old(self).parents(),
            final(self).offenses() == old(self).offenses(),
    {
        self.handled = Ghost(self.handled@.push((name@, node@)));
    }

    /// The parent of `node`.
    pub fn parent(&self, node: usize) -> (r: Option<usize>)
        ensures
            r == self.parents().parent_of(node as int),
    {
        self.parents.parent(node)
    }

    pub fn line_col_for_pos(&self, pos: usize) -> (r: (usize, usize))
        requires
            pos <= self.bytes().len(),
        ensures
            r.0 == line_of(self.bytes(), pos as int),
            r.1 == pos - line_start(self.bytes(), pos as int),
    {
        self.input.line_col_for_pos(pos)
    }

    pub fn source(&self, loc: Loc) -> (r: String)
        requires
            loc.begin <= loc.end <= self.bytes().len(),
        ensures
            r@ == lossy_text(self.bytes().subrange(loc.begin as int, loc.end as int)),
            vstd::utf8::valid_utf8(self.bytes().subrange(loc.begin as int, loc.end as int)) ==> vstd::utf8::encode_utf8(
                r@,
            ) == self.bytes().subrange(loc.begin as int, loc.end as int),
    {
        self.input.source(loc)
    }

    pub fn source_is(&self, loc: Loc, text: &[u8]) -> (r: bool)
        requires
            loc.begin <= loc.end <= self.bytes().len(),
        ensures
            r == (self.bytes().subrange(loc.begin as int, loc.end as int) == text@),
    {
        self.input.source_is(loc, text)
    }

    pub fn intersect(&self, loc: Loc) -> (r: Loc)
        ensures
            r.begin == if loc.begin <= self.bytes().len() { loc.begin } else { self.bytes().len() as usize },
            r.end == if loc.end <= self.bytes().len() { loc.end } else { self.bytes().len() as usize },
    {
        self.input.intersect(loc)
    }

    /// The input buffer, for the builders of widened ranges.
    pub fn input(&self) -> (r: &DecodedInput)
        ensures
            r.bytes@ == self.bytes(),
    {
        &self.input
    }
}

impl RangeHelp for Context {
    open spec fn range_source(&self) -> Seq<u8> {
        self.bytes()
    }

    fn range_with_surrounding_comma(&self, range: Loc, side: Side) -> (r: Loc) {
        self.input.range_with_surrounding_comma(range, side)
    }

    fn range_with_surrounding_space(&self, range: Loc) -> (r: WithSurroundingSpaceBuilder) {
        self.input.range_with_surrounding_space(range)
    }

    fn range_by_whole_lines(&self, range: Loc) -> (r: ByWholeLinesBuilder) {
        self.input.range_by_whole_lines(range)
    }
}

/// The contract of a rule: a name, a gate for each node, and a handler.
pub trait Cop {
    spec fn spec_name(&self) -> Seq<char>;

    /// Whether the rule may register edits.
    spec fn autocorrects(&self) -> bool;

    fn name(&self) -> (r: String)
        ensures
            r@ == self.spec_name(),
    ;

    /// Whether the rule handles `node` and descends into its children.
    spec fn spec_visit(&self, tree: SyntaxTree, node: int) -> bool;

    /// Whether to handle `node` and descend into its children.
    fn visit(&self, ctx: &Context, tree: &SyntaxTree, node: usize) -> (r: bool)
        requires
            tree.wf(),
            node < tree.len(),
        ensures
            r == self.spec_visit(*tree, node as int),
    ;

    /// Whether the handler leaves everything as it is on `node`, given the
    /// source bytes, the configuration and the parent index of the run.
    spec fn quiet(&self, bytes: Seq<u8>, config: Config, parents: ParentIndex, tree: SyntaxTree, node: int) -> bool;

    /// Inspects `node`, and may add offenses and, where the rule autocorrects, edits.
    fn on_node(&self, ctx: &mut Context, corrector: &mut Corrector, tree: &SyntaxTree, node: usize)
        requires
            tree.wf(),
            node < tree.len(),
            old(corrector).len() == old(ctx).bytes().len(),
        ensures
            final(ctx).extends(old(ctx)),
            forall|i: int|
                old(ctx).offenses().len() <= i < final(ctx).offenses().len() ==> (
                #[trigger] final(ctx).offenses()[i]).cop_name@ == self.spec_name(),
            final(corrector).len() == old(corrector).len(),
            !self.autocorrects() ==> final(corrector).tree() == old(corrector).tree(),
            self.quiet(old(ctx).bytes(), old(ctx).config(), old(ctx).parents(), *tree, node as int) ==> *final(ctx)
                == *old(ctx) && *final(corrector) == *old(corrector),
    ;
}

/// A rule that registers edits along with its offenses.
pub trait AutoCorrector: Cop {
}

} // verus!
