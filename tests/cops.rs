use lib_ruby_parser::nodes;
use lib_ruby_parser::traverse::visitor;
use lib_ruby_parser::traverse::visitor::Visitor;
use lib_ruby_parser::{Parser, ParserOptions};
use rubocop::ast::{Node, NodeKind, SyntaxTree};
use rubocop::commissioner::Commissioner;
use rubocop::config::{Config, ConfigTree, ConfigValue};
use rubocop::cop::{Cop, Offense};
use rubocop::corrector::Corrector;
use rubocop::default::BuiltinCop;
use rubocop::expect_offense::{normalize_source, parse_annotations, AnnotatedSource};
use rubocop::source::{DecodedInput, Loc};

/// Builds the library's syntax tree from lib_ruby_parser's, in document order.
struct TreeBuilder {
    tree: Option<SyntaxTree>,
    stack: Vec<usize>,
}

fn loc(l: &lib_ruby_parser::Loc) -> Loc {
    Loc { begin: l.begin, end: l.end }
}

impl TreeBuilder {
    fn enter(&mut self, node: Node) {
        let id = match (self.stack.last(), self.tree.as_mut()) {
            (Some(&parent), Some(tree)) => tree.add_node(parent, node),
            _ => {
                self.tree = Some(SyntaxTree::new(node));
                0
            }
        };
        self.stack.push(id);
    }

    fn leave(&mut self) {
        self.stack.pop();
    }

    fn other(&mut self, expression: &lib_ruby_parser::Loc) {
        self.enter(Node::new(NodeKind::Other, loc(expression)));
    }
}

impl Visitor for TreeBuilder {
    fn on_alias(&mut self, node: &nodes::Alias) {
        self.other(&node.expression_l);
        visitor::visit_alias(self, node);
        self.leave();
    }

    fn on_and(&mut self, node: &nodes::And) {
        self.enter(Node::new(NodeKind::And, loc(&node.expression_l)));
        visitor::visit_and(self, node);
        self.leave();
    }

    fn on_and_asgn(&mut self, node: &nodes::AndAsgn) {
        self.other(&node.expression_l);
        visitor::visit_and_asgn(self, node);
        self.leave();
    }

    fn on_arg(&mut self, node: &nodes::Arg) {
        self.other(&node.expression_l);
        visitor::visit_arg(self, node);
        self.leave();
    }

    fn on_args(&mut self, node: &nodes::Args) {
        let mut n = Node::new(NodeKind::Args, loc(&node.expression_l));
        n.begin = node.begin_l.as_ref().map(loc);
        n.end = node.end_l.as_ref().map(loc);
        self.enter(n);
        visitor::visit_args(self, node);
        self.leave();
    }

    fn on_array(&mut self, node: &nodes::Array) {
        self.enter(Node::new(NodeKind::Array, loc(&node.expression_l)));
        visitor::visit_array(self, node);
        self.leave();
    }

    fn on_array_pattern(&mut self, node: &nodes::ArrayPattern) {
        self.other(&node.expression_l);
        visitor::visit_array_pattern(self, node);
        self.leave();
    }

    fn on_array_pattern_with_tail(&mut self, node: &nodes::ArrayPatternWithTail) {
        self.other(&node.expression_l);
        visitor::visit_array_pattern_with_tail(self, node);
        self.leave();
    }

    fn on_back_ref(&mut self, node: &nodes::BackRef) {
        self.other(&node.expression_l);
        visitor::visit_back_ref(self, node);
        self.leave();
    }

    fn on_begin(&mut self, node: &nodes::Begin) {
        self.other(&node.expression_l);
        visitor::visit_begin(self, node);
        self.leave();
    }

    fn on_block(&mut self, node: &nodes::Block) {
        self.enter(Node::new(NodeKind::Block, loc(&node.expression_l)));
        visitor::visit_block(self, node);
        self.leave();
    }

    fn on_blockarg(&mut self, node: &nodes::Blockarg) {
        self.other(&node.expression_l);
        visitor::visit_blockarg(self, node);
        self.leave();
    }

    fn on_block_pass(&mut self, node: &nodes::BlockPass) {
        self.enter(Node::new(NodeKind::BlockPass, loc(&node.expression_l)));
        visitor::visit_block_pass(self, node);
        self.leave();
    }

    fn on_break(&mut self, node: &nodes::Break) {
        self.other(&node.expression_l);
        visitor::visit_break(self, node);
        self.leave();
    }

    fn on_case(&mut self, node: &nodes::Case) {
        self.other(&node.expression_l);
        visitor::visit_case(self, node);
        self.leave();
    }

    fn on_case_match(&mut self, node: &nodes::CaseMatch) {
        self.other(&node.expression_l);
        visitor::visit_case_match(self, node);
        self.leave();
    }

    fn on_casgn(&mut self, node: &nodes::Casgn) {
        self.other(&node.expression_l);
        visitor::visit_casgn(self, node);
        self.leave();
    }

    fn on_cbase(&mut self, node: &nodes::Cbase) {
        self.enter(Node::new(NodeKind::Cbase, loc(&node.expression_l)));
        visitor::visit_cbase(self, node);
        self.leave();
    }

    fn on_class(&mut self, node: &nodes::Class) {
        self.other(&node.expression_l);
        visitor::visit_class(self, node);
        self.leave();
    }

    fn on_complex(&mut self, node: &nodes::Complex) {
        self.other(&node.expression_l);
        visitor::visit_complex(self, node);
        self.leave();
    }

    fn on_const(&mut self, node: &nodes::Const) {
        let mut n = Node::new(NodeKind::Const, loc(&node.expression_l));
        n.name = node.name.clone();
        n.has_receiver = node.scope.is_some();
        self.enter(n);
        visitor::visit_const(self, node);
        self.leave();
    }

    fn on_const_pattern(&mut self, node: &nodes::ConstPattern) {
        self.other(&node.expression_l);
        visitor::visit_const_pattern(self, node);
        self.leave();
    }

    fn on_c_send(&mut self, node: &nodes::CSend) {
        self.other(&node.expression_l);
        visitor::visit_c_send(self, node);
        self.leave();
    }

    fn on_cvar(&mut self, node: &nodes::Cvar) {
        self.other(&node.expression_l);
        visitor::visit_cvar(self, node);
        self.leave();
    }

    fn on_cvasgn(&mut self, node: &nodes::Cvasgn) {
        self.other(&node.expression_l);
        visitor::visit_cvasgn(self, node);
        self.leave();
    }

    fn on_def(&mut self, node: &nodes::Def) {
        let mut n = Node::new(NodeKind::Def, loc(&node.expression_l));
        n.name = node.name.clone();
        n.keyword = Some(loc(&node.keyword_l));
        n.name_loc = Some(loc(&node.name_l));
        n.end = node.end_l.as_ref().map(loc);
        self.enter(n);
        visitor::visit_def(self, node);
        self.leave();
    }

    fn on_defined(&mut self, node: &nodes::Defined) {
        self.other(&node.expression_l);
        visitor::visit_defined(self, node);
        self.leave();
    }

    fn on_defs(&mut self, node: &nodes::Defs) {
        self.other(&node.expression_l);
        visitor::visit_defs(self, node);
        self.leave();
    }

    fn on_dstr(&mut self, node: &nodes::Dstr) {
        self.other(&node.expression_l);
        visitor::visit_dstr(self, node);
        self.leave();
    }

    fn on_dsym(&mut self, node: &nodes::Dsym) {
        self.other(&node.expression_l);
        visitor::visit_dsym(self, node);
        self.leave();
    }

    fn on_e_flip_flop(&mut self, node: &nodes::EFlipFlop) {
        self.other(&node.expression_l);
        visitor::visit_e_flip_flop(self, node);
        self.leave();
    }

    fn on_empty_else(&mut self, node: &nodes::EmptyElse) {
        self.other(&node.expression_l);
        visitor::visit_empty_else(self, node);
        self.leave();
    }

    fn on_encoding(&mut self, node: &nodes::Encoding) {
        self.other(&node.expression_l);
        visitor::visit_encoding(self, node);
        self.leave();
    }

    fn on_ensure(&mut self, node: &nodes::Ensure) {
        self.other(&node.expression_l);
        visitor::visit_ensure(self, node);
        self.leave();
    }

    fn on_erange(&mut self, node: &nodes::Erange) {
        self.other(&node.expression_l);
        visitor::visit_erange(self, node);
        self.leave();
    }

    fn on_false(&mut self, node: &nodes::False) {
        self.other(&node.expression_l);
        visitor::visit_false(self, node);
        self.leave();
    }

    fn on_file(&mut self, node: &nodes::File) {
        self.other(&node.expression_l);
        visitor::visit_file(self, node);
        self.leave();
    }

    fn on_find_pattern(&mut self, node: &nodes::FindPattern) {
        self.other(&node.expression_l);
        visitor::visit_find_pattern(self, node);
        self.leave();
    }

    fn on_float(&mut self, node: &nodes::Float) {
        self.other(&node.expression_l);
        visitor::visit_float(self, node);
        self.leave();
    }

    fn on_for(&mut self, node: &nodes::For) {
        self.other(&node.expression_l);
        visitor::visit_for(self, node);
        self.leave();
    }

    fn on_forward_arg(&mut self, node: &nodes::ForwardArg) {
        self.other(&node.expression_l);
        visitor::visit_forward_arg(self, node);
        self.leave();
    }

    fn on_forwarded_args(&mut self, node: &nodes::ForwardedArgs) {
        self.other(&node.expression_l);
        visitor::visit_forwarded_args(self, node);
        self.leave();
    }

    fn on_gvar(&mut self, node: &nodes::Gvar) {
        self.other(&node.expression_l);
        visitor::visit_gvar(self, node);
        self.leave();
    }

    fn on_gvasgn(&mut self, node: &nodes::Gvasgn) {
        self.other(&node.expression_l);
        visitor::visit_gvasgn(self, node);
        self.leave();
    }

    fn on_hash(&mut self, node: &nodes::Hash) {
        self.other(&node.expression_l);
        visitor::visit_hash(self, node);
        self.leave();
    }

    fn on_hash_pattern(&mut self, node: &nodes::HashPattern) {
        self.other(&node.expression_l);
        visitor::visit_hash_pattern(self, node);
        self.leave();
    }

    fn on_heredoc(&mut self, node: &nodes::Heredoc) {
        self.other(&node.expression_l);
        visitor::visit_heredoc(self, node);
        self.leave();
    }

    fn on_if(&mut self, node: &nodes::If) {
        let mut n = Node::new(NodeKind::If, loc(&node.expression_l));
        n.keyword = Some(loc(&node.keyword_l));
        n.begin = Some(loc(&node.begin_l));
        n.else_loc = node.else_l.as_ref().map(loc);
        n.end = node.end_l.as_ref().map(loc);
        self.enter(n);
        visitor::visit_if(self, node);
        self.leave();
    }

    fn on_if_guard(&mut self, node: &nodes::IfGuard) {
        self.other(&node.expression_l);
        visitor::visit_if_guard(self, node);
        self.leave();
    }

    fn on_i_flip_flop(&mut self, node: &nodes::IFlipFlop) {
        self.other(&node.expression_l);
        visitor::visit_i_flip_flop(self, node);
        self.leave();
    }

    fn on_if_mod(&mut self, node: &nodes::IfMod) {
        self.other(&node.expression_l);
        visitor::visit_if_mod(self, node);
        self.leave();
    }

    fn on_if_ternary(&mut self, node: &nodes::IfTernary) {
        self.other(&node.expression_l);
        visitor::visit_if_ternary(self, node);
        self.leave();
    }

    fn on_index(&mut self, node: &nodes::Index) {
        let mut n = Node::new(NodeKind::Index, loc(&node.expression_l));
        n.has_receiver = true;
        n.begin = Some(loc(&node.begin_l));
        n.end = Some(loc(&node.end_l));
        self.enter(n);
        visitor::visit_index(self, node);
        self.leave();
    }

    fn on_index_asgn(&mut self, node: &nodes::IndexAsgn) {
        self.other(&node.expression_l);
        visitor::visit_index_asgn(self, node);
        self.leave();
    }

    fn on_in_pattern(&mut self, node: &nodes::InPattern) {
        self.other(&node.expression_l);
        visitor::visit_in_pattern(self, node);
        self.leave();
    }

    fn on_int(&mut self, node: &nodes::Int) {
        self.other(&node.expression_l);
        visitor::visit_int(self, node);
        self.leave();
    }

    fn on_irange(&mut self, node: &nodes::Irange) {
        self.other(&node.expression_l);
        visitor::visit_irange(self, node);
        self.leave();
    }

    fn on_ivar(&mut self, node: &nodes::Ivar) {
        self.other(&node.expression_l);
        visitor::visit_ivar(self, node);
        self.leave();
    }

    fn on_ivasgn(&mut self, node: &nodes::Ivasgn) {
        self.other(&node.expression_l);
        visitor::visit_ivasgn(self, node);
        self.leave();
    }

    fn on_kwarg(&mut self, node: &nodes::Kwarg) {
        self.other(&node.expression_l);
        visitor::visit_kwarg(self, node);
        self.leave();
    }

    fn on_kwargs(&mut self, node: &nodes::Kwargs) {
        self.other(&node.expression_l);
        visitor::visit_kwargs(self, node);
        self.leave();
    }

    fn on_kw_begin(&mut self, node: &nodes::KwBegin) {
        self.other(&node.expression_l);
        visitor::visit_kw_begin(self, node);
        self.leave();
    }

    fn on_kwnilarg(&mut self, node: &nodes::Kwnilarg) {
        self.other(&node.expression_l);
        visitor::visit_kwnilarg(self, node);
        self.leave();
    }

    fn on_kwoptarg(&mut self, node: &nodes::Kwoptarg) {
        self.other(&node.expression_l);
        visitor::visit_kwoptarg(self, node);
        self.leave();
    }

    fn on_kwrestarg(&mut self, node: &nodes::Kwrestarg) {
        self.other(&node.expression_l);
        visitor::visit_kwrestarg(self, node);
        self.leave();
    }

    fn on_kwsplat(&mut self, node: &nodes::Kwsplat) {
        self.other(&node.expression_l);
        visitor::visit_kwsplat(self, node);
        self.leave();
    }

    fn on_lambda(&mut self, node: &nodes::Lambda) {
        self.other(&node.expression_l);
        visitor::visit_lambda(self, node);
        self.leave();
    }

    fn on_line(&mut self, node: &nodes::Line) {
        self.other(&node.expression_l);
        visitor::visit_line(self, node);
        self.leave();
    }

    fn on_lvar(&mut self, node: &nodes::Lvar) {
        self.other(&node.expression_l);
        visitor::visit_lvar(self, node);
        self.leave();
    }

    fn on_lvasgn(&mut self, node: &nodes::Lvasgn) {
        self.other(&node.expression_l);
        visitor::visit_lvasgn(self, node);
        self.leave();
    }

    fn on_masgn(&mut self, node: &nodes::Masgn) {
        self.other(&node.expression_l);
        visitor::visit_masgn(self, node);
        self.leave();
    }

    fn on_match_alt(&mut self, node: &nodes::MatchAlt) {
        self.other(&node.expression_l);
        visitor::visit_match_alt(self, node);
        self.leave();
    }

    fn on_match_as(&mut self, node: &nodes::MatchAs) {
        self.other(&node.expression_l);
        visitor::visit_match_as(self, node);
        self.leave();
    }

    fn on_match_current_line(&mut self, node: &nodes::MatchCurrentLine) {
        self.other(&node.expression_l);
        visitor::visit_match_current_line(self, node);
        self.leave();
    }

    fn on_match_nil_pattern(&mut self, node: &nodes::MatchNilPattern) {
        self.other(&node.expression_l);
        visitor::visit_match_nil_pattern(self, node);
        self.leave();
    }

    fn on_match_pattern(&mut self, node: &nodes::MatchPattern) {
        self.other(&node.expression_l);
        visitor::visit_match_pattern(self, node);
        self.leave();
    }

    fn on_match_pattern_p(&mut self, node: &nodes::MatchPatternP) {
        self.other(&node.expression_l);
        visitor::visit_match_pattern_p(self, node);
        self.leave();
    }

    fn on_match_rest(&mut self, node: &nodes::MatchRest) {
        self.other(&node.expression_l);
        visitor::visit_match_rest(self, node);
        self.leave();
    }

    fn on_match_var(&mut self, node: &nodes::MatchVar) {
        self.other(&node.expression_l);
        visitor::visit_match_var(self, node);
        self.leave();
    }

    fn on_match_with_lvasgn(&mut self, node: &nodes::MatchWithLvasgn) {
        self.other(&node.expression_l);
        visitor::visit_match_with_lvasgn(self, node);
        self.leave();
    }

    fn on_mlhs(&mut self, node: &nodes::Mlhs) {
        self.other(&node.expression_l);
        visitor::visit_mlhs(self, node);
        self.leave();
    }

    fn on_module(&mut self, node: &nodes::Module) {
        self.other(&node.expression_l);
        visitor::visit_module(self, node);
        self.leave();
    }

    fn on_next(&mut self, node: &nodes::Next) {
        self.other(&node.expression_l);
        visitor::visit_next(self, node);
        self.leave();
    }

    fn on_nil(&mut self, node: &nodes::Nil) {
        self.other(&node.expression_l);
        visitor::visit_nil(self, node);
        self.leave();
    }

    fn on_nth_ref(&mut self, node: &nodes::NthRef) {
        self.other(&node.expression_l);
        visitor::visit_nth_ref(self, node);
        self.leave();
    }

    fn on_numblock(&mut self, node: &nodes::Numblock) {
        self.other(&node.expression_l);
        visitor::visit_numblock(self, node);
        self.leave();
    }

    fn on_op_asgn(&mut self, node: &nodes::OpAsgn) {
        self.other(&node.expression_l);
        visitor::visit_op_asgn(self, node);
        self.leave();
    }

    fn on_optarg(&mut self, node: &nodes::Optarg) {
        self.other(&node.expression_l);
        visitor::visit_optarg(self, node);
        self.leave();
    }

    fn on_or(&mut self, node: &nodes::Or) {
        self.enter(Node::new(NodeKind::Or, loc(&node.expression_l)));
        visitor::visit_or(self, node);
        self.leave();
    }

    fn on_or_asgn(&mut self, node: &nodes::OrAsgn) {
        self.other(&node.expression_l);
        visitor::visit_or_asgn(self, node);
        self.leave();
    }

    fn on_pair(&mut self, node: &nodes::Pair) {
        self.other(&node.expression_l);
        visitor::visit_pair(self, node);
        self.leave();
    }

    fn on_pin(&mut self, node: &nodes::Pin) {
        self.other(&node.expression_l);
        visitor::visit_pin(self, node);
        self.leave();
    }

    fn on_postexe(&mut self, node: &nodes::Postexe) {
        self.other(&node.expression_l);
        visitor::visit_postexe(self, node);
        self.leave();
    }

    fn on_preexe(&mut self, node: &nodes::Preexe) {
        let mut n = Node::new(NodeKind::Preexe, loc(&node.expression_l));
        n.keyword = Some(loc(&node.keyword_l));
        self.enter(n);
        visitor::visit_preexe(self, node);
        self.leave();
    }

    fn on_procarg0(&mut self, node: &nodes::Procarg0) {
        self.other(&node.expression_l);
        visitor::visit_procarg0(self, node);
        self.leave();
    }

    fn on_rational(&mut self, node: &nodes::Rational) {
        self.other(&node.expression_l);
        visitor::visit_rational(self, node);
        self.leave();
    }

    fn on_redo(&mut self, node: &nodes::Redo) {
        self.other(&node.expression_l);
        visitor::visit_redo(self, node);
        self.leave();
    }

    fn on_regexp(&mut self, node: &nodes::Regexp) {
        self.enter(Node::new(NodeKind::Regexp, loc(&node.expression_l)));
        visitor::visit_regexp(self, node);
        self.leave();
    }

    fn on_reg_opt(&mut self, node: &nodes::RegOpt) {
        self.enter(Node::new(NodeKind::RegOpt, loc(&node.expression_l)));
        visitor::visit_reg_opt(self, node);
        self.leave();
    }

    fn on_rescue(&mut self, node: &nodes::Rescue) {
        self.other(&node.expression_l);
        visitor::visit_rescue(self, node);
        self.leave();
    }

    fn on_rescue_body(&mut self, node: &nodes::RescueBody) {
        self.other(&node.expression_l);
        visitor::visit_rescue_body(self, node);
        self.leave();
    }

    fn on_restarg(&mut self, node: &nodes::Restarg) {
        self.other(&node.expression_l);
        visitor::visit_restarg(self, node);
        self.leave();
    }

    fn on_retry(&mut self, node: &nodes::Retry) {
        self.other(&node.expression_l);
        visitor::visit_retry(self, node);
        self.leave();
    }

    fn on_return(&mut self, node: &nodes::Return) {
        self.other(&node.expression_l);
        visitor::visit_return(self, node);
        self.leave();
    }

    fn on_s_class(&mut self, node: &nodes::SClass) {
        self.other(&node.expression_l);
        visitor::visit_s_class(self, node);
        self.leave();
    }

    fn on_send(&mut self, node: &nodes::Send) {
        let mut n = Node::new(NodeKind::Send, loc(&node.expression_l));
        n.name = node.method_name.clone();
        n.has_receiver = node.recv.is_some();
        n.selector = node.selector_l.as_ref().map(loc);
        self.enter(n);
        visitor::visit_send(self, node);
        self.leave();
    }

    fn on_shadowarg(&mut self, node: &nodes::Shadowarg) {
        self.other(&node.expression_l);
        visitor::visit_shadowarg(self, node);
        self.leave();
    }

    fn on_splat(&mut self, node: &nodes::Splat) {
        self.other(&node.expression_l);
        visitor::visit_splat(self, node);
        self.leave();
    }

    fn on_str(&mut self, node: &nodes::Str) {
        let mut n = Node::new(NodeKind::Str, loc(&node.expression_l));
        n.name = String::from_utf8_lossy(&node.value.raw).into_owned();
        n.begin = node.begin_l.as_ref().map(loc);
        n.end = node.end_l.as_ref().map(loc);
        self.enter(n);
        visitor::visit_str(self, node);
        self.leave();
    }

    fn on_super(&mut self, node: &nodes::Super) {
        self.other(&node.expression_l);
        visitor::visit_super(self, node);
        self.leave();
    }

    fn on_sym(&mut self, node: &nodes::Sym) {
        self.other(&node.expression_l);
        visitor::visit_sym(self, node);
        self.leave();
    }

    fn on_true(&mut self, node: &nodes::True) {
        self.other(&node.expression_l);
        visitor::visit_true(self, node);
        self.leave();
    }

    fn on_undef(&mut self, node: &nodes::Undef) {
        self.other(&node.expression_l);
        visitor::visit_undef(self, node);
        self.leave();
    }

    fn on_unless_guard(&mut self, node: &nodes::UnlessGuard) {
        self.other(&node.expression_l);
        visitor::visit_unless_guard(self, node);
        self.leave();
    }

    fn on_until(&mut self, node: &nodes::Until) {
        self.other(&node.expression_l);
        visitor::visit_until(self, node);
        self.leave();
    }

    fn on_until_post(&mut self, node: &nodes::UntilPost) {
        self.other(&node.expression_l);
        visitor::visit_until_post(self, node);
        self.leave();
    }

    fn on_when(&mut self, node: &nodes::When) {
        self.other(&node.expression_l);
        visitor::visit_when(self, node);
        self.leave();
    }

    fn on_while(&mut self, node: &nodes::While) {
        self.other(&node.expression_l);
        visitor::visit_while(self, node);
        self.leave();
    }

    fn on_while_post(&mut self, node: &nodes::WhilePost) {
        self.other(&node.expression_l);
        visitor::visit_while_post(self, node);
        self.leave();
    }

    fn on_x_heredoc(&mut self, node: &nodes::XHeredoc) {
        self.other(&node.expression_l);
        visitor::visit_x_heredoc(self, node);
        self.leave();
    }

    fn on_xstr(&mut self, node: &nodes::Xstr) {
        self.other(&node.expression_l);
        visitor::visit_xstr(self, node);
        self.leave();
    }

    fn on_yield(&mut self, node: &nodes::Yield) {
        self.other(&node.expression_l);
        visitor::visit_yield(self, node);
        self.leave();
    }

    fn on_z_super(&mut self, node: &nodes::ZSuper) {
        self.other(&node.expression_l);
        visitor::visit_z_super(self, node);
        self.leave();
    }

}

/// Parses Ruby source into the library's syntax tree; none where it does not parse.
fn parse_tree(source: &[u8]) -> Option<SyntaxTree> {
    let options = ParserOptions { record_tokens: false, ..Default::default() };
    let result = Parser::new(source.to_vec(), options).do_parse();
    let ast = result.ast?;
    let mut builder = TreeBuilder { tree: None, stack: Vec::new() };
    builder.visit(&ast);
    builder.tree
}

/// One run of `cop` alone, enabled, over `source`.
fn investigate(cop: BuiltinCop, source: &str) -> (DecodedInput, Vec<Offense>, Corrector) {
    investigate_with(cop, ConfigTree::new(), source)
}

/// One run of `cop` alone over `source`, with `overrides`, and the rule enabled
/// unless they say otherwise.
fn investigate_with(cop: BuiltinCop, overrides: ConfigTree, source: &str) -> (DecodedInput, Vec<Offense>, Corrector) {
    let bytes = source.as_bytes().to_vec();
    let tree = parse_tree(&bytes);
    let mut overrides = overrides;
    overrides.insert(cop.name(), "Enabled".to_string(), ConfigValue::Bool(true));
    let config = Config::new(Some(overrides), rubocop::default::config());
    let (input, offenses, corrector, _) =
        Commissioner::investigate(&vec![cop], config, DecodedInput::new(String::new(), bytes), tree);
    (input, offenses, corrector)
}

/// The offenses of `cop` on `source` are those annotated in it, and its
/// corrections turn the source into `correction`.
fn expect_offense(cop: BuiltinCop, source: &str, correction: &str) {
    expect_offense_with(cop, ConfigTree::new(), source, correction);
}

fn expect_offense_with(cop: BuiltinCop, overrides: ConfigTree, source: &str, correction: &str) {
    let source = normalize_source(source);
    let Some((expected, plain)) = parse_annotations(&source) else {
        panic!("Use `expect_no_offenses` to assert that no offenses are found");
    };
    let (input, offenses, corrector) = investigate_with(cop, overrides, &plain);
    let actual = expected.with_offense_annotations(&offenses, &input);
    assert!(actual.same_as(&expected), "expected:\n{}\nactual:\n{}", expected.to_text(), actual.to_text());

    let correction = normalize_source(correction);
    let code = input.bytes.clone();
    if correction.as_bytes() == code.as_slice() {
        panic!("Use `expect_no_corrections` if the code will not change");
    }
    let new_source = corrector.process(&code);
    if new_source == code {
        panic!("Expected correction but no corrections were made");
    }
    assert_eq!(String::from_utf8_lossy(&new_source), correction);
}

/// `cop` finds nothing in `source` and registers no edit.
fn expect_no_offenses(cop: BuiltinCop, source: &str) {
    expect_no_offenses_with(cop, ConfigTree::new(), source);
}

fn expect_no_offenses_with(cop: BuiltinCop, overrides: ConfigTree, source: &str) {
    let source = normalize_source(source);
    let (input, offenses, corrector) = investigate_with(cop, overrides, &source);
    let expected = AnnotatedSource::parse(&source);
    let actual = expected.with_offense_annotations(&offenses, &input);
    assert!(actual.same_as(&expected), "expected:\n{}\nactual:\n{}", expected.to_text(), actual.to_text());
    assert!(corrector.is_empty());
}

#[test]
fn test_match_operator() {
    expect_offense(
        BuiltinCop::ExactRegexpMatch,
        r#"
            string =~ /\Astring\z/
            ^^^^^^^^^^^^^^^^^^^^^^ Use `string == 'string'`.
            "#,
        "
            string == 'string'
            ",
    );
}

#[test]
fn test_case_equality_operator() {
    expect_offense(
        BuiltinCop::ExactRegexpMatch,
        r#"
            string === /\Astring\z/
            ^^^^^^^^^^^^^^^^^^^^^^^ Use `string == 'string'`.
            "#,
        "
            string == 'string'
            ",
    );
}

#[test]
fn test_match() {
    expect_offense(
        BuiltinCop::ExactRegexpMatch,
        r#"
            string.match(/\Astring\z/)
            ^^^^^^^^^^^^^^^^^^^^^^^^^^ Use `string == 'string'`.
            "#,
        "
            string == 'string'
            ",
    );
}

#[test]
fn test_match_p() {
    expect_offense(
        BuiltinCop::ExactRegexpMatch,
        r#"
            string.match?(/\Astring\z/)
            ^^^^^^^^^^^^^^^^^^^^^^^^^^^ Use `string == 'string'`.
            "#,
        "
            string == 'string'
            ",
    );
}

#[test]
fn test_not_match_operator() {
    expect_offense(
        BuiltinCop::ExactRegexpMatch,
        r#"
            string !~ /\Astring\z/
            ^^^^^^^^^^^^^^^^^^^^^^ Use `string != 'string'`.
            "#,
        "
            string != 'string'
            ",
    );
}

#[test]
fn _focus_test_string_interpolation() {
    expect_no_offenses(
        BuiltinCop::ExactRegexpMatch,
        r#"
            string =~ /\Astring#{interpolation}\z/
            "#,
    );
}

#[test]
fn test_literal_with_qualifier() {
    expect_no_offenses(
        BuiltinCop::ExactRegexpMatch,
        r#"
            string === /\A0+\z/
            "#,
    );
}

#[test]
fn test_any_pattern() {
    expect_no_offenses(
        BuiltinCop::ExactRegexpMatch,
        r#"
            string =~ /\Astring.*\z/
            "#,
    );
}

#[test]
fn test_multiline_matches() {
    expect_no_offenses(
        BuiltinCop::ExactRegexpMatch,
        r#"
            string =~ /^string$/
            "#,
    );
}

#[test]
fn test_regexp_opt() {
    expect_no_offenses(
        BuiltinCop::ExactRegexpMatch,
        r#"
            string =~ /\Astring\z/i
            "#,
    );
}

#[test]
fn test_not() {
    expect_offense(
        BuiltinCop::Not,
        "
            not test
            ^^^ Use `!` instead of `not`.
            ",
        "
            !test
            ",
    );
}

#[test]
fn test_bang() {
    expect_no_offenses(
        BuiltinCop::Not,
        "
            ! test
            ",
    );
}

#[test]
fn test_empty_array_literal_argument_for_array_new() {
    expect_offense(
        BuiltinCop::RedundantArrayConstructor,
        "
            Array.new([])
            ^^^^^^^^^ Remove the redundant `Array` constructor.
            ",
        "
            []
            ",
    );
}

#[test]
fn test_empty_array_literal_argument_for_cbase_array_new() {
    expect_offense(
        BuiltinCop::RedundantArrayConstructor,
        "
            ::Array.new([])
            ^^^^^^^^^^^ Remove the redundant `Array` constructor.
            ",
        "
            []
            ",
    );
}

#[test]
fn test_empty_array_literal_argument_for_array_index() {
    expect_offense(
        BuiltinCop::RedundantArrayConstructor,
        "
            Array[]
            ^^^^^ Remove the redundant `Array` constructor.
            ",
        "
            []
            ",
    );
}

#[test]
fn test_empty_array_literal_argument_for_cbase_array_index() {
    expect_offense(
        BuiltinCop::RedundantArrayConstructor,
        "
            ::Array[]
            ^^^^^^^ Remove the redundant `Array` constructor.
            ",
        "
            []
            ",
    );
}

#[test]
fn test_empty_array_literal_argument_for_array_constructor() {
    expect_offense(
        BuiltinCop::RedundantArrayConstructor,
        "
            Array([])
            ^^^^^ Remove the redundant `Array` constructor.
            ",
        "
            []
            ",
    );
}

#[test]
fn test_array_literal_with_some_elements_as_argument_for_array_new() {
    expect_offense(
        BuiltinCop::RedundantArrayConstructor,
        "
            Array.new(['foo', 'bar', 'baz'])
            ^^^^^^^^^ Remove the redundant `Array` constructor.
            ",
        "
            ['foo', 'bar', 'baz']
            ",
    );
}

#[test]
fn test_array_literal_with_some_elements_as_argument_for_array_index() {
    expect_offense(
        BuiltinCop::RedundantArrayConstructor,
        "
            Array['foo', 'bar', 'baz']
            ^^^^^ Remove the redundant `Array` constructor.
            ",
        "
            ['foo', 'bar', 'baz']
            ",
    );
}

#[test]
fn test_array_literal_with_some_elements_as_argument_for_array_constructor() {
    expect_offense(
        BuiltinCop::RedundantArrayConstructor,
        "
            Array(['foo', 'bar', 'baz'])
            ^^^^^ Remove the redundant `Array` constructor.
            ",
        "
            ['foo', 'bar', 'baz']
            ",
    );
}

#[test]
fn test_array_literal() {
    expect_no_offenses(
        BuiltinCop::RedundantArrayConstructor,
        "
            []
            ",
    );
}

#[test]
fn test_single_argument_for_array_new() {
    expect_no_offenses(
        BuiltinCop::RedundantArrayConstructor,
        "
            Array.new(array)
            ",
    );
}

#[test]
fn test_single_argument_for_array_constructor() {
    expect_no_offenses(
        BuiltinCop::RedundantArrayConstructor,
        "
            Array(array)
            ",
    );
}

#[test]
fn test_two_arguments_for_array_new() {
    expect_no_offenses(
        BuiltinCop::RedundantArrayConstructor,
        "
            Array.new(3, 'foo')
            ",
    );
}

#[test]
fn test_block_argument_for_array_new() {
    expect_no_offenses(
        BuiltinCop::RedundantArrayConstructor,
        "
            Array.new(3) { 'foo' }
            ",
    );
}

#[test]
fn test_any() {
    expect_no_offenses(
        BuiltinCop::RedundantFilterChain,
        "
            arr.any? { |x| x > 1 }
            ",
    );
}

#[test]
fn test_wrapping_regexp_with_regexp_new() {
    expect_offense(
        BuiltinCop::RedundantRegexpConstructor,
        "
            Regexp.new(/regexp/)
            ^^^^^^^^^^^^^^^^^^^^ Remove the redundant `Regexp.new`.
            ",
        "
            /regexp/
            ",
    );
}

#[test]
fn test_wrapping_regexp_with_cbase_regexp_new() {
    expect_offense(
        BuiltinCop::RedundantRegexpConstructor,
        "
            ::Regexp.new(/regexp/)
            ^^^^^^^^^^^^^^^^^^^^^^ Remove the redundant `Regexp.new`.
            ",
        "
            /regexp/
            ",
    );
}

#[test]
fn test_wrapping_regexp_i_with_regexp_new() {
    expect_offense(
        BuiltinCop::RedundantRegexpConstructor,
        "
            Regexp.new(/regexp/i)
            ^^^^^^^^^^^^^^^^^^^^^ Remove the redundant `Regexp.new`.
            ",
        "
            /regexp/i
            ",
    );
}

#[test]
fn test_wrapping_a_regexp_z_io_with_regexp_new() {
    expect_offense(
        BuiltinCop::RedundantRegexpConstructor,
        r#"
            Regexp.new(/\A#{regexp}\z/io)
            ^^^^^^^^^^^^^^^^^^^^^^^^^^^^^ Remove the redundant `Regexp.new`.
            "#,
        r#"
            /\A#{regexp}\z/io
            "#,
    );
}

#[test]
fn test_wrapping_regexp_with_regexp_compile() {
    expect_offense(
        BuiltinCop::RedundantRegexpConstructor,
        "
            Regexp.compile(/regexp/)
            ^^^^^^^^^^^^^^^^^^^^^^^^ Remove the redundant `Regexp.compile`.
            ",
        "
            /regexp/
            ",
    );
}

#[test]
fn test_wrapping_string_literal_with_regexp_new() {
    expect_no_offenses(
        BuiltinCop::RedundantRegexpConstructor,
        "
            Regexp.new('regexp')
            ",
    );
}

#[test]
fn test_wrapping_string_literal_with_regexp_new_with_regopt_argument() {
    expect_no_offenses(
        BuiltinCop::RedundantRegexpConstructor,
        "
            Regexp.new('regexp', Regexp::IGNORECASE)
            ",
    );
}

#[test]
fn test_wrapping_string_literal_with_regexp_new_with_piped_regopt_argument() {
    expect_no_offenses(
        BuiltinCop::RedundantRegexpConstructor,
        "
            Regexp.new('regexp', Regexp::IGNORECASE | Regexp::IGNORECASE)
            ",
    );
}

#[test]
fn test_wrapping_string_literal_with_regexp_compile() {
    expect_no_offenses(
        BuiltinCop::RedundantRegexpConstructor,
        "
            Regexp.compile('regexp')
            ",
    );
}

#[test]
fn test_regexp_literal() {
    expect_no_offenses(
        BuiltinCop::RedundantRegexpConstructor,
        "
            /regexp/
            ",
    );
}

const METHODS: &[&str] = &["select", "filter", "find_all"];

/// `AllCops: ActiveSupportExtensionsEnabled: <enabled>`.
fn active_support(enabled: bool) -> ConfigTree {
    let mut t = ConfigTree::new();
    t.insert("AllCops".to_string(), "ActiveSupportExtensionsEnabled".to_string(), ConfigValue::Bool(enabled));
    t
}

/// `source` with `%{method}` filled in.
fn format_source(source: &str, method: &str) -> String {
    rubocop::expect_offense::format_source(source, &vec![("method".to_string(), method.to_string())])
}

#[test]
fn test_method_followed_by_any() {
    for method in METHODS {
        let source = format_source(
            "
                arr.%{method} { |x| x > 1 }.any?
                    ^{method}^^^^^^^^^^^^^^^^^^^ Use `any?` instead of `%{method}.any?`.
                ",
            method,
        );
        expect_offense_with(BuiltinCop::RedundantFilterChain, active_support(false), &source, "
                arr.any? { |x| x > 1 }
                ");
    }
}

#[test]
fn test_method_followed_by_empty() {
    for method in METHODS {
        let source = format_source(
            "
                arr.%{method} { |x| x > 1 }.empty?
                    ^{method}^^^^^^^^^^^^^^^^^^^^^ Use `none?` instead of `%{method}.empty?`.
                ",
            method,
        );
        expect_offense_with(BuiltinCop::RedundantFilterChain, active_support(false), &source, "
                arr.none? { |x| x > 1 }
                ");
    }
}

#[test]
fn test_method_followed_by_none() {
    for method in METHODS {
        let source = format_source(
            "
                arr.%{method} { |x| x > 1 }.none?
                    ^{method}^^^^^^^^^^^^^^^^^^^^ Use `none?` instead of `%{method}.none?`.
                ",
            method,
        );
        expect_offense_with(BuiltinCop::RedundantFilterChain, active_support(false), &source, "
                arr.none? { |x| x > 1 }
                ");
    }
}

#[test]
fn test_method_with_block_pass_followed_by_none() {
    for method in METHODS {
        let source = format_source(
            "
                arr.%{method}(&:odd?).none?
                    ^{method}^^^^^^^^^^^^^^ Use `none?` instead of `%{method}.none?`.
                ",
            method,
        );
        expect_offense_with(BuiltinCop::RedundantFilterChain, active_support(false), &source, "
                arr.none?(&:odd?)
                ");
    }
}

#[test]
fn test_method_followed_by_many() {
    for method in METHODS {
        let source = format_source(
            "
                arr.%{method} { |x| x > 1 }.many?
                ",
            method,
        );
        expect_no_offenses_with(BuiltinCop::RedundantFilterChain, active_support(false), &source);
    }
}

#[test]
fn test_method_without_a_block_followed_by_any() {
    for method in METHODS {
        let source = format_source(
            "
                relation.%{method}(:name).any?
                foo.%{method}.any?
                ",
            method,
        );
        expect_no_offenses_with(BuiltinCop::RedundantFilterChain, active_support(false), &source);
    }
}

#[test]
fn test_method_followed_by_any_with_arguments() {
    for method in METHODS {
        let source = format_source(
            "
                arr.%{method}(&:odd?).any?(Integer)
                arr.%{method}(&:odd?).any? { |x| x > 10 }
                ",
            method,
        );
        expect_no_offenses_with(BuiltinCop::RedundantFilterChain, active_support(false), &source);
    }
}

#[test]
fn test_select_followed_by_many() {
    expect_offense_with(
        BuiltinCop::RedundantFilterChain,
        active_support(true),
        "
                arr.select { |x| x > 1 }.many?
                    ^^^^^^^^^^^^^^^^^^^^^^^^^^ Use `many?` instead of `select.many?`.
                ",
        "
                arr.many? { |x| x > 1 }
                ",
    );
}

/// A run of `cops` over `source` with `config`: the offenses and the corrected text.
fn run(cops: Vec<BuiltinCop>, config: Config, source: &str) -> (Vec<Offense>, String) {
    let code = source.as_bytes().to_vec();
    let tree = parse_tree(&code);
    let (input, offenses, corrector, _) =
        Commissioner::investigate(&cops, config, DecodedInput::new(String::new(), code), tree);
    let out = corrector.process(&input.bytes);
    (offenses, String::from_utf8(out).unwrap())
}

#[test]
fn disabled_rule_never_runs() {
    let mut overrides = ConfigTree::new();
    overrides.insert("Style/Not".to_string(), "Enabled".to_string(), ConfigValue::Bool(false));
    let (offenses, out) = run(vec![BuiltinCop::Not], Config::new(Some(overrides), rubocop::default::config()), "not test");
    assert!(offenses.is_empty());
    assert_eq!(out, "not test");

    let (offenses, out) = run(vec![BuiltinCop::Not], Config::new(None, ConfigTree::new()), "not test");
    assert!(offenses.is_empty());
    assert_eq!(out, "not test");
}

#[test]
fn not_keyword_end_to_end() {
    let (offenses, out) = run(vec![BuiltinCop::Not], Config::new(None, rubocop::default::config()), "not test");
    assert_eq!(offenses.len(), 1);
    assert_eq!(offenses[0].loc, Loc { begin: 0, end: 3 });
    assert_eq!(offenses[0].cop_name, "Style/Not");
    assert!(offenses[0].correctable);
    assert_eq!(out, "!test");
}

#[test]
fn not_with_binary_operation_gets_parentheses() {
    let (offenses, out) = run(vec![BuiltinCop::Not], Config::new(None, rubocop::default::config()), "not a == b");
    assert_eq!(offenses.len(), 1);
    assert_eq!(out, "!(a == b)");
}

#[test]
fn not_of_predicate_keeps_predicate() {
    let (_, out) = run(vec![BuiltinCop::Not], Config::new(None, rubocop::default::config()), "not x.empty?");
    assert_eq!(out, "x.none?");
}

#[test]
fn array_new_end_to_end() {
    let (offenses, out) =
        run(vec![BuiltinCop::RedundantArrayConstructor], Config::new(None, rubocop::default::config()), "Array.new([])");
    assert_eq!(offenses.len(), 1);
    assert_eq!(offenses[0].message, "Remove the redundant `Array` constructor.");
    assert_eq!(out, "[]");
}

#[test]
fn all_rules_together() {
    let (offenses, out) = run(rubocop::default::cops(), Config::new(None, rubocop::default::config()), "x = Array.new([])\nnot y\n");
    assert_eq!(offenses.len(), 2);
    assert_eq!(out, "x = []\n!y\n");
}

#[test]
fn unparsable_source_gives_nothing() {
    let code = b"def (".to_vec();
    let (input, offenses, corrector, _) = Commissioner::investigate(
        &rubocop::default::cops(),
        Config::new(None, rubocop::default::config()),
        DecodedInput::new(String::new(), code.clone()),
        None,
    );
    assert!(offenses.is_empty());
    assert!(corrector.is_empty());
    assert_eq!(corrector.process(&input.bytes), code);
}

#[test]
fn def_end_alignment_message() {
    let (offenses, _) =
        run(vec![BuiltinCop::DefEndAlignment], Config::new(None, rubocop::default::config()), "def foo\n  1\n  end\n");
    assert_eq!(offenses.len(), 1);
    assert_eq!(offenses[0].message, "`end` at 3, 2 is not aligned with `def` at 1, 0.");
    assert_eq!(offenses[0].loc, Loc { begin: 14, end: 17 });
}

#[test]
fn end_and_else_alignment() {
    let src = "if a\n  b\n  else\n  c\n  end\n";
    let (offenses, _) = run(vec![BuiltinCop::EndAlignment, BuiltinCop::ElseAlignment], Config::new(None, rubocop::default::config()), src);
    assert_eq!(offenses.len(), 2);
    assert_eq!(offenses[0].message, "`end` at 5, 2 is not aligned with `if` at 1, 0.");
    assert_eq!(offenses[1].message, "Align `else` with `if`.");
}

#[test]
fn string_literals_become_single_quoted() {
    let (offenses, out) = run(vec![BuiltinCop::StringLiterals], Config::new(None, rubocop::default::config()), "x = \"a\"");
    assert_eq!(offenses.len(), 1);
    assert_eq!(out, "x = 'a'");
}

#[test]
fn method_def_gets_parentheses() {
    let (offenses, out) =
        run(vec![BuiltinCop::MethodDefParentheses], Config::new(None, rubocop::default::config()), "def foo a, b\nend");
    assert_eq!(offenses.len(), 1);
    assert_eq!(out, "def foo(a, b)\nend");
}

#[test]
fn multiline_if_then_and_begin_block() {
    let (offenses, _) = run(vec![BuiltinCop::MultilineIfThen], Config::new(None, rubocop::default::config()), "if a then\n  b\nend");
    assert_eq!(offenses.len(), 1);
    assert_eq!(offenses[0].loc, Loc { begin: 5, end: 9 });
    let (offenses, _) = run(vec![BuiltinCop::BeginBlock], Config::new(None, rubocop::default::config()), "BEGIN { x }");
    assert_eq!(offenses.len(), 1);
    assert_eq!(offenses[0].message, "Avoid the use of `BEGIN` blocks.");
}

#[test]
fn parsed_tree_has_a_parent_for_every_node() {
    let tree = parse_tree(b"foo(bar, [1, 2])").unwrap();
    let index = rubocop::ast::ParentIndex::build(&tree);
    let entries = (0..tree.node_count()).filter(|&j| index.parent(j).is_some()).count();
    assert_eq!(entries, tree.node_count() - 1);
    assert_eq!(index.parent(0), None);
}
