use vstd::prelude::*;
use crate::common::lang::{Op, OpView};
use crate::common::pos::{Pos, Range, RangeWrapper, SrcRange};
use crate::syntax::error::{Error, ErrorKind, ErrorKindView};
use crate::syntax::lexer::{Lexer, lex_from, lex_token, lemma_lex_step, lemma_lex_token_progress};
use crate::syntax::token::{AssignOp, Token, TokenView, RangedToken, display_text};
use crate::syntax::tree::{
    Ast, Block, ConditionBlock, Expr, Fun, FunParam, Stmt, UserTy, expr_lookahead,
};
use crate::syntax::grammar::{
    tok_at, skip_ignored, skip_comments, step_past, moved, lands, expr_end, binary_end, unary_end, atom_end,
    atom_base_end, args_end, args_rest, expr_levels, lemma_skip_ignored_bounds, lemma_expr_moves,
    lemma_binary_moves, lemma_atom_base_moves, lemma_args_moves, skip_blanks,
    lemma_skip_blanks_bounds, lemma_skip_blanks_ignored, eol_end, at_end, block_end, item_end,
    stmt_end, if_end, else_end, cond_end, body_end, annotation_end, function_end, params_end,
    user_type_end, parents_end, funs_end, lemma_item_moves, lemma_cond_moves, lemma_function_moves,
    lemma_annotation_moves, lemma_block_unfold, lemma_item_unfold, lemma_stmt_unfold,
    lemma_if_unfold, lemma_else_unfold, lemma_cond_unfold, lemma_body_unfold, lemma_function_unfold,
    lemma_user_type_unfold, lemma_funs_unfold, lemma_params_unfold, lemma_parents_unfold, param_end,
    lemma_param_moves, expr_shape, expr_shapes, expr_tree, binary_tree, unary_tree, atom_tree,
    atom_base_tree, args_trees, args_rest_trees, ExprShape, lemma_expr_tree_unfold,
    lemma_binary_tree_unfold, lemma_unary_tree_unfold, lemma_atom_tree_unfold,
    lemma_atom_base_tree_unfold, lemma_args_trees_unfold, lemma_args_rest_trees_unfold,
    StmtShape, CondShape, stmt_shape, stmts_shape, block_shape, cond_shape, conds_shape, param_shape,
    params_shape, fun_shape, funs_shape, texts, user_ty_shape, name_text, annotation_ty, block_tree,
    item_tree, stmt_tree, if_tree, else_tree, cond_tree, body_tree, function_tree, param_tree,
    params_trees, parents_names, user_type_tree, funs_trees, lemma_block_tree_unfold,
    lemma_item_tree_unfold, lemma_stmt_tree_unfold, lemma_if_tree_unfold, lemma_else_tree_unfold,
    lemma_cond_tree_unfold, lemma_body_tree_unfold, lemma_function_tree_unfold,
    lemma_user_type_tree_unfold, lemma_funs_trees_unfold, lemma_params_trees_unfold,
    lemma_parents_names_unfold, lemma_function_tree_parts, ParamShape, FunShape,
};
use crate::util::owned;

verus! {

/// Tokens that only group, annotate or break lines: comments, newlines and round brackets.
pub open spec fn is_grouping(t: TokenView) -> bool {
    t is Comment || t is NewLine || t is LParen || t is RParen
}

/// The tokens of a sequence that carry meaning: those that are not comments or round brackets.
pub open spec fn significant(s: Seq<TokenView>) -> Seq<TokenView>
    decreases s.len(),
{
    if s.len() == 0 {
        s
    } else {
        let rest = significant(s.drop_last());
        if is_grouping(s.last()) {
            rest
        } else {
            rest.push(s.last())
        }
    }
}

/// The meaningful tokens of two sequences are those of each, in order.
pub proof fn lemma_significant_add(a: Seq<TokenView>, b: Seq<TokenView>)
    ensures
        significant(a + b) == significant(a) + significant(b),
    decreases b.len(),
{
    if b.len() == 0 {
        assert(a + b =~= a);
        assert(significant(b) =~= Seq::<TokenView>::empty());
        assert(significant(a) + significant(b) =~= significant(a));
    } else {
        lemma_significant_add(a, b.drop_last());
        assert((a + b).drop_last() =~= a + b.drop_last());
        assert((a + b).last() == b.last());
        if is_grouping(b.last()) {
        } else {
            assert(significant(a) + significant(b.drop_last()).push(b.last())
                =~= (significant(a) + significant(b.drop_last())).push(b.last()));
        }
    }
}

/// Tokens that only lay out the text: grouping tokens, commas and line breaks.
pub open spec fn is_layout(t: TokenView) -> bool {
    is_grouping(t) || t is Comma || t is LineEnd || t is NewLine
}

/// The tokens of a sequence that carry its structure: those that are not layout.
pub open spec fn meaningful(s: Seq<TokenView>) -> Seq<TokenView>
    decreases s.len(),
{
    if s.len() == 0 {
        s
    } else {
        let rest = meaningful(s.drop_last());
        if is_layout(s.last()) {
            rest
        } else {
            rest.push(s.last())
        }
    }
}

/// The structural tokens of two sequences are those of each, in order.
pub proof fn lemma_meaningful_add(a: Seq<TokenView>, b: Seq<TokenView>)
    ensures
        meaningful(a + b) == meaningful(a) + meaningful(b),
    decreases b.len(),
{
    if b.len() == 0 {
        assert(a + b =~= a);
        assert(meaningful(b) =~= Seq::<TokenView>::empty());
        assert(meaningful(a) + meaningful(b) =~= meaningful(a));
    } else {
        lemma_meaningful_add(a, b.drop_last());
        assert((a + b).drop_last() =~= a + b.drop_last());
        assert((a + b).last() == b.last());
        if !is_layout(b.last()) {
            assert(meaningful(a) + meaningful(b.drop_last()).push(b.last())
                =~= (meaningful(a) + meaningful(b.drop_last())).push(b.last()));
        }
    }
}

/// Leaving out grouping tokens first leaves the structural tokens as they are.
pub proof fn lemma_meaningful_significant(s: Seq<TokenView>)
    ensures
        meaningful(significant(s)) == meaningful(s),
    decreases s.len(),
{
    if s.len() > 0 {
        lemma_meaningful_significant(s.drop_last());
        if !is_grouping(s.last()) {
            let rest = significant(s.drop_last());
            assert(rest.push(s.last()).drop_last() =~= rest);
        }
    }
}

/// Moving from `h0` to `h1` by reading `toks`, as counted without grouping tokens, emits the
/// structural tokens of `toks`.
pub proof fn lemma_emit_read(h0: Seq<TokenView>, h1: Seq<TokenView>, toks: Seq<TokenView>)
    requires
        significant(h1) == significant(h0 + toks),
    ensures
        meaningful(h1) == meaningful(h0) + meaningful(toks),
{
    lemma_meaningful_significant(h1);
    lemma_meaningful_significant(h0 + toks);
    lemma_meaningful_add(h0, toks);
}

/// Moving from `h0` to `h1` while the grouping-free tokens grow by those of `toks` emits the
/// structural tokens of `toks`.
pub proof fn lemma_emit_grown(h0: Seq<TokenView>, h1: Seq<TokenView>, toks: Seq<TokenView>)
    requires
        significant(h1) == significant(h0) + significant(toks),
    ensures
        meaningful(h1) == meaningful(h0) + meaningful(toks),
{
    lemma_meaningful_significant(h1);
    lemma_meaningful_add(significant(h0), significant(toks));
    lemma_meaningful_significant(h0);
    lemma_meaningful_significant(toks);
}

/// Moving from history `h0` to `h1` emitted the structural tokens of `toks`.
pub open spec fn emitted(h0: Seq<TokenView>, h1: Seq<TokenView>, toks: Seq<TokenView>) -> bool {
    meaningful(h1) == meaningful(h0) + meaningful(toks)
}

/// Staying put emits nothing.
pub proof fn lemma_emit_start(h: Seq<TokenView>)
    ensures
        emitted(h, h, Seq::empty()),
{
    assert(meaningful(Seq::<TokenView>::empty()) =~= Seq::<TokenView>::empty());
    assert(meaningful(h) + Seq::<TokenView>::empty() =~= meaningful(h));
}

/// What two moves emit is what each emits, in order.
pub proof fn lemma_emit_chain(h0: Seq<TokenView>, h1: Seq<TokenView>, h2: Seq<TokenView>, a: Seq<TokenView>, b: Seq<TokenView>)
    requires
        emitted(h0, h1, a),
        emitted(h1, h2, b),
    ensures
        emitted(h0, h2, a + b),
{
    lemma_meaningful_add(a, b);
    assert(meaningful(h0) + meaningful(a) + meaningful(b) =~= meaningful(h0) + (meaningful(a) + meaningful(b)));
}

/// Appending tokens to the history emits them.
pub proof fn lemma_emit_exact(h: Seq<TokenView>, toks: Seq<TokenView>)
    ensures
        emitted(h, h + toks, toks),
{
    lemma_meaningful_add(h, toks);
}

/// Reading a layout token emits nothing.
pub proof fn lemma_emit_layout(h0: Seq<TokenView>, h1: Seq<TokenView>, t: TokenView)
    requires
        significant(h1) == significant(h0 + seq![t]),
        is_layout(t),
    ensures
        emitted(h0, h1, Seq::empty()),
        meaningful(h1) == meaningful(h0),
{
    lemma_emit_read(h0, h1, seq![t]);
    assert(meaningful(seq![t]) =~= Seq::<TokenView>::empty()) by {
        reveal_with_fuel(meaningful, 2);
    }
    lemma_emit_start(h0);
}

/// The token, if there is one, as a sequence of at most one token.
pub open spec fn opt_tokens(t: Option<RangedToken>) -> Seq<TokenView> {
    match t {
        Some(t) => seq![t.1@],
        None => Seq::empty(),
    }
}

/// The tokens that an expression was read from, in order, leaving out grouping brackets.
pub open spec fn expr_tokens(e: Expr) -> Seq<TokenView>
    decreases e,
{
    match e {
        Expr::Atom(t) => seq![t.1@],
        Expr::Unary(op, x) => seq![TokenView::Op(op@)] + expr_tokens(*x),
        Expr::Binary(l, op, r) => expr_tokens(*l) + seq![TokenView::Op(op@)] + expr_tokens(*r),
        Expr::FunCall { function, args, range: _ } => expr_tokens(*function) + args_tokens(args@),
        Expr::ArrayAccess { array, index, range: _ } => expr_tokens(*array) + seq![TokenView::LBracket]
            + expr_tokens(*index) + seq![TokenView::RBracket],
    }
}

/// The tokens of a list of arguments, separated by commas.
pub open spec fn args_tokens(args: Seq<Expr>) -> Seq<TokenView>
    decreases args,
{
    if args.len() == 0 {
        Seq::empty()
    } else if args.len() == 1 {
        expr_tokens(args[0])
    } else {
        args_tokens(args.drop_last()) + seq![TokenView::Comma] + expr_tokens(args.last())
    }
}

/// The tokens a statement is read from. Layout tokens (comments, round brackets, commas and
/// line breaks) are left out where the tree does not determine them.
pub open spec fn stmt_tokens(s: Stmt) -> Seq<TokenView>
    decreases s,
{
    match s {
        Stmt::Fun(f) => fun_tokens(f),
        Stmt::UserTy(u) => user_ty_tokens(u),
        Stmt::Expr(e) => expr_tokens(e),
        Stmt::Assign(lhs, op, rhs) => expr_tokens(lhs) + seq![TokenView::AssignOp(op)] + expr_tokens(rhs),
        Stmt::While(c) => seq![TokenView::WhileKw] + cond_tokens(c),
        Stmt::Loop(b) => seq![TokenView::LoopKw] + body_tokens(b),
        Stmt::If { if_block, elseif_blocks, else_block } => seq![TokenView::IfKw] + cond_tokens(if_block)
            + elseifs_tokens(elseif_blocks@) + match else_block {
            Some(b) => seq![TokenView::ElseKw] + body_tokens(b),
            None => Seq::empty(),
        },
        Stmt::Continue(_) => seq![TokenView::ContinueKw],
        Stmt::Break(_) => seq![TokenView::BreakKw],
        Stmt::Return(value, _) => seq![TokenView::ReturnKw] + match value {
            Some(e) => expr_tokens(e),
            None => Seq::empty(),
        },
    }
}

/// The tokens of a sequence of statements, in order.
pub open spec fn stmts_tokens(ss: Seq<Stmt>) -> Seq<TokenView>
    decreases ss,
{
    if ss.len() == 0 {
        Seq::empty()
    } else {
        stmts_tokens(ss.drop_last()) + stmt_tokens(ss.last())
    }
}

/// The tokens of a braced block.
pub open spec fn body_tokens(b: Block) -> Seq<TokenView>
    decreases b,
{
    seq![TokenView::LBrace] + stmts_tokens(b.1@) + seq![TokenView::RBrace]
}

/// The tokens of a condition and its block.
pub open spec fn cond_tokens(c: ConditionBlock) -> Seq<TokenView>
    decreases c,
{
    expr_tokens(c.condition) + body_tokens(c.block)
}

/// The tokens of the `else if` blocks of an `if` statement.
pub open spec fn elseifs_tokens(cs: Seq<ConditionBlock>) -> Seq<TokenView>
    decreases cs,
{
    if cs.len() == 0 {
        Seq::empty()
    } else {
        elseifs_tokens(cs.drop_last()) + seq![TokenView::ElseKw, TokenView::IfKw] + cond_tokens(cs.last())
    }
}

/// The tokens of a type annotation, if there is one.
pub open spec fn annotation_tokens(t: Option<String>) -> Seq<TokenView> {
    match t {
        Some(t) => seq![TokenView::Colon, TokenView::Bareword(t@)],
        None => Seq::empty(),
    }
}

/// The tokens of a function parameter.
pub open spec fn param_tokens(p: FunParam) -> Seq<TokenView> {
    seq![TokenView::Variable(p.name@)] + annotation_tokens(p.ty) + match p.default {
        Some(d) => seq![TokenView::AssignOp(AssignOp::Equals)] + expr_tokens(d),
        None => Seq::empty(),
    }
}

/// The tokens of a list of parameters, leaving out the commas between them.
pub open spec fn params_tokens(ps: Seq<FunParam>) -> Seq<TokenView>
    decreases ps.len(),
{
    if ps.len() == 0 {
        Seq::empty()
    } else {
        params_tokens(ps.drop_last()) + param_tokens(ps.last())
    }
}

/// The tokens of a function definition.
pub open spec fn fun_tokens(f: Fun) -> Seq<TokenView>
    decreases f,
{
    seq![TokenView::FunKw, TokenView::Bareword(f.name@), TokenView::LParen] + params_tokens(f.params@)
        + seq![TokenView::RParen] + annotation_tokens(f.return_ty) + body_tokens(f.body)
}

/// The tokens of a sequence of function definitions, in order.
pub open spec fn funs_tokens(fs: Seq<Fun>) -> Seq<TokenView>
    decreases fs,
{
    if fs.len() == 0 {
        Seq::empty()
    } else {
        funs_tokens(fs.drop_last()) + fun_tokens(fs.last())
    }
}

/// The names of a type's parents, leaving out the commas between them.
pub open spec fn parents_tokens(ps: Seq<String>) -> Seq<TokenView>
    decreases ps.len(),
{
    if ps.len() == 0 {
        Seq::empty()
    } else {
        parents_tokens(ps.drop_last()) + seq![TokenView::Bareword(ps.last()@)]
    }
}

/// The tokens of a type definition.
pub open spec fn user_ty_tokens(u: UserTy) -> Seq<TokenView>
    decreases u,
{
    seq![TokenView::TypeKw, TokenView::Bareword(u.name@)] + (if u.parents@.len() > 0 {
        seq![TokenView::Colon] + parents_tokens(u.parents@)
    } else {
        Seq::empty()
    }) + seq![TokenView::LBrace] + funs_tokens(u.functions@) + seq![TokenView::RBrace]
}

/// A parser, which reads a syntax tree from a lexer's tokens.
pub struct Parser {
    lexer: Lexer,
    curr: Option<RangedToken>,
    next: Option<RangedToken>,
    stmt_level: usize,
    history: Ghost<Seq<TokenView>>,
    start: Ghost<int>,
    primed: Ghost<bool>,
    intact: Ghost<bool>,
}

impl Parser {
    /// The token under the parser.
    pub closed spec fn curr(&self) -> Option<RangedToken> {
        self.curr
    }

    /// The token after the one under the parser.
    pub closed spec fn next_token_spec(&self) -> Option<RangedToken> {
        self.next
    }

    /// How deep inside parentheses the parser is.
    pub closed spec fn level(&self) -> usize {
        self.stmt_level
    }

    /// Every token that the parser has moved past, in order.
    pub closed spec fn history(&self) -> Seq<TokenView> {
        self.history@
    }

    /// How much is left to read: the text not yet lexed and the tokens held in lookahead.
    pub closed spec fn measure(&self) -> nat {
        ((self.lexer.text().len() + 1 - self.lexer.index()) + (if self.curr is Some {
            1int
        } else {
            0int
        }) + (if self.next is Some {
            1int
        } else {
            0int
        })) as nat
    }

    /// The tokens of the text from where the parser started reading; `None` where reading
    /// them meets an error.
    pub closed spec fn source_tokens(&self) -> Option<Seq<TokenView>> {
        lex_from(self.lexer.text(), self.start@)
    }

    /// Whether the parser has read its first two tokens.
    pub closed spec fn is_primed(&self) -> bool {
        self.primed@
    }

    /// Where the text reads without error, its tokens are those moved past, those held in
    /// lookahead, and those not read yet, in order; once primed, the lookahead runs out only
    /// at the end of the text.
    closed spec fn accounted(&self) -> bool {
        self.source_tokens() matches Some(all) ==> {
            &&& lex_from(self.lexer.text(), self.lexer.index()) matches Some(rest)
            &&& all == self.history@ + opt_tokens(self.curr) + opt_tokens(self.next) + rest
            &&& self.primed@ ==> (self.curr is None ==> self.next is None)
            &&& self.primed@ ==> (self.next is None ==> rest == Seq::<TokenView>::empty())
        }
    }

    /// While no error has been met, the text reads without error from the start wherever it
    /// does from the lexer's place on; and, once primed, the lookahead runs out only at the end
    /// of the text.
    closed spec fn whole(&self) -> bool {
        self.intact@ ==> {
            &&& (lex_from(self.lexer.text(), self.lexer.index()) is Some ==> self.source_tokens() is Some)
            &&& self.primed@ ==> (self.curr is None ==> self.next is None)
            &&& self.primed@ && self.next is None
                ==> lex_from(self.lexer.text(), self.lexer.index()) == Some(Seq::<TokenView>::empty())
        }
    }

    /// No error has been met in reading the text.
    pub closed spec fn is_intact(&self) -> bool {
        self.intact@
    }

    /// The parser's lexer is well formed, the nesting depth cannot overflow, and every token of
    /// the text is accounted for.
    pub closed spec fn wf(&self) -> bool {
        &&& self.lexer.wf()
        &&& self.stmt_level + self.measure() <= usize::MAX
        &&& self.accounted()
        &&& self.whole()
    }

    /// The position the parser's lexer has reached.
    pub closed spec fn lexer_pos(&self) -> Pos {
        self.lexer.pos_at(self.lexer.index())
    }

    /// The view of the current token, if any.
    pub open spec fn curr_view(&self) -> Option<TokenView> {
        match self.curr() {
            Some(t) => Some(t.1@),
            None => None,
        }
    }

    /// Whether the current token is `token`.
    pub open spec fn curr_is(&self, token: TokenView) -> bool {
        self.curr_view() == Some(token)
    }

    /// The parser moved forward, and whatever it read is recorded after what it had read before.
    pub open spec fn advanced(&self, old: &Parser) -> bool {
        &&& self.wf()
        &&& self.level() == old.level()
        &&& self.measure() <= old.measure()
        &&& old.history().is_prefix_of(self.history())
        &&& self.source_tokens() == old.source_tokens()
        &&& old.is_primed() ==> self.is_primed()
    }

    /// Once primed, the token under the parser is the one of the text at the place that the
    /// parser has reached.
    proof fn lemma_curr_at(&self)
        requires
            self.wf(),
            self.is_primed(),
        ensures
            self.source_tokens() matches Some(all) ==> {
                &&& self.history().len() <= all.len()
                &&& self.curr_view() == tok_at(all, self.history().len() as int)
            },
    {
        if let Some(all) = self.source_tokens() {
            let rest = lex_from(self.lexer.text(), self.lexer.index()).unwrap();
            let h = self.history@;
            if self.curr is None {
                assert(all =~= h);
            } else {
                assert(all[h.len() as int] == (h + opt_tokens(self.curr) + opt_tokens(self.next) + rest)[h.len() as int]);
            }
        }
    }

    /// Once primed, the parser stands at one of `tokens` (or, with none given, at the end of the
    /// text) exactly where the grammar finds it at one of their views.
    proof fn lemma_at_end(&self, tokens: Seq<Token>)
        requires
            self.wf(),
            self.is_primed(),
        ensures
            self.source_tokens() matches Some(all) ==> (at_end(all, self.history().len() as int,
                tokens.map_values(|t: Token| t@)) == ((exists|i: int| 0 <= i < tokens.len()
                && self.curr_is(#[trigger] tokens[i]@)) || (tokens.len() == 0 && self.curr() is None))),
    {
        self.lemma_curr_at();
        if let Some(all) = self.source_tokens() {
            let ends = tokens.map_values(|t: Token| t@);
            let p = self.history().len() as int;
            if exists|i: int| 0 <= i < tokens.len() && self.curr_is(#[trigger] tokens[i]@) {
                let i = choose|i: int| 0 <= i < tokens.len() && self.curr_is(#[trigger] tokens[i]@);
                assert(ends[i] == tokens[i]@);
            }
            if let Some(t) = tok_at(all, p) {
                if ends.contains(t) {
                    let i = choose|i: int| 0 <= i < ends.len() && ends[i] == t;
                    assert(self.curr_is(tokens[i]@));
                }
            }
        }
    }

    /// Once primed with nothing left under it, the parser has moved past every token of the
    /// text.
    proof fn lemma_all_read(&self)
        requires
            self.wf(),
            self.is_primed(),
            self.curr() is None,
        ensures
            self.source_tokens() matches Some(all) ==> all == self.history(),
    {
        if let Some(all) = self.source_tokens() {
            assert(all =~= self.history());
        }
    }

    /// Creates a parser for the given source.
    pub fn new(source_name: &str, source_text: &str) -> (r: Self)
        requires
            source_text@.len() + 3 < usize::MAX,
        ensures
            r.wf(),
            r.level() == 0,
            r.curr() is None,
            r.next_token_spec() is None,
            r.history() == Seq::<TokenView>::empty(),
            !r.is_primed(),
            r.is_intact(),
            r.source_tokens() == lex_from(source_text@, 0),
    {
        let lexer = Lexer::new(source_name, source_text);
        Parser::from_lexer(lexer)
    }

    /// Creates a parser that reads the given lexer's tokens.
    pub fn from_lexer(lexer: Lexer) -> (r: Self)
        requires
            lexer.wf(),
            lexer.text().len() + 3 < usize::MAX,
        ensures
            r.wf(),
            r.level() == 0,
            r.curr() is None,
            r.next_token_spec() is None,
            r.history() == Seq::<TokenView>::empty(),
            !r.is_primed(),
            r.is_intact(),
            r.source_tokens() == lex_from(lexer.text(), lexer.index()),
    {
        let ghost start = lexer.index();
        let r = Parser {
            lexer,
            curr: None,
            next: None,
            stmt_level: 0,
            history: Ghost(Seq::empty()),
            start: Ghost(start),
            primed: Ghost(false),
            intact: Ghost(true),
        };
        proof {
            r.lexer.lemma_wf_index();
            if let Some(all) = r.source_tokens() {
                assert(all == r.history@ + opt_tokens(r.curr) + opt_tokens(r.next) + all);
            }
        }
        r
    }

    /// Moves to the next token, keeping newlines and comments.
    ///
    /// Returns the token that was current.
    pub fn next_token_or_newline(&mut self) -> (r: Result<Option<RangedToken>, Error>)
        requires
            old(self).wf(),
        ensures
            final(self).advanced(old(self)),
            r is Ok ==> (old(self).is_intact() ==> final(self).is_intact()),
            r matches Ok(t) ==> {
                &&& t == old(self).curr()
                &&& final(self).curr() == old(self).next_token_spec()
                &&& final(self).history() == old(self).history() + opt_tokens(old(self).curr())
                &&& (old(self).curr() is Some ==> final(self).measure() < old(self).measure())
            },
            old(self).source_tokens() is Some ==> r is Ok,
    {
        let ghost text = self.lexer.text();
        let ghost idx0 = self.lexer.index();
        proof {
            self.lexer.lemma_wf_index();
            if self.lexer.index() <= self.lexer.text().len() {
                lemma_lex_token_progress(self.lexer.text(), self.lexer.index());
            }
            lemma_lex_step(text, idx0);
        }
        let next = match self.lexer.next() {
            Some(Ok(t)) => Some(t),
            Some(Err(e)) => {
                proof {
                    if old(self).source_tokens() is Some {
                        assert(lex_from(text, idx0) is None);
                    }
                }
                self.intact = Ghost(false);
                return Err(e);
            },
            None => None,
        };
        proof {
            self.lexer.lemma_wf_index();
        }
        let ghost h = self.history@ + opt_tokens(self.curr);
        let ghost lexed = next;
        let mut old_next = next;
        std::mem::swap(&mut self.next, &mut old_next);
        let mut old_curr = old_next;
        std::mem::swap(&mut self.curr, &mut old_curr);
        self.history = Ghost(h);
        proof {
            assert(old(self).history().is_prefix_of(self.history@));
            if let Some(all) = self.source_tokens() {
                let rest0 = lex_from(text, idx0).unwrap();
                match lexed {
                    Some(t) => {
                        let rest1 = lex_from(text, self.lexer.index()).unwrap();
                        assert(rest0 == seq![t.1@] + rest1);
                        assert(all =~= self.history@ + opt_tokens(self.curr) + opt_tokens(self.next) + rest1);
                    },
                    None => {
                        assert(all =~= self.history@ + opt_tokens(self.curr) + opt_tokens(self.next)
                            + Seq::<TokenView>::empty());
                    },
                }
            }
        }
        Ok(old_curr)
    }

    /// Advances by one token, then past any comments.
    ///
    /// Returns the token that was current.
    pub fn next_token(&mut self) -> (r: Result<Option<RangedToken>, Error>)
        requires
            old(self).wf(),
        ensures
            final(self).advanced(old(self)),
            r is Ok ==> (old(self).is_intact() ==> final(self).is_intact()),
            r matches Ok(t) ==> {
                &&& t == old(self).curr()
                &&& significant(final(self).history()) == significant(old(self).history() + opt_tokens(old(self).curr()))
                &&& !final(self).curr_is(TokenView::Comment)
                &&& !final(self).curr_is(TokenView::NewLine)
                &&& (old(self).curr() is Some ==> final(self).measure() < old(self).measure())
            },
            old(self).source_tokens() is Some ==> r is Ok,
            old(self).is_primed() && old(self).curr() is Some ==> (old(self).source_tokens() matches Some(all)
                ==> final(self).history().len() == step_past(all, old(self).history().len() as int)),
    {
        let ghost p0 = self.history().len() as int;
        let token = match self.next_token_or_newline() {
            Ok(t) => t,
            Err(e) => {
                return Err(e);
            },
        };
        while self.is_token_match(&Token::Comment) || self.is_token_match(&Token::NewLine)
            invariant
                self.advanced(old(self)),
                old(self).is_intact() ==> self.is_intact(),
                significant(self.history()) == significant(old(self).history() + opt_tokens(old(self).curr())),
                old(self).curr() is Some ==> self.measure() < old(self).measure(),
                p0 == old(self).history().len(),
                old(self).is_primed() && old(self).curr() is Some ==> (self.source_tokens() matches Some(all)
                    ==> step_past(all, p0) == skip_ignored(all, self.history().len() as int)),
            decreases self.measure(),
        {
            let ghost h = self.history@;
            let ghost c = self.curr;
            proof {
                if old(self).is_primed() {
                    self.lemma_curr_at();
                }
            }
            match self.next_token_or_newline() {
                Ok(_) => {
                    proof {
                        lemma_significant_add(h, opt_tokens(c));
                        assert(significant(opt_tokens(c)) =~= Seq::<TokenView>::empty()) by {
                            reveal_with_fuel(significant, 2);
                        }
                        assert(significant(h) + Seq::<TokenView>::empty() =~= significant(h));
                    }
                },
                Err(e) => {
                    return Err(e);
                },
            }
        }
        proof {
            if old(self).is_primed() {
                self.lemma_curr_at();
            }
        }
        Ok(token)
    }

    /// Whether the current token is `token`.
    pub fn is_token_match(&self, token: &Token) -> (r: bool)
        ensures
            r == self.curr_is(token@),
    {
        match &self.curr {
            Some(curr) => *curr.token() == *token,
            None => false,
        }
    }

    /// Whether the current token is one of `tokens`; with no tokens given, whether the text has
    /// ended.
    pub fn is_any_token_match(&self, tokens: &[Token]) -> (r: bool)
        ensures
            r == ((exists|i: int| 0 <= i < tokens@.len() && self.curr_is(#[trigger] tokens@[i]@))
                || (tokens@.len() == 0 && self.curr() is None)),
    {
        let n = tokens.len();
        for i in 0..n
            invariant
                n == tokens@.len(),
                forall|k: int| 0 <= k < i ==> !self.curr_is(#[trigger] tokens@[k]@),
        {
            if self.is_token_match(&tokens[i]) {
                return true;
            }
        }
        n == 0 && self.curr.is_none()
    }

    /// Whether the current token can begin the AST item `A`.
    pub fn is_lookahead<A: Ast>(&self) -> (r: bool)
        ensures
            r == (self.curr_view() matches Some(t) && A::spec_lookahead(t)),
    {
        match &self.curr {
            Some(curr) => curr.token().is_lookahead::<A>(),
            None => false,
        }
    }

    /// Whether the current token is an operator.
    pub fn is_curr_op(&self) -> (r: bool)
        ensures
            r == (self.curr_view() matches Some(t) && t is Op),
    {
        match &self.curr {
            Some(t) => t.token().is_op(),
            None => false,
        }
    }

    /// Whether the current token is an assignment operator.
    pub fn is_curr_assign_op(&self) -> (r: bool)
        ensures
            r == (self.curr_view() matches Some(t) && t is AssignOp),
    {
        match &self.curr {
            Some(t) => t.token().is_assign_op(),
            None => false,
        }
    }

    /// The error for a current token that is not the one expected.
    fn err_expected_curr(&self, expected: String) -> (r: Error)
        requires
            self.wf(),
        ensures
            r.kind@ == ErrorKindView::ExpectedGot(expected@, curr_text(self.curr())),
            r.pos == self.lexer_pos(),
    {
        self.err_expected_got(expected, self.curr.as_ref())
    }

    /// Moves past the current token, which must be `token`; comments after it are skipped.
    pub fn match_token(&mut self, token: Token) -> (r: Result<RangedToken, Error>)
        requires
            old(self).wf(),
        ensures
            final(self).advanced(old(self)),
            r is Ok ==> (old(self).is_intact() ==> final(self).is_intact()),
            r matches Ok(t) ==> {
                &&& old(self).curr() == Some(t)
                &&& t.1@ == token@
                &&& significant(final(self).history()) == significant(old(self).history() + seq![token@])
                &&& !final(self).curr_is(TokenView::Comment)
                &&& final(self).measure() < old(self).measure()
            },
            !old(self).curr_is(token@) ==> (r matches Err(e) && e.kind@ == ErrorKindView::ExpectedGot(
                display_text(token@),
                curr_text(old(self).curr()),
            ) && e.pos == old(self).lexer_pos()),
            old(self).curr_is(token@) && old(self).source_tokens() is Some ==> r is Ok,
            old(self).is_primed() ==> (old(self).source_tokens() matches Some(all) ==> (r is Ok
                ==> final(self).history().len() == step_past(all, old(self).history().len() as int))),
    {
        if self.is_token_match(&token) {
            match self.next_token() {
                Ok(Some(t)) => Ok(t),
                Ok(None) => {
                    proof {
                        assert(false);
                    }
                    Err(self.err_expected_got_eof(token.to_string()))
                },
                Err(e) => Err(e),
            }
        } else {
            Err(self.err_expected_curr(token.to_string()))
        }
    }

    /// Moves past the current token, which must be `token`; what follows it is kept as it is.
    pub fn match_token_preserve_newline(&mut self, token: Token) -> (r: Result<RangedToken, Error>)
        requires
            old(self).wf(),
        ensures
            final(self).advanced(old(self)),
            r is Ok ==> (old(self).is_intact() ==> final(self).is_intact()),
            r matches Ok(t) ==> {
                &&& old(self).curr() == Some(t)
                &&& t.1@ == token@
                &&& final(self).history() == old(self).history() + seq![token@]
                &&& final(self).measure() < old(self).measure()
            },
            !old(self).curr_is(token@) ==> (r matches Err(e) && e.kind@ == ErrorKindView::ExpectedGot(
                display_text(token@),
                curr_text(old(self).curr()),
            ) && e.pos == old(self).lexer_pos()),
            old(self).curr_is(token@) && old(self).source_tokens() is Some ==> r is Ok,
    {
        if self.is_token_match(&token) {
            match self.next_token_or_newline() {
                Ok(Some(t)) => Ok(t),
                Ok(None) => {
                    proof {
                        assert(false);
                    }
                    Err(self.err_expected_got_eof(token.to_string()))
                },
                Err(e) => Err(e),
            }
        } else {
            Err(self.err_expected_curr(token.to_string()))
        }
    }

    /// Reads a variable name.
    pub fn next_variable(&mut self) -> (r: Result<String, Error>)
        requires
            old(self).wf(),
        ensures
            final(self).advanced(old(self)),
            r is Ok ==> (old(self).is_intact() ==> final(self).is_intact()),
            r matches Ok(name) ==> {
                &&& old(self).curr_is(TokenView::Variable(name@))
                &&& significant(final(self).history()) == significant(old(self).history() + seq![TokenView::Variable(name@)])
                &&& final(self).measure() < old(self).measure()
            },
            !(old(self).curr_view() matches Some(t) && t is Variable) ==> r is Err,
            (old(self).curr_view() matches Some(t) && t is Variable) && old(self).source_tokens() is Some
                ==> r is Ok,
            old(self).is_primed() ==> (old(self).source_tokens() matches Some(all) ==> (r is Ok
                ==> final(self).history().len() == step_past(all, old(self).history().len() as int))),
    {
        match self.next_token() {
            Ok(Some(token)) => match token.as_inner() {
                Token::Variable(var) => Ok(var.clone()),
                _ => Err(self.err_expected_got(owned("variable"), Some(&token))),
            },
            Ok(None) => Err(self.err_expected_got_eof(owned("variable"))),
            Err(e) => Err(e),
        }
    }

    /// Reads a bareword.
    pub fn next_bareword(&mut self) -> (r: Result<String, Error>)
        requires
            old(self).wf(),
        ensures
            final(self).advanced(old(self)),
            r is Ok ==> (old(self).is_intact() ==> final(self).is_intact()),
            r matches Ok(name) ==> {
                &&& old(self).curr_is(TokenView::Bareword(name@))
                &&& significant(final(self).history()) == significant(old(self).history() + seq![TokenView::Bareword(name@)])
                &&& final(self).measure() < old(self).measure()
            },
            !(old(self).curr_view() matches Some(t) && t is Bareword) ==> r is Err,
            (old(self).curr_view() matches Some(t) && t is Bareword) && old(self).source_tokens() is Some
                ==> r is Ok,
            old(self).is_primed() ==> (old(self).source_tokens() matches Some(all) ==> (r is Ok
                ==> final(self).history().len() == step_past(all, old(self).history().len() as int))),
    {
        match self.next_token() {
            Ok(Some(token)) => match token.as_inner() {
                Token::Bareword(bareword) => Ok(bareword.clone()),
                _ => Err(self.err_expected_got(owned("bareword"), Some(&token))),
            },
            Ok(None) => Err(self.err_expected_got_eof(owned("bareword"))),
            Err(e) => Err(e),
        }
    }

    /// Reads an operator.
    pub fn next_op(&mut self) -> (r: Result<Op, Error>)
        requires
            old(self).wf(),
        ensures
            final(self).advanced(old(self)),
            r is Ok ==> (old(self).is_intact() ==> final(self).is_intact()),
            r matches Ok(op) ==> {
                &&& old(self).curr_is(TokenView::Op(op@))
                &&& significant(final(self).history()) == significant(old(self).history() + seq![TokenView::Op(op@)])
                &&& final(self).measure() < old(self).measure()
            },
            !(old(self).curr_view() matches Some(t) && t is Op) ==> (r matches Err(e)
                && e.kind@ == ErrorKindView::ExpectedGot("operator"@, curr_text(old(self).curr()))),
            (old(self).curr_view() matches Some(t) && t is Op) && old(self).source_tokens() is Some
                ==> r is Ok,
            old(self).is_primed() ==> (old(self).source_tokens() matches Some(all) ==> (r is Ok
                ==> final(self).history().len() == step_past(all, old(self).history().len() as int))),
    {
        if self.is_curr_op() {
            match self.next_token() {
                Ok(Some(t)) => Ok(t.into_inner().into_op()),
                Ok(None) => {
                    proof {
                        assert(false);
                    }
                    Err(self.err_expected_got_eof(owned("operator")))
                },
                Err(e) => Err(e),
            }
        } else {
            Err(self.err_expected_curr(owned("operator")))
        }
    }

    /// Reads an assignment operator.
    pub fn next_assign_op(&mut self) -> (r: Result<AssignOp, Error>)
        requires
            old(self).wf(),
        ensures
            final(self).advanced(old(self)),
            r is Ok ==> (old(self).is_intact() ==> final(self).is_intact()),
            r matches Ok(op) ==> {
                &&& old(self).curr_is(TokenView::AssignOp(op))
                &&& significant(final(self).history()) == significant(old(self).history() + seq![TokenView::AssignOp(op)])
                &&& final(self).measure() < old(self).measure()
            },
            !(old(self).curr_view() matches Some(t) && t is AssignOp) ==> (r matches Err(e)
                && e.kind@ == ErrorKindView::ExpectedGot("operator"@, curr_text(old(self).curr()))),
            (old(self).curr_view() matches Some(t) && t is AssignOp) && old(self).source_tokens() is Some
                ==> r is Ok,
            old(self).is_primed() ==> (old(self).source_tokens() matches Some(all) ==> (r is Ok
                ==> final(self).history().len() == step_past(all, old(self).history().len() as int))),
    {
        if self.is_curr_assign_op() {
            match self.next_token() {
                Ok(Some(t)) => Ok(t.into_inner().into_assign_op()),
                Ok(None) => {
                    proof {
                        assert(false);
                    }
                    Err(self.err_expected_got_eof(owned("operator")))
                },
                Err(e) => Err(e),
            }
        } else {
            Err(self.err_expected_curr(owned("operator")))
        }
    }

    /// Moves past line ends, comments and newlines.
    pub fn skip_whitespace(&mut self) -> (r: Result<(), Error>)
        requires
            old(self).wf(),
        ensures
            final(self).advanced(old(self)),
            r is Ok ==> (old(self).is_intact() ==> final(self).is_intact()),
            r is Ok ==> !final(self).curr_is(TokenView::LineEnd) && !final(self).curr_is(TokenView::Comment)
                && !final(self).curr_is(TokenView::NewLine),
            r is Ok ==> meaningful(final(self).history()) == meaningful(old(self).history()),
            old(self).source_tokens() is Some ==> r is Ok,
            old(self).is_primed() ==> (old(self).source_tokens() matches Some(all)
                ==> final(self).history().len() == skip_blanks(all, old(self).history().len() as int)),
    {
        let ghost p = self.history().len() as int;
        while self.is_token_match(&Token::LineEnd) || self.is_token_match(&Token::Comment)
            || self.is_token_match(&Token::NewLine)
            invariant
                self.advanced(old(self)),
                old(self).is_intact() ==> self.is_intact(),
                meaningful(self.history()) == meaningful(old(self).history()),
                p == old(self).history().len(),
                old(self).is_primed() ==> (old(self).source_tokens() matches Some(all)
                    ==> skip_blanks(all, p) == skip_blanks(all, self.history().len() as int)),
            decreases self.measure(),
        {
            let ghost h = self.history();
            let ghost c = self.curr;
            proof {
                if old(self).is_primed() {
                    self.lemma_curr_at();
                    if let Some(all) = self.source_tokens() {
                        lemma_skip_blanks_ignored(all, self.history().len() as int + 1);
                    }
                }
            }
            match self.next_token() {
                Ok(_) => {
                    proof {
                        lemma_emit_read(h, self.history(), opt_tokens(c));
                        assert(meaningful(opt_tokens(c)) =~= Seq::<TokenView>::empty()) by {
                            reveal_with_fuel(meaningful, 2);
                        }
                        assert(meaningful(h) + Seq::<TokenView>::empty() =~= meaningful(h));
                    }
                },
                Err(e) => {
                    return Err(e);
                },
            }
        }
        proof {
            if old(self).is_primed() {
                self.lemma_curr_at();
            }
        }
        Ok(())
    }

    /// Moves past the end of a statement: a line end, a comment, a newline, or the end of the
    /// text.
    pub fn next_eol_or_eof(&mut self) -> (r: Result<(), Error>)
        requires
            old(self).wf(),
        ensures
            final(self).advanced(old(self)),
            r is Ok ==> (old(self).is_intact() ==> final(self).is_intact()),
            !(old(self).curr_is(TokenView::LineEnd) || old(self).curr_is(TokenView::Comment)
                || old(self).curr_is(TokenView::NewLine) || old(self).curr() is None) ==> (r matches Err(e) && e.kind@ == ErrorKindView::ExpectedGot(
                "end-of-line (`;`) or EOF"@,
                curr_text(old(self).curr()),
            ) && *final(self) == *old(self)),
            r is Ok ==> meaningful(final(self).history()) == meaningful(old(self).history()),
            (old(self).curr_is(TokenView::LineEnd) || old(self).curr_is(TokenView::Comment)
                || old(self).curr_is(TokenView::NewLine) || old(self).curr() is None)
                && old(self).source_tokens() is Some ==> r is Ok,
            old(self).is_primed() ==> (old(self).source_tokens() matches Some(all) ==> lands(r is Ok,
                eol_end(all, old(self).history().len() as int), final(self).history().len() as int)),
    {
        proof {
            if old(self).is_primed() {
                self.lemma_curr_at();
            }
        }
        if self.is_token_match(&Token::LineEnd) || self.is_token_match(&Token::Comment)
            || self.is_token_match(&Token::NewLine) {
            let ghost h = self.history();
            let ghost c = self.curr;
            match self.next_token() {
                Ok(_) => {
                    proof {
                        lemma_emit_layout(h, self.history(), c.unwrap().1@);
                    }
                    Ok(())
                },
                Err(e) => Err(e),
            }
        } else if self.curr.is_none() {
            Ok(())
        } else {
            Err(self.err_expected_curr(owned("end-of-line (`;`) or EOF")))
        }
    }

    /// Readies this parser by reading its first two tokens, then moves past line ends and
    /// comments.
    pub fn init(&mut self) -> (r: Result<(), Error>)
        requires
            old(self).wf(),
            old(self).curr() is None,
            old(self).next_token_spec() is None,
        ensures
            final(self).advanced(old(self)),
            r is Ok ==> (old(self).is_intact() ==> final(self).is_intact()),
            r is Ok ==> final(self).is_primed(),
            r is Ok ==> meaningful(final(self).history()) == meaningful(old(self).history()),
            old(self).source_tokens() is Some ==> r is Ok,
            old(self).source_tokens() matches Some(all) ==> (r is Ok
                ==> final(self).history().len() == skip_blanks(all, old(self).history().len() as int)),
    {
        let ghost text = self.lexer.text();
        let ghost idx0 = self.lexer.index();
        proof {
            self.lexer.lemma_wf_index();
            if self.lexer.index() <= self.lexer.text().len() {
                lemma_lex_token_progress(self.lexer.text(), self.lexer.index());
            }
            lemma_lex_step(text, idx0);
        }
        self.curr = match self.lexer.next() {
            Some(Ok(t)) => Some(t),
            Some(Err(e)) => {
                self.intact = Ghost(false);
                return Err(e);
            },
            None => None,
        };
        let ghost idx1 = self.lexer.index();
        proof {
            self.lexer.lemma_wf_index();
            if self.lexer.index() <= self.lexer.text().len() {
                lemma_lex_token_progress(self.lexer.text(), self.lexer.index());
            }
            lemma_lex_step(text, idx1);
            if let Some(all) = self.source_tokens() {
                assert(all =~= self.history@ + opt_tokens(self.curr) + opt_tokens(self.next)
                    + lex_from(text, idx1).unwrap());
            }
        }
        self.next = match self.lexer.next() {
            Some(Ok(t)) => Some(t),
            Some(Err(e)) => {
                self.intact = Ghost(false);
                return Err(e);
            },
            None => None,
        };
        self.primed = Ghost(true);
        proof {
            self.lexer.lemma_wf_index();
            if let Some(all) = self.source_tokens() {
                let rest1 = lex_from(text, idx1).unwrap();
                let rest2 = lex_from(text, self.lexer.index()).unwrap();
                if self.next is Some {
                    assert(rest1 == seq![self.next.unwrap().1@] + rest2);
                }
                assert(all =~= self.history@ + opt_tokens(self.curr) + opt_tokens(self.next) + rest2);
            }
        }
        self.skip_whitespace()
    }

    /// Reads an expression.
    pub fn next_expr(&mut self) -> (r: Result<Expr, Error>)
        requires
            old(self).wf(),
        ensures
            final(self).advanced(old(self)),
            r is Ok ==> (old(self).is_intact() ==> final(self).is_intact()),
            r matches Ok(e) ==> {
                &&& significant(final(self).history()) == significant(old(self).history()) + significant(expr_tokens(e))
                &&& final(self).measure() < old(self).measure()
            },
            old(self).is_primed() ==> (old(self).source_tokens() matches Some(all) ==> lands(r is Ok,
                expr_end(all, old(self).history().len() as int, old(self).level() as int),
                final(self).history().len() as int)),
            old(self).is_primed() ==> (old(self).source_tokens() matches Some(all) ==> (r matches Ok(e)
                ==> expr_shape(e) == expr_tree(all, old(self).history().len() as int, old(self).level() as int))),
        decreases old(self).measure(), 30int,
    {
        let op_queue = vec![
            vec![
                Op::DoublePercent,
                Op::DoubleEquals,
                Op::DoubleTilde,
                Op::NotEquals,
                Op::LessEquals,
                Op::GreaterEquals,
                Op::Less,
                Op::Greater,
            ],
            vec![Op::Or],
            vec![Op::And],
            vec![Op::Tilde],
            vec![Op::Plus, Op::Minus],
            vec![Op::Splat, Op::FSlash],
        ];
        proof {
            assert(op_levels(op_queue@)[0] =~= expr_levels()[0]);
            assert(op_levels(op_queue@)[1] =~= expr_levels()[1]);
            assert(op_levels(op_queue@)[2] =~= expr_levels()[2]);
            assert(op_levels(op_queue@)[3] =~= expr_levels()[3]);
            assert(op_levels(op_queue@)[4] =~= expr_levels()[4]);
            assert(op_levels(op_queue@)[5] =~= expr_levels()[5]);
            assert(op_levels(op_queue@) =~= expr_levels());
            if let Some(all) = self.source_tokens() {
                lemma_expr_tree_unfold(all, self.history().len() as int, self.level() as int);
            }
        }
        self.next_binary_expr(&op_queue, 0)
    }

    /// Reads a binary expression whose operators are those of `op_queue` from `level` on, the
    /// loosest first; operators of one level group to the right.
    pub fn next_binary_expr(&mut self, op_queue: &Vec<Vec<Op>>, level: usize) -> (r: Result<Expr, Error>)
        requires
            old(self).wf(),
            level <= op_queue@.len() <= 10,
        ensures
            final(self).advanced(old(self)),
            r is Ok ==> (old(self).is_intact() ==> final(self).is_intact()),
            r matches Ok(e) ==> {
                &&& significant(final(self).history()) == significant(old(self).history()) + significant(expr_tokens(e))
                &&& final(self).measure() < old(self).measure()
            },
            old(self).is_primed() ==> (old(self).source_tokens() matches Some(all) ==> lands(r is Ok,
                binary_end(all, old(self).history().len() as int, old(self).level() as int, op_levels(op_queue@), level as int),
                final(self).history().len() as int)),
            old(self).is_primed() ==> (old(self).source_tokens() matches Some(all) ==> (r matches Ok(e)
                ==> expr_shape(e) == binary_tree(all, old(self).history().len() as int, old(self).level() as int, op_levels(op_queue@), level as int))),
        decreases old(self).measure(), 4 + op_queue@.len() - level,
    {
        let ghost p = self.history().len() as int;
        let ghost lvl = self.level() as int;
        let ghost on = self.is_primed() && self.source_tokens() is Some;
        let ghost all = match self.source_tokens() {
            Some(a) => a,
            None => Seq::<TokenView>::empty(),
        };
        proof {
            lemma_binary_tree_unfold(all, p, lvl, op_levels(op_queue@), level as int);
        }
        let ghost ops = op_levels(op_queue@);
        if level < op_queue.len() {
            let ghost h0 = self.history@;
            let lhs = match self.next_binary_expr(op_queue, level + 1) {
                Ok(e) => e,
                Err(e) => {
                    return Err(e);
                },
            };
            let ghost q = self.history().len() as int;
            proof {
                if on {
                    self.lemma_curr_at();
                    lemma_binary_moves(all, p, lvl, ops, level + 1);
                }
            }
            let top = &op_queue[level];
            let op_matches = match &self.curr {
                Some(t) => match t.token() {
                    Token::Op(op) => ops_contain(top, op),
                    _ => false,
                },
                None => false,
            };
            proof {
                if let Some(TokenView::Op(o)) = self.curr_view() {
                    lemma_ops_have_levels(op_queue@, level as int, o);
                }
            }
            if op_matches {
                let ghost h1 = self.history@;
                let op = match self.next_op() {
                    Ok(op) => op,
                    Err(e) => {
                        return Err(e);
                    },
                };
                let ghost h2 = self.history@;
                let rhs = match self.next_binary_expr(op_queue, level) {
                    Ok(e) => e,
                    Err(e) => {
                        return Err(e);
                    },
                };
                let ghost opv = seq![TokenView::Op(op@)];
                proof {
                    lemma_significant_add(h1, opv);
                    lemma_significant_add(expr_tokens(lhs), opv);
                    lemma_significant_add(expr_tokens(lhs) + opv, expr_tokens(rhs));
                    assert(significant(h0) + significant(expr_tokens(lhs)) + significant(opv) + significant(expr_tokens(rhs))
                        =~= significant(h0) + (significant(expr_tokens(lhs)) + significant(opv) + significant(expr_tokens(rhs))));
                }
                Ok(Expr::Binary(Box::new(lhs), op, Box::new(rhs)))
            } else {
                Ok(lhs)
            }
        } else {
            self.next_unary_expr()
        }
    }

    /// Reads a unary expression: operators applied to an atom.
    pub fn next_unary_expr(&mut self) -> (r: Result<Expr, Error>)
        requires
            old(self).wf(),
        ensures
            final(self).advanced(old(self)),
            r is Ok ==> (old(self).is_intact() ==> final(self).is_intact()),
            r matches Ok(e) ==> {
                &&& significant(final(self).history()) == significant(old(self).history()) + significant(expr_tokens(e))
                &&& final(self).measure() < old(self).measure()
            },
            old(self).is_primed() ==> (old(self).source_tokens() matches Some(all) ==> lands(r is Ok,
                unary_end(all, old(self).history().len() as int, old(self).level() as int),
                final(self).history().len() as int)),
            old(self).is_primed() ==> (old(self).source_tokens() matches Some(all) ==> (r matches Ok(e)
                ==> expr_shape(e) == unary_tree(all, old(self).history().len() as int, old(self).level() as int))),
        decreases old(self).measure(), 3int,
    {
        let ghost p = self.history().len() as int;
        let ghost lvl = self.level() as int;
        let ghost on = self.is_primed() && self.source_tokens() is Some;
        let ghost all = match self.source_tokens() {
            Some(a) => a,
            None => Seq::<TokenView>::empty(),
        };
        proof {
            lemma_unary_tree_unfold(all, p, lvl);
        }
        proof {
            if on {
                self.lemma_curr_at();
            }
        }
        if self.is_curr_op() {
            let ghost h0 = self.history@;
            let token = match self.next_token() {
                Ok(Some(t)) => t,
                Ok(None) => {
                    proof {
                        assert(false);
                    }
                    return Err(self.err_expected_got_eof(owned("unary operator")));
                },
                Err(e) => {
                    return Err(e);
                },
            };
            if token.token().is_lookahead::<Expr>() {
                let op = token.into_inner().into_op();
                let ghost h1 = self.history@;
                let expr = match self.next_unary_expr() {
                    Ok(e) => e,
                    Err(e) => {
                        return Err(e);
                    },
                };
                proof {
                    let opv = seq![TokenView::Op(op@)];
                    lemma_significant_add(h0, opv);
                    lemma_significant_add(opv, expr_tokens(expr));
                    assert(significant(h0) + significant(opv) + significant(expr_tokens(expr))
                        =~= significant(h0) + (significant(opv) + significant(expr_tokens(expr))));
                }
                Ok(Expr::Unary(op, Box::new(expr)))
            } else {
                Err(self.err_expected_got(owned("unary operator"), Some(&token)))
            }
        } else {
            self.next_atom_expr()
        }
    }

    /// Reads an atom, or a parenthesised expression, with any call arguments and index that
    /// follow it.
    #[verifier::spinoff_prover]
    #[verifier::rlimit(100)]
    pub fn next_atom_expr(&mut self) -> (r: Result<Expr, Error>)
        requires
            old(self).wf(),
        ensures
            final(self).advanced(old(self)),
            r is Ok ==> (old(self).is_intact() ==> final(self).is_intact()),
            r matches Ok(e) ==> {
                &&& significant(final(self).history()) == significant(old(self).history()) + significant(expr_tokens(e))
                &&& final(self).measure() < old(self).measure()
            },
            old(self).is_primed() ==> (old(self).source_tokens() matches Some(all) ==> lands(r is Ok,
                atom_end(all, old(self).history().len() as int, old(self).level() as int),
                final(self).history().len() as int)),
            old(self).is_primed() ==> (old(self).source_tokens() matches Some(all) ==> (r matches Ok(e)
                ==> expr_shape(e) == atom_tree(all, old(self).history().len() as int, old(self).level() as int))),
        decreases old(self).measure(), 2int,
    {
        let ghost p = self.history().len() as int;
        let ghost lvl = self.level() as int;
        let ghost on = self.is_primed() && self.source_tokens() is Some;
        let ghost all = match self.source_tokens() {
            Some(a) => a,
            None => Seq::<TokenView>::empty(),
        };
        proof {
            lemma_atom_tree_unfold(all, p, lvl);
        }
        let begin = self.lexer.pos();
        let ghost h0 = self.history@;
        let mut expr = match self.next_atom_base() {
            Ok(e) => e,
            Err(e) => {
                return Err(e);
            },
        };
        let ghost q = self.history().len() as int;
        proof {
            if on {
                self.lemma_curr_at();
                lemma_atom_base_moves(all, p, lvl);
                lemma_args_moves(all, q, lvl);
            }
        }
        if self.is_token_match(&Token::LParen) {
            let ghost h1 = self.history@;
            let args = match self.next_funcall_args() {
                Ok(args) => args,
                Err(e) => {
                    return Err(e);
                },
            };
            let end = self.lexer.pos();
            let range = Range::Src(SrcRange::new(begin.clone(), end));
            let ghost f = expr;
            expr = Expr::FunCall { function: Box::new(expr), args, range };
            proof {
                if on {
                    assert(expr_shape(expr) == ExprShape::Call(Box::new(atom_base_tree(all, p, lvl)), args_trees(all, q, lvl)));
                }
                lemma_significant_add(expr_tokens(f), args_tokens(args@));
                assert(significant(h0) + significant(expr_tokens(f)) + significant(args_tokens(args@))
                    =~= significant(h0) + (significant(expr_tokens(f)) + significant(args_tokens(args@))));
            }
        }
        let ghost c = self.history().len() as int;
        let ghost called = expr_shape(expr);
        proof {
            if on {
                self.lemma_curr_at();
                lemma_skip_ignored_bounds(all, c + 1);
                assert(called == if tok_at(all, q) == Some(TokenView::LParen) {
                    ExprShape::Call(Box::new(atom_base_tree(all, p, lvl)), args_trees(all, q, lvl))
                } else {
                    atom_base_tree(all, p, lvl)
                });
                assert(Some(c) == if tok_at(all, q) == Some(TokenView::LParen) {
                    args_end(all, q, lvl)
                } else {
                    Some(q)
                });
            }
        }
        if self.is_token_match(&Token::LBracket) {
            let ghost h1 = self.history@;
            match self.next_token() {
                Ok(_) => {},
                Err(e) => {
                    return Err(e);
                },
            }
            let ghost h2 = self.history@;
            let index = match self.next_expr() {
                Ok(e) => e,
                Err(e) => {
                    return Err(e);
                },
            };
            let ghost h3 = self.history@;
            proof {
                if on {
                    self.lemma_curr_at();
                }
            }
            match self.match_token_preserve_newline(Token::RBracket) {
                Ok(_) => {},
                Err(e) => {
                    return Err(e);
                },
            }
            let end = self.lexer.pos();
            let range = Range::Src(SrcRange::new(begin.clone(), end));
            proof {
                let lb = seq![TokenView::LBracket];
                let rb = seq![TokenView::RBracket];
                lemma_significant_add(h1, lb);
                lemma_significant_add(h3, rb);
                lemma_significant_add(expr_tokens(expr), lb);
                lemma_significant_add(expr_tokens(expr) + lb, expr_tokens(index));
                lemma_significant_add(expr_tokens(expr) + lb + expr_tokens(index), rb);
                assert(significant(h0) + significant(expr_tokens(expr)) + significant(lb) + significant(expr_tokens(index)) + significant(rb)
                    =~= significant(h0) + (significant(expr_tokens(expr)) + significant(lb) + significant(expr_tokens(index)) + significant(rb)));
            }
            let r = Expr::ArrayAccess { array: Box::new(expr), index: Box::new(index), range };
            proof {
                if on {
                    assert(expr_shape(r) == ExprShape::Index(Box::new(called), Box::new(expr_tree(all, step_past(all, c), lvl))));
                }
            }
            Ok(r)
        } else {
            Ok(expr)
        }
    }

    /// Reads an atom, or a parenthesised expression.
    #[verifier::rlimit(60)]
    fn next_atom_base(&mut self) -> (r: Result<Expr, Error>)
        requires
            old(self).wf(),
        ensures
            final(self).advanced(old(self)),
            r is Ok ==> (old(self).is_intact() ==> final(self).is_intact()),
            r matches Ok(e) ==> {
                &&& significant(final(self).history()) == significant(old(self).history()) + significant(expr_tokens(e))
                &&& final(self).measure() < old(self).measure()
            },
            old(self).is_primed() ==> (old(self).source_tokens() matches Some(all) ==> lands(r is Ok,
                atom_base_end(all, old(self).history().len() as int, old(self).level() as int),
                final(self).history().len() as int)),
            old(self).is_primed() ==> (old(self).source_tokens() matches Some(all) ==> (r matches Ok(e)
                ==> expr_shape(e) == atom_base_tree(all, old(self).history().len() as int, old(self).level() as int))),
        decreases old(self).measure(), 1int,
    {
        let ghost p = self.history().len() as int;
        let ghost lvl = self.level() as int;
        let ghost on = self.is_primed() && self.source_tokens() is Some;
        let ghost all = match self.source_tokens() {
            Some(a) => a,
            None => Seq::<TokenView>::empty(),
        };
        proof {
            lemma_atom_base_tree_unfold(all, p, lvl);
        }
        proof {
            if on {
                self.lemma_curr_at();
                lemma_skip_ignored_bounds(all, p + 1);
            }
        }
        let ghost h0 = self.history@;
        if self.curr.is_none() {
            return Err(self.err_expected_got_eof(owned(Expr::name())));
        }
        if !self.is_lookahead::<Expr>() {
            return Err(self.err_expected_curr(owned(Expr::name())));
        }
        if self.is_token_match(&Token::LParen) {
            match self.next_token() {
                Ok(_) => {},
                Err(e) => {
                    return Err(e);
                },
            }
            proof {
                lemma_significant_add(h0, seq![TokenView::LParen]);
                assert(significant(seq![TokenView::LParen]) =~= Seq::<TokenView>::empty()) by {
                    reveal_with_fuel(significant, 2);
                }
                assert(significant(h0) + Seq::<TokenView>::empty() =~= significant(h0));
            }
            self.stmt_level = self.stmt_level + 1;
            let inner = self.next_expr();
            self.stmt_level = self.stmt_level - 1;
            let inner = match inner {
                Ok(e) => e,
                Err(e) => {
                    return Err(e);
                },
            };
            let ghost h1 = self.history@;
            proof {
                if on {
                    self.lemma_curr_at();
                }
            }
            let closed = if self.stmt_level == 0 {
                self.match_token_preserve_newline(Token::RParen)
            } else {
                self.match_token(Token::RParen)
            };
            match closed {
                Ok(_) => {},
                Err(e) => {
                    return Err(e);
                },
            }
            proof {
                lemma_significant_add(h1, seq![TokenView::RParen]);
                assert(significant(seq![TokenView::RParen]) =~= Seq::<TokenView>::empty()) by {
                    reveal_with_fuel(significant, 2);
                }
                assert(significant(h1) + Seq::<TokenView>::empty() =~= significant(h1));
            }
            Ok(inner)
        } else {
            let token = if self.stmt_level == 0 {
                self.next_token_or_newline()
            } else {
                self.next_token()
            };
            match token {
                Ok(Some(t)) => {
                    proof {
                        lemma_significant_add(h0, seq![t.1@]);
                    }
                    Ok(Expr::Atom(t))
                },
                Ok(None) => {
                    proof {
                        assert(false);
                    }
                    return Err(self.err_expected_got_eof(owned(Expr::name())));
                },
                Err(e) => {
                    return Err(e);
                },
            }
        }
    }

    /// Reads the arguments of a call: a parenthesised, comma-separated list of expressions.
    #[verifier::spinoff_prover]
    #[verifier::rlimit(100)]
    pub fn next_funcall_args(&mut self) -> (r: Result<Vec<Expr>, Error>)
        requires
            old(self).wf(),
        ensures
            final(self).advanced(old(self)),
            r is Ok ==> (old(self).is_intact() ==> final(self).is_intact()),
            r matches Ok(args) ==> {
                &&& significant(final(self).history()) == significant(old(self).history()) + significant(args_tokens(args@))
                &&& final(self).measure() < old(self).measure()
            },
            old(self).is_primed() ==> (old(self).source_tokens() matches Some(all) ==> lands(r is Ok,
                args_end(all, old(self).history().len() as int, old(self).level() as int),
                final(self).history().len() as int)),
            old(self).is_primed() ==> (old(self).source_tokens() matches Some(all) ==> (r matches Ok(args)
                ==> expr_shapes(args@) == args_trees(all, old(self).history().len() as int, old(self).level() as int))),
        decreases old(self).measure(), 0int,
    {
        let ghost p = self.history().len() as int;
        let ghost lvl = self.level() as int;
        let ghost on = self.is_primed() && self.source_tokens() is Some;
        let ghost all = match self.source_tokens() {
            Some(a) => a,
            None => Seq::<TokenView>::empty(),
        };
        proof {
            lemma_args_trees_unfold(all, p, lvl);
        }
        proof {
            if on {
                self.lemma_curr_at();
                lemma_skip_ignored_bounds(all, p + 1);
            }
        }
        let ghost h0 = self.history@;
        match self.match_token(Token::LParen) {
            Ok(_) => {},
            Err(e) => {
                return Err(e);
            },
        }
        proof {
            lemma_significant_add(h0, seq![TokenView::LParen]);
            assert(significant(seq![TokenView::LParen]) =~= Seq::<TokenView>::empty()) by {
                reveal_with_fuel(significant, 2);
            }
            assert(significant(h0) + Seq::<TokenView>::empty() =~= significant(h0));
            assert(args_tokens(Seq::<Expr>::empty()) =~= Seq::<TokenView>::empty());
            assert(significant(Seq::<TokenView>::empty()) =~= Seq::<TokenView>::empty());
        }
        let mut args: Vec<Expr> = Vec::new();
        let ghost q = self.history().len() as int;
        proof {
            if on {
                self.lemma_curr_at();
                lemma_skip_ignored_bounds(all, q + 1);
            }
        }
        if !self.is_token_match(&Token::RParen) {
            let first = match self.next_expr() {
                Ok(e) => e,
                Err(e) => {
                    return Err(e);
                },
            };
            proof {
                if on {
                    lemma_expr_moves(all, q, lvl);
                }
            }
            args.push(first);
            assert(args@ =~= seq![first]);
            proof {
                assert(args@.drop_last() =~= Seq::<Expr>::empty());
                assert(expr_shapes(args@) =~= seq![expr_shape(first)]) by {
                    reveal_with_fuel(expr_shapes, 2);
                }
            }
            while self.is_token_match(&Token::Comma)
                invariant
                    self.advanced(old(self)),
                    old(self).is_intact() ==> self.is_intact(),
                    self.measure() < old(self).measure(),
                    args@.len() >= 1,
                    significant(self.history()) == significant(h0) + significant(args_tokens(args@)),
                    on == (old(self).is_primed() && old(self).source_tokens() is Some),
                    on ==> old(self).source_tokens() == Some(all),
                    lvl == old(self).level(),
                    p == old(self).history().len(),
                    on ==> args_end(all, p, lvl) == args_rest(all, self.history().len() as int, lvl),
                    on ==> args_trees(all, p, lvl) == expr_shapes(args@)
                        + args_rest_trees(all, self.history().len() as int, lvl),
                    on ==> p < self.history().len() <= all.len(),
                decreases self.measure(),
            {
                let ghost h1 = self.history@;
                let ghost a1 = args@;
                let ghost c = self.history().len() as int;
                proof {
                    if on {
                        self.lemma_curr_at();
                        lemma_skip_ignored_bounds(all, c + 1);
                        lemma_args_rest_trees_unfold(all, c, lvl);
                    }
                }
                match self.next_token() {
                    Ok(_) => {},
                    Err(e) => {
                        return Err(e);
                    },
                }
                let arg = match self.next_expr() {
                    Ok(e) => e,
                    Err(e) => {
                        return Err(e);
                    },
                };
                proof {
                    if on {
                        lemma_expr_moves(all, step_past(all, c), lvl);
                    }
                }
                args.push(arg);
                proof {
                    let cm = seq![TokenView::Comma];
                    assert(args@.drop_last() =~= a1);
                    assert(expr_shapes(args@) == expr_shapes(a1).push(expr_shape(arg)));
                    assert(expr_shapes(a1) + seq![expr_shape(arg)] =~= expr_shapes(a1).push(expr_shape(arg)));
                    lemma_significant_add(h1, cm);
                    lemma_significant_add(args_tokens(a1), cm);
                    lemma_significant_add(args_tokens(a1) + cm, expr_tokens(arg));
                    assert(significant(h0) + significant(args_tokens(a1)) + significant(cm) + significant(expr_tokens(arg))
                        =~= significant(h0) + (significant(args_tokens(a1)) + significant(cm) + significant(expr_tokens(arg))));
                }
            }
        }
        let ghost h2 = self.history@;
        proof {
            if on {
                self.lemma_curr_at();
            }
            if args@.len() == 0 {
                assert(expr_shapes(args@) =~= Seq::<ExprShape>::empty());
            }
            if on {
                lemma_args_rest_trees_unfold(all, self.history().len() as int, lvl);
            }
        }
        let closed = if self.stmt_level == 0 {
            self.match_token_preserve_newline(Token::RParen)
        } else {
            self.match_token(Token::RParen)
        };
        match closed {
            Ok(_) => {},
            Err(e) => {
                return Err(e);
            },
        }
        proof {
            lemma_significant_add(h2, seq![TokenView::RParen]);
            assert(significant(seq![TokenView::RParen]) =~= Seq::<TokenView>::empty()) by {
                reveal_with_fuel(significant, 2);
            }
            assert(significant(h2) + Seq::<TokenView>::empty() =~= significant(h2));
        }
        Ok(args)
    }

    /// Reads the whole text as a block of statements.
    ///
    /// Where the text reads without error, the tree accounts for all of its tokens: leaving
    /// out layout (comments, round brackets, commas and line breaks), the tokens of the text
    /// are those of the statements, in order.
    pub fn into_parse_tree(self) -> (r: Result<Block, Error>)
        requires
            self.wf(),
            self.level() == 0,
            self.curr() is None,
            self.next_token_spec() is None,
        ensures
            r matches Ok(b) ==> (self.source_tokens() matches Some(all)
                ==> meaningful(all) == meaningful(self.history()) + meaningful(stmts_tokens(b.1@))),
            self.source_tokens() matches Some(all) ==> (r is Ok <==> block_end(all,
                skip_blanks(all, self.history().len() as int), Seq::empty()) is Some),
            self.is_intact() ==> (r is Ok ==> self.source_tokens() is Some),
            self.source_tokens() matches Some(all) ==> (r matches Ok(b) ==> block_shape(b) == block_tree(all,
                skip_blanks(all, self.history().len() as int), Seq::empty())),
    {
        let mut parser = self;
        let ghost h0 = parser.history();
        match parser.init() {
            Ok(()) => {},
            Err(e) => {
                return Err(e);
            },
        }
        let ghost h1 = parser.history();
        let ends: [Token; 0] = [];
        proof {
            assert(ends@.map_values(|t: Token| t@) =~= Seq::<TokenView>::empty());
        }
        let r = parser.next_block(&ends);
        proof {
            if let Ok(ref b) = r {
                lemma_emit_start(h0);
                lemma_emit_chain(h0, h1, parser.history(), Seq::empty(), stmts_tokens((*b).1@));
                assert(Seq::<TokenView>::empty() + stmts_tokens((*b).1@) =~= stmts_tokens((*b).1@));
                parser.lemma_all_read();
            }
        }
        r
    }

    /// Reads statements until the current token is one of `end_tokens`, or, with none given,
    /// until the text ends.
    pub fn next_block(&mut self, end_tokens: &[Token]) -> (r: Result<Block, Error>)
        requires
            old(self).wf(),
            old(self).level() == 0,
        ensures
            final(self).advanced(old(self)),
            r is Ok ==> (old(self).is_intact() ==> final(self).is_intact()),
            r is Ok ==> (exists|i: int| 0 <= i < end_tokens@.len() && final(self).curr_is(#[trigger] end_tokens@[i]@))
                || (end_tokens@.len() == 0 && final(self).curr() is None),
            r matches Ok(b) ==> emitted(old(self).history(), final(self).history(), stmts_tokens(b.1@)),
            old(self).is_primed() ==> (old(self).source_tokens() matches Some(all) ==> lands(r is Ok,
                block_end(all, old(self).history().len() as int, end_tokens@.map_values(|t: Token| t@)),
                final(self).history().len() as int)),
            old(self).is_primed() ==> (old(self).source_tokens() matches Some(all) ==> (r matches Ok(b)
                ==> stmts_shape(b.1@) == block_tree(all, old(self).history().len() as int, end_tokens@.map_values(|t: Token| t@)))),
        decreases old(self).measure(), 10int,
    {
        let ghost p = self.history().len() as int;
        let ghost on = self.is_primed() && self.source_tokens() is Some;
        let ghost all = match self.source_tokens() {
            Some(a) => a,
            None => Seq::<TokenView>::empty(),
        };
        proof {
            if on {
                self.lemma_curr_at();
                lemma_skip_ignored_bounds(all, p + 1);
            }
        }
        let ghost ends = end_tokens@.map_values(|t: Token| t@);
        let begin = self.lexer.pos();
        let mut stmts: Vec<Stmt> = Vec::new();
        let ghost h0 = self.history();
        proof {
            lemma_emit_start(h0);
            assert(stmts_shape(stmts@) + block_tree(all, p, ends) =~= block_tree(all, p, ends));
        }
        while !self.is_any_token_match(end_tokens)
            invariant
                self.advanced(old(self)),
                old(self).is_intact() ==> self.is_intact(),
                self.level() == 0,
                h0 == old(self).history(),
                emitted(h0, self.history(), stmts_tokens(stmts@)),
                on == (old(self).is_primed() && old(self).source_tokens() is Some),
                on ==> old(self).source_tokens() == Some(all),
                p == old(self).history().len(),
                ends == end_tokens@.map_values(|t: Token| t@),
                on ==> block_end(all, p, ends) == block_end(all, self.history().len() as int, ends),
                on ==> block_tree(all, p, ends) == stmts_shape(stmts@) + block_tree(all,
                    self.history().len() as int, ends),
                on ==> self.history().len() <= all.len(),
            decreases self.measure(),
        {
            let ghost h1 = self.history();
            let ghost c = self.history().len() as int;
            let ghost before = stmts@;
            proof {
                if on {
                    self.lemma_at_end(end_tokens@);
                    lemma_block_unfold(all, c, ends);
                    lemma_block_tree_unfold(all, c, ends);
                }
            }
            match self.next_item() {
                Ok(stmt) => {
                    proof {
                        if on {
                            lemma_item_moves(all, c);
                        }
                        lemma_emit_chain(h0, h1, self.history(), stmts_tokens(stmts@), stmt_tokens(stmt));
                        assert(stmts@.push(stmt).drop_last() =~= stmts@);
                    }
                    stmts.push(stmt);
                    proof {
                        if on {
                            let q = self.history().len() as int;
                            assert(stmts_shape(stmts@) == stmts_shape(before).push(item_tree(all, c)));
                            assert(stmts_shape(before) + (seq![item_tree(all, c)] + block_tree(all, q, ends))
                                =~= stmts_shape(before).push(item_tree(all, c)) + block_tree(all, q, ends));
                        }
                    }
                },
                Err(e) => {
                    return Err(e);
                },
            }
        }
        proof {
            if on {
                self.lemma_at_end(end_tokens@);
                lemma_block_unfold(all, self.history().len() as int, ends);
                lemma_block_tree_unfold(all, self.history().len() as int, ends);
                assert(stmts_shape(stmts@) + Seq::<StmtShape>::empty() =~= stmts_shape(stmts@));
            }
        }
        let end = self.lexer.pos();
        let range = Range::Src(SrcRange::new(begin, end));
        Ok(RangeWrapper::new(range, stmts))
    }

    /// Reads one item of a block: a function definition, a type definition, or a statement.
    pub fn next_item(&mut self) -> (r: Result<Stmt, Error>)
        requires
            old(self).wf(),
            old(self).level() == 0,
        ensures
            final(self).advanced(old(self)),
            r is Ok ==> (old(self).is_intact() ==> final(self).is_intact()),
            r is Ok ==> final(self).measure() < old(self).measure(),
            r matches Ok(s) ==> emitted(old(self).history(), final(self).history(), stmt_tokens(s)),
            old(self).is_primed() ==> (old(self).source_tokens() matches Some(all) ==> lands(r is Ok,
                item_end(all, old(self).history().len() as int),
                final(self).history().len() as int)),
            old(self).is_primed() ==> (old(self).source_tokens() matches Some(all) ==> (r matches Ok(st)
                ==> stmt_shape(st) == item_tree(all, old(self).history().len() as int))),
        decreases old(self).measure(), 9int,
    {
        let ghost p = self.history().len() as int;
        let ghost on = self.is_primed() && self.source_tokens() is Some;
        let ghost all = match self.source_tokens() {
            Some(a) => a,
            None => Seq::<TokenView>::empty(),
        };
        proof {
            if on {
                self.lemma_curr_at();
                lemma_skip_ignored_bounds(all, p + 1);
                lemma_item_unfold(all, p);
                lemma_item_tree_unfold(all, p);
            }
        }
        let ghost h0 = self.history();
        match self.skip_whitespace() {
            Ok(()) => {},
            Err(e) => {
                return Err(e);
            },
        }
        let ghost h1 = self.history();
        proof {
            if on {
                self.lemma_curr_at();
                lemma_skip_blanks_bounds(all, p);
            }
        }
        if self.curr.is_none() {
            return Err(self.err_expected_got_eof(owned(Stmt::name())));
        }
        if self.is_token_match(&Token::FunKw) {
            match self.next_function() {
                Ok(f) => {
                    proof {
                        lemma_emit_start(h0);
                        lemma_emit_chain(h0, h1, self.history(), Seq::empty(), fun_tokens(f));
                        assert(Seq::<TokenView>::empty() + fun_tokens(f) =~= fun_tokens(f));
                    }
                    Ok(Stmt::Fun(f))
                },
                Err(e) => Err(e),
            }
        } else if self.is_token_match(&Token::TypeKw) {
            let ty = match self.next_user_type() {
                Ok(t) => t,
                Err(e) => {
                    return Err(e);
                },
            };
            let ghost h2 = self.history();
            proof {
                if on {
                    self.lemma_curr_at();
                }
            }
            match self.next_eol_or_eof() {
                Ok(()) => {
                    proof {
                        lemma_emit_start(h0);
                        lemma_emit_chain(h0, h1, h2, Seq::empty(), user_ty_tokens(ty));
                        assert(Seq::<TokenView>::empty() + user_ty_tokens(ty) =~= user_ty_tokens(ty));
                    }
                    Ok(Stmt::UserTy(ty))
                },
                Err(e) => Err(e),
            }
        } else {
            let r = self.next_stmt();
            proof {
                if let Ok(ref st) = r {
                    lemma_emit_start(h0);
                    lemma_emit_chain(h0, h1, self.history(), Seq::empty(), stmt_tokens(*st));
                    assert(Seq::<TokenView>::empty() + stmt_tokens(*st) =~= stmt_tokens(*st));
                }
            }
            r
        }
    }

    /// Reads a statement.
    pub fn next_stmt(&mut self) -> (r: Result<Stmt, Error>)
        requires
            old(self).wf(),
            old(self).level() == 0,
        ensures
            final(self).advanced(old(self)),
            r is Ok ==> (old(self).is_intact() ==> final(self).is_intact()),
            r is Ok ==> final(self).measure() < old(self).measure(),
            r matches Ok(s) ==> emitted(old(self).history(), final(self).history(), stmt_tokens(s)),
            old(self).is_primed() ==> (old(self).source_tokens() matches Some(all) ==> lands(r is Ok,
                stmt_end(all, old(self).history().len() as int),
                final(self).history().len() as int)),
            old(self).is_primed() ==> (old(self).source_tokens() matches Some(all) ==> (r matches Ok(st)
                ==> stmt_shape(st) == stmt_tree(all, old(self).history().len() as int))),
        decreases old(self).measure(), 8int,
    {
        let ghost p = self.history().len() as int;
        let ghost on = self.is_primed() && self.source_tokens() is Some;
        let ghost all = match self.source_tokens() {
            Some(a) => a,
            None => Seq::<TokenView>::empty(),
        };
        proof {
            if on {
                self.lemma_curr_at();
                lemma_skip_ignored_bounds(all, p + 1);
                lemma_stmt_unfold(all, p);
                lemma_stmt_tree_unfold(all, p);
            }
        }
        let ghost h0 = self.history();
        match self.skip_whitespace() {
            Ok(()) => {},
            Err(e) => {
                return Err(e);
            },
        }
        let ghost h1 = self.history();
        let ghost q = self.history().len() as int;
        proof {
            if on {
                self.lemma_curr_at();
                lemma_skip_blanks_bounds(all, p);
                lemma_skip_ignored_bounds(all, q + 1);
            }
        }
        proof {
            lemma_emit_start(h0);
        }
        if self.curr.is_none() {
            return Err(self.err_expected_got_eof(owned(Stmt::name())));
        }
        let ghost c = self.curr;
        let stmt = if self.is_token_match(&Token::ReturnKw) {
            let begin = self.lexer.pos();
            match self.next_token_or_newline() {
                Ok(_) => {},
                Err(e) => {
                    return Err(e);
                },
            }
            let ghost h2 = self.history();
            proof {
                assert(opt_tokens(c) == seq![TokenView::ReturnKw]);
                lemma_emit_exact(h1, seq![TokenView::ReturnKw]);
                lemma_emit_chain(h0, h1, h2, Seq::empty(), seq![TokenView::ReturnKw]);
                if on {
                    self.lemma_curr_at();
                }
            }
            let value = if self.is_lookahead::<Expr>() {
                match self.next_expr() {
                    Ok(e) => {
                        proof {
                            lemma_emit_grown(h2, self.history(), expr_tokens(e));
                            lemma_emit_chain(h0, h2, self.history(), Seq::empty() + seq![TokenView::ReturnKw], expr_tokens(e));
                        }
                        Some(e)
                    },
                    Err(e) => {
                        return Err(e);
                    },
                }
            } else {
                proof {
                    lemma_emit_start(h2);
                    lemma_emit_chain(h0, h2, h2, Seq::empty() + seq![TokenView::ReturnKw], Seq::empty());
                }
                None
            };
            let ghost vt = match value {
                Some(ref e) => expr_tokens(*e),
                None => Seq::<TokenView>::empty(),
            };
            let end = self.lexer.pos();
            let st = Stmt::Return(value, Range::Src(SrcRange::new(begin, end)));
            proof {
                assert(Seq::empty() + seq![TokenView::ReturnKw] + vt =~= stmt_tokens(st));
                if on {
                    assert(stmt_end(all, p) == eol_end(all, self.history().len() as int));
                }
            }
            st
        } else if self.is_token_match(&Token::ContinueKw) {
            match self.next_token_or_newline() {
                Ok(Some(token)) => {
                    proof {
                        lemma_emit_exact(h1, seq![TokenView::ContinueKw]);
                        lemma_emit_chain(h0, h1, self.history(), Seq::empty(), seq![TokenView::ContinueKw]);
                        assert(Seq::empty() + seq![TokenView::ContinueKw] =~= seq![TokenView::ContinueKw]);
                        if on {
                            assert(stmt_end(all, p) == eol_end(all, self.history().len() as int));
                        }
                    }
                    Stmt::Continue(token.range())
                },
                Ok(None) => {
                    proof {
                        assert(false);
                    }
                    return Err(self.err_expected_got_eof(owned(Stmt::name())));
                },
                Err(e) => {
                    return Err(e);
                },
            }
        } else if self.is_token_match(&Token::BreakKw) {
            match self.next_token_or_newline() {
                Ok(Some(token)) => {
                    proof {
                        lemma_emit_exact(h1, seq![TokenView::BreakKw]);
                        lemma_emit_chain(h0, h1, self.history(), Seq::empty(), seq![TokenView::BreakKw]);
                        assert(Seq::empty() + seq![TokenView::BreakKw] =~= seq![TokenView::BreakKw]);
                        if on {
                            assert(stmt_end(all, p) == eol_end(all, self.history().len() as int));
                        }
                    }
                    Stmt::Break(token.range())
                },
                Ok(None) => {
                    proof {
                        assert(false);
                    }
                    return Err(self.err_expected_got_eof(owned(Stmt::name())));
                },
                Err(e) => {
                    return Err(e);
                },
            }
        } else if self.is_token_match(&Token::WhileKw) {
            match self.next_token() {
                Ok(_) => {},
                Err(e) => {
                    return Err(e);
                },
            }
            let ghost h2 = self.history();
            proof {
                assert(opt_tokens(c) == seq![TokenView::WhileKw]);
                lemma_emit_read(h1, h2, seq![TokenView::WhileKw]);
                lemma_emit_chain(h0, h1, h2, Seq::empty(), seq![TokenView::WhileKw]);
            }
            match self.next_condition_block() {
                Ok(cb) => {
                    proof {
                        lemma_emit_chain(h0, h2, self.history(), Seq::empty() + seq![TokenView::WhileKw], cond_tokens(cb));
                        assert(Seq::empty() + seq![TokenView::WhileKw] + cond_tokens(cb) =~= stmt_tokens(Stmt::While(cb)));
                    }
                    return Ok(Stmt::While(cb));
                },
                Err(e) => {
                    return Err(e);
                },
            }
        } else if self.is_token_match(&Token::LoopKw) {
            match self.next_token() {
                Ok(_) => {},
                Err(e) => {
                    return Err(e);
                },
            }
            let ghost h2 = self.history();
            proof {
                assert(opt_tokens(c) == seq![TokenView::LoopKw]);
                lemma_emit_read(h1, h2, seq![TokenView::LoopKw]);
                lemma_emit_chain(h0, h1, h2, Seq::empty(), seq![TokenView::LoopKw]);
            }
            match self.next_body() {
                Ok(b) => {
                    proof {
                        lemma_emit_chain(h0, h2, self.history(), Seq::empty() + seq![TokenView::LoopKw], body_tokens(b));
                        assert(Seq::empty() + seq![TokenView::LoopKw] + body_tokens(b) =~= stmt_tokens(Stmt::Loop(b)));
                    }
                    return Ok(Stmt::Loop(b));
                },
                Err(e) => {
                    return Err(e);
                },
            }
        } else if self.is_token_match(&Token::IfKw) {
            let r = self.next_if_stmt();
            proof {
                if let Ok(ref st) = r {
                    lemma_emit_chain(h0, h1, self.history(), Seq::empty(), stmt_tokens(*st));
                    assert(Seq::<TokenView>::empty() + stmt_tokens(*st) =~= stmt_tokens(*st));
                }
            }
            return r;
        } else if self.is_lookahead::<Expr>() {
            let lhs = match self.next_expr() {
                Ok(e) => e,
                Err(e) => {
                    return Err(e);
                },
            };
            let ghost h2 = self.history();
            let ghost lt = expr_tokens(lhs);
            let ghost e0 = self.history().len() as int;
            proof {
                lemma_emit_grown(h1, h2, lt);
                lemma_emit_chain(h0, h1, h2, Seq::empty(), lt);
                if on {
                    self.lemma_curr_at();
                    lemma_expr_moves(all, q, 0);
                    lemma_skip_ignored_bounds(all, e0 + 1);
                }
            }
            if self.is_curr_assign_op() {
                let op = match self.next_assign_op() {
                    Ok(op) => op,
                    Err(e) => {
                        return Err(e);
                    },
                };
                let ghost h3 = self.history();
                proof {
                    lemma_emit_read(h2, h3, seq![TokenView::AssignOp(op)]);
                    lemma_emit_chain(h0, h2, h3, Seq::empty() + lt, seq![TokenView::AssignOp(op)]);
                }
                let rhs = match self.next_expr() {
                    Ok(e) => e,
                    Err(e) => {
                        return Err(e);
                    },
                };
                proof {
                    lemma_emit_grown(h3, self.history(), expr_tokens(rhs));
                    lemma_emit_chain(h0, h3, self.history(), Seq::empty() + lt + seq![TokenView::AssignOp(op)], expr_tokens(rhs));
                    assert(Seq::empty() + lt + seq![TokenView::AssignOp(op)] + expr_tokens(rhs)
                        =~= stmt_tokens(Stmt::Assign(lhs, op, rhs)));
                    if on {
                        assert(stmt_end(all, p) == eol_end(all, self.history().len() as int));
                    }
                }
                Stmt::Assign(lhs, op, rhs)
            } else {
                proof {
                    assert(Seq::empty() + lt =~= stmt_tokens(Stmt::Expr(lhs)));
                    if on {
                        assert(stmt_end(all, p) == eol_end(all, self.history().len() as int));
                    }
                }
                Stmt::Expr(lhs)
            }
        } else {
            return Err(self.err_expected_curr(owned("statement")));
        };
        let ghost h4 = self.history();
        proof {
            if on {
                self.lemma_curr_at();
            }
        }
        match self.next_eol_or_eof() {
            Ok(()) => {
                proof {
                    assert(emitted(h0, h4, stmt_tokens(stmt)));
                }
                Ok(stmt)
            },
            Err(e) => Err(e),
        }
    }

    /// Reads an `if` statement, with its `else if` and `else` blocks.
    #[verifier::spinoff_prover]
    #[verifier::rlimit(60)]
    fn next_if_stmt(&mut self) -> (r: Result<Stmt, Error>)
        requires
            old(self).wf(),
            old(self).level() == 0,
            old(self).curr_is(TokenView::IfKw),
        ensures
            final(self).advanced(old(self)),
            r is Ok ==> (old(self).is_intact() ==> final(self).is_intact()),
            r is Ok ==> final(self).measure() < old(self).measure(),
            r matches Ok(s) ==> emitted(old(self).history(), final(self).history(), stmt_tokens(s)),
            old(self).is_primed() ==> (old(self).source_tokens() matches Some(all) ==> lands(r is Ok,
                if_end(all, old(self).history().len() as int),
                final(self).history().len() as int)),
            old(self).is_primed() ==> (old(self).source_tokens() matches Some(all) ==> (r matches Ok(st)
                ==> stmt_shape(st) == if_tree(all, old(self).history().len() as int))),
        decreases old(self).measure(), 7int,
    {
        let ghost p = self.history().len() as int;
        let ghost on = self.is_primed() && self.source_tokens() is Some;
        let ghost all = match self.source_tokens() {
            Some(a) => a,
            None => Seq::<TokenView>::empty(),
        };
        proof {
            if on {
                self.lemma_curr_at();
                lemma_skip_ignored_bounds(all, p + 1);
                lemma_if_unfold(all, p);
                lemma_if_tree_unfold(all, p);
            }
        }
        let ghost h0 = self.history();
        match self.next_token() {
            Ok(_) => {},
            Err(e) => {
                return Err(e);
            },
        }
        let ghost h1 = self.history();
        proof {
            lemma_emit_read(h0, h1, seq![TokenView::IfKw]);
        }
        let if_block = match self.next_condition_block() {
            Ok(c) => c,
            Err(e) => {
                return Err(e);
            },
        };
        let ghost head = seq![TokenView::IfKw] + cond_tokens(if_block);
        proof {
            lemma_emit_chain(h0, h1, self.history(), seq![TokenView::IfKw], cond_tokens(if_block));
            if on {
                lemma_cond_moves(all, step_past(all, p));
            }
        }
        let mut else_block: Option<Block> = None;
        let mut elseif_blocks: Vec<ConditionBlock> = Vec::new();
        proof {
            assert(head + elseifs_tokens(elseif_blocks@) =~= head);
            if on {
                let c0 = self.history().len() as int;
                assert(conds_shape(elseif_blocks@) + else_tree(all, c0).0 =~= else_tree(all, c0).0);
            }
        }
        while self.is_token_match(&Token::ElseKw)
            invariant
                self.advanced(old(self)),
                old(self).is_intact() ==> self.is_intact(),
                self.measure() < old(self).measure(),
                self.level() == 0,
                h0 == old(self).history(),
                head == seq![TokenView::IfKw] + cond_tokens(if_block),
                else_block is None,
                emitted(h0, self.history(), head + elseifs_tokens(elseif_blocks@)),
                on == (old(self).is_primed() && old(self).source_tokens() is Some),
                on ==> old(self).source_tokens() == Some(all),
                p == old(self).history().len(),
                on ==> if_end(all, p) == else_end(all, self.history().len() as int),
                on ==> if_tree(all, p) == StmtShape::If(cond_shape(if_block), conds_shape(elseif_blocks@)
                    + else_tree(all, self.history().len() as int).0, else_tree(all, self.history().len() as int).1),
                on ==> p < self.history().len() <= all.len(),
            decreases self.measure(),
        {
            let ghost h2 = self.history();
            let ghost done = head + elseifs_tokens(elseif_blocks@);
            let ghost x = self.history().len() as int;
            let ghost before = elseif_blocks@;
            proof {
                if on {
                    self.lemma_curr_at();
                    lemma_skip_ignored_bounds(all, x + 1);
                    lemma_else_unfold(all, x);
                    lemma_else_tree_unfold(all, x);
                }
            }
            match self.next_token() {
                Ok(_) => {},
                Err(e) => {
                    return Err(e);
                },
            }
            let ghost h3 = self.history();
            let ghost y = self.history().len() as int;
            proof {
                lemma_emit_read(h2, h3, seq![TokenView::ElseKw]);
                lemma_emit_chain(h0, h2, h3, done, seq![TokenView::ElseKw]);
                if on {
                    self.lemma_curr_at();
                    lemma_skip_ignored_bounds(all, y + 1);
                    if y < all.len() {
                        lemma_cond_moves(all, step_past(all, y));
                    }
                }
            }
            if self.is_token_match(&Token::IfKw) {
                match self.next_token() {
                    Ok(_) => {},
                    Err(e) => {
                        return Err(e);
                    },
                }
                let ghost h4 = self.history();
                proof {
                    lemma_emit_read(h3, h4, seq![TokenView::IfKw]);
                    lemma_emit_chain(h0, h3, h4, done + seq![TokenView::ElseKw], seq![TokenView::IfKw]);
                }
                match self.next_condition_block() {
                    Ok(c) => {
                        proof {
                            lemma_emit_chain(h0, h4, self.history(), done + seq![TokenView::ElseKw] + seq![TokenView::IfKw], cond_tokens(c));
                            assert(elseif_blocks@.push(c).drop_last() =~= elseif_blocks@);
                            assert(done + seq![TokenView::ElseKw] + seq![TokenView::IfKw] + cond_tokens(c)
                                =~= head + elseifs_tokens(elseif_blocks@.push(c)));
                        }
                        elseif_blocks.push(c);
                        proof {
                            if on {
                                let z = self.history().len() as int;
                                let ct = cond_tree(all, step_past(all, y));
                                assert(conds_shape(elseif_blocks@) == conds_shape(before).push(ct));
                                assert(conds_shape(before) + (seq![ct] + else_tree(all, z).0)
                                    =~= conds_shape(before).push(ct) + else_tree(all, z).0);
                            }
                        }
                    },
                    Err(e) => {
                        return Err(e);
                    },
                }
            } else {
                match self.next_body() {
                    Ok(b) => {
                        proof {
                            lemma_emit_chain(h0, h3, self.history(), done + seq![TokenView::ElseKw], body_tokens(b));
                            assert(done + seq![TokenView::ElseKw] + body_tokens(b) =~= stmt_tokens(
                                Stmt::If { if_block, elseif_blocks, else_block: Some(b) },
                            ));
                        }
                        else_block = Some(b);
                        proof {
                            assert(conds_shape(elseif_blocks@) + Seq::<CondShape>::empty()
                                =~= conds_shape(elseif_blocks@));
                        }
                    },
                    Err(e) => {
                        return Err(e);
                    },
                }
                return Ok(Stmt::If { if_block, elseif_blocks, else_block });
            }
        }
        proof {
            if on {
                self.lemma_curr_at();
                lemma_else_unfold(all, self.history().len() as int);
                lemma_else_tree_unfold(all, self.history().len() as int);
                assert(conds_shape(elseif_blocks@) + Seq::<CondShape>::empty() =~= conds_shape(elseif_blocks@));
            }
            assert(head + elseifs_tokens(elseif_blocks@) + Seq::<TokenView>::empty() =~= stmt_tokens(
                Stmt::If { if_block, elseif_blocks, else_block },
            ));
            assert(head + elseifs_tokens(elseif_blocks@) + Seq::<TokenView>::empty() =~= head + elseifs_tokens(elseif_blocks@));
        }
        Ok(Stmt::If { if_block, elseif_blocks, else_block })
    }

    /// Reads a condition followed by a block.
    pub fn next_condition_block(&mut self) -> (r: Result<ConditionBlock, Error>)
        requires
            old(self).wf(),
            old(self).level() == 0,
        ensures
            final(self).advanced(old(self)),
            r is Ok ==> (old(self).is_intact() ==> final(self).is_intact()),
            r is Ok ==> final(self).measure() < old(self).measure(),
            r matches Ok(c) ==> emitted(old(self).history(), final(self).history(), cond_tokens(c)),
            old(self).is_primed() ==> (old(self).source_tokens() matches Some(all) ==> lands(r is Ok,
                cond_end(all, old(self).history().len() as int),
                final(self).history().len() as int)),
            old(self).is_primed() ==> (old(self).source_tokens() matches Some(all) ==> (r matches Ok(c)
                ==> cond_shape(c) == cond_tree(all, old(self).history().len() as int))),
        decreases old(self).measure(), 6int,
    {
        let ghost p = self.history().len() as int;
        let ghost on = self.is_primed() && self.source_tokens() is Some;
        let ghost all = match self.source_tokens() {
            Some(a) => a,
            None => Seq::<TokenView>::empty(),
        };
        proof {
            if on {
                self.lemma_curr_at();
                lemma_skip_ignored_bounds(all, p + 1);
                lemma_cond_unfold(all, p);
                lemma_cond_tree_unfold(all, p);
            }
        }
        let ghost h0 = self.history();
        let condition = match self.next_expr() {
            Ok(e) => e,
            Err(e) => {
                return Err(e);
            },
        };
        let ghost h1 = self.history();
        let ghost ct = expr_tokens(condition);
        proof {
            lemma_emit_grown(h0, h1, ct);
            if on {
                lemma_expr_moves(all, p, 0);
            }
        }
        match self.next_body() {
            Ok(block) => {
                proof {
                    lemma_emit_chain(h0, h1, self.history(), ct, body_tokens(block));
                }
                Ok(ConditionBlock::new(condition, block))
            },
            Err(e) => Err(e),
        }
    }

    /// Reads a braced block of statements.
    pub fn next_body(&mut self) -> (r: Result<Block, Error>)
        requires
            old(self).wf(),
            old(self).level() == 0,
        ensures
            final(self).advanced(old(self)),
            r is Ok ==> (old(self).is_intact() ==> final(self).is_intact()),
            r is Ok ==> old(self).curr_is(TokenView::LBrace) && final(self).measure() < old(self).measure(),
            r matches Ok(b) ==> emitted(old(self).history(), final(self).history(), body_tokens(b)),
            old(self).is_primed() ==> (old(self).source_tokens() matches Some(all) ==> lands(r is Ok,
                body_end(all, old(self).history().len() as int),
                final(self).history().len() as int)),
            old(self).is_primed() ==> (old(self).source_tokens() matches Some(all) ==> (r matches Ok(b)
                ==> block_shape(b) == body_tree(all, old(self).history().len() as int))),
        decreases old(self).measure(), 5int,
    {
        let ghost p = self.history().len() as int;
        let ghost on = self.is_primed() && self.source_tokens() is Some;
        let ghost all = match self.source_tokens() {
            Some(a) => a,
            None => Seq::<TokenView>::empty(),
        };
        proof {
            if on {
                self.lemma_curr_at();
                lemma_skip_ignored_bounds(all, p + 1);
                lemma_body_unfold(all, p);
                lemma_body_tree_unfold(all, p);
            }
        }
        let ghost h0 = self.history();
        match self.match_token(Token::LBrace) {
            Ok(_) => {},
            Err(e) => {
                return Err(e);
            },
        }
        let ghost h1 = self.history();
        proof {
            lemma_emit_read(h0, h1, seq![TokenView::LBrace]);
        }
        let ends = [Token::RBrace];
        proof {
            assert(ends@.map_values(|t: Token| t@) =~= seq![TokenView::RBrace]);
        }
        let block = match self.next_block(&ends) {
            Ok(b) => b,
            Err(e) => {
                return Err(e);
            },
        };
        let ghost h2 = self.history();
        proof {
            lemma_emit_chain(h0, h1, h2, seq![TokenView::LBrace], stmts_tokens(block.1@));
            if on {
                self.lemma_curr_at();
            }
        }
        match self.match_token(Token::RBrace) {
            Ok(_) => {
                proof {
                    lemma_emit_read(h2, self.history(), seq![TokenView::RBrace]);
                    lemma_emit_chain(h0, h2, self.history(), seq![TokenView::LBrace] + stmts_tokens(block.1@), seq![TokenView::RBrace]);
                }
                Ok(block)
            },
            Err(e) => Err(e),
        }
    }

    /// Reads one parameter of a function: a variable, an optional type and, where one is given
    /// or `defaults` tells that one was given before, a default value. Returns the parameter and
    /// whether a default value has now been given.
    #[verifier::spinoff_prover]
    #[verifier::rlimit(60)]
    fn next_param(&mut self, defaults: bool) -> (r: Result<(FunParam, bool), Error>)
        requires
            old(self).wf(),
            old(self).level() == 0,
        ensures
            final(self).advanced(old(self)),
            r is Ok ==> (old(self).is_intact() ==> final(self).is_intact()),
            r is Ok ==> final(self).measure() < old(self).measure(),
            r matches Ok((param, given)) ==> emitted(old(self).history(), final(self).history(), param_tokens(param)),
            old(self).is_primed() ==> (old(self).source_tokens() matches Some(all) ==> match param_end(all,
                old(self).history().len() as int, defaults) {
                None => r is Err,
                Some((d, g)) => r matches Ok((_, given)) && given == g && final(self).history().len() == d,
            }),
            old(self).is_primed() ==> (old(self).source_tokens() matches Some(all) ==> (r matches Ok((param, _))
                ==> param_shape(param) == param_tree(all, old(self).history().len() as int, defaults))),
    {
        let ghost p = self.history().len() as int;
        let ghost on = self.is_primed() && self.source_tokens() is Some;
        let ghost all = match self.source_tokens() {
            Some(a) => a,
            None => Seq::<TokenView>::empty(),
        };
        let mut defaults = defaults;
        let ghost defaults0 = defaults;
        let ghost hp = self.history();
        let ghost x = p;
        proof {
            reveal(param_end);
            if on {
                self.lemma_curr_at();
                lemma_skip_ignored_bounds(all, x + 1);
                lemma_annotation_moves(all, step_past(all, x));
            }
        }
        let param_begin = self.lexer.pos();
        let param_name = match self.next_variable() {
            Ok(n) => n,
            Err(e) => {
                return Err(e);
            },
        };
        let ghost ha = self.history();
        let ghost a = self.history().len() as int;
        proof {
            lemma_emit_read(hp, ha, seq![TokenView::Variable(param_name@)]);
            if on {
                self.lemma_curr_at();
                lemma_skip_ignored_bounds(all, a + 1);
                lemma_skip_ignored_bounds(all, step_past(all, a) + 1);
            }
        }
        let mut ty: Option<String> = None;
        let mut default: Option<Expr> = None;
        if self.is_token_match(&Token::Colon) {
            match self.match_token(Token::Colon) {
                Ok(_) => {},
                Err(e) => {
                    return Err(e);
                },
            }
            let ghost hc = self.history();
            proof {
                lemma_emit_read(ha, hc, seq![TokenView::Colon]);
                if on {
                    self.lemma_curr_at();
                }
            }
            match self.next_bareword() {
                Ok(t) => {
                    proof {
                        lemma_emit_read(hc, self.history(), seq![TokenView::Bareword(t@)]);
                        lemma_emit_chain(ha, hc, self.history(), seq![TokenView::Colon], seq![TokenView::Bareword(t@)]);
                    }
                    ty = Some(t);
                },
                Err(e) => {
                    return Err(e);
                },
            }
        } else {
            proof {
                lemma_emit_start(ha);
            }
        }
        let ghost hb = self.history();
        let ghost b = self.history().len() as int;
        proof {
            assert(seq![TokenView::Colon] + seq![TokenView::Bareword(ty.unwrap()@)] =~= annotation_tokens(ty) || ty is None);
            assert(emitted(ha, hb, annotation_tokens(ty)));
            if on {
                self.lemma_curr_at();
                assert(annotation_end(all, a) == Some(b));
                lemma_skip_ignored_bounds(all, b + 1);
                lemma_expr_moves(all, step_past(all, b), 0);
            }
        }
        if defaults || self.is_token_match(&Token::AssignOp(AssignOp::Equals)) {
            defaults = true;
            match self.match_token(Token::AssignOp(AssignOp::Equals)) {
                Ok(_) => {},
                Err(e) => {
                    return Err(e);
                },
            }
            let ghost he = self.history();
            proof {
                lemma_emit_read(hb, he, seq![TokenView::AssignOp(AssignOp::Equals)]);
                if on {
                    self.lemma_curr_at();
                }
            }
            match self.next_expr() {
                Ok(e) => {
                    proof {
                        lemma_emit_grown(he, self.history(), expr_tokens(e));
                        lemma_emit_chain(hb, he, self.history(), seq![TokenView::AssignOp(AssignOp::Equals)], expr_tokens(e));
                    }
                    default = Some(e);
                },
                Err(e) => {
                    return Err(e);
                },
            }
        } else {
            proof {
                lemma_emit_start(hb);
            }
        }
        let ghost dt = match default {
            Some(ref d) => seq![TokenView::AssignOp(AssignOp::Equals)] + expr_tokens(*d),
            None => Seq::<TokenView>::empty(),
        };
        let ghost hd = self.history();
        let ghost d = self.history().len() as int;
        proof {
            assert(emitted(hb, hd, dt));
            if on {
                self.lemma_curr_at();
                lemma_skip_ignored_bounds(all, d + 1);
            }
            lemma_emit_chain(hp, ha, hb, seq![TokenView::Variable(param_name@)], annotation_tokens(ty));
            lemma_emit_chain(hp, hb, hd, seq![TokenView::Variable(param_name@)] + annotation_tokens(ty), dt);
        }
        let param_end = self.lexer.pos();
        let range = Range::Src(SrcRange::new(param_begin, param_end));
        let param = FunParam::new(param_name, ty, default, range);
        proof {
            assert(seq![TokenView::Variable(param.name@)] + annotation_tokens(param.ty) + dt =~= param_tokens(param));
        }
        proof {
            assert(emitted(hp, self.history(), param_tokens(param)));
        }
        Ok((param, defaults))
    }

    /// Reads a function definition.
    #[verifier::spinoff_prover]
    #[verifier::rlimit(100)]
    pub fn next_function(&mut self) -> (r: Result<Fun, Error>)
        requires
            old(self).wf(),
            old(self).level() == 0,
        ensures
            final(self).advanced(old(self)),
            r is Ok ==> (old(self).is_intact() ==> final(self).is_intact()),
            r is Ok ==> old(self).curr_is(TokenView::FunKw) && final(self).measure() < old(self).measure(),
            r matches Ok(f) ==> emitted(old(self).history(), final(self).history(), fun_tokens(f)),
            old(self).is_primed() ==> (old(self).source_tokens() matches Some(all) ==> lands(r is Ok,
                function_end(all, old(self).history().len() as int),
                final(self).history().len() as int)),
            old(self).is_primed() ==> (old(self).source_tokens() matches Some(all) ==> (r matches Ok(f)
                ==> fun_shape(f) == function_tree(all, old(self).history().len() as int))),
        decreases old(self).measure(), 8int,
    {
        let ghost p = self.history().len() as int;
        let ghost on = self.is_primed() && self.source_tokens() is Some;
        let ghost all = match self.source_tokens() {
            Some(a) => a,
            None => Seq::<TokenView>::empty(),
        };
        proof {
            if on {
                self.lemma_curr_at();
                lemma_skip_ignored_bounds(all, p + 1);
                lemma_function_unfold(all, p);
            }
        }
        let begin = self.lexer.pos();
        let ghost h0 = self.history();
        match self.match_token(Token::FunKw) {
            Ok(_) => {},
            Err(e) => {
                return Err(e);
            },
        }
        let ghost h1 = self.history();
        let ghost n = self.history().len() as int;
        proof {
            lemma_emit_read(h0, h1, seq![TokenView::FunKw]);
            if on {
                self.lemma_curr_at();
                lemma_skip_ignored_bounds(all, n + 1);
            }
        }
        let name = match self.next_bareword() {
            Ok(n) => n,
            Err(e) => {
                return Err(e);
            },
        };
        let ghost h2 = self.history();
        let ghost l = self.history().len() as int;
        proof {
            lemma_emit_read(h1, h2, seq![TokenView::Bareword(name@)]);
            lemma_emit_chain(h0, h1, h2, seq![TokenView::FunKw], seq![TokenView::Bareword(name@)]);
            if on {
                self.lemma_curr_at();
                lemma_skip_ignored_bounds(all, l + 1);
            }
        }
        let mut params: Vec<FunParam> = Vec::new();
        let mut return_ty: Option<String> = None;
        let mut defaults = false;
        match self.match_token(Token::LParen) {
            Ok(_) => {},
            Err(e) => {
                return Err(e);
            },
        }
        let ghost head = seq![TokenView::FunKw, TokenView::Bareword(name@), TokenView::LParen];
        proof {
            lemma_emit_read(h2, self.history(), seq![TokenView::LParen]);
            lemma_emit_chain(h0, h2, self.history(), seq![TokenView::FunKw] + seq![TokenView::Bareword(name@)], seq![TokenView::LParen]);
            assert(seq![TokenView::FunKw] + seq![TokenView::Bareword(name@)] + seq![TokenView::LParen] =~= head);
            assert(head + params_tokens(params@) =~= head);
        }
        let ghost l1 = self.history().len() as int;
        proof {
            assert(params_shape(params@) + params_trees(all, l1, false) =~= params_trees(all, l1, false));
        }
        proof {
            if on {
                self.lemma_curr_at();
                assert(function_end(all, p) == match params_end(all, l1, false) {
                    None => None,
                    Some(r) => if tok_at(all, r) == Some(TokenView::RParen) && moved(all, p, r) {
                        match annotation_end(all, step_past(all, r)) {
                            None => None,
                            Some(b) => body_end(all, b),
                        }
                    } else {
                        None
                    },
                });
            }
        }
        while !self.is_token_match(&Token::RParen)
            invariant
                self.advanced(old(self)),
                old(self).is_intact() ==> self.is_intact(),
                self.measure() < old(self).measure(),
                h0 == old(self).history(),
                head == seq![TokenView::FunKw, TokenView::Bareword(name@), TokenView::LParen],
                emitted(h0, self.history(), head + params_tokens(params@)),
                self.level() == 0,
                on == (old(self).is_primed() && old(self).source_tokens() is Some),
                on ==> old(self).source_tokens() == Some(all),
                p == old(self).history().len(),
                on ==> params_end(all, l1, false) == params_end(all, self.history().len() as int, defaults),
                on ==> (params_end(all, l1, false) is None ==> function_end(all, p) is None),
                on ==> params_trees(all, l1, false) == params_shape(params@) + params_trees(all,
                    self.history().len() as int, defaults),
                on ==> p < l1 <= self.history().len() <= all.len(),
            decreases self.measure(),
        {
            let ghost hp = self.history();
            let ghost done = head + params_tokens(params@);
            let ghost x = self.history().len() as int;
            let ghost before = params@;
            proof {
                if on {
                    lemma_params_unfold(all, x, defaults);
                    lemma_params_trees_unfold(all, x, defaults);
                    self.lemma_curr_at();
                }
            }
            let ghost defaults0 = defaults;
            let (param, given) = match self.next_param(defaults) {
                Ok(pg) => pg,
                Err(e) => {
                    return Err(e);
                },
            };
            defaults = given;
            let ghost d = self.history().len() as int;
            proof {
                if on {
                    self.lemma_curr_at();
                    lemma_param_moves(all, x, defaults0);
                    lemma_skip_ignored_bounds(all, d + 1);
                    lemma_params_unfold(all, d, defaults);
                }
                lemma_emit_chain(h0, hp, self.history(), done, param_tokens(param));
                assert(params@.push(param).drop_last() =~= params@);
                assert(done + param_tokens(param) =~= head + params_tokens(params@.push(param)));
            }
            params.push(param);
            if !self.is_token_match(&Token::RParen) {
                let ghost hx = self.history();
                match self.match_token(Token::Comma) {
                    Ok(_) => {
                        proof {
                            lemma_emit_layout(hx, self.history(), TokenView::Comma);
                            lemma_emit_chain(h0, hx, self.history(), head + params_tokens(params@), Seq::empty());
                            assert(head + params_tokens(params@) + Seq::<TokenView>::empty() =~= head + params_tokens(params@));
                        }
                    },
                    Err(e) => {
                        return Err(e);
                    },
                }
            }
            proof {
                if on {
                    let z = self.history().len() as int;
                    let pt: ParamShape = param_tree(all, x, defaults0);
                    lemma_params_trees_unfold(all, z, defaults);
                    assert(params_trees(all, x, defaults0) == seq![pt] + params_trees(all, z, defaults));
                    assert(params_shape(params@) == params_shape(before).push(pt));
                    assert(params_shape(before) + (seq![pt] + params_trees(all, z, defaults))
                        =~= params_shape(params@) + params_trees(all, z, defaults));
                }
            }
        }
        let ghost h3 = self.history();
        let ghost r3 = self.history().len() as int;
        proof {
            if on {
                lemma_params_trees_unfold(all, r3, defaults);
                assert(params_shape(params@) + Seq::<ParamShape>::empty() =~= params_shape(params@));
                lemma_params_unfold(all, r3, defaults);
                self.lemma_curr_at();
                lemma_skip_ignored_bounds(all, r3 + 1);
                lemma_skip_ignored_bounds(all, step_past(all, r3) + 1);
            }
        }
        match self.match_token(Token::RParen) {
            Ok(_) => {},
            Err(e) => {
                return Err(e);
            },
        }
        let ghost h4 = self.history();
        let ghost a4 = self.history().len() as int;
        proof {
            lemma_emit_read(h3, h4, seq![TokenView::RParen]);
            lemma_emit_chain(h0, h3, h4, head + params_tokens(params@), seq![TokenView::RParen]);
            if on {
                self.lemma_curr_at();
                lemma_skip_ignored_bounds(all, a4 + 1);
            }
        }
        if self.is_token_match(&Token::Colon) {
            match self.next_token() {
                Ok(_) => {},
                Err(e) => {
                    return Err(e);
                },
            }
            let ghost h5 = self.history();
            proof {
                lemma_emit_read(h4, h5, seq![TokenView::Colon]);
                if on {
                    self.lemma_curr_at();
                }
            }
            match self.next_bareword() {
                Ok(t) => {
                    proof {
                        lemma_emit_read(h5, self.history(), seq![TokenView::Bareword(t@)]);
                        lemma_emit_chain(h4, h5, self.history(), seq![TokenView::Colon], seq![TokenView::Bareword(t@)]);
                    }
                    return_ty = Some(t);
                },
                Err(e) => {
                    return Err(e);
                },
            }
        } else {
            proof {
                lemma_emit_start(h4);
            }
        }
        let ghost h6 = self.history();
        proof {
            assert(seq![TokenView::Colon] + seq![TokenView::Bareword(return_ty.unwrap()@)] =~= annotation_tokens(return_ty)
                || return_ty is None);
            assert(emitted(h4, h6, annotation_tokens(return_ty)));
            lemma_emit_chain(h0, h4, h6, head + params_tokens(params@) + seq![TokenView::RParen], annotation_tokens(return_ty));
            if on {
                self.lemma_curr_at();
                assert(annotation_end(all, a4) == Some(self.history().len() as int));
            }
        }
        let ghost b6 = self.history().len() as int;
        let body = match self.next_body() {
            Ok(b) => b,
            Err(e) => {
                return Err(e);
            },
        };
        let end = self.lexer.pos();
        let range = Range::Src(SrcRange::new(begin, end));
        let f = Fun { name, params, return_ty, body, range };
        proof {
            if on {
                lemma_function_tree_parts(all, p, r3, b6);
            }
            lemma_emit_chain(h0, h6, self.history(),
                head + params_tokens(f.params@) + seq![TokenView::RParen] + annotation_tokens(f.return_ty), body_tokens(f.body));
            assert(head + params_tokens(f.params@) + seq![TokenView::RParen] + annotation_tokens(f.return_ty) + body_tokens(f.body)
                =~= fun_tokens(f));
        }
        Ok(f)
    }

    /// Reads a type definition: a name, its parents, and its functions.
    #[verifier::spinoff_prover]
    #[verifier::rlimit(100)]
    pub fn next_user_type(&mut self) -> (r: Result<UserTy, Error>)
        requires
            old(self).wf(),
            old(self).level() == 0,
        ensures
            final(self).advanced(old(self)),
            r is Ok ==> (old(self).is_intact() ==> final(self).is_intact()),
            r is Ok ==> old(self).curr_is(TokenView::TypeKw) && final(self).measure() < old(self).measure(),
            r matches Ok(u) ==> emitted(old(self).history(), final(self).history(), user_ty_tokens(u)),
            old(self).is_primed() ==> (old(self).source_tokens() matches Some(all) ==> lands(r is Ok,
                user_type_end(all, old(self).history().len() as int),
                final(self).history().len() as int)),
            old(self).is_primed() ==> (old(self).source_tokens() matches Some(all) ==> (r matches Ok(u)
                ==> user_ty_shape(u) == user_type_tree(all, old(self).history().len() as int))),
        decreases old(self).measure(), 8int,
    {
        let ghost p = self.history().len() as int;
        let ghost on = self.is_primed() && self.source_tokens() is Some;
        let ghost all = match self.source_tokens() {
            Some(a) => a,
            None => Seq::<TokenView>::empty(),
        };
        proof {
            if on {
                self.lemma_curr_at();
                lemma_skip_ignored_bounds(all, p + 1);
                lemma_user_type_unfold(all, p);
            }
        }
        let begin = self.lexer.pos();
        let ghost h0 = self.history();
        match self.match_token(Token::TypeKw) {
            Ok(_) => {},
            Err(e) => {
                return Err(e);
            },
        }
        let ghost h1 = self.history();
        let ghost n = self.history().len() as int;
        proof {
            lemma_emit_read(h0, h1, seq![TokenView::TypeKw]);
            if on {
                self.lemma_curr_at();
                lemma_skip_ignored_bounds(all, n + 1);
            }
        }
        let name = match self.next_bareword() {
            Ok(n) => n,
            Err(e) => {
                return Err(e);
            },
        };
        let ghost h2 = self.history();
        let ghost named = seq![TokenView::TypeKw, TokenView::Bareword(name@)];
        proof {
            lemma_emit_read(h1, h2, seq![TokenView::Bareword(name@)]);
            lemma_emit_chain(h0, h1, h2, seq![TokenView::TypeKw], seq![TokenView::Bareword(name@)]);
            assert(seq![TokenView::TypeKw] + seq![TokenView::Bareword(name@)] =~= named);
        }
        let ghost h = self.history().len() as int;
        let ghost c = step_past(all, h);
        proof {
            if on {
                self.lemma_curr_at();
                lemma_skip_ignored_bounds(all, h + 1);
                lemma_skip_ignored_bounds(all, c + 1);
            }
        }
        let mut parents: Vec<String> = Vec::new();
        if self.is_token_match(&Token::Colon) {
            match self.next_token() {
                Ok(_) => {},
                Err(e) => {
                    return Err(e);
                },
            }
            let ghost h3 = self.history();
            proof {
                lemma_emit_read(h2, h3, seq![TokenView::Colon]);
                lemma_emit_chain(h0, h2, h3, named, seq![TokenView::Colon]);
                if on {
                    self.lemma_curr_at();
                }
            }
            match self.next_bareword() {
                Ok(p) => {
                    proof {
                        lemma_emit_read(h3, self.history(), seq![TokenView::Bareword(p@)]);
                        lemma_emit_chain(h0, h3, self.history(), named + seq![TokenView::Colon], seq![TokenView::Bareword(p@)]);
                        assert(parents@.push(p).drop_last() =~= parents@);
                        assert(parents_tokens(parents@) =~= Seq::<TokenView>::empty());
                        assert(named + seq![TokenView::Colon] + seq![TokenView::Bareword(p@)]
                            =~= named + seq![TokenView::Colon] + parents_tokens(parents@.push(p)));
                    }
                    parents.push(p);
                    proof {
                        if on {
                            let z = self.history().len() as int;
                            assert(parents@.drop_last() =~= Seq::<String>::empty());
                            assert(texts(parents@.drop_last()) =~= Seq::<Seq<char>>::empty());
                            assert(texts(parents@) =~= seq![name_text(tok_at(all, c))]);
                            assert(texts(parents@) + parents_names(all, z)
                                =~= seq![name_text(tok_at(all, c))] + parents_names(all, step_past(all, c)));
                        }
                    }
                },
                Err(e) => {
                    return Err(e);
                },
            }
            while self.is_token_match(&Token::Comma)
                invariant
                    self.advanced(old(self)),
                    old(self).is_intact() ==> self.is_intact(),
                    self.measure() < old(self).measure(),
                    h0 == old(self).history(),
                    named == seq![TokenView::TypeKw, TokenView::Bareword(name@)],
                    parents@.len() > 0,
                    emitted(h0, self.history(), named + seq![TokenView::Colon] + parents_tokens(parents@)),
                on == (old(self).is_primed() && old(self).source_tokens() is Some),
                on ==> old(self).source_tokens() == Some(all),
                p == old(self).history().len(),
                    on ==> tok_at(all, h) == Some(TokenView::Colon),
                    on ==> tok_at(all, c) matches Some(TokenView::Bareword(_)),
                    c == step_past(all, h),
                    on ==> parents_end(all, step_past(all, c)) == parents_end(all, self.history().len() as int),
                    on ==> (parents_end(all, step_past(all, c)) is None ==> user_type_end(all, p) is None),
                    on ==> seq![name_text(tok_at(all, c))] + parents_names(all, step_past(all, c))
                        == texts(parents@) + parents_names(all, self.history().len() as int),
                    on ==> p < self.history().len() <= all.len(),
                decreases self.measure(),
            {
                let ghost h4 = self.history();
                let ghost done = named + seq![TokenView::Colon] + parents_tokens(parents@);
                let ghost x = self.history().len() as int;
                let ghost before = parents@;
                proof {
                    if on {
                        lemma_parents_unfold(all, x);
                        lemma_parents_names_unfold(all, x);
                        self.lemma_curr_at();
                        lemma_skip_ignored_bounds(all, x + 1);
                        lemma_skip_ignored_bounds(all, step_past(all, x) + 1);
                    }
                }
                match self.next_token() {
                    Ok(_) => {},
                    Err(e) => {
                        return Err(e);
                    },
                }
                let ghost h5 = self.history();
                proof {
                    lemma_emit_layout(h4, h5, TokenView::Comma);
                    if on {
                        self.lemma_curr_at();
                    }
                }
                match self.next_bareword() {
                    Ok(p) => {
                        proof {
                            lemma_emit_read(h5, self.history(), seq![TokenView::Bareword(p@)]);
                            lemma_emit_start(h4);
                            lemma_emit_chain(h0, h4, h5, done, Seq::empty());
                            assert(done + Seq::<TokenView>::empty() =~= done);
                            lemma_emit_chain(h0, h5, self.history(), done, seq![TokenView::Bareword(p@)]);
                            assert(parents@.push(p).drop_last() =~= parents@);
                            assert(done + seq![TokenView::Bareword(p@)]
                                =~= named + seq![TokenView::Colon] + parents_tokens(parents@.push(p)));
                        }
                        parents.push(p);
                        proof {
                            if on {
                                let z = self.history().len() as int;
                                let nt = name_text(tok_at(all, step_past(all, x)));
                                assert(texts(parents@) == texts(before).push(nt));
                                assert(texts(before) + (seq![nt] + parents_names(all, z))
                                    =~= texts(parents@) + parents_names(all, z));
                            }
                        }
                    },
                    Err(e) => {
                        return Err(e);
                    },
                }
            }
        }
        let ghost head = named + (if parents@.len() > 0 {
            seq![TokenView::Colon] + parents_tokens(parents@)
        } else {
            Seq::<TokenView>::empty()
        });
        let ghost h6 = self.history();
        let ghost g = self.history().len() as int;
        proof {
            if on {
                lemma_parents_unfold(all, self.history().len() as int);
                lemma_parents_names_unfold(all, self.history().len() as int);
                assert(texts(parents@) + Seq::<Seq<char>>::empty() =~= texts(parents@));
            }
            if parents@.len() == 0 {
                assert(named + Seq::<TokenView>::empty() =~= named);
            } else {
                assert(named + seq![TokenView::Colon] + parents_tokens(parents@) =~= head);
            }
            assert(emitted(h0, h6, head));
            if on {
                self.lemma_curr_at();
                lemma_skip_ignored_bounds(all, g + 1);
                assert(user_type_end(all, p) == if tok_at(all, g) == Some(TokenView::LBrace) && moved(all, p, g) {
                    match funs_end(all, step_past(all, g)) {
                        None => None,
                        Some(f) => if tok_at(all, f) == Some(TokenView::RBrace) {
                            Some(f + 1)
                        } else {
                            None
                        },
                    }
                } else {
                    None
                });
            }
        }
        match self.match_token(Token::LBrace) {
            Ok(_) => {},
            Err(e) => {
                return Err(e);
            },
        }
        proof {
            lemma_emit_read(h6, self.history(), seq![TokenView::LBrace]);
            lemma_emit_chain(h0, h6, self.history(), head, seq![TokenView::LBrace]);
        }
        let mut functions: Vec<Fun> = Vec::new();
        let ghost f0 = self.history().len() as int;
        proof {
            assert(head + seq![TokenView::LBrace] + funs_tokens(functions@) =~= head + seq![TokenView::LBrace]);
            assert(funs_shape(functions@) + funs_trees(all, f0) =~= funs_trees(all, f0));
        }
        while self.is_lookahead::<Fun>()
            invariant
                self.advanced(old(self)),
                old(self).is_intact() ==> self.is_intact(),
                self.measure() < old(self).measure(),
                self.level() == 0,
                h0 == old(self).history(),
                emitted(h0, self.history(), head + seq![TokenView::LBrace] + funs_tokens(functions@)),
                on == (old(self).is_primed() && old(self).source_tokens() is Some),
                on ==> old(self).source_tokens() == Some(all),
                p == old(self).history().len(),
                on ==> funs_end(all, f0) == funs_end(all, self.history().len() as int),
                on ==> (funs_end(all, f0) is None ==> user_type_end(all, p) is None),
                on ==> funs_trees(all, f0) == funs_shape(functions@) + funs_trees(all, self.history().len() as int),
                on ==> p < self.history().len() <= all.len(),
            decreases self.measure(),
        {
            let ghost m0 = self.measure();
            let ghost h7 = self.history();
            let ghost x = self.history().len() as int;
            let ghost before = functions@;
            proof {
                if on {
                    self.lemma_curr_at();
                    lemma_function_moves(all, x);
                    lemma_funs_unfold(all, x);
                    lemma_funs_trees_unfold(all, x);
                }
            }
            let ghost done = head + seq![TokenView::LBrace] + funs_tokens(functions@);
            match self.next_function() {
                Ok(f) => {
                    proof {
                        lemma_emit_chain(h0, h7, self.history(), done, fun_tokens(f));
                        assert(functions@.push(f).drop_last() =~= functions@);
                        assert(done + fun_tokens(f) =~= head + seq![TokenView::LBrace] + funs_tokens(functions@.push(f)));
                    }
                    functions.push(f);
                },
                Err(e) => {
                    return Err(e);
                },
            }
            let ghost fx = self.history().len() as int;
            proof {
                if on {
                    let ft = function_tree(all, x);
                    assert(funs_shape(functions@) == funs_shape(before).push(ft));
                    assert(funs_shape(before) + (seq![ft] + funs_trees(all, skip_comments(all, fx)))
                        =~= funs_shape(functions@) + funs_trees(all, skip_comments(all, fx)));
                }
            }
            while self.is_token_match(&Token::Comment)
                invariant
                    self.advanced(old(self)),
                    old(self).is_intact() ==> self.is_intact(),
                    self.measure() < m0,
                    self.level() == 0,
                    h0 == old(self).history(),
                    emitted(h0, self.history(), head + seq![TokenView::LBrace] + funs_tokens(functions@)),
                on == (old(self).is_primed() && old(self).source_tokens() is Some),
                on ==> old(self).source_tokens() == Some(all),
                p == old(self).history().len(),
                    on ==> funs_end(all, f0) == funs_end(all, skip_comments(all, fx)),
                    on ==> (funs_end(all, f0) is None ==> user_type_end(all, p) is None),
                    on ==> skip_comments(all, fx) == skip_comments(all, self.history().len() as int),
                    on ==> funs_trees(all, f0) == funs_shape(functions@) + funs_trees(all, skip_comments(all, fx)),
                    on ==> p < self.history().len() <= all.len(),
                decreases self.measure(),
            {
                let ghost h8 = self.history();
                proof {
                    if on {
                        self.lemma_curr_at();
                    }
                }
                match self.next_token() {
                    Ok(_) => {
                        proof {
                            lemma_emit_layout(h8, self.history(), TokenView::Comment);
                            lemma_emit_chain(h0, h8, self.history(), head + seq![TokenView::LBrace] + funs_tokens(functions@), Seq::empty());
                            assert(head + seq![TokenView::LBrace] + funs_tokens(functions@) + Seq::<TokenView>::empty()
                                =~= head + seq![TokenView::LBrace] + funs_tokens(functions@));
                        }
                    },
                    Err(e) => {
                        return Err(e);
                    },
                }
            }
        }
        let ghost h9 = self.history();
        proof {
            if on {
                self.lemma_curr_at();
                lemma_funs_unfold(all, self.history().len() as int);
                lemma_funs_trees_unfold(all, self.history().len() as int);
                assert(funs_shape(functions@) + Seq::<FunShape>::empty() =~= funs_shape(functions@));
            }
        }
        match self.match_token_preserve_newline(Token::RBrace) {
            Ok(_) => {},
            Err(e) => {
                return Err(e);
            },
        }
        proof {
            lemma_emit_exact(h9, seq![TokenView::RBrace]);
            lemma_emit_chain(h0, h9, self.history(), head + seq![TokenView::LBrace] + funs_tokens(functions@), seq![TokenView::RBrace]);
        }
        let end = self.lexer.pos();
        let range = Range::Src(SrcRange::new(begin, end));
        let u = UserTy { name, parents, functions, range };
        proof {
            if on {
                assert(user_ty_shape(u) == user_type_tree(all, p)) by {
                    lemma_user_type_tree_unfold(all, p);
                }
            }
            assert(head + seq![TokenView::LBrace] + funs_tokens(u.functions@) + seq![TokenView::RBrace] =~= user_ty_tokens(u));
        }
        Ok(u)
    }

    /// An error: `expected` was expected, and `got` was found (`None`: the end of the text).
    pub fn err_expected_got(&self, expected: String, got: Option<&RangedToken>) -> (r: Error)
        requires
            self.wf(),
        ensures
            r.kind@ == ErrorKindView::ExpectedGot(expected@, got_text(got)),
            r.pos == self.lexer_pos(),
    {
        let got = match got {
            Some(t) => t.token().to_string(),
            None => owned("EOF"),
        };
        proof {
            reveal_strlit("EOF");
        }
        Error::new(self.lexer.pos(), ErrorKind::ExpectedGot(expected, got))
    }

    /// An error: `expected` was expected, and the text ended.
    pub fn err_expected_got_eof(&self, expected: String) -> (r: Error)
        requires
            self.wf(),
        ensures
            r.kind@ == ErrorKindView::ExpectedGot(expected@, "EOF"@),
            r.pos == self.lexer_pos(),
    {
        self.err_expected_got(expected, None)
    }
}

/// The operator levels of a queue, by their views.
pub open spec fn op_levels(q: Seq<Vec<Op>>) -> Seq<Seq<OpView>> {
    q.map_values(|v: Vec<Op>| v@.map_values(|o: Op| o@))
}

/// An operator is in a level of a queue exactly where its view is in that level's views.
proof fn lemma_ops_have_levels(q: Seq<Vec<Op>>, k: int, o: OpView)
    requires
        0 <= k < q.len(),
    ensures
        ops_have(q[k]@, o) == op_levels(q)[k].contains(o),
{
    let s = op_levels(q)[k];
    assert(s == q[k]@.map_values(|x: Op| x@));
    if ops_have(q[k]@, o) {
        let i = choose|i: int| 0 <= i < q[k]@.len() && (#[trigger] q[k]@[i])@ == o;
        assert(s[i] == o);
    }
    if s.contains(o) {
        let i = choose|i: int| 0 <= i < s.len() && s[i] == o;
        assert(q[k]@[i]@ == o);
    }
}

/// Whether `ops` holds `op`.
pub open spec fn ops_have(ops: Seq<Op>, op: OpView) -> bool {
    exists|i: int| 0 <= i < ops.len() && (#[trigger] ops[i])@ == op
}

/// Whether the operators hold `op`.
fn ops_contain(ops: &Vec<Op>, op: &Op) -> (r: bool)
    ensures
        r == ops_have(ops@, op@),
{
    let n = ops.len();
    for i in 0..n
        invariant
            n == ops@.len(),
            forall|k: int| 0 <= k < i ==> (#[trigger] ops@[k])@ != op@,
    {
        if ops[i] == *op {
            return true;
        }
    }
    false
}

/// How a found token is named in an error; the end of the text reads `EOF`.
pub open spec fn got_text(got: Option<&RangedToken>) -> Seq<char> {
    match got {
        Some(t) => display_text(t.1@),
        None => "EOF"@,
    }
}

/// How the token under the parser is named in an error; the end of the text reads `EOF`.
pub open spec fn curr_text(curr: Option<RangedToken>) -> Seq<char> {
    match curr {
        Some(t) => display_text(t.1@),
        None => "EOF"@,
    }
}

} // verus!
