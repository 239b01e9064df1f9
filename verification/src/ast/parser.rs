//! The Terebinth parser: a recursive descent over the tokens of a program
//! that builds its syntax tree in an [`Ast`].

use vstd::prelude::*;

use crate::diagnostics::{DiagnosticsList, Report, diagnostic_models, lemma_diagnostic_models_push};
use super::lexer::{Token, TokenKind};
use super::syntax::{
    Syn, SynStmt, SynItem, adv, arena_extends, check,
    lemma_syn_expr_stable, lemma_syn_stmt_full_stable, lemma_syn_item_stable,
    p_args, p_assign, p_binary, p_binrec, p_block, p_block_stmts, p_branch, p_call, p_else, p_expr, p_expr_stmt,
    p_func, p_if, p_inner, p_item, p_items, p_let, p_param_list, p_params, p_primary, p_ret, p_return, p_stmt,
    p_unary, p_while, rem, syn_expr, syn_item, syn_stmt_full, tok,
};
use super::{
    Ast, BinaryOperator, BinaryOperatorAssociativity, BinaryOperatorKind, ElseBranch, ExprId,
    FuncDeclParameter, FunctionReturnType, ItemId, ItemKind, StaticTypeAnnotation, StmtId,
    UnaryOperator, UnaryOperatorKind, associativity_of, precedence_of,
};

verus! {

/// A counter that only counts up.
#[derive(Debug, Clone)]
pub struct Counter {
    value: usize,
}

impl Counter {
    /// The current count.
    pub closed spec fn value(&self) -> nat {
        self.value as nat
    }

    pub fn new() -> (r: Self)
        ensures
            r.value() == 0,
    {
        Self { value: 0 }
    }

    pub fn increment(&mut self)
        requires
            old(self).value() < usize::MAX,
        ensures
            final(self).value() == old(self).value() + 1,
    {
        self.value = self.value + 1;
    }

    pub fn get_value(&self) -> (r: usize)
        ensures
            r == self.value(),
    {
        self.value
    }
}

/// The tokens of `tokens` that are not whitespace, in order.
pub open spec fn non_whitespace(tokens: Seq<Token>) -> Seq<Token>
    decreases tokens.len(),
{
    if tokens.len() == 0 {
        Seq::empty()
    } else if tokens.last().kind == TokenKind::Whitespace {
        non_whitespace(tokens.drop_last())
    } else {
        non_whitespace(tokens.drop_last()).push(tokens.last())
    }
}

/// A token sequence as the lexer ends it: one end-of-file token, at the end.
pub open spec fn ends_with_eof(tokens: Seq<Token>) -> bool {
    &&& tokens.len() > 0
    &&& tokens.last().kind == TokenKind::Eof
    &&& forall|i: int| 0 <= i < tokens.len() - 1 ==> (#[trigger] tokens[i]).kind != TokenKind::Eof
}

/// In a token sequence that the lexer ended, a token other than the end-of-file
/// token lies before the last position.
pub proof fn lemma_tok_not_eof(ts: Seq<Token>, q: nat)
    requires
        ends_with_eof(ts),
        tok(ts, q).kind != TokenKind::Eof,
    ensures
        q < ts.len() - 1,
{
    if q >= ts.len() - 1 {
        assert(tok(ts, q) == ts.last());
    }
}

/// The binary operator that a token of kind `kind` stands for, if any.
pub open spec fn binary_operator_of(kind: TokenKind) -> Option<BinaryOperatorKind> {
    match kind {
        TokenKind::Plus => Some(BinaryOperatorKind::Plus),
        TokenKind::Minus => Some(BinaryOperatorKind::Minus),
        TokenKind::Asterisk => Some(BinaryOperatorKind::Multiply),
        TokenKind::Slash => Some(BinaryOperatorKind::Divide),
        TokenKind::Ampersand => Some(BinaryOperatorKind::BitwiseAnd),
        TokenKind::Pipe => Some(BinaryOperatorKind::BitwiseOr),
        TokenKind::Caret => Some(BinaryOperatorKind::BitwiseXor),
        TokenKind::DoubleAsterisk => Some(BinaryOperatorKind::Power),
        TokenKind::DoubleLessThan => Some(BinaryOperatorKind::LeftShift),
        TokenKind::DoubleGreaterThan => Some(BinaryOperatorKind::RightShift),
        TokenKind::EqualsEquals => Some(BinaryOperatorKind::Equals),
        TokenKind::BangEquals => Some(BinaryOperatorKind::NotEquals),
        TokenKind::LessThan => Some(BinaryOperatorKind::LessThan),
        TokenKind::LessThanEquals => Some(BinaryOperatorKind::LessThanOrEqual),
        TokenKind::GreaterThan => Some(BinaryOperatorKind::GreaterThan),
        TokenKind::GreaterThanEquals => Some(BinaryOperatorKind::GreaterThanOrEqual),
        _ => None,
    }
}

/// The unary operator that a token of kind `kind` stands for, if any.
pub open spec fn unary_operator_of(kind: TokenKind) -> Option<UnaryOperatorKind> {
    match kind {
        TokenKind::Minus => Some(UnaryOperatorKind::Minus),
        TokenKind::Tilde => Some(UnaryOperatorKind::BitwiseNot),
        _ => None,
    }
}

/// The parser's state: the tokens, the position of the next one, the
/// diagnostics reported so far and the tree built so far.
pub struct Parser {
    tokens: Vec<Token>,
    current: Counter,
    diagnostics_list: DiagnosticsList,
    ast: Ast,
}

impl Parser {
    pub closed spec fn tokens(&self) -> Seq<Token> {
        self.tokens@
    }

    /// The position of the next token; it stays at the end once reached.
    pub closed spec fn pos(&self) -> nat {
        self.current.value()
    }

    pub closed spec fn ast(&self) -> Ast {
        self.ast
    }

    pub closed spec fn diagnostics(&self) -> Seq<crate::diagnostics::Diagnostic> {
        self.diagnostics_list.diagnostics@
    }

    /// The token at `i`, or the end-of-file token past the end.
    pub open spec fn token_at(&self, i: int) -> Token {
        if i < self.tokens().len() { self.tokens()[i] } else { self.tokens().last() }
    }

    /// The current token.
    pub open spec fn cur(&self) -> Token {
        tok(self.tokens(), self.pos())
    }

    /// What the diagnostics reported so far say.
    pub open spec fn models(&self) -> Seq<Report> {
        diagnostic_models(self.diagnostics())
    }

    /// From `prev` to `self`, an expression `r` was read: the position and
    /// the reports are those of `res`, and `r` stands for the tree of `res`.
    pub open spec fn parsed_expr(&self, prev: Parser, r: ExprId, res: (Syn, nat, Seq<Report>)) -> bool {
        &&& self.pos() == res.1
        &&& self.models() == prev.models() + res.2
        &&& r.idx < self.ast().expressions@.len()
        &&& syn_expr(self.ast(), r.idx as int) == res.0
    }

    /// From `prev` to `self`, a statement `r` was read, as `res` says.
    pub open spec fn parsed_stmt(&self, prev: Parser, r: StmtId, res: (SynStmt, nat, Seq<Report>)) -> bool {
        &&& self.pos() == res.1
        &&& self.models() == prev.models() + res.2
        &&& r.idx < self.ast().statements@.len()
        &&& syn_stmt_full(self.ast(), r.idx as int) == res.0
    }

    /// The number of tokens not yet read.
    pub open spec fn remaining(&self) -> nat {
        (self.tokens().len() - self.pos()) as nat
    }

    pub open spec fn inv(&self) -> bool {
        &&& ends_with_eof(self.tokens())
        &&& self.pos() <= self.tokens().len()
        &&& self.tokens().len() < usize::MAX
        &&& self.ast().wf()
    }

    /// `self` follows `prev`: the same tokens, no position moved back, the
    /// trees only grown and the diagnostics only added to.
    pub open spec fn follows(&self, prev: &Parser) -> bool {
        &&& self.tokens() == prev.tokens()
        &&& self.pos() >= prev.pos()
        &&& arena_extends(prev.ast(), self.ast())
        &&& prev.diagnostics().is_prefix_of(self.diagnostics())
    }

    /// A parser over `tokens`, from which whitespace is dropped.
    pub fn new(tokens: Vec<Token>, diagnostics_list: DiagnosticsList, ast: Ast) -> (r: Self)
        requires
            ends_with_eof(tokens@),
            tokens@.len() < usize::MAX,
            ast.wf(),
        ensures
            r.inv(),
            r.tokens() == non_whitespace(tokens@),
            r.pos() == 0,
            r.ast() == ast,
            r.diagnostics() == diagnostics_list.diagnostics@,
    {
        let mut kept: Vec<Token> = Vec::new();
        let mut i: usize = 0;
        while i < tokens.len()
            invariant
                i <= tokens@.len(),
                ends_with_eof(tokens@),
                tokens@.len() < usize::MAX,
                ast.wf(),
                kept@ == non_whitespace(tokens@.subrange(0, i as int)),
                kept@.len() <= i,
                forall|j: int| 0 <= j < kept@.len() ==> (#[trigger] kept@[j]).kind != TokenKind::Eof,
            decreases tokens@.len() - i,
        {
            let ghost before = tokens@.subrange(0, i as int);
            assert(tokens@.subrange(0, (i + 1) as int).drop_last() =~= before);
            let ghost kept_before = kept@;
            if tokens[i].kind != TokenKind::Whitespace {
                if i + 1 < tokens.len() {
                    assert(tokens@[i as int].kind != TokenKind::Eof);
                }
                kept.push(tokens[i].clone());
            }
            if i + 1 == tokens.len() {
                assert(tokens@[i as int].kind == TokenKind::Eof);
                assert(kept@.last().kind == TokenKind::Eof);
                assert(kept@.drop_last() =~= kept_before);
                assert(forall|j: int| 0 <= j < kept@.len() - 1 ==> #[trigger] kept@[j] == kept_before[j]);
                assert(ends_with_eof(kept@));
                assert(kept@.len() < usize::MAX);
                assert(ast.wf());
                assert(tokens@.subrange(0, (i + 1) as int) =~= tokens@);
                return Self {
                    tokens: kept,
                    current: Counter::new(),
                    diagnostics_list,
                    ast,
                };
            }
            i = i + 1;
        }
        Self { tokens: kept, current: Counter::new(), diagnostics_list, ast }
    }

    /// The tree and the diagnostics that parsing produced.
    pub fn into_parts(self) -> (r: (Ast, DiagnosticsList))
        ensures
            r.0 == self.ast(),
            r.1.diagnostics@ == self.diagnostics(),
    {
        (self.ast, self.diagnostics_list)
    }

    /// Parses the whole program: item after item until the end of the tokens.
    #[verifier::spinoff_prover]
    #[verifier::rlimit(60)]
    pub fn parse(&mut self)
        requires
            old(self).inv(),
        ensures
            final(self).inv(),
            final(self).follows(&*old(self)),
            final(self).cur().kind == TokenKind::Eof,
            ({
                let res = p_items(old(self).tokens(), old(self).pos());
                &&& final(self).pos() == res.1
                &&& final(self).models() == old(self).models() + res.2
                &&& final(self).ast().items@.len() == old(self).ast().items@.len() + res.0.len()
                &&& forall|k: int| 0 <= k < res.0.len() ==> #[trigger] syn_item(
                    final(self).ast(),
                    old(self).ast().items@.len() + k,
                ) == res.0[k]
            }),
    {
        let ghost ts = self.tokens();
        let ghost start = self.pos();
        let ghost n0 = self.ast().items@.len();
        let ghost m0 = self.models();
        let ghost mut acc: Seq<SynItem> = Seq::empty();
        let ghost mut done: Seq<Report> = Seq::empty();
        assert(m0 =~= m0 + done);
        loop
            invariant
                self.inv(),
                self.follows(&*old(self)),
                ts == self.tokens(),
                start == old(self).pos(),
                n0 == old(self).ast().items@.len(),
                m0 == old(self).models(),
                ({
                    let total = p_items(ts, start);
                    let rest = p_items(ts, self.pos());
                    &&& total.0 == acc + rest.0
                    &&& total.1 == rest.1
                    &&& total.2 == done + rest.2
                }),
                self.models() == m0 + done,
                self.ast().items@.len() == n0 + acc.len(),
                forall|k: int| 0 <= k < acc.len() ==> #[trigger] syn_item(self.ast(), n0 + k) == acc[k],
            ensures
                self.cur().kind == TokenKind::Eof,
            decreases self.remaining(),
        {
            let ghost before = self.remaining();
            let ghost prev = *self;
            let ghost p = self.pos();
            let item = self.next_item();
            if item.is_none() {
                assert(p_items(ts, self.pos()).0 =~= Seq::<SynItem>::empty());
                assert(acc =~= acc + p_items(ts, self.pos()).0);
                assert(done =~= done + p_items(ts, self.pos()).2);
                break;
            }
            proof {
                let it = p_item(ts, p);
                let rest = p_items(ts, self.pos());
                assert(p_items(ts, p).0 == seq![it.0] + rest.0);
                assert forall|k: int| 0 <= k < acc.len() implies #[trigger] syn_item(self.ast(), n0 + k) == acc[k] by {
                    lemma_syn_item_stable(prev.ast(), self.ast(), n0 + k);
                }
                acc = acc.push(it.0);
                done = done + it.2;
                assert(p_items(ts, start).0 =~= acc + rest.0);
                assert(p_items(ts, start).2 =~= done + rest.2);
                assert(self.models() =~= m0 + done);
            }
            assert(self.remaining() < before);
        }
        assert(acc =~= p_items(ts, start).0);
    }

    /// The next item, or `None` at the end of the tokens.
    fn next_item(&mut self) -> (r: Option<ItemId>)
        requires
            old(self).inv(),
        ensures
            final(self).inv(),
            final(self).follows(&*old(self)),
            r is None <==> old(self).cur().kind == TokenKind::Eof,
            r is None ==> final(self).cur().kind == TokenKind::Eof && *final(self) == *old(self),
            r is Some ==> final(self).remaining() < old(self).remaining(),
            r matches Some(id) ==> {
                let res = p_item(old(self).tokens(), old(self).pos());
                &&& id.idx == old(self).ast().items@.len()
                &&& final(self).ast().items@.len() == old(self).ast().items@.len() + 1
                &&& final(self).pos() == res.1
                &&& final(self).models() == old(self).models() + res.2
                &&& syn_item(final(self).ast(), id.idx as int) == res.0
            },
    {
        if self.is_at_end() {
            return None;
        }
        Some(self.parse_item())
    }

    fn is_at_end(&self) -> (r: bool)
        requires
            self.inv(),
        ensures
            r == (self.cur().kind == TokenKind::Eof),
            !r ==> self.pos() < self.tokens().len() - 1,
    {
        self.current().kind == TokenKind::Eof
    }

    fn parse_item(&mut self) -> (r: ItemId)
        requires
            old(self).inv(),
            old(self).cur().kind != TokenKind::Eof,
        ensures
            final(self).inv(),
            final(self).follows(&*old(self)),
            final(self).pos() > old(self).pos(),
            ({
                let res = p_item(old(self).tokens(), old(self).pos());
                &&& r.idx == old(self).ast().items@.len()
                &&& final(self).ast().items@.len() == old(self).ast().items@.len() + 1
                &&& final(self).pos() == res.1
                &&& final(self).models() == old(self).models() + res.2
                &&& syn_item(final(self).ast(), r.idx as int) == res.0
            }),
    {
        if self.current().kind == TokenKind::Func {
            self.parse_function_declaration()
        } else {
            let id = self.parse_statement();
            let ghost before = self.ast();
            let item = self.ast.item_from_kind(ItemKind::Stmt(id));
            proof {
                lemma_syn_stmt_full_stable(before, self.ast(), id.idx as int);
            }
            item
        }
    }

    fn parse_statement(&mut self) -> (r: StmtId)
        requires
            old(self).inv(),
        ensures
            final(self).inv(),
            final(self).follows(&*old(self)),
            old(self).cur().kind != TokenKind::Eof ==> final(self).pos() > old(self).pos(),
            r.idx < final(self).ast().statements@.len(),
            final(self).ast().items@ == old(self).ast().items@,
            final(self).parsed_stmt(*old(self), r, p_stmt(old(self).tokens(), old(self).pos())),
        decreases old(self).remaining(), 10nat,
    {
        let ghost ts = self.tokens();
        let ghost p = self.pos();
        let stmt = match self.current().kind {
            TokenKind::Let => self.parse_let_statement(),
            TokenKind::While => self.parse_while_statement(),
            TokenKind::Return => self.parse_return_statement(),
            _ => self.parse_expression_statement(),
        };
        let ghost inner = match tok(ts, p).kind {
            TokenKind::Let => p_let(ts, p),
            TokenKind::While => p_while(ts, p),
            TokenKind::Return => p_return(ts, p),
            _ => p_expr_stmt(ts, p),
        };
        assert(self.parsed_stmt(*old(self), stmt, inner));
        stmt
    }

    #[verifier::spinoff_prover]
    #[verifier::rlimit(60)]
    fn parse_function_declaration(&mut self) -> (r: ItemId)
        requires
            old(self).inv(),
            old(self).cur().kind == TokenKind::Func,
        ensures
            final(self).inv(),
            final(self).follows(&*old(self)),
            final(self).pos() > old(self).pos(),
            ({
                let res = p_item(old(self).tokens(), old(self).pos());
                &&& r.idx == old(self).ast().items@.len()
                &&& final(self).ast().items@.len() == old(self).ast().items@.len() + 1
                &&& final(self).pos() == res.1
                &&& final(self).models() == old(self).models() + res.2
                &&& syn_item(final(self).ast(), r.idx as int) == res.0
            }),
    {
        let ghost ts = self.tokens();
        let ghost p = self.pos();
        let ghost m0 = self.models();
        self.consume_and_check(TokenKind::Func);
        let ghost p1 = self.pos();
        let ghost m1 = self.models();
        let identifier = self.consume_and_check(TokenKind::Identifier);
        let ghost p2 = self.pos();
        let ghost m2 = self.models();
        let parameters = self.parse_optional_parameter_list();
        let ghost m3 = self.models();
        let return_type = self.parse_optional_return_type();
        let ghost m4 = self.models();
        let body = self.parse_statement();
        let ghost m5 = self.models();
        let ghost before = self.ast();
        let r = self.ast.func_decl_statement(identifier, parameters, body, return_type);
        proof {
            lemma_syn_stmt_full_stable(before, self.ast(), body.idx as int);
            let params = p_params(ts, p2);
            let ret = p_ret(ts, params.1);
            let b = p_stmt(ts, ret.1);
            assert(m1 == m0 + check(ts, p, TokenKind::Func));
            assert(m2 == m1 + check(ts, p1, TokenKind::Identifier));
            assert(m3 == m2 + params.2);
            assert(m4 == m3 + ret.2);
            assert(m5 == m4 + b.2);
            let all = check(ts, p, TokenKind::Func) + check(ts, p1, TokenKind::Identifier) + params.2 + ret.2 + b.2;
            assert(m5 =~= m0 + all);
            let f = p_func(ts, p);
            assert(f.2 == all);
            assert(f.1 == b.1);
            assert(f.0 == SynItem::Func(tok(ts, p1), params.0, ret.0, b.0));
        }
        r
    }

    fn parse_optional_return_type(&mut self) -> (r: Option<FunctionReturnType>)
        requires
            old(self).inv(),
        ensures
            final(self).inv(),
            final(self).follows(&*old(self)),
            final(self).ast() == old(self).ast(),
            (r is Some) == (old(self).cur().kind == TokenKind::Arrow),
            ({
                let res = p_ret(old(self).tokens(), old(self).pos());
                &&& r == res.0
                &&& final(self).pos() == res.1
                &&& final(self).models() == old(self).models() + res.2
            }),
    {
        if self.current().kind == TokenKind::Arrow {
            let arrow = self.consume_and_check(TokenKind::Arrow);
            let type_ident = self.consume_and_check(TokenKind::Identifier);
            assert(self.models() =~= old(self).models() + p_ret(old(self).tokens(), old(self).pos()).2);
            return Some(FunctionReturnType::new(arrow, type_ident));
        }
        assert(self.models() =~= old(self).models() + p_ret(old(self).tokens(), old(self).pos()).2);
        None
    }

    #[verifier::spinoff_prover]
    #[verifier::rlimit(60)]
    fn parse_optional_parameter_list(&mut self) -> (r: Vec<FuncDeclParameter>)
        requires
            old(self).inv(),
        ensures
            final(self).inv(),
            final(self).follows(&*old(self)),
            final(self).ast() == old(self).ast(),
            old(self).cur().kind != TokenKind::LeftParen ==> r@.len() == 0 && final(self).pos()
                == old(self).pos(),
            ({
                let res = p_params(old(self).tokens(), old(self).pos());
                &&& r@ == res.0
                &&& final(self).pos() == res.1
                &&& final(self).models() == old(self).models() + res.2
            }),
    {
        let ghost ts = self.tokens();
        if self.current().kind != TokenKind::LeftParen {
            assert(self.models() =~= old(self).models() + p_params(ts, old(self).pos()).2);
            return Vec::new();
        }
        self.consume_and_check(TokenKind::LeftParen);
        let ghost start = self.pos();
        let ghost m0 = self.models();
        assert(m0 =~= old(self).models());
        let ghost mut done: Seq<Report> = Seq::empty();
        let mut parameters: Vec<FuncDeclParameter> = Vec::new();
        while self.current().kind != TokenKind::RightParen && !self.is_at_end()
            invariant
                self.inv(),
                self.follows(&*old(self)),
                self.ast() == old(self).ast(),
                ts == self.tokens(),
                ({
                    let total = p_param_list(ts, start);
                    let rest = p_param_list(ts, self.pos());
                    &&& total.0 == parameters@ + rest.0
                    &&& total.1 == rest.1
                    &&& total.2 == done + rest.2
                }),
                self.models() == m0 + done,
            decreases self.remaining(),
        {
            let ghost p = self.pos();
            let ghost d = done;
            proof { self.lemma_not_at_end(); }
            let identifier = self.consume_and_check(TokenKind::Identifier);
            let type_annotation = self.parse_type_annotation();
            parameters.push(FuncDeclParameter { identifier, type_annotation });
            if self.current().kind == TokenKind::Comma {
                self.consume_and_check(TokenKind::Comma);
            }
            proof {
                let p1 = adv(ts, p);
                let p2 = adv(ts, p1);
                let head = check(ts, p, TokenKind::Identifier) + check(ts, p1, TokenKind::Colon) + check(
                    ts,
                    p2,
                    TokenKind::Identifier,
                );
                done = d + head;
                let rest = p_param_list(ts, self.pos());
                assert(p_param_list(ts, p).0 == seq![parameters@.last()] + rest.0);
                assert(parameters@ =~= parameters@.drop_last().push(parameters@.last()));
                assert(self.models() =~= m0 + done);
                assert(p_param_list(ts, start).0 =~= parameters@ + rest.0);
                assert(p_param_list(ts, start).2 =~= done + rest.2);
            }
        }
        assert(p_param_list(ts, self.pos()).0 =~= Seq::<FuncDeclParameter>::empty());
        assert(parameters@ =~= parameters@ + p_param_list(ts, self.pos()).0);
        self.consume_and_check(TokenKind::RightParen);
        assert(self.models() =~= old(self).models() + p_params(ts, old(self).pos()).2);
        parameters
    }

    fn parse_return_statement(&mut self) -> (r: StmtId)
        requires
            old(self).inv(),
            old(self).cur().kind == TokenKind::Return,
        ensures
            final(self).inv(),
            final(self).follows(&*old(self)),
            final(self).pos() > old(self).pos(),
            r.idx < final(self).ast().statements@.len(),
            final(self).ast().items@ == old(self).ast().items@,
            final(self).parsed_stmt(*old(self), r, p_return(old(self).tokens(), old(self).pos())),
        decreases old(self).remaining(), 9nat,
    {
        proof { self.lemma_not_at_end(); }
        let return_keyword = self.consume_and_check(TokenKind::Return);
        let expression = self.parse_expression();
        let ghost before = self.ast();
        let r = self.ast.return_statement(return_keyword, Some(expression));
        proof {
            lemma_syn_expr_stable(before, self.ast(), expression.idx as int);
            let e = p_expr(old(self).tokens(), (old(self).pos() + 1) as nat);
            assert(self.models() =~= old(self).models() + (check(old(self).tokens(), old(self).pos(), TokenKind::Return) + e.2));
        }
        r
    }

    fn parse_while_statement(&mut self) -> (r: StmtId)
        requires
            old(self).inv(),
            old(self).cur().kind == TokenKind::While,
        ensures
            final(self).inv(),
            final(self).follows(&*old(self)),
            final(self).pos() > old(self).pos(),
            r.idx < final(self).ast().statements@.len(),
            final(self).ast().items@ == old(self).ast().items@,
            final(self).parsed_stmt(*old(self), r, p_while(old(self).tokens(), old(self).pos())),
        decreases old(self).remaining(), 9nat,
    {
        proof { self.lemma_not_at_end(); }
        let while_keyword = self.consume_and_check(TokenKind::While);
        let condition_expr = self.parse_expression();
        let ghost a2 = self.ast();
        let body = self.parse_branch();
        let ghost before = self.ast();
        let r = self.ast.while_statement(while_keyword, condition_expr, body);
        proof {
            lemma_syn_expr_stable(a2, before, condition_expr.idx as int);
            lemma_syn_expr_stable(before, self.ast(), condition_expr.idx as int);
            lemma_syn_expr_stable(before, self.ast(), body.idx as int);
            let ts = old(self).tokens();
            let p = old(self).pos();
            let c = p_expr(ts, (p + 1) as nat);
            let b = p_branch(ts, c.1);
            assert(self.models() =~= old(self).models() + (check(ts, p, TokenKind::While) + c.2 + b.2));
        }
        r
    }

    /// The block whose `{` has just been read.
    #[verifier::spinoff_prover]
    #[verifier::rlimit(60)]
    fn parse_block_expr(&mut self, left_brace: Token) -> (r: ExprId)
        requires
            old(self).inv(),
        ensures
            final(self).inv(),
            final(self).follows(&*old(self)),
            r.idx < final(self).ast().expressions@.len(),
            final(self).ast().items@ == old(self).ast().items@,
            final(self).parsed_expr(*old(self), r, p_block(old(self).tokens(), old(self).pos(), left_brace)),
        decreases old(self).remaining(), 12nat,
    {
        let ghost ts = self.tokens();
        let ghost start = self.pos();
        let ghost m0 = self.models();
        let ghost mut acc: Seq<SynStmt> = Seq::empty();
        let ghost mut done: Seq<Report> = Seq::empty();
        assert(m0 =~= m0 + done);
        let mut statements: Vec<StmtId> = Vec::new();
        while self.current().kind != TokenKind::CloseBrace && !self.is_at_end()
            invariant
                self.inv(),
                self.follows(&*old(self)),
                self.remaining() <= old(self).remaining(),
                ts == self.tokens(),
                start == old(self).pos(),
                m0 == old(self).models(),
                self.ast().items@ == old(self).ast().items@,
                acc.len() == statements@.len(),
                forall|k: int| 0 <= k < statements@.len() ==> (#[trigger] statements@[k]).idx
                    < self.ast().statements@.len(),
                forall|k: int| 0 <= k < statements@.len() ==> syn_stmt_full(self.ast(), (#[trigger] statements@[k]).idx as int) == acc[k],
                ({
                    let total = p_block_stmts(ts, start);
                    let rest = p_block_stmts(ts, self.pos());
                    &&& total.0 == acc + rest.0
                    &&& total.1 == rest.1
                    &&& total.2 == done + rest.2
                }),
                self.models() == m0 + done,
            decreases self.remaining(),
        {
            let ghost prev = *self;
            let ghost p = self.pos();
            let id = self.parse_statement();
            statements.push(id);
            proof {
                let st = p_stmt(ts, p);
                let rest = p_block_stmts(ts, self.pos());
                assert(p_block_stmts(ts, p).0 == seq![st.0] + rest.0);
                assert forall|k: int| 0 <= k < statements@.len() - 1 implies syn_stmt_full(self.ast(), (#[trigger] statements@[k]).idx as int) == acc[k] by {
                    lemma_syn_stmt_full_stable(prev.ast(), self.ast(), statements@[k].idx as int);
                }
                acc = acc.push(st.0);
                done = done + st.2;
                assert(p_block_stmts(ts, start).0 =~= acc + rest.0);
                assert(p_block_stmts(ts, start).2 =~= done + rest.2);
                assert(self.models() =~= m0 + done);
            }
        }
        assert(p_block_stmts(ts, self.pos()).0 =~= Seq::<SynStmt>::empty());
        assert(acc =~= acc + p_block_stmts(ts, self.pos()).0);
        assert(done =~= done + p_block_stmts(ts, self.pos()).2);
        let right_brace = self.consume_and_check(TokenKind::CloseBrace);
        let ghost before = self.ast();
        let r = self.ast.block_expression(left_brace, statements, right_brace);
        proof {
            let a = self.ast();
            let i = r.idx as int;
            let kind = a.expressions@[i].kind;
            assert(a.expr_kind_ok(kind, i as nat));
            assert forall|k: int| 0 <= k < statements@.len() implies {
                &&& (#[trigger] statements@[k]).idx < a.statements@.len()
                &&& super::stmt_below(a.statements@[statements@[k].idx as int].kind, i as nat)
            } by {
                assert(super::expr_stmt_children(kind)[k] == statements@[k]);
            }
            super::syntax::lemma_syn_stmts_elements(a, statements@, i);
            assert forall|k: int| 0 <= k < statements@.len() implies #[trigger] super::syntax::syn_stmts(a, statements@, i)[k] == acc[k] by {
                lemma_syn_stmt_full_stable(before, a, statements@[k].idx as int);
            }
            assert(super::syntax::syn_stmts(a, statements@, i) =~= acc);
            assert(self.models() =~= m0 + p_block(ts, start, left_brace).2);
        }
        r
    }

    /// The `if` expression whose `if` has just been read.
    fn parse_if_expression(&mut self, if_keyword: Token) -> (r: ExprId)
        requires
            old(self).inv(),
        ensures
            final(self).inv(),
            final(self).follows(&*old(self)),
            r.idx < final(self).ast().expressions@.len(),
            final(self).ast().items@ == old(self).ast().items@,
            final(self).parsed_expr(*old(self), r, p_if(old(self).tokens(), old(self).pos(), if_keyword)),
        decreases old(self).remaining(), 12nat,
    {
        let condition_expr = self.parse_expression();
        let ghost a1 = self.ast();
        let then = self.parse_branch();
        let ghost a2 = self.ast();
        let else_statement = self.parse_optional_else_statement();
        let ghost before = self.ast();
        let ghost else_copy = else_statement;
        let r = self.ast.if_expr(if_keyword, condition_expr, then, else_statement);
        proof {
            lemma_syn_expr_stable(a1, a2, condition_expr.idx as int);
            lemma_syn_expr_stable(a2, before, condition_expr.idx as int);
            lemma_syn_expr_stable(before, self.ast(), condition_expr.idx as int);
            lemma_syn_expr_stable(a2, before, then.idx as int);
            lemma_syn_expr_stable(before, self.ast(), then.idx as int);
            if let Some(e) = else_copy {
                lemma_syn_expr_stable(before, self.ast(), e.expr.idx as int);
            }
            let ts = old(self).tokens();
            let p = old(self).pos();
            let c = p_expr(ts, p);
            let t = p_branch(ts, c.1);
            let e = p_else(ts, t.1);
            assert(self.models() =~= old(self).models() + (c.2 + t.2 + e.2));
        }
        r
    }

    fn parse_optional_else_statement(&mut self) -> (r: Option<ElseBranch>)
        requires
            old(self).inv(),
        ensures
            final(self).inv(),
            final(self).follows(&*old(self)),
            final(self).ast().items@ == old(self).ast().items@,
            r matches Some(e) ==> e.expr.idx < final(self).ast().expressions@.len(),
            (r is Some) == (old(self).cur().kind == TokenKind::Else),
            ({
                let res = p_else(old(self).tokens(), old(self).pos());
                &&& final(self).pos() == res.1
                &&& final(self).models() == old(self).models() + res.2
                &&& res.0 == match r {
                    Some(e) => Some((e.else_keyword, Box::new(syn_expr(final(self).ast(), e.expr.idx as int)))),
                    None => None,
                }
            }),
        decreases old(self).remaining(), 9nat,
    {
        if self.current().kind == TokenKind::Else {
            proof { self.lemma_not_at_end(); }
            let else_keyword = self.consume_and_check(TokenKind::Else);
            let else_expr = self.parse_branch();
            assert(self.models() =~= old(self).models() + p_else(old(self).tokens(), old(self).pos()).2);
            return Some(ElseBranch::new(else_keyword, else_expr));
        }
        assert(self.models() =~= old(self).models() + p_else(old(self).tokens(), old(self).pos()).2);
        None
    }

    #[verifier::spinoff_prover]
    #[verifier::rlimit(60)]
    fn parse_let_statement(&mut self) -> (r: StmtId)
        requires
            old(self).inv(),
            old(self).cur().kind == TokenKind::Let,
        ensures
            final(self).inv(),
            final(self).follows(&*old(self)),
            final(self).pos() > old(self).pos(),
            r.idx < final(self).ast().statements@.len(),
            final(self).ast().items@ == old(self).ast().items@,
            final(self).parsed_stmt(*old(self), r, p_let(old(self).tokens(), old(self).pos())),
        decreases old(self).remaining(), 9nat,
    {
        proof { self.lemma_not_at_end(); }
        let ghost ts = self.tokens();
        let ghost p = self.pos();
        self.consume_and_check(TokenKind::Let);
        let identifier = self.consume_and_check(TokenKind::Identifier);
        let optional_type_annotation = self.parse_optional_type_annotation();
        self.consume_and_check(TokenKind::Equals);
        let expr = self.parse_expression();
        let ghost before = self.ast();
        let r = self.ast.let_statement(identifier, expr, optional_type_annotation);
        proof {
            lemma_syn_expr_stable(before, self.ast(), expr.idx as int);
            let p1 = adv(ts, p);
            let p2 = adv(ts, p1);
            let res = p_let(ts, p);
            let ann_reports: Seq<Report> = if tok(ts, p2).kind == TokenKind::Colon {
                check(ts, adv(ts, p2), TokenKind::Identifier)
            } else {
                Seq::empty()
            };
            let ann_end: nat = if tok(ts, p2).kind == TokenKind::Colon { adv(ts, adv(ts, p2)) } else { p2 };
            let e = p_expr(ts, adv(ts, ann_end));
            assert(self.models() =~= old(self).models() + (check(ts, p, TokenKind::Let) + check(
                ts,
                p1,
                TokenKind::Identifier,
            ) + ann_reports + check(ts, ann_end, TokenKind::Equals) + e.2));
        }
        r
    }

    fn parse_optional_type_annotation(&mut self) -> (r: Option<StaticTypeAnnotation>)
        requires
            old(self).inv(),
        ensures
            final(self).inv(),
            final(self).follows(&*old(self)),
            final(self).ast() == old(self).ast(),
            (r is Some) == (old(self).cur().kind == TokenKind::Colon),
            ({
                let ts = old(self).tokens();
                let p = old(self).pos();
                &&& r is Some ==> {
                    &&& r == Some(StaticTypeAnnotation { colon: tok(ts, p), type_ident: tok(ts, adv(ts, p)) })
                    &&& final(self).pos() == adv(ts, adv(ts, p))
                    &&& final(self).models() == old(self).models() + check(ts, adv(ts, p), TokenKind::Identifier)
                }
                &&& r is None ==> final(self).pos() == p && final(self).models() == old(self).models()
            }),
    {
        if self.current().kind == TokenKind::Colon {
            let annotation = self.parse_type_annotation();
            assert(self.models() =~= old(self).models() + check(
                old(self).tokens(),
                adv(old(self).tokens(), old(self).pos()),
                TokenKind::Identifier,
            ));
            return Some(annotation);
        }
        None
    }

    fn parse_type_annotation(&mut self) -> (r: StaticTypeAnnotation)
        requires
            old(self).inv(),
        ensures
            final(self).inv(),
            final(self).follows(&*old(self)),
            final(self).ast() == old(self).ast(),
            r.colon == old(self).cur(),
            old(self).pos() < old(self).tokens().len() ==> final(self).pos() > old(self).pos(),
            ({
                let ts = old(self).tokens();
                let p = old(self).pos();
                &&& r == StaticTypeAnnotation { colon: tok(ts, p), type_ident: tok(ts, adv(ts, p)) }
                &&& final(self).pos() == adv(ts, adv(ts, p))
                &&& final(self).models() == old(self).models() + check(ts, p, TokenKind::Colon) + check(
                    ts,
                    adv(ts, p),
                    TokenKind::Identifier,
                )
            }),
    {
        let colon = self.consume_and_check(TokenKind::Colon);
        let type_ident = self.consume_and_check(TokenKind::Identifier);
        StaticTypeAnnotation::new(colon, type_ident)
    }

    fn parse_expression_statement(&mut self) -> (r: StmtId)
        requires
            old(self).inv(),
        ensures
            final(self).inv(),
            final(self).follows(&*old(self)),
            old(self).cur().kind != TokenKind::Eof ==> final(self).pos() > old(self).pos(),
            r.idx < final(self).ast().statements@.len(),
            final(self).ast().items@ == old(self).ast().items@,
            final(self).parsed_stmt(*old(self), r, p_expr_stmt(old(self).tokens(), old(self).pos())),
        decreases old(self).remaining(), 9nat,
    {
        let ghost ts = self.tokens();
        let ghost p = self.pos();
        let expr = if self.current().kind == TokenKind::OpenBrace {
            proof { self.lemma_not_at_end(); }
            let left_brace = self.consume();
            self.parse_block_expr(left_brace)
        } else if self.current().kind == TokenKind::If {
            proof { self.lemma_not_at_end(); }
            let if_keyword = self.consume();
            self.parse_if_expression(if_keyword)
        } else {
            self.parse_expression()
        };
        let ghost before = self.ast();
        let r = self.ast.expression_statement(expr);
        proof {
            lemma_syn_expr_stable(before, self.ast(), expr.idx as int);
        }
        r
    }

    /// What stands where a statement may: a block, an `if`, or an expression.
    fn parse_branch(&mut self) -> (r: ExprId)
        requires
            old(self).inv(),
        ensures
            final(self).inv(),
            final(self).follows(&*old(self)),
            old(self).cur().kind != TokenKind::Eof ==> final(self).pos() > old(self).pos(),
            r.idx < final(self).ast().expressions@.len(),
            final(self).ast().items@ == old(self).ast().items@,
            final(self).parsed_expr(*old(self), r, p_branch(old(self).tokens(), old(self).pos())),
        decreases old(self).remaining(), 9nat,
    {
        if self.current().kind == TokenKind::OpenBrace {
            proof { self.lemma_not_at_end(); }
            let left_brace = self.consume();
            self.parse_block_expr(left_brace)
        } else if self.current().kind == TokenKind::If {
            proof { self.lemma_not_at_end(); }
            let if_keyword = self.consume();
            self.parse_if_expression(if_keyword)
        } else {
            self.parse_expression()
        }
    }

    fn parse_expression(&mut self) -> (r: ExprId)
        requires
            old(self).inv(),
        ensures
            final(self).inv(),
            final(self).follows(&*old(self)),
            old(self).cur().kind != TokenKind::Eof ==> final(self).pos() > old(self).pos(),
            r.idx < final(self).ast().expressions@.len(),
            final(self).ast().items@ == old(self).ast().items@,
            final(self).parsed_expr(*old(self), r, p_expr(old(self).tokens(), old(self).pos())),
        decreases old(self).remaining(), 8nat,
    {
        self.parse_assignment_expression()
    }

    fn parse_assignment_expression(&mut self) -> (r: ExprId)
        requires
            old(self).inv(),
        ensures
            final(self).inv(),
            final(self).follows(&*old(self)),
            old(self).cur().kind != TokenKind::Eof ==> final(self).pos() > old(self).pos(),
            r.idx < final(self).ast().expressions@.len(),
            final(self).ast().items@ == old(self).ast().items@,
            final(self).parsed_expr(*old(self), r, p_assign(old(self).tokens(), old(self).pos())),
        decreases old(self).remaining(), 7nat,
    {
        if self.current().kind == TokenKind::Identifier && self.peek(1).kind == TokenKind::Equals {
            proof {
                self.lemma_not_at_end();
                lemma_tok_not_eof(self.tokens(), self.pos() + 1);
            }
            let identifier = self.consume_and_check(TokenKind::Identifier);
            let equals = self.consume_and_check(TokenKind::Equals);
            let expr = self.parse_expression();
            let ghost before = self.ast();
            let r = self.ast.assignment_expression(identifier, equals, expr);
            proof {
                lemma_syn_expr_stable(before, self.ast(), expr.idx as int);
                let e = p_expr(old(self).tokens(), (old(self).pos() + 2) as nat);
                assert(self.models() =~= old(self).models() + e.2);
            }
            return r;
        }
        self.parse_binary_expression()
    }

    fn parse_binary_expression(&mut self) -> (r: ExprId)
        requires
            old(self).inv(),
        ensures
            final(self).inv(),
            final(self).follows(&*old(self)),
            old(self).cur().kind != TokenKind::Eof ==> final(self).pos() > old(self).pos(),
            r.idx < final(self).ast().expressions@.len(),
            final(self).ast().items@ == old(self).ast().items@,
            final(self).parsed_expr(*old(self), r, p_binary(old(self).tokens(), old(self).pos())),
        decreases old(self).remaining(), 6nat,
    {
        let left = self.parse_unary_expression();
        let r = self.parse_binary_expression_recurse(left, 0);
        proof {
            let l = p_unary(old(self).tokens(), old(self).pos());
            let b = p_binrec(old(self).tokens(), l.1, l.0, 0);
            assert(self.models() =~= old(self).models() + (l.2 + b.2));
        }
        r
    }

    /// Extends `left` with the binary operators that follow it and bind at
    /// least as tightly as `precedence`, grouping by precedence and associativity.
    #[verifier::spinoff_prover]
    #[verifier::rlimit(60)]
    fn parse_binary_expression_recurse(&mut self, left: ExprId, precedence: u8) -> (r: ExprId)
        requires
            old(self).inv(),
            left.idx < old(self).ast().expressions@.len(),
        ensures
            final(self).inv(),
            final(self).follows(&*old(self)),
            r.idx < final(self).ast().expressions@.len(),
            final(self).ast().items@ == old(self).ast().items@,
            (binary_operator_of(old(self).cur().kind) matches Some(k) && precedence_of(k)
                >= precedence) ==> final(self).pos() > old(self).pos(),
            final(self).parsed_expr(
                *old(self),
                r,
                p_binrec(
                    old(self).tokens(),
                    old(self).pos(),
                    syn_expr(old(self).ast(), left.idx as int),
                    precedence as nat,
                ),
            ),
        decreases old(self).remaining(), 5nat,
    {
        let ghost ts = self.tokens();
        let ghost start = self.pos();
        let ghost m0 = self.models();
        let ghost left0 = left;
        let ghost total = p_binrec(ts, start, syn_expr(self.ast(), left.idx as int), precedence as nat);
        let ghost mut done: Seq<Report> = Seq::empty();
        assert(total.2 =~= done + total.2);
        let mut left = left;
        loop
            invariant
                self.inv(),
                self.follows(&*old(self)),
                left.idx < self.ast().expressions@.len(),
                start == old(self).pos(),
                self.pos() == start ==> *self == *old(self),
                ts == self.tokens(),
                m0 == old(self).models(),
                self.ast().items@ == old(self).ast().items@,
                total == p_binrec(ts, start, syn_expr(old(self).ast(), left0.idx as int), precedence as nat),
                ({
                    let rest = p_binrec(ts, self.pos(), syn_expr(self.ast(), left.idx as int), precedence as nat);
                    &&& total.0 == rest.0
                    &&& total.1 == rest.1
                    &&& total.2 == done + rest.2
                }),
                self.models() == m0 + done,
            ensures
                self.pos() == start ==> !(binary_operator_of(self.cur().kind) matches Some(k)
                    && precedence_of(k) >= precedence),
                self.pos() == total.1,
                self.models() == m0 + total.2,
                syn_expr(self.ast(), left.idx as int) == total.0,
            decreases self.remaining(),
        {
            let operator = match self.parse_binary_operator() {
                Some(operator) => operator,
                None => {
                    assert(total.2 =~= done + Seq::<Report>::empty());
                    break;
                },
            };
            let operator_precedence = operator.precedence();
            if operator_precedence < precedence {
                assert(total.2 =~= done + Seq::<Report>::empty());
                break;
            }
            let ghost iter_start = self.pos();
            let ghost iter_ast = self.ast();
            let ghost lsyn = syn_expr(self.ast(), left.idx as int);
            let ghost d0 = done;
            proof { self.lemma_not_at_end(); }
            assert(iter_start >= start);
            self.consume();
            assert(self.pos() > iter_start);
            let mut right = self.parse_unary_expression();
            let ghost r0 = p_unary(ts, (iter_start + 1) as nat);
            let ghost inner_start = self.pos();
            let ghost inner_total = p_inner(ts, inner_start, r0.0, operator);
            let ghost mut idone: Seq<Report> = Seq::empty();
            let ghost m_inner = self.models();
            assert(inner_total.2 =~= idone + inner_total.2);
            proof { lemma_syn_expr_stable(iter_ast, self.ast(), left.idx as int); }
            loop
                invariant
                    self.inv(),
                    self.follows(&*old(self)),
                    start == old(self).pos(),
                    self.pos() > start,
                    self.pos() > iter_start,
                    self.pos() >= inner_start,
                    ts == self.tokens(),
                    self.ast().items@ == old(self).ast().items@,
                    left.idx < self.ast().expressions@.len(),
                    right.idx < self.ast().expressions@.len(),
                    operator_precedence == precedence_of(operator.kind),
                    syn_expr(self.ast(), left.idx as int) == lsyn,
                    inner_total == p_inner(ts, inner_start, r0.0, operator),
                    ({
                        let rest = p_inner(ts, self.pos(), syn_expr(self.ast(), right.idx as int), operator);
                        &&& inner_total.0 == rest.0
                        &&& inner_total.1 == rest.1
                        &&& inner_total.2 == idone + rest.2
                    }),
                    self.models() == m_inner + idone,
                ensures
                    self.pos() == inner_total.1,
                    self.models() == m_inner + inner_total.2,
                    syn_expr(self.ast(), right.idx as int) == inner_total.0,
                decreases self.remaining(),
            {
                let inner_operator = match self.parse_binary_operator() {
                    Some(inner_operator) => inner_operator,
                    None => {
                        assert(inner_total.2 =~= idone + Seq::<Report>::empty());
                        break;
                    },
                };
                let greater_precedence = inner_operator.precedence() > operator.precedence();
                let equal_precedence = inner_operator.precedence() == operator.precedence();
                if !(greater_precedence || equal_precedence && inner_operator.associativity()
                    == BinaryOperatorAssociativity::Right) {
                    assert(inner_total.2 =~= idone + Seq::<Report>::empty());
                    break;
                }
                let next_precedence = if operator.precedence() > inner_operator.precedence() {
                    operator.precedence()
                } else {
                    inner_operator.precedence()
                };
                let ghost q = self.pos();
                let ghost prev_ast = self.ast();
                let ghost prev_models = self.models();
                let ghost rsyn = syn_expr(self.ast(), right.idx as int);
                let ghost id0 = idone;
                right = self.parse_binary_expression_recurse(right, next_precedence);
                proof {
                    lemma_syn_expr_stable(prev_ast, self.ast(), left.idx as int);
                    let r2 = p_binrec(ts, q, rsyn, next_precedence as nat);
                    assert(self.models() == prev_models + r2.2);
                    idone = id0 + r2.2;
                    assert(self.models() =~= m_inner + idone);
                    let r3 = p_inner(ts, r2.1, r2.0, operator);
                    assert(p_inner(ts, q, rsyn, operator) == (r3.0, r3.1, r2.2 + r3.2));
                    assert(inner_total.2 =~= idone + r3.2);
                }
            }
            let ghost before = self.ast();
            let ghost rsyn = syn_expr(self.ast(), right.idx as int);
            let ghost old_left = left;
            left = self.ast.binary_expression(operator, left, right);
            proof {
                lemma_syn_expr_stable(before, self.ast(), right.idx as int);
                lemma_syn_expr_stable(before, self.ast(), old_left.idx as int);
                assert(syn_expr(self.ast(), left.idx as int) == Syn::Binary(Box::new(lsyn), operator, Box::new(rsyn)));
                done = d0 + r0.2 + inner_total.2;
                assert(self.models() =~= m0 + done);
                let rest = p_binrec(
                    ts,
                    self.pos(),
                    Syn::Binary(Box::new(lsyn), operator, Box::new(rsyn)),
                    precedence as nat,
                );
                assert(p_binrec(ts, iter_start, lsyn, precedence as nat) == (rest.0, rest.1, r0.2 + inner_total.2 + rest.2));
                assert(total.2 =~= done + rest.2);
            }
        }
        left
    }

    fn parse_unary_expression(&mut self) -> (r: ExprId)
        requires
            old(self).inv(),
        ensures
            final(self).inv(),
            final(self).follows(&*old(self)),
            old(self).pos() < old(self).tokens().len() ==> final(self).pos() > old(self).pos(),
            r.idx < final(self).ast().expressions@.len(),
            final(self).ast().items@ == old(self).ast().items@,
            final(self).parsed_expr(*old(self), r, p_unary(old(self).tokens(), old(self).pos())),
        decreases old(self).remaining(), 4nat,
    {
        if let Some(operator) = self.parse_unary_operator() {
            proof { self.lemma_not_at_end(); }
            self.consume();
            let operand = self.parse_unary_expression();
            let ghost before = self.ast();
            let r = self.ast.unary_expression(operator, operand);
            proof {
                lemma_syn_expr_stable(before, self.ast(), operand.idx as int);
            }
            return r;
        }
        self.parse_primary_expression()
    }
    /// The unary operator that the current token stands for, if any.
    fn parse_unary_operator(&self) -> (r: Option<UnaryOperator>)
        requires
            self.inv(),
        ensures
            match unary_operator_of(self.cur().kind) {
                Some(k) => r matches Some(op) && op.kind == k && op.token == self.cur(),
                None => r is None,
            },
    {
        let token = self.current();
        let kind = match token.kind {
            TokenKind::Minus => Some(UnaryOperatorKind::Minus),
            TokenKind::Tilde => Some(UnaryOperatorKind::BitwiseNot),
            _ => None,
        };
        match kind {
            Some(kind) => Some(UnaryOperator::new(kind, token.clone())),
            None => None,
        }
    }

    /// The binary operator that the current token stands for, if any.
    fn parse_binary_operator(&self) -> (r: Option<BinaryOperator>)
        requires
            self.inv(),
        ensures
            match binary_operator_of(self.cur().kind) {
                Some(k) => r matches Some(op) && op.kind == k && op.token == self.cur(),
                None => r is None,
            },
    {
        let token = self.current();
        let kind = match token.kind {
            TokenKind::Plus => Some(BinaryOperatorKind::Plus),
            TokenKind::Minus => Some(BinaryOperatorKind::Minus),
            TokenKind::Asterisk => Some(BinaryOperatorKind::Multiply),
            TokenKind::Slash => Some(BinaryOperatorKind::Divide),
            TokenKind::Ampersand => Some(BinaryOperatorKind::BitwiseAnd),
            TokenKind::Pipe => Some(BinaryOperatorKind::BitwiseOr),
            TokenKind::Caret => Some(BinaryOperatorKind::BitwiseXor),
            TokenKind::DoubleAsterisk => Some(BinaryOperatorKind::Power),
            TokenKind::DoubleLessThan => Some(BinaryOperatorKind::LeftShift),
            TokenKind::DoubleGreaterThan => Some(BinaryOperatorKind::RightShift),
            TokenKind::EqualsEquals => Some(BinaryOperatorKind::Equals),
            TokenKind::BangEquals => Some(BinaryOperatorKind::NotEquals),
            TokenKind::LessThan => Some(BinaryOperatorKind::LessThan),
            TokenKind::LessThanEquals => Some(BinaryOperatorKind::LessThanOrEqual),
            TokenKind::GreaterThan => Some(BinaryOperatorKind::GreaterThan),
            TokenKind::GreaterThanEquals => Some(BinaryOperatorKind::GreaterThanOrEqual),
            _ => None,
        };
        match kind {
            Some(kind) => Some(BinaryOperator::new(kind, token.clone())),
            None => None,
        }
    }

    fn parse_primary_expression(&mut self) -> (r: ExprId)
        requires
            old(self).inv(),
        ensures
            final(self).inv(),
            final(self).follows(&*old(self)),
            old(self).pos() < old(self).tokens().len() ==> final(self).pos() > old(self).pos(),
            r.idx < final(self).ast().expressions@.len(),
            final(self).ast().items@ == old(self).ast().items@,
            final(self).parsed_expr(*old(self), r, p_primary(old(self).tokens(), old(self).pos())),
        decreases old(self).remaining(), 3nat,
    {
        let ghost ts = self.tokens();
        let ghost p = self.pos();
        let token = self.consume();
        match token.kind {
            TokenKind::Number(number) => {
                proof { lemma_tok_not_eof(ts, p); }
                let r = self.ast.number_expression(token, number);
                assert(self.models() =~= old(self).models() + p_primary(ts, p).2);
                r
            },
            TokenKind::LeftParen => {
                proof { lemma_tok_not_eof(ts, p); }
                let expr = self.parse_expression();
                let left_paren = token;
                let right_paren = self.consume_and_check(TokenKind::RightParen);
                let ghost before = self.ast();
                let r = self.ast.parenthesized_expression(left_paren, expr, right_paren);
                proof {
                    lemma_syn_expr_stable(before, self.ast(), expr.idx as int);
                    let e = p_expr(ts, (p + 1) as nat);
                    assert(self.models() =~= old(self).models() + (e.2 + check(ts, e.1, TokenKind::RightParen)));
                }
                r
            },
            TokenKind::Identifier => {
                proof { lemma_tok_not_eof(ts, p); }
                if self.current().kind == TokenKind::LeftParen {
                    self.parse_call_expression(token)
                } else {
                    let r = self.ast.variable_expression(token);
                    assert(self.models() =~= old(self).models() + p_primary(ts, p).2);
                    r
                }
            },
            TokenKind::True | TokenKind::False => {
                proof { lemma_tok_not_eof(ts, p); }
                let value = token.kind == TokenKind::True;
                let r = self.ast.boolean_expression(token, value);
                assert(self.models() =~= old(self).models() + p_primary(ts, p).2);
                r
            },
            _ => {
                let ghost before = self.diagnostics();
                self.diagnostics_list.report_expected_expression(&token);
                proof {
                    lemma_diagnostic_models_push(before, self.diagnostics());
                    assert(self.models() =~= old(self).models() + p_primary(ts, p).2);
                }
                self.ast.error_expression(token.span.clone())
            },
        }
    }

    #[verifier::spinoff_prover]
    #[verifier::rlimit(60)]
    fn parse_call_expression(&mut self, identifier: Token) -> (r: ExprId)
        requires
            old(self).inv(),
        ensures
            final(self).inv(),
            final(self).follows(&*old(self)),
            r.idx < final(self).ast().expressions@.len(),
            final(self).ast().items@ == old(self).ast().items@,
            final(self).parsed_expr(*old(self), r, p_call(old(self).tokens(), old(self).pos(), identifier)),
        decreases old(self).remaining(), 12nat,
    {
        let ghost ts = self.tokens();
        let ghost p0 = self.pos();
        let left_paren = self.consume_and_check(TokenKind::LeftParen);
        let ghost start = self.pos();
        let ghost m0 = self.models();
        let ghost mut acc: Seq<Syn> = Seq::empty();
        let ghost mut done: Seq<Report> = Seq::empty();
        assert(m0 =~= m0 + done);
        let mut arguments: Vec<ExprId> = Vec::new();
        while self.current().kind != TokenKind::RightParen && !self.is_at_end()
            invariant
                self.inv(),
                self.follows(&*old(self)),
                self.remaining() <= old(self).remaining(),
                ts == self.tokens(),
                start == adv(ts, p0),
                m0 == old(self).models() + check(ts, p0, TokenKind::LeftParen),
                self.ast().items@ == old(self).ast().items@,
                acc.len() == arguments@.len(),
                forall|k: int| 0 <= k < arguments@.len() ==> (#[trigger] arguments@[k]).idx
                    < self.ast().expressions@.len(),
                forall|k: int| 0 <= k < arguments@.len() ==> syn_expr(self.ast(), (#[trigger] arguments@[k]).idx as int) == acc[k],
                ({
                    let total = p_args(ts, start);
                    let rest = p_args(ts, self.pos());
                    &&& total.0 == acc + rest.0
                    &&& total.1 == rest.1
                    &&& total.2 == done + rest.2
                }),
                self.models() == m0 + done,
            decreases self.remaining(),
        {
            let ghost prev = *self;
            let ghost q = self.pos();
            let arg = self.parse_expression();
            arguments.push(arg);
            if self.current().kind != TokenKind::RightParen {
                self.consume_and_check(TokenKind::Comma);
            }
            proof {
                let a = p_expr(ts, q);
                let sep: (nat, Seq<Report>) = if tok(ts, a.1).kind != TokenKind::RightParen {
                    (adv(ts, a.1), check(ts, a.1, TokenKind::Comma))
                } else {
                    (a.1, Seq::empty())
                };
                let rest = p_args(ts, self.pos());
                assert(self.pos() == sep.0);
                assert(p_args(ts, q).0 == seq![a.0] + rest.0);
                assert forall|k: int| 0 <= k < arguments@.len() - 1 implies syn_expr(self.ast(), (#[trigger] arguments@[k]).idx as int) == acc[k] by {
                    lemma_syn_expr_stable(prev.ast(), self.ast(), arguments@[k].idx as int);
                }
                acc = acc.push(a.0);
                done = done + (a.2 + sep.1);
                assert(p_args(ts, start).0 =~= acc + rest.0);
                assert(p_args(ts, start).2 =~= done + rest.2);
                assert(self.models() =~= m0 + done);
            }
        }
        assert(p_args(ts, self.pos()).0 =~= Seq::<Syn>::empty());
        assert(acc =~= acc + p_args(ts, self.pos()).0);
        assert(done =~= done + p_args(ts, self.pos()).2);
        let right_paren = self.consume_and_check(TokenKind::RightParen);
        let ghost before = self.ast();
        let r = self.ast.call_expression(identifier, left_paren, arguments, right_paren);
        proof {
            let a = self.ast();
            let i = r.idx as int;
            let kind = a.expressions@[i].kind;
            assert(a.expr_kind_ok(kind, i as nat));
            assert forall|k: int| 0 <= k < arguments@.len() implies (#[trigger] arguments@[k]).idx < i by {
                assert(super::expr_children(kind)[k] == arguments@[k]);
            }
            super::syntax::lemma_syn_args_elements(a, arguments@, i);
            assert forall|k: int| 0 <= k < arguments@.len() implies #[trigger] super::syntax::syn_args(a, arguments@, i)[k] == acc[k] by {
                lemma_syn_expr_stable(before, a, arguments@[k].idx as int);
            }
            assert(super::syntax::syn_args(a, arguments@, i) =~= acc);
            assert(self.models() =~= old(self).models() + p_call(ts, p0, identifier).2);
        }
        r
    }    /// The token `offset` places after the current one, or the end-of-file
    /// token past the end.
    fn peek(&self, offset: isize) -> (r: &Token)
        requires
            self.inv(),
            self.pos() + offset >= 0,
            -1 <= offset <= 1,
        ensures
            *r == self.token_at(self.pos() + offset),
    {
        let n = self.tokens.len();
        let p = self.current.get_value();
        let mut index: usize = if offset < 0 { p - 1 } else { p + (offset as usize) };
        if index >= n {
            index = n - 1;
        }
        &self.tokens[index]
    }

    /// A token other than the end-of-file token lies before the last position.
    proof fn lemma_not_at_end(&self)
        requires
            self.inv(),
            self.cur().kind != TokenKind::Eof,
        ensures
            self.pos() < self.tokens().len() - 1,
    {
        if self.pos() >= self.tokens().len() - 1 {
            assert(self.cur() == self.tokens().last());
        }
    }

    fn current(&self) -> (r: &Token)
        requires
            self.inv(),
        ensures
            *r == self.cur(),
    {
        self.peek(0)
    }

    /// Reads the current token.
    fn consume(&mut self) -> (r: Token)
        requires
            old(self).inv(),
        ensures
            final(self).inv(),
            final(self).follows(&*old(self)),
            final(self).ast() == old(self).ast(),
            final(self).diagnostics() == old(self).diagnostics(),
            r == old(self).cur(),
            final(self).pos() == if old(self).pos() < old(self).tokens().len() {
                old(self).pos() + 1
            } else {
                old(self).pos()
            },
    {
        let t = self.current().clone();
        if self.current.get_value() < self.tokens.len() {
            self.current.increment();
        }
        t
    }

    /// Reads the current token if it is of kind `kind`.
    fn consume_if(&mut self, kind: TokenKind) -> (r: Option<Token>)
        requires
            old(self).inv(),
        ensures
            final(self).inv(),
            final(self).follows(&*old(self)),
            final(self).ast() == old(self).ast(),
            final(self).diagnostics() == old(self).diagnostics(),
            old(self).cur().kind == kind ==> r == Some(old(self).cur()) && final(self).pos() == adv(
                old(self).tokens(),
                old(self).pos(),
            ),
            old(self).cur().kind != kind ==> r is None && final(self).pos() == old(self).pos(),
    {
        if self.current().kind == kind {
            Some(self.consume())
        } else {
            None
        }
    }

    /// Reads the current token; if it is not of kind `kind`, reports it.
    fn consume_and_check(&mut self, kind: TokenKind) -> (r: Token)
        requires
            old(self).inv(),
        ensures
            final(self).inv(),
            final(self).follows(&*old(self)),
            final(self).ast() == old(self).ast(),
            r == old(self).cur(),
            final(self).pos() == if old(self).pos() < old(self).tokens().len() {
                old(self).pos() + 1
            } else {
                old(self).pos()
            },
            r.kind == kind ==> final(self).diagnostics() == old(self).diagnostics(),
            r.kind != kind ==> final(self).diagnostics().len() == old(self).diagnostics().len() + 1,
            final(self).models() == old(self).models() + check(old(self).tokens(), old(self).pos(), kind),
    {
        let ghost before = self.diagnostics();
        let token = self.consume();
        if token.kind != kind {
            self.diagnostics_list.report_unexpected_token(&kind, &token);
            proof {
                lemma_diagnostic_models_push(before, self.diagnostics());
                assert(self.models() =~= old(self).models() + check(old(self).tokens(), old(self).pos(), kind));
            }
        } else {
            assert(self.models() =~= old(self).models() + check(old(self).tokens(), old(self).pos(), kind));
        }
        token
    }
}

} // verus!
