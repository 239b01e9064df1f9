//! Syntax trees as values, and the trees that the nodes of an [`Ast`] stand for.

use vstd::prelude::*;

use super::lexer::{Token, TokenKind};
use super::{
    Ast, BinaryOperator, BinaryOperatorAssociativity, ExprId, ExprKind, FuncDeclParameter,
    BinaryOperatorKind, FunctionReturnType, ItemKind, StaticTypeAnnotation, StmtId, StmtKind, UnaryOperator,
    associativity_of, erase_stmt_variables, erase_variables, precedence_of, same_shape, stmt_below,
};
use super::parser::{binary_operator_of, unary_operator_of};
use crate::diagnostics::{Report, expected_expression_report, unexpected_token_report};
use crate::text::TextSpan;

verus! {

/// An expression as a tree.
pub enum Syn {
    Number(Token, i64),
    Binary(Box<Syn>, BinaryOperator, Box<Syn>),
    Unary(UnaryOperator, Box<Syn>),
    /// The parentheses and what they enclose.
    Parenthesized(Token, Box<Syn>, Token),
    Variable(Token),
    /// The name, the `=` and the value.
    Assignment(Token, Token, Box<Syn>),
    Boolean(Token, bool),
    /// The name, the parentheses and the arguments in between.
    Call(Token, Token, Seq<Syn>, Token),
    /// The `if`, the condition, the branch taken when it holds, and the `else` with its branch.
    If(Token, Box<Syn>, Box<Syn>, Option<(Token, Box<Syn>)>),
    /// The braces and the statements in between.
    Block(Token, Seq<SynStmt>, Token),
    Error(TextSpan),
}

/// A statement as a tree.
pub enum SynStmt {
    Expr(Syn),
    /// The name, its type annotation and its initial value.
    Let(Token, Option<StaticTypeAnnotation>, Syn),
    /// The `while`, the condition and the body.
    While(Token, Syn, Syn),
    /// The `return` and the value returned.
    Return(Token, Option<Syn>),
}

/// A top-level item as a tree.
pub enum SynItem {
    /// The name, the parameters, the return type and the body.
    Func(Token, Seq<FuncDeclParameter>, Option<FunctionReturnType>, SynStmt),
    Stmt(SynStmt),
}

/// The tree of the expression `e` if it lies below `bound`.
pub open spec fn syn_sub(ast: Ast, e: ExprId, bound: int) -> Syn
    decreases bound, 0int, 0int,
{
    if e.idx < bound {
        syn_expr(ast, e.idx as int)
    } else {
        arbitrary()
    }
}

/// The tree that the expression at position `i` of `ast` stands for.
pub open spec fn syn_expr(ast: Ast, i: int) -> Syn
    decreases i, 3int, 0int,
{
    if 0 <= i < ast.expressions@.len() {
        match ast.expressions@[i].kind {
            ExprKind::Number(e) => Syn::Number(e.token, e.number),
            ExprKind::Binary(e) => Syn::Binary(
                Box::new(syn_sub(ast, e.left, i)),
                e.operator,
                Box::new(syn_sub(ast, e.right, i)),
            ),
            ExprKind::Unary(e) => Syn::Unary(e.operator, Box::new(syn_sub(ast, e.operand, i))),
            ExprKind::Parenthesized(e) => Syn::Parenthesized(
                e.left_paren,
                Box::new(syn_sub(ast, e.expression, i)),
                e.right_paren,
            ),
            ExprKind::Variable(e) => Syn::Variable(e.identifier),
            ExprKind::Assignment(e) => Syn::Assignment(
                e.identifier,
                e.equals,
                Box::new(syn_sub(ast, e.expression, i)),
            ),
            ExprKind::Boolean(e) => Syn::Boolean(e.token, e.value),
            ExprKind::Call(e) => Syn::Call(
                e.identifier,
                e.left_paren,
                syn_args(ast, e.arguments@, i),
                e.right_paren,
            ),
            ExprKind::If(e) => Syn::If(
                e.if_keyword,
                Box::new(syn_sub(ast, e.condition, i)),
                Box::new(syn_sub(ast, e.then_branch, i)),
                match e.else_branch {
                    Some(b) => Some((b.else_keyword, Box::new(syn_sub(ast, b.expr, i)))),
                    None => None,
                },
            ),
            ExprKind::Block(e) => Syn::Block(e.left_brace, syn_stmts(ast, e.stmts@, i), e.right_brace),
            ExprKind::Error(span) => Syn::Error(span),
        }
    } else {
        arbitrary()
    }
}

/// The trees of the expressions `args`, all of which lie below `bound`.
pub open spec fn syn_args(ast: Ast, args: Seq<ExprId>, bound: int) -> Seq<Syn>
    decreases bound, 2int, args.len(),
{
    if args.len() == 0 {
        Seq::empty()
    } else {
        syn_args(ast, args.drop_last(), bound).push(syn_sub(ast, args.last(), bound))
    }
}

/// The trees of the statements `stmts`, whose expressions lie below `bound`.
pub open spec fn syn_stmts(ast: Ast, stmts: Seq<StmtId>, bound: int) -> Seq<SynStmt>
    decreases bound, 2int, stmts.len(),
{
    if stmts.len() == 0 {
        Seq::empty()
    } else {
        syn_stmts(ast, stmts.drop_last(), bound).push(syn_stmt(ast, stmts.last().idx as int, bound))
    }
}

/// The tree of the statement at position `s` of `ast`, whose expressions lie below `bound`.
pub open spec fn syn_stmt(ast: Ast, s: int, bound: int) -> SynStmt
    decreases bound, 1int, 0int,
{
    if 0 <= s < ast.statements@.len() {
        match ast.statements@[s].kind {
            StmtKind::Expr(e) => SynStmt::Expr(syn_sub(ast, e, bound)),
            StmtKind::Let(l) => SynStmt::Let(l.identifier, l.type_annotation, syn_sub(ast, l.initializer, bound)),
            StmtKind::While(w) => SynStmt::While(
                w.while_keyword,
                syn_sub(ast, w.condition, bound),
                syn_sub(ast, w.body, bound),
            ),
            StmtKind::Return(r) => SynStmt::Return(
                r.return_keyword,
                match r.return_value {
                    Some(v) => Some(syn_sub(ast, v, bound)),
                    None => None,
                },
            ),
        }
    } else {
        arbitrary()
    }
}

/// The tree of the item at position `k` of `ast`.
pub open spec fn syn_item(ast: Ast, k: int) -> SynItem {
    let bound = ast.expressions@.len() as int;
    match ast.items@[k].kind {
        ItemKind::Func(f) => SynItem::Func(
            f.identifier,
            f.parameters@,
            f.return_type,
            syn_stmt(ast, f.body.idx as int, bound),
        ),
        ItemKind::Stmt(s) => SynItem::Stmt(syn_stmt(ast, s.idx as int, bound)),
    }
}

/// The trees of the items of `ast` from position `start` on.
pub open spec fn syn_items_from(ast: Ast, start: int) -> Seq<SynItem> {
    Seq::new((ast.items@.len() - start) as nat, |k: int| syn_item(ast, start + k))
}

/// `b` holds all the nodes of `a` where `a` holds them, and maybe more after them.
pub open spec fn arena_extends(a: Ast, b: Ast) -> bool {
    &&& a.expressions@.len() <= b.expressions@.len()
    &&& a.statements@.len() <= b.statements@.len()
    &&& a.items@.len() <= b.items@.len()
    &&& forall|i: int| 0 <= i < a.expressions@.len() ==> b.expressions@[i] == #[trigger] a.expressions@[i]
    &&& forall|i: int| 0 <= i < a.statements@.len() ==> b.statements@[i] == #[trigger] a.statements@[i]
    &&& forall|i: int| 0 <= i < a.items@.len() ==> b.items@[i] == #[trigger] a.items@[i]
}

/// Growing a well-formed arena leaves the tree of an expression it held as it was.
pub proof fn lemma_syn_expr_stable(a: Ast, b: Ast, i: int)
    requires
        a.wf(),
        arena_extends(a, b),
        0 <= i < a.expressions@.len(),
    ensures
        syn_expr(b, i) == syn_expr(a, i),
    decreases i, 3int, 0int,
{
    assert(b.expressions@[i] == a.expressions@[i]);
    let kind = a.expressions@[i].kind;
    assert(a.expr_kind_ok(kind, i as nat));
    match kind {
        ExprKind::Binary(e) => {
            assert(super::expr_children(kind)[0] == e.left);
            assert(super::expr_children(kind)[1] == e.right);
            lemma_syn_sub_stable(a, b, e.left, i);
            lemma_syn_sub_stable(a, b, e.right, i);
        },
        ExprKind::Unary(e) => {
            assert(super::expr_children(kind)[0] == e.operand);
            lemma_syn_sub_stable(a, b, e.operand, i);
        },
        ExprKind::Parenthesized(e) => {
            assert(super::expr_children(kind)[0] == e.expression);
            lemma_syn_sub_stable(a, b, e.expression, i);
        },
        ExprKind::Assignment(e) => {
            assert(super::expr_children(kind)[0] == e.expression);
            lemma_syn_sub_stable(a, b, e.expression, i);
        },
        ExprKind::Call(e) => {
            lemma_syn_args_stable(a, b, e.arguments@, i);
        },
        ExprKind::If(e) => {
            lemma_syn_sub_stable(a, b, e.condition, i);
            lemma_syn_sub_stable(a, b, e.then_branch, i);
            if let Some(el) = e.else_branch {
                lemma_syn_sub_stable(a, b, el.expr, i);
            }
        },
        ExprKind::Block(e) => {
            assert forall|k: int| 0 <= k < e.stmts@.len() implies {
                &&& (#[trigger] e.stmts@[k]).idx < a.statements@.len()
                &&& stmt_below(a.statements@[e.stmts@[k].idx as int].kind, i as nat)
            } by {
                assert(super::expr_stmt_children(kind)[k] == e.stmts@[k]);
            }
            lemma_syn_stmts_stable(a, b, e.stmts@, i);
        },
        _ => {},
    }
}

pub proof fn lemma_syn_sub_stable(a: Ast, b: Ast, e: ExprId, bound: int)
    requires
        a.wf(),
        arena_extends(a, b),
        bound <= a.expressions@.len(),
    ensures
        syn_sub(b, e, bound) == syn_sub(a, e, bound),
    decreases bound, 0int, 0int,
{
    if e.idx < bound {
        lemma_syn_expr_stable(a, b, e.idx as int);
    }
}

pub proof fn lemma_syn_args_stable(a: Ast, b: Ast, args: Seq<ExprId>, bound: int)
    requires
        a.wf(),
        arena_extends(a, b),
        bound <= a.expressions@.len(),
    ensures
        syn_args(b, args, bound) == syn_args(a, args, bound),
    decreases bound, 2int, args.len(),
{
    if args.len() > 0 {
        lemma_syn_args_stable(a, b, args.drop_last(), bound);
        lemma_syn_sub_stable(a, b, args.last(), bound);
    }
}

pub proof fn lemma_syn_stmts_stable(a: Ast, b: Ast, stmts: Seq<StmtId>, bound: int)
    requires
        a.wf(),
        arena_extends(a, b),
        bound <= a.expressions@.len(),
        forall|k: int| 0 <= k < stmts.len() ==> (#[trigger] stmts[k]).idx < a.statements@.len(),
    ensures
        syn_stmts(b, stmts, bound) == syn_stmts(a, stmts, bound),
    decreases bound, 2int, stmts.len(),
{
    if stmts.len() > 0 {
        assert forall|k: int| 0 <= k < stmts.drop_last().len() implies (#[trigger] stmts.drop_last()[k]).idx
            < a.statements@.len() by {
            assert(stmts.drop_last()[k] == stmts[k]);
        }
        lemma_syn_stmts_stable(a, b, stmts.drop_last(), bound);
        assert(stmts.last() == stmts[stmts.len() - 1]);
        lemma_syn_stmt_stable(a, b, stmts.last().idx as int, bound);
    }
}

pub proof fn lemma_syn_stmt_stable(a: Ast, b: Ast, s: int, bound: int)
    requires
        a.wf(),
        arena_extends(a, b),
        bound <= a.expressions@.len(),
        0 <= s < a.statements@.len(),
    ensures
        syn_stmt(b, s, bound) == syn_stmt(a, s, bound),
    decreases bound, 1int, 0int,
{
    assert(b.statements@[s] == a.statements@[s]);
    match a.statements@[s].kind {
        StmtKind::Expr(e) => lemma_syn_sub_stable(a, b, e, bound),
        StmtKind::Let(l) => lemma_syn_sub_stable(a, b, l.initializer, bound),
        StmtKind::While(w) => {
            lemma_syn_sub_stable(a, b, w.condition, bound);
            lemma_syn_sub_stable(a, b, w.body, bound);
        },
        StmtKind::Return(r) => {
            if let Some(v) = r.return_value {
                lemma_syn_sub_stable(a, b, v, bound);
            }
        },
    }
}

/// The tree of a statement does not depend on the bound, as long as it lies
/// above the statement's expressions.
pub proof fn lemma_syn_stmt_bound(ast: Ast, s: int, b1: int, b2: int)
    requires
        0 <= s < ast.statements@.len(),
        stmt_below(ast.statements@[s].kind, b1 as nat),
        stmt_below(ast.statements@[s].kind, b2 as nat),
        b1 >= 0,
        b2 >= 0,
    ensures
        syn_stmt(ast, s, b1) == syn_stmt(ast, s, b2),
{
    let kind = ast.statements@[s].kind;
    match kind {
        StmtKind::Expr(e) => {
            assert(super::stmt_children(kind)[0] == e);
        },
        StmtKind::Let(l) => {
            assert(super::stmt_children(kind)[0] == l.initializer);
        },
        StmtKind::While(w) => {
            assert(super::stmt_children(kind)[0] == w.condition);
            assert(super::stmt_children(kind)[1] == w.body);
        },
        StmtKind::Return(r) => {
            if let Some(v) = r.return_value {
                assert(super::stmt_children(kind)[0] == v);
            }
        },
    }
}

// ---------------------------------------------------------------------------
// The grammar: what parsing the tokens `ts` from position `p` gives.

/// The token at `p`, or the last token past the end.
pub open spec fn tok(ts: Seq<Token>, p: nat) -> Token {
    if p < ts.len() {
        ts[p as int]
    } else {
        ts.last()
    }
}

/// The position after reading the token at `p`: the end stays the end.
pub open spec fn adv(ts: Seq<Token>, p: nat) -> nat {
    if p < ts.len() {
        p + 1
    } else {
        p
    }
}

/// The number of tokens from `p` on.
pub open spec fn rem(ts: Seq<Token>, p: nat) -> nat {
    if p <= ts.len() {
        (ts.len() - p) as nat
    } else {
        0
    }
}

/// The report of reading the token at `p` where one of kind `kind` is wanted.
pub open spec fn check(ts: Seq<Token>, p: nat, kind: TokenKind) -> Seq<Report> {
    if tok(ts, p).kind == kind {
        Seq::empty()
    } else {
        seq![unexpected_token_report(kind, tok(ts, p))]
    }
}

/// An expression: an assignment or a binary expression.
pub open spec fn p_expr(ts: Seq<Token>, p: nat) -> (Syn, nat, Seq<Report>)
    decreases rem(ts, p), 8nat,
{
    p_assign(ts, p)
}

/// `name = expression`, when a name and `=` come first; else a binary expression.
pub open spec fn p_assign(ts: Seq<Token>, p: nat) -> (Syn, nat, Seq<Report>)
    decreases rem(ts, p), 7nat,
{
    if tok(ts, p).kind == TokenKind::Identifier && tok(ts, p + 1).kind == TokenKind::Equals && p + 2
        <= ts.len() {
        let e = p_expr(ts, p + 2);
        (Syn::Assignment(tok(ts, p), tok(ts, p + 1), Box::new(e.0)), e.1, e.2)
    } else {
        p_binary(ts, p)
    }
}

/// A unary expression followed by binary operators and their operands.
pub open spec fn p_binary(ts: Seq<Token>, p: nat) -> (Syn, nat, Seq<Report>)
    decreases rem(ts, p), 6nat,
{
    let l = p_unary(ts, p);
    if l.1 >= p {
        let r = p_binrec(ts, l.1, l.0, 0);
        (r.0, r.1, l.2 + r.2)
    } else {
        l
    }
}

/// `left` extended with the operators from `p` on that bind at least as
/// tightly as `prec`: each with its right operand, which takes in turn the
/// operators that bind tighter, or as tightly and group to the right.
pub open spec fn p_binrec(ts: Seq<Token>, p: nat, left: Syn, prec: nat) -> (Syn, nat, Seq<Report>)
    decreases rem(ts, p), 5nat,
{
    match binary_operator_of(tok(ts, p).kind) {
        Some(k) => if precedence_of(k) >= prec && p < ts.len() {
            let op = BinaryOperator { kind: k, token: tok(ts, p) };
            let r0 = p_unary(ts, p + 1);
            if r0.1 >= p + 1 {
                let r1 = p_inner(ts, r0.1, r0.0, op);
                if r1.1 >= r0.1 {
                    let rest = p_binrec(ts, r1.1, Syn::Binary(Box::new(left), op, Box::new(r1.0)), prec);
                    (rest.0, rest.1, r0.2 + r1.2 + rest.2)
                } else {
                    (left, p, Seq::empty())
                }
            } else {
                (left, p, Seq::empty())
            }
        } else {
            (left, p, Seq::empty())
        },
        None => (left, p, Seq::empty()),
    }
}

/// The right operand `right` of `op` extended with the operators from `p` on
/// that bind tighter than `op`, or as tightly and group to the right.
pub open spec fn p_inner(ts: Seq<Token>, p: nat, right: Syn, op: BinaryOperator) -> (Syn, nat, Seq<Report>)
    decreases rem(ts, p), 6nat,
{
    match binary_operator_of(tok(ts, p).kind) {
        Some(ik) => if precedence_of(ik) > precedence_of(op.kind) || (precedence_of(ik) == precedence_of(op.kind)
            && associativity_of(ik) == BinaryOperatorAssociativity::Right) {
            let next: nat = if precedence_of(op.kind) > precedence_of(ik) {
                precedence_of(op.kind) as nat
            } else {
                precedence_of(ik) as nat
            };
            let r2 = p_binrec(ts, p, right, next);
            if r2.1 > p && r2.1 <= ts.len() {
                let r3 = p_inner(ts, r2.1, r2.0, op);
                (r3.0, r3.1, r2.2 + r3.2)
            } else {
                r2
            }
        } else {
            (right, p, Seq::empty())
        },
        None => (right, p, Seq::empty()),
    }
}

/// Unary operators, then a primary expression.
pub open spec fn p_unary(ts: Seq<Token>, p: nat) -> (Syn, nat, Seq<Report>)
    decreases rem(ts, p), 4nat,
{
    match unary_operator_of(tok(ts, p).kind) {
        Some(k) => if p < ts.len() {
            let o = p_unary(ts, p + 1);
            (Syn::Unary(UnaryOperator { kind: k, token: tok(ts, p) }, Box::new(o.0)), o.1, o.2)
        } else {
            p_primary(ts, p)
        },
        None => p_primary(ts, p),
    }
}

/// A number, a boolean, a name, a call or a parenthesized expression; any
/// other token, `{` and `if` among them, is reported and stands for an error.
pub open spec fn p_primary(ts: Seq<Token>, p: nat) -> (Syn, nat, Seq<Report>)
    decreases rem(ts, p), 3nat,
{
    let t = tok(ts, p);
    let p1 = adv(ts, p);
    let error = (Syn::Error(t.span), p1, seq![expected_expression_report(t)]);
    if p < ts.len() {
        match t.kind {
            TokenKind::Number(n) => (Syn::Number(t, n), p1, Seq::empty()),
            TokenKind::LeftParen => {
                let e = p_expr(ts, p1);
                (
                    Syn::Parenthesized(t, Box::new(e.0), tok(ts, e.1)),
                    adv(ts, e.1),
                    e.2 + check(ts, e.1, TokenKind::RightParen),
                )
            },
            TokenKind::Identifier => if tok(ts, p1).kind == TokenKind::LeftParen {
                p_call(ts, p1, t)
            } else {
                (Syn::Variable(t), p1, Seq::empty())
            },
            TokenKind::True => (Syn::Boolean(t, true), p1, Seq::empty()),
            TokenKind::False => (Syn::Boolean(t, false), p1, Seq::empty()),
            _ => error,
        }
    } else {
        error
    }
}

/// Two binary operators between three numbers group by how tightly they
/// bind: `a op1 b op2 c` is `a op1 (b op2 c)` when `op2` binds tighter than
/// `op1`, or as tightly and groups to the right (`**`); otherwise it is
/// `(a op1 b) op2 c`. All five tokens are read and nothing is reported.
pub proof fn lemma_two_operators_group(ts: Seq<Token>, o1: BinaryOperatorKind, o2: BinaryOperatorKind)
    requires
        ts.len() == 6,
        ts[0].kind is Number,
        ts[2].kind is Number,
        ts[4].kind is Number,
        binary_operator_of(ts[1].kind) == Some(o1),
        binary_operator_of(ts[3].kind) == Some(o2),
        ts[5].kind == TokenKind::Eof,
    ensures
        ({
            let a = Syn::Number(ts[0], ts[0].kind->Number_0);
            let b = Syn::Number(ts[2], ts[2].kind->Number_0);
            let c = Syn::Number(ts[4], ts[4].kind->Number_0);
            let op1 = BinaryOperator { kind: o1, token: ts[1] };
            let op2 = BinaryOperator { kind: o2, token: ts[3] };
            let right = precedence_of(o2) > precedence_of(o1) || (precedence_of(o2) == precedence_of(o1)
                && associativity_of(o2) == BinaryOperatorAssociativity::Right);
            &&& right ==> p_expr(ts, 0).0 == Syn::Binary(Box::new(a), op1, Box::new(Syn::Binary(Box::new(b), op2, Box::new(c))))
            &&& !right ==> p_expr(ts, 0).0 == Syn::Binary(Box::new(Syn::Binary(Box::new(a), op1, Box::new(b))), op2, Box::new(c))
            &&& p_expr(ts, 0).1 == 5
            &&& p_expr(ts, 0).2 == Seq::<Report>::empty()
        }),
{
    let a = Syn::Number(ts[0], ts[0].kind->Number_0);
    let b = Syn::Number(ts[2], ts[2].kind->Number_0);
    let c = Syn::Number(ts[4], ts[4].kind->Number_0);
    let op1 = BinaryOperator { kind: o1, token: ts[1] };
    let op2 = BinaryOperator { kind: o2, token: ts[3] };
    assert(tok(ts, 5).kind == TokenKind::Eof);
    assert(tok(ts, 0) == ts[0]);
    assert(unary_operator_of(ts[0].kind) is None);
    assert(p_primary(ts, 0) == (a, 1nat, Seq::<Report>::empty()));
    assert(p_unary(ts, 0) == (a, 1nat, Seq::<Report>::empty()));
    assert(tok(ts, 2) == ts[2]);
    assert(unary_operator_of(ts[2].kind) is None);
    assert(p_primary(ts, 2) == (b, 3nat, Seq::<Report>::empty()));
    assert(p_unary(ts, 2) == (b, 3nat, Seq::<Report>::empty()));
    assert(tok(ts, 4) == ts[4]);
    assert(unary_operator_of(ts[4].kind) is None);
    assert(p_primary(ts, 4) == (c, 5nat, Seq::<Report>::empty()));
    assert(p_unary(ts, 4) == (c, 5nat, Seq::<Report>::empty()));
    assert(p_inner(ts, 5, c, op2) == (c, 5nat, Seq::<Report>::empty()));
    let bc = Syn::Binary(Box::new(b), op2, Box::new(c));
    let right = precedence_of(o2) > precedence_of(o1) || (precedence_of(o2) == precedence_of(o1)
        && associativity_of(o2) == BinaryOperatorAssociativity::Right);
    if right {
        let next: nat = precedence_of(o2) as nat;
        assert(p_binrec(ts, 5, bc, next) == (bc, 5nat, Seq::<Report>::empty()));
        assert(p_binrec(ts, 3, b, next) == (bc, 5nat, Seq::<Report>::empty()));
        assert(p_inner(ts, 5, bc, op1) == (bc, 5nat, Seq::<Report>::empty()));
        assert(p_inner(ts, 3, b, op1) == (bc, 5nat, Seq::<Report>::empty()));
        let whole = Syn::Binary(Box::new(a), op1, Box::new(bc));
        assert(p_binrec(ts, 5, whole, 0) == (whole, 5nat, Seq::<Report>::empty()));
        assert(p_binrec(ts, 1, a, 0) == (whole, 5nat, Seq::<Report>::empty()));
    } else {
        assert(p_inner(ts, 3, b, op1) == (b, 3nat, Seq::<Report>::empty()));
        let ab = Syn::Binary(Box::new(a), op1, Box::new(b));
        let whole = Syn::Binary(Box::new(ab), op2, Box::new(c));
        assert(p_binrec(ts, 5, whole, 0) == (whole, 5nat, Seq::<Report>::empty()));
        assert(p_binrec(ts, 3, ab, 0) == (whole, 5nat, Seq::<Report>::empty()));
        assert(p_binrec(ts, 1, a, 0) == (whole, 5nat, Seq::<Report>::empty()));
    }
    assert(p_binary(ts, 0).2 =~= Seq::<Report>::empty());
}

/// An operand never starts with `{` or `if`: at either token the primary
/// expression is an error node over that token, one token is consumed, and a
/// single "Expected expression" report is made. Blocks and `if` are parsed only
/// where a statement or a branch begins.
pub proof fn lemma_primary_rejects_block_and_if(ts: Seq<Token>, p: nat)
    requires
        p < ts.len(),
        ts[p as int].kind == TokenKind::OpenBrace || ts[p as int].kind == TokenKind::If,
    ensures
        p_primary(ts, p) == (
            Syn::Error(ts[p as int].span),
            adv(ts, p),
            seq![expected_expression_report(ts[p as int])],
        ),
{
}

/// The statements of a block whose `{` was read, and its `}`.
pub open spec fn p_block(ts: Seq<Token>, p: nat, left_brace: Token) -> (Syn, nat, Seq<Report>)
    decreases rem(ts, p), 12nat,
{
    let b = p_block_stmts(ts, p);
    (Syn::Block(left_brace, b.0, tok(ts, b.1)), adv(ts, b.1), b.2 + check(ts, b.1, TokenKind::CloseBrace))
}

/// Statements up to a `}` or the end.
pub open spec fn p_block_stmts(ts: Seq<Token>, p: nat) -> (Seq<SynStmt>, nat, Seq<Report>)
    decreases rem(ts, p), 11nat,
{
    if tok(ts, p).kind == TokenKind::CloseBrace || tok(ts, p).kind == TokenKind::Eof {
        (Seq::empty(), p, Seq::empty())
    } else {
        let s = p_stmt(ts, p);
        if s.1 > p && s.1 <= ts.len() {
            let rest = p_block_stmts(ts, s.1);
            (seq![s.0] + rest.0, rest.1, s.2 + rest.2)
        } else {
            (seq![s.0], s.1, s.2)
        }
    }
}

/// The condition, branch and optional `else` of an `if` whose keyword was read.
pub open spec fn p_if(ts: Seq<Token>, p: nat, if_keyword: Token) -> (Syn, nat, Seq<Report>)
    decreases rem(ts, p), 12nat,
{
    let c = p_expr(ts, p);
    if c.1 >= p {
        let t = p_branch(ts, c.1);
        if t.1 >= c.1 {
            let e = p_else(ts, t.1);
            (Syn::If(if_keyword, Box::new(c.0), Box::new(t.0), e.0), e.1, c.2 + t.2 + e.2)
        } else {
            (Syn::If(if_keyword, Box::new(c.0), Box::new(t.0), None), t.1, c.2 + t.2)
        }
    } else {
        (Syn::If(if_keyword, Box::new(c.0), Box::new(c.0), None), c.1, c.2)
    }
}

/// `else` and its branch, if an `else` comes next.
pub open spec fn p_else(ts: Seq<Token>, p: nat) -> (Option<(Token, Box<Syn>)>, nat, Seq<Report>)
    decreases rem(ts, p), 9nat,
{
    if tok(ts, p).kind == TokenKind::Else && p < ts.len() {
        let e = p_branch(ts, p + 1);
        (Some((tok(ts, p), Box::new(e.0))), e.1, e.2)
    } else {
        (None, p, Seq::empty())
    }
}

/// The parentheses and arguments of a call whose name was read; `p` is at `(`.
pub open spec fn p_call(ts: Seq<Token>, p: nat, identifier: Token) -> (Syn, nat, Seq<Report>)
    decreases rem(ts, p), 12nat,
{
    let a = p_args(ts, adv(ts, p));
    (
        Syn::Call(identifier, tok(ts, p), a.0, tok(ts, a.1)),
        adv(ts, a.1),
        check(ts, p, TokenKind::LeftParen) + a.2 + check(ts, a.1, TokenKind::RightParen),
    )
}

/// Arguments up to a `)` or the end, each followed by a `,` unless a `)` follows.
pub open spec fn p_args(ts: Seq<Token>, p: nat) -> (Seq<Syn>, nat, Seq<Report>)
    decreases rem(ts, p), 11nat,
{
    if tok(ts, p).kind == TokenKind::RightParen || tok(ts, p).kind == TokenKind::Eof {
        (Seq::empty(), p, Seq::empty())
    } else {
        let a = p_expr(ts, p);
        let sep: (nat, Seq<Report>) = if tok(ts, a.1).kind != TokenKind::RightParen {
            (adv(ts, a.1), check(ts, a.1, TokenKind::Comma))
        } else {
            (a.1, Seq::empty())
        };
        if sep.0 > p && sep.0 <= ts.len() {
            let rest = p_args(ts, sep.0);
            (seq![a.0] + rest.0, rest.1, a.2 + sep.1 + rest.2)
        } else {
            (seq![a.0], sep.0, a.2 + sep.1)
        }
    }
}

/// What stands where a statement may: a block, an `if`, or an expression.
pub open spec fn p_branch(ts: Seq<Token>, p: nat) -> (Syn, nat, Seq<Report>)
    decreases rem(ts, p), 9nat,
{
    let t = tok(ts, p);
    if p < ts.len() && t.kind == TokenKind::OpenBrace {
        p_block(ts, p + 1, t)
    } else if p < ts.len() && t.kind == TokenKind::If {
        p_if(ts, p + 1, t)
    } else {
        p_expr(ts, p)
    }
}

/// A statement.
pub open spec fn p_stmt(ts: Seq<Token>, p: nat) -> (SynStmt, nat, Seq<Report>)
    decreases rem(ts, p), 10nat,
{
    match tok(ts, p).kind {
        TokenKind::Let => p_let(ts, p),
        TokenKind::While => p_while(ts, p),
        TokenKind::Return => p_return(ts, p),
        _ => p_expr_stmt(ts, p),
    }
}

/// `let name: type = expression`, the annotation being optional.
pub open spec fn p_let(ts: Seq<Token>, p: nat) -> (SynStmt, nat, Seq<Report>)
    decreases rem(ts, p), 9nat,
{
    let p1 = adv(ts, p);
    let p2 = adv(ts, p1);
    let ann: (Option<StaticTypeAnnotation>, nat, Seq<Report>) = if tok(ts, p2).kind == TokenKind::Colon {
        (
            Some(StaticTypeAnnotation { colon: tok(ts, p2), type_ident: tok(ts, adv(ts, p2)) }),
            adv(ts, adv(ts, p2)),
            check(ts, adv(ts, p2), TokenKind::Identifier),
        )
    } else {
        (None, p2, Seq::empty())
    };
    let p4 = adv(ts, ann.1);
    let head = check(ts, p, TokenKind::Let) + check(ts, p1, TokenKind::Identifier) + ann.2 + check(
        ts,
        ann.1,
        TokenKind::Equals,
    );
    if p < ts.len() {
        let e = p_expr(ts, p4);
        (SynStmt::Let(tok(ts, p1), ann.0, e.0), e.1, head + e.2)
    } else {
        (SynStmt::Let(tok(ts, p1), ann.0, arbitrary()), p4, head)
    }
}

/// `while condition body`.
pub open spec fn p_while(ts: Seq<Token>, p: nat) -> (SynStmt, nat, Seq<Report>)
    decreases rem(ts, p), 9nat,
{
    if p < ts.len() {
        let c = p_expr(ts, p + 1);
        if c.1 >= p + 1 {
            let b = p_branch(ts, c.1);
            (SynStmt::While(tok(ts, p), c.0, b.0), b.1, check(ts, p, TokenKind::While) + c.2 + b.2)
        } else {
            (SynStmt::While(tok(ts, p), c.0, c.0), c.1, check(ts, p, TokenKind::While) + c.2)
        }
    } else {
        (SynStmt::While(tok(ts, p), arbitrary(), arbitrary()), p, check(ts, p, TokenKind::While))
    }
}

/// `return expression`.
pub open spec fn p_return(ts: Seq<Token>, p: nat) -> (SynStmt, nat, Seq<Report>)
    decreases rem(ts, p), 9nat,
{
    if p < ts.len() {
        let e = p_expr(ts, p + 1);
        (SynStmt::Return(tok(ts, p), Some(e.0)), e.1, check(ts, p, TokenKind::Return) + e.2)
    } else {
        (SynStmt::Return(tok(ts, p), None), p, check(ts, p, TokenKind::Return))
    }
}

/// An expression standing as a statement: a block, an `if`, or an expression.
pub open spec fn p_expr_stmt(ts: Seq<Token>, p: nat) -> (SynStmt, nat, Seq<Report>)
    decreases rem(ts, p), 9nat,
{
    let t = tok(ts, p);
    let e = if p < ts.len() && t.kind == TokenKind::OpenBrace {
        p_block(ts, p + 1, t)
    } else if p < ts.len() && t.kind == TokenKind::If {
        p_if(ts, p + 1, t)
    } else {
        p_expr(ts, p)
    };
    (SynStmt::Expr(e.0), e.1, e.2)
}

/// The return type `-> name`, if an arrow comes next.
pub open spec fn p_ret(ts: Seq<Token>, p: nat) -> (Option<FunctionReturnType>, nat, Seq<Report>) {
    if tok(ts, p).kind == TokenKind::Arrow {
        (
            Some(FunctionReturnType { arrow: tok(ts, p), type_ident: tok(ts, adv(ts, p)) }),
            adv(ts, adv(ts, p)),
            check(ts, adv(ts, p), TokenKind::Identifier),
        )
    } else {
        (None, p, Seq::empty())
    }
}

/// Parameters `name: type` up to a `)` or the end, each maybe followed by a `,`.
pub open spec fn p_param_list(ts: Seq<Token>, p: nat) -> (Seq<FuncDeclParameter>, nat, Seq<Report>)
    decreases rem(ts, p),
{
    if tok(ts, p).kind == TokenKind::RightParen || tok(ts, p).kind == TokenKind::Eof {
        (Seq::empty(), p, Seq::empty())
    } else {
        let p1 = adv(ts, p);
        let p2 = adv(ts, p1);
        let p3 = adv(ts, p2);
        let comma: (nat, Seq<Report>) = if tok(ts, p3).kind == TokenKind::Comma {
            (adv(ts, p3), Seq::empty())
        } else {
            (p3, Seq::empty())
        };
        let param = FuncDeclParameter {
            identifier: tok(ts, p),
            type_annotation: StaticTypeAnnotation { colon: tok(ts, p1), type_ident: tok(ts, p2) },
        };
        let head = check(ts, p, TokenKind::Identifier) + check(ts, p1, TokenKind::Colon) + check(
            ts,
            p2,
            TokenKind::Identifier,
        );
        if p < ts.len() {
            let rest = p_param_list(ts, comma.0);
            (seq![param] + rest.0, rest.1, head + rest.2)
        } else {
            (seq![param], comma.0, head)
        }
    }
}

/// The parameter list in parentheses, if a `(` comes next.
pub open spec fn p_params(ts: Seq<Token>, p: nat) -> (Seq<FuncDeclParameter>, nat, Seq<Report>) {
    if tok(ts, p).kind != TokenKind::LeftParen {
        (Seq::empty(), p, Seq::empty())
    } else {
        let l = p_param_list(ts, adv(ts, p));
        (l.0, adv(ts, l.1), l.2 + check(ts, l.1, TokenKind::RightParen))
    }
}

/// `func name(parameters) -> type body`.
pub open spec fn p_func(ts: Seq<Token>, p: nat) -> (SynItem, nat, Seq<Report>) {
    let p1 = adv(ts, p);
    let p2 = adv(ts, p1);
    let params = p_params(ts, p2);
    let ret = p_ret(ts, params.1);
    let body = p_stmt(ts, ret.1);
    (
        SynItem::Func(tok(ts, p1), params.0, ret.0, body.0),
        body.1,
        check(ts, p, TokenKind::Func) + check(ts, p1, TokenKind::Identifier) + params.2 + ret.2 + body.2,
    )
}

/// A function declaration, or a statement.
pub open spec fn p_item(ts: Seq<Token>, p: nat) -> (SynItem, nat, Seq<Report>) {
    if tok(ts, p).kind == TokenKind::Func {
        p_func(ts, p)
    } else {
        let s = p_stmt(ts, p);
        (SynItem::Stmt(s.0), s.1, s.2)
    }
}

/// Items up to the end of the tokens.
pub open spec fn p_items(ts: Seq<Token>, p: nat) -> (Seq<SynItem>, nat, Seq<Report>)
    decreases rem(ts, p),
{
    if tok(ts, p).kind == TokenKind::Eof {
        (Seq::empty(), p, Seq::empty())
    } else {
        let it = p_item(ts, p);
        if it.1 > p && it.1 <= ts.len() {
            let rest = p_items(ts, it.1);
            (seq![it.0] + rest.0, rest.1, it.2 + rest.2)
        } else {
            (seq![it.0], it.1, it.2)
        }
    }
}

/// The tree of the statement at position `s`, its expressions read from all of `ast`.
pub open spec fn syn_stmt_full(ast: Ast, s: int) -> SynStmt {
    syn_stmt(ast, s, ast.expressions@.len() as int)
}

/// Growing a well-formed arena leaves the tree of a statement it held as it was.
pub proof fn lemma_syn_stmt_full_stable(a: Ast, b: Ast, s: int)
    requires
        a.wf(),
        arena_extends(a, b),
        0 <= s < a.statements@.len(),
    ensures
        syn_stmt_full(b, s) == syn_stmt_full(a, s),
{
    let alen = a.expressions@.len() as int;
    assert(a.statements@[s] == a.statements@[s]);
    lemma_syn_stmt_stable(a, b, s, alen);
    assert(b.statements@[s] == a.statements@[s]);
    lemma_syn_stmt_bound(b, s, alen, b.expressions@.len() as int);
}

/// The trees of the statements `stmts` are those of each statement.
pub proof fn lemma_syn_stmts_elements(ast: Ast, stmts: Seq<StmtId>, bound: int)
    requires
        0 <= bound <= ast.expressions@.len(),
        forall|k: int| 0 <= k < stmts.len() ==> {
            &&& (#[trigger] stmts[k]).idx < ast.statements@.len()
            &&& stmt_below(ast.statements@[stmts[k].idx as int].kind, bound as nat)
        },
    ensures
        syn_stmts(ast, stmts, bound).len() == stmts.len(),
        forall|k: int| 0 <= k < stmts.len() ==> #[trigger] syn_stmts(ast, stmts, bound)[k] == syn_stmt_full(
            ast,
            stmts[k].idx as int,
        ),
    decreases stmts.len(),
{
    if stmts.len() > 0 {
        let init = stmts.drop_last();
        assert forall|k: int| 0 <= k < init.len() implies {
            &&& (#[trigger] init[k]).idx < ast.statements@.len()
            &&& stmt_below(ast.statements@[init[k].idx as int].kind, bound as nat)
        } by {
            assert(init[k] == stmts[k]);
        }
        lemma_syn_stmts_elements(ast, init, bound);
        let last = stmts[stmts.len() - 1];
        assert(stmts.last() == last);
        lemma_syn_stmt_bound(ast, last.idx as int, bound, ast.expressions@.len() as int);
        assert forall|k: int| 0 <= k < stmts.len() implies #[trigger] syn_stmts(ast, stmts, bound)[k]
            == syn_stmt_full(ast, stmts[k].idx as int) by {
            if k < stmts.len() - 1 {
                assert(init[k] == stmts[k]);
                assert(syn_stmts(ast, init, bound)[k] == syn_stmt_full(ast, init[k].idx as int));
            }
        }
    }
}

/// The trees of the expressions `args` are those of each expression.
pub proof fn lemma_syn_args_elements(ast: Ast, args: Seq<ExprId>, bound: int)
    requires
        forall|k: int| 0 <= k < args.len() ==> (#[trigger] args[k]).idx < bound,
    ensures
        syn_args(ast, args, bound).len() == args.len(),
        forall|k: int| 0 <= k < args.len() ==> #[trigger] syn_args(ast, args, bound)[k] == syn_expr(
            ast,
            args[k].idx as int,
        ),
    decreases args.len(),
{
    if args.len() > 0 {
        let init = args.drop_last();
        assert forall|k: int| 0 <= k < init.len() implies (#[trigger] init[k]).idx < bound by {
            assert(init[k] == args[k]);
        }
        lemma_syn_args_elements(ast, init, bound);
        assert(args.last() == args[args.len() - 1]);
        assert forall|k: int| 0 <= k < args.len() implies #[trigger] syn_args(ast, args, bound)[k]
            == syn_expr(ast, args[k].idx as int) by {
            if k < args.len() - 1 {
                assert(init[k] == args[k]);
                assert(syn_args(ast, init, bound)[k] == syn_expr(ast, init[k].idx as int));
            } else {
                assert(syn_sub(ast, args.last(), bound) == syn_expr(ast, args.last().idx as int));
            }
        }
    }
}

/// Growing a well-formed arena leaves the tree of an item it held as it was.
pub proof fn lemma_syn_item_stable(a: Ast, b: Ast, k: int)
    requires
        a.wf(),
        arena_extends(a, b),
        0 <= k < a.items@.len(),
    ensures
        syn_item(b, k) == syn_item(a, k),
{
    assert(b.items@[k] == a.items@[k]);
    assert(a.item_kind_ok(a.items@[k].kind));
    match a.items@[k].kind {
        ItemKind::Func(f) => lemma_syn_stmt_full_stable(a, b, f.body.idx as int),
        ItemKind::Stmt(st) => lemma_syn_stmt_full_stable(a, b, st.idx as int),
    }
}

/// Resolution, which records only types and variables, leaves the tree of an
/// expression as it was.
pub proof fn lemma_syn_expr_same_shape(a: Ast, b: Ast, i: int)
    requires
        same_shape(a, b),
    ensures
        syn_expr(b, i) == syn_expr(a, i),
    decreases i, 3int, 0int,
{
    if 0 <= i < a.expressions@.len() {
        let ka = a.expressions@[i].kind;
        let kb = b.expressions@[i].kind;
        assert(erase_variables(ka) == erase_variables(kb));
        match ka {
            ExprKind::Binary(e) => {
                lemma_syn_sub_same_shape(a, b, e.left, i);
                lemma_syn_sub_same_shape(a, b, e.right, i);
            },
            ExprKind::Unary(e) => lemma_syn_sub_same_shape(a, b, e.operand, i),
            ExprKind::Parenthesized(e) => lemma_syn_sub_same_shape(a, b, e.expression, i),
            ExprKind::Assignment(e) => {
                if let ExprKind::Assignment(eb) = kb {
                    assert(eb.expression == e.expression);
                }
                lemma_syn_sub_same_shape(a, b, e.expression, i);
            },
            ExprKind::Call(e) => lemma_syn_args_same_shape(a, b, e.arguments@, i),
            ExprKind::If(e) => {
                lemma_syn_sub_same_shape(a, b, e.condition, i);
                lemma_syn_sub_same_shape(a, b, e.then_branch, i);
                if let Some(el) = e.else_branch {
                    lemma_syn_sub_same_shape(a, b, el.expr, i);
                }
            },
            ExprKind::Block(e) => lemma_syn_stmts_same_shape(a, b, e.stmts@, i),
            _ => {},
        }
    }
}

pub proof fn lemma_syn_sub_same_shape(a: Ast, b: Ast, e: ExprId, bound: int)
    requires
        same_shape(a, b),
    ensures
        syn_sub(b, e, bound) == syn_sub(a, e, bound),
    decreases bound, 0int, 0int,
{
    if e.idx < bound {
        lemma_syn_expr_same_shape(a, b, e.idx as int);
    }
}

pub proof fn lemma_syn_args_same_shape(a: Ast, b: Ast, args: Seq<ExprId>, bound: int)
    requires
        same_shape(a, b),
    ensures
        syn_args(b, args, bound) == syn_args(a, args, bound),
    decreases bound, 2int, args.len(),
{
    if args.len() > 0 {
        lemma_syn_args_same_shape(a, b, args.drop_last(), bound);
        lemma_syn_sub_same_shape(a, b, args.last(), bound);
    }
}

pub proof fn lemma_syn_stmts_same_shape(a: Ast, b: Ast, stmts: Seq<StmtId>, bound: int)
    requires
        same_shape(a, b),
    ensures
        syn_stmts(b, stmts, bound) == syn_stmts(a, stmts, bound),
    decreases bound, 2int, stmts.len(),
{
    if stmts.len() > 0 {
        lemma_syn_stmts_same_shape(a, b, stmts.drop_last(), bound);
        lemma_syn_stmt_same_shape(a, b, stmts.last().idx as int, bound);
    }
}

pub proof fn lemma_syn_stmt_same_shape(a: Ast, b: Ast, s: int, bound: int)
    requires
        same_shape(a, b),
    ensures
        syn_stmt(b, s, bound) == syn_stmt(a, s, bound),
    decreases bound, 1int, 0int,
{
    if 0 <= s < a.statements@.len() {
        let ka = a.statements@[s].kind;
        assert(erase_stmt_variables(ka) == erase_stmt_variables(b.statements@[s].kind));
        match ka {
            StmtKind::Expr(e) => lemma_syn_sub_same_shape(a, b, e, bound),
            StmtKind::Let(l) => lemma_syn_sub_same_shape(a, b, l.initializer, bound),
            StmtKind::While(w) => {
                lemma_syn_sub_same_shape(a, b, w.condition, bound);
                lemma_syn_sub_same_shape(a, b, w.body, bound);
            },
            StmtKind::Return(r) => {
                if let Some(v) = r.return_value {
                    lemma_syn_sub_same_shape(a, b, v, bound);
                }
            },
        }
    }
}

/// Resolution leaves the tree of every item as it was.
pub proof fn lemma_syn_item_same_shape(a: Ast, b: Ast, k: int)
    requires
        same_shape(a, b),
        0 <= k < a.items@.len(),
    ensures
        syn_item(b, k) == syn_item(a, k),
{
    match a.items@[k].kind {
        ItemKind::Func(f) => lemma_syn_stmt_same_shape(a, b, f.body.idx as int, a.expressions@.len() as int),
        ItemKind::Stmt(st) => lemma_syn_stmt_same_shape(a, b, st.idx as int, a.expressions@.len() as int),
    }
}

} // verus!
