//! The Terebinth language: tokens, syntax trees and their evaluation.
//!
//! A syntax tree lives in an [`Ast`]: three arenas of items, statements and
//! expressions, in which nodes name their children by index.

pub mod evaluator;
pub mod lexer;
pub mod parser;
pub mod printer;
pub mod syntax;

use vstd::prelude::*;

use crate::compilation_unit::VariableIndex;
use crate::idx_vec::{Idx, IdxVec};
use crate::text::{SpanModel, TextSpan, combine_models, span_models};
use crate::typings::Type;
use self::lexer::Token;

verus! {

/// The index of a statement in an [`Ast`].
#[derive(Debug, Clone, Copy, PartialEq, Eq, Hash, Structural)]
pub struct StmtId {
    pub idx: usize,
}

impl Idx for StmtId {
    open spec fn spec_idx(&self) -> nat {
        self.idx as nat
    }

    fn as_idx(&self) -> (r: usize) {
        self.idx
    }

    fn new(idx: usize) -> (r: Self) {
        Self { idx }
    }
}

/// The index of an expression in an [`Ast`].
#[derive(Debug, Clone, Copy, PartialEq, Eq, Hash, Structural)]
pub struct ExprId {
    pub idx: usize,
}

impl Idx for ExprId {
    open spec fn spec_idx(&self) -> nat {
        self.idx as nat
    }

    fn as_idx(&self) -> (r: usize) {
        self.idx
    }

    fn new(idx: usize) -> (r: Self) {
        Self { idx }
    }
}

/// The index of an item in an [`Ast`].
#[derive(Debug, Clone, Copy, PartialEq, Eq, Hash, Structural)]
pub struct ItemId {
    pub idx: usize,
}

impl Idx for ItemId {
    open spec fn spec_idx(&self) -> nat {
        self.idx as nat
    }

    fn as_idx(&self) -> (r: usize) {
        self.idx
    }

    fn new(idx: usize) -> (r: Self) {
        Self { idx }
    }
}

/// A top-level item: a function declaration or a statement.
#[derive(Debug, Clone)]
pub struct Item {
    pub id: ItemId,
    pub kind: ItemKind,
}

impl Item {
    pub fn new(kind: ItemKind, id: ItemId) -> (r: Self)
        ensures
            r.kind == kind,
            r.id == id,
    {
        Self { id, kind }
    }
}

#[derive(Debug, Clone)]
pub enum ItemKind {
    Func(FunctionDeclaration),
    Stmt(StmtId),
}

#[derive(Debug, Clone)]
pub enum StmtKind {
    Expr(ExprId),
    Let(LetStmt),
    While(WhileStmt),
    Return(ReturnStmt),
}

#[derive(Debug, Clone)]
pub struct ReturnStmt {
    pub return_keyword: Token,
    pub return_value: Option<ExprId>,
}

/// A type annotation: `: name`.
#[derive(Debug, Clone)]
pub struct StaticTypeAnnotation {
    pub colon: Token,
    pub type_ident: Token,
}

impl StaticTypeAnnotation {
    pub fn new(colon: Token, type_ident: Token) -> (r: Self)
        ensures
            r.colon == colon,
            r.type_ident == type_ident,
    {
        Self { colon, type_ident }
    }
}

/// A function's return type: `-> name`.
#[derive(Debug, Clone)]
pub struct FunctionReturnType {
    pub arrow: Token,
    pub type_ident: Token,
}

impl FunctionReturnType {
    pub fn new(arrow: Token, type_ident: Token) -> (r: Self)
        ensures
            r.arrow == arrow,
            r.type_ident == type_ident,
    {
        Self { arrow, type_ident }
    }
}

#[derive(Debug, Clone)]
pub struct FuncDeclParameter {
    pub identifier: Token,
    pub type_annotation: StaticTypeAnnotation,
}

#[derive(Debug, Clone)]
pub struct FunctionDeclaration {
    pub identifier: Token,
    pub parameters: Vec<FuncDeclParameter>,
    pub body: StmtId,
    pub return_type: Option<FunctionReturnType>,
}

#[derive(Debug, Clone)]
pub struct WhileStmt {
    pub while_keyword: Token,
    pub condition: ExprId,
    pub body: ExprId,
}

#[derive(Debug, Clone)]
pub struct BlockExpr {
    pub left_brace: Token,
    pub stmts: Vec<StmtId>,
    pub right_brace: Token,
}

#[derive(Debug, Clone)]
pub struct ElseBranch {
    pub else_keyword: Token,
    pub expr: ExprId,
}

impl ElseBranch {
    pub fn new(else_keyword: Token, expr: ExprId) -> (r: Self)
        ensures
            r.else_keyword == else_keyword,
            r.expr == expr,
    {
        ElseBranch { else_keyword, expr }
    }
}

#[derive(Debug, Clone)]
pub struct IfExpr {
    pub if_keyword: Token,
    pub condition: ExprId,
    pub then_branch: ExprId,
    pub else_branch: Option<ElseBranch>,
}

#[derive(Debug, Clone)]
pub struct LetStmt {
    pub identifier: Token,
    pub initializer: ExprId,
    pub type_annotation: Option<StaticTypeAnnotation>,
    pub variable_idx: VariableIndex,
}

#[derive(Debug, Clone)]
pub struct Stmt {
    pub kind: StmtKind,
    pub id: StmtId,
}

impl Stmt {
    pub fn new(kind: StmtKind, id: StmtId) -> (r: Self)
        ensures
            r.kind == kind,
            r.id == id,
    {
        Stmt { kind, id }
    }
}

#[derive(Debug, Clone)]
pub enum ExprKind {
    Number(NumberExpr),
    Binary(BinaryExpr),
    Unary(UnaryExpr),
    Parenthesized(ParenthesizedExpr),
    Variable(VariableExpr),
    Assignment(AssignmentExpr),
    Boolean(BooleanExpr),
    Call(CallExpr),
    If(IfExpr),
    Block(BlockExpr),
    Error(TextSpan),
}

#[derive(Debug, Clone)]
pub struct CallExpr {
    pub identifier: Token,
    pub left_paren: Token,
    pub arguments: Vec<ExprId>,
    pub right_paren: Token,
}

#[derive(Debug, Clone)]
pub struct BooleanExpr {
    pub value: bool,
    pub token: Token,
}

#[derive(Debug, Clone)]
pub struct AssignmentExpr {
    pub identifier: Token,
    pub equals: Token,
    pub expression: ExprId,
    pub variable_idx: VariableIndex,
}

#[derive(Debug, Clone, Copy, PartialEq, Eq, Structural)]
pub enum UnaryOperatorKind {
    Minus,
    BitwiseNot,
}

#[derive(Debug, Clone)]
pub struct UnaryOperator {
    pub kind: UnaryOperatorKind,
    pub token: Token,
}

impl UnaryOperator {
    pub fn new(kind: UnaryOperatorKind, token: Token) -> (r: Self)
        ensures
            r.kind == kind,
            r.token == token,
    {
        Self { kind, token }
    }
}

#[derive(Debug, Clone)]
pub struct UnaryExpr {
    pub operator: UnaryOperator,
    pub operand: ExprId,
}

#[derive(Debug, Clone)]
pub struct VariableExpr {
    pub identifier: Token,
    pub variable_idx: VariableIndex,
}

#[derive(Debug, Clone, Copy, PartialEq, Eq, Structural)]
pub enum BinaryOperatorKind {
    // Arithmetic
    Plus,
    Minus,
    Multiply,
    Divide,
    Power,
    // Bitwise
    BitwiseAnd,
    BitwiseOr,
    BitwiseXor,
    LeftShift,
    RightShift,
    // Relational
    Equals,
    NotEquals,
    LessThan,
    LessThanOrEqual,
    GreaterThan,
    GreaterThanOrEqual,
}

#[derive(Debug, Clone, Copy, PartialEq, Eq, Structural)]
pub enum BinaryOperatorAssociativity {
    Left,
    Right,
}

/// The binding strength of a binary operator kind: the higher, the tighter.
pub open spec fn precedence_of(kind: BinaryOperatorKind) -> u8 {
    match kind {
        BinaryOperatorKind::Equals | BinaryOperatorKind::NotEquals => 30,
        BinaryOperatorKind::LessThan
        | BinaryOperatorKind::LessThanOrEqual
        | BinaryOperatorKind::GreaterThan
        | BinaryOperatorKind::GreaterThanOrEqual => 29,
        BinaryOperatorKind::Power => 20,
        BinaryOperatorKind::Multiply | BinaryOperatorKind::Divide => 19,
        BinaryOperatorKind::Plus | BinaryOperatorKind::Minus => 18,
        BinaryOperatorKind::LeftShift | BinaryOperatorKind::RightShift => 17,
        BinaryOperatorKind::BitwiseAnd => 16,
        BinaryOperatorKind::BitwiseXor => 15,
        BinaryOperatorKind::BitwiseOr => 14,
    }
}

/// The comparison operators: `==`, `!=`, `<`, `<=`, `>` and `>=`.
pub open spec fn is_comparison_kind(kind: BinaryOperatorKind) -> bool {
    matches!(
        kind,
        BinaryOperatorKind::Equals | BinaryOperatorKind::NotEquals | BinaryOperatorKind::LessThan
            | BinaryOperatorKind::LessThanOrEqual | BinaryOperatorKind::GreaterThan
            | BinaryOperatorKind::GreaterThanOrEqual
    )
}

/// How tightly the binary operators bind, from the tightest: `==` and `!=`;
/// then `<`, `<=`, `>`, `>=`; then `**`; then `*` and `/`; then `+` and `-`;
/// then `<<` and `>>`; then `&`, `^` and `|`, in that order. Operators on one
/// level bind alike.
pub proof fn lemma_precedence_order()
    ensures
        precedence_of(BinaryOperatorKind::Equals) == precedence_of(BinaryOperatorKind::NotEquals),
        precedence_of(BinaryOperatorKind::NotEquals) > precedence_of(BinaryOperatorKind::LessThan),
        precedence_of(BinaryOperatorKind::LessThan) == precedence_of(BinaryOperatorKind::LessThanOrEqual),
        precedence_of(BinaryOperatorKind::LessThan) == precedence_of(BinaryOperatorKind::GreaterThan),
        precedence_of(BinaryOperatorKind::LessThan) == precedence_of(BinaryOperatorKind::GreaterThanOrEqual),
        precedence_of(BinaryOperatorKind::LessThan) > precedence_of(BinaryOperatorKind::Power),
        precedence_of(BinaryOperatorKind::Power) > precedence_of(BinaryOperatorKind::Multiply),
        precedence_of(BinaryOperatorKind::Multiply) == precedence_of(BinaryOperatorKind::Divide),
        precedence_of(BinaryOperatorKind::Divide) > precedence_of(BinaryOperatorKind::Plus),
        precedence_of(BinaryOperatorKind::Plus) == precedence_of(BinaryOperatorKind::Minus),
        precedence_of(BinaryOperatorKind::Minus) > precedence_of(BinaryOperatorKind::LeftShift),
        precedence_of(BinaryOperatorKind::LeftShift) == precedence_of(BinaryOperatorKind::RightShift),
        precedence_of(BinaryOperatorKind::RightShift) > precedence_of(BinaryOperatorKind::BitwiseAnd),
        precedence_of(BinaryOperatorKind::BitwiseAnd) > precedence_of(BinaryOperatorKind::BitwiseXor),
        precedence_of(BinaryOperatorKind::BitwiseXor) > precedence_of(BinaryOperatorKind::BitwiseOr),
        forall|k: BinaryOperatorKind| #[trigger] precedence_of(k) >= precedence_of(BinaryOperatorKind::BitwiseOr),
        forall|k: BinaryOperatorKind| #[trigger] precedence_of(k) <= precedence_of(BinaryOperatorKind::Equals),
{
}

/// The associativity of a binary operator kind: only `**` groups to the right.
pub open spec fn associativity_of(kind: BinaryOperatorKind) -> BinaryOperatorAssociativity {
    match kind {
        BinaryOperatorKind::Power => BinaryOperatorAssociativity::Right,
        _ => BinaryOperatorAssociativity::Left,
    }
}

#[derive(Debug, Clone)]
pub struct BinaryOperator {
    pub kind: BinaryOperatorKind,
    pub token: Token,
}

impl BinaryOperator {
    pub fn new(kind: BinaryOperatorKind, token: Token) -> (r: Self)
        ensures
            r.kind == kind,
            r.token == token,
    {
        BinaryOperator { kind, token }
    }

    pub fn precedence(&self) -> (r: u8)
        ensures
            r == precedence_of(self.kind),
    {
        match self.kind {
            BinaryOperatorKind::Equals | BinaryOperatorKind::NotEquals => 30,
            BinaryOperatorKind::LessThan
            | BinaryOperatorKind::LessThanOrEqual
            | BinaryOperatorKind::GreaterThan
            | BinaryOperatorKind::GreaterThanOrEqual => 29,
            BinaryOperatorKind::Power => 20,
            BinaryOperatorKind::Multiply | BinaryOperatorKind::Divide => 19,
            BinaryOperatorKind::Plus | BinaryOperatorKind::Minus => 18,
            BinaryOperatorKind::LeftShift | BinaryOperatorKind::RightShift => 17,
            BinaryOperatorKind::BitwiseAnd => 16,
            BinaryOperatorKind::BitwiseXor => 15,
            BinaryOperatorKind::BitwiseOr => 14,
        }
    }

    pub fn associativity(&self) -> (r: BinaryOperatorAssociativity)
        ensures
            r == associativity_of(self.kind),
    {
        match self.kind {
            BinaryOperatorKind::Power => BinaryOperatorAssociativity::Right,
            _ => BinaryOperatorAssociativity::Left,
        }
    }
}

#[derive(Debug, Clone)]
pub struct BinaryExpr {
    pub left: ExprId,
    pub operator: BinaryOperator,
    pub right: ExprId,
}

#[derive(Debug, Clone)]
pub struct NumberExpr {
    pub number: i64,
    pub token: Token,
}

#[derive(Debug, Clone)]
pub struct ParenthesizedExpr {
    pub left_paren: Token,
    pub expression: ExprId,
    pub right_paren: Token,
}

#[derive(Debug, Clone)]
pub struct Expr {
    pub kind: ExprKind,
    pub id: ExprId,
    pub ty: Type,
}

impl Expr {
    pub fn new(kind: ExprKind, id: ExprId, expr_type: Type) -> (r: Self)
        ensures
            r.kind == kind,
            r.id == id,
            r.ty == expr_type,
    {
        Expr { kind, id, ty: expr_type }
    }
}

// ---------------------------------------------------------------------------
// Well-formed trees.

/// The expressions that an expression of this kind names directly.
pub open spec fn expr_children(kind: ExprKind) -> Seq<ExprId> {
    match kind {
        ExprKind::Binary(b) => seq![b.left, b.right],
        ExprKind::Unary(u) => seq![u.operand],
        ExprKind::Parenthesized(p) => seq![p.expression],
        ExprKind::Assignment(a) => seq![a.expression],
        ExprKind::Call(c) => c.arguments@,
        ExprKind::If(i) => match i.else_branch {
            Some(e) => seq![i.condition, i.then_branch, e.expr],
            None => seq![i.condition, i.then_branch],
        },
        _ => Seq::empty(),
    }
}

/// The statements that an expression of this kind names directly.
pub open spec fn expr_stmt_children(kind: ExprKind) -> Seq<StmtId> {
    match kind {
        ExprKind::Block(b) => b.stmts@,
        _ => Seq::empty(),
    }
}

/// The expressions that a statement of this kind names.
pub open spec fn stmt_children(kind: StmtKind) -> Seq<ExprId> {
    match kind {
        StmtKind::Expr(e) => seq![e],
        StmtKind::Let(l) => seq![l.initializer],
        StmtKind::While(w) => seq![w.condition, w.body],
        StmtKind::Return(r) => match r.return_value {
            Some(e) => seq![e],
            None => Seq::empty(),
        },
    }
}

/// All expressions named by `kind` lie below position `bound`.
pub open spec fn stmt_below(kind: StmtKind, bound: nat) -> bool {
    forall|k: int| 0 <= k < stmt_children(kind).len() ==> (#[trigger] stmt_children(kind)[k]).idx < bound
}

/// The arena in which a Terebinth program's syntax tree lives.
#[derive(Debug)]
pub struct Ast {
    pub statements: IdxVec<StmtId, Stmt>,
    pub expressions: IdxVec<ExprId, Expr>,
    pub items: IdxVec<ItemId, Item>,
}

impl Ast {
    /// The children of an expression `kind` placed at position `bound` are valid:
    /// child expressions come before it, and the statements of a block exist and
    /// name only expressions before it.
    pub open spec fn expr_kind_ok(&self, kind: ExprKind, bound: nat) -> bool {
        &&& forall|k: int| 0 <= k < expr_children(kind).len() ==> (#[trigger] expr_children(kind)[k]).idx < bound
        &&& forall|k: int| 0 <= k < expr_stmt_children(kind).len() ==> {
            let s = #[trigger] expr_stmt_children(kind)[k];
            &&& s.idx < self.statements@.len()
            &&& stmt_below(self.statements@[s.idx as int].kind, bound)
        }
    }

    /// The statements named by an item exist.
    pub open spec fn item_kind_ok(&self, kind: ItemKind) -> bool {
        match kind {
            ItemKind::Func(f) => f.body.idx < self.statements@.len(),
            ItemKind::Stmt(s) => s.idx < self.statements@.len(),
        }
    }

    /// Every node sits at the position its id names, and names only nodes that
    /// exist; an expression's subexpressions all come before it.
    pub open spec fn wf(&self) -> bool {
        &&& forall|i: int| 0 <= i < self.expressions@.len() ==> {
            let e = #[trigger] self.expressions@[i];
            &&& e.id.idx == i
            &&& self.expr_kind_ok(e.kind, i as nat)
        }
        &&& forall|i: int| 0 <= i < self.statements@.len() ==> {
            let s = #[trigger] self.statements@[i];
            &&& s.id.idx == i
            &&& stmt_below(s.kind, self.expressions@.len())
        }
        &&& forall|i: int| 0 <= i < self.items@.len() ==> {
            let it = #[trigger] self.items@[i];
            &&& it.id.idx == i
            &&& self.item_kind_ok(it.kind)
        }
    }

    pub fn new() -> (r: Self)
        ensures
            r.wf(),
            r.statements@.len() == 0,
            r.expressions@.len() == 0,
            r.items@.len() == 0,
    {
        Self { statements: IdxVec::new(), expressions: IdxVec::new(), items: IdxVec::new() }
    }

    pub fn query_item(&self, item_id: ItemId) -> (r: &Item)
        requires
            item_id.idx < self.items@.len(),
        ensures
            *r == self.items@[item_id.idx as int],
    {
        self.items.get(item_id)
    }

    pub fn query_expr(&self, expr_id: ExprId) -> (r: &Expr)
        requires
            expr_id.idx < self.expressions@.len(),
        ensures
            *r == self.expressions@[expr_id.idx as int],
    {
        self.expressions.get(expr_id)
    }

    /// The expression `expr_id`, to be changed in place.
    pub fn query_expr_mut(&mut self, expr_id: ExprId) -> (r: &mut Expr)
        requires
            expr_id.idx < old(self).expressions@.len(),
        ensures
            *r == old(self).expressions@[expr_id.idx as int],
            final(self).expressions@ == old(self).expressions@.update(expr_id.idx as int, *final(r)),
            final(self).statements@ == old(self).statements@,
            final(self).items@ == old(self).items@,
    {
        self.expressions.get_mut(expr_id)
    }

    /// The statement `stmt_id`, to be changed in place.
    pub fn query_stmt_mut(&mut self, stmt_id: StmtId) -> (r: &mut Stmt)
        requires
            stmt_id.idx < old(self).statements@.len(),
        ensures
            *r == old(self).statements@[stmt_id.idx as int],
            final(self).statements@ == old(self).statements@.update(stmt_id.idx as int, *final(r)),
            final(self).expressions@ == old(self).expressions@,
            final(self).items@ == old(self).items@,
    {
        self.statements.get_mut(stmt_id)
    }

    pub fn query_stmt(&self, stmt_id: StmtId) -> (r: &Stmt)
        requires
            stmt_id.idx < self.statements@.len(),
        ensures
            *r == self.statements@[stmt_id.idx as int],
    {
        self.statements.get(stmt_id)
    }

    /// Records the variable that an assignment or a variable expression refers to.
    pub fn set_variable(&mut self, expr_id: ExprId, variable_idx: VariableIndex)
        requires
            old(self).wf(),
            expr_id.idx < old(self).expressions@.len(),
            old(self).expressions@[expr_id.idx as int].kind is Assignment
                || old(self).expressions@[expr_id.idx as int].kind is Variable,
        ensures
            final(self).wf(),
            same_shape(*final(self), *old(self)),
            final(self).statements@ == old(self).statements@,
            final(self).items@ == old(self).items@,
            final(self).expressions@.len() == old(self).expressions@.len(),
            forall|i: int| 0 <= i < old(self).expressions@.len() && i != expr_id.idx
                ==> final(self).expressions@[i] == old(self).expressions@[i],
            ({
                let old_e = old(self).expressions@[expr_id.idx as int];
                let new_e = final(self).expressions@[expr_id.idx as int];
                &&& new_e.id == old_e.id
                &&& new_e.ty == old_e.ty
                &&& match (old_e.kind, new_e.kind) {
                    (ExprKind::Assignment(a), ExprKind::Assignment(b)) => b == AssignmentExpr {
                        variable_idx,
                        ..a
                    },
                    (ExprKind::Variable(a), ExprKind::Variable(b)) => b == VariableExpr {
                        variable_idx,
                        ..a
                    },
                    _ => false,
                }
            }),
    {
        let expr = self.expressions.get_mut(expr_id);
        match &mut expr.kind {
            ExprKind::Assignment(assign_expr) => {
                assign_expr.variable_idx = variable_idx;
            },
            ExprKind::Variable(var_expr) => {
                var_expr.variable_idx = variable_idx;
            },
            _ => {},
        }
        proof { self.lemma_wf_after_expr_update(*old(self), expr_id.idx as int); }
    }

    /// Records the variable that a `let` statement declares.
    pub fn set_variable_for_stmt(&mut self, stmt_id: StmtId, variable_idx: VariableIndex)
        requires
            old(self).wf(),
            stmt_id.idx < old(self).statements@.len(),
            old(self).statements@[stmt_id.idx as int].kind is Let,
        ensures
            final(self).wf(),
            same_shape(*final(self), *old(self)),
            final(self).expressions@ == old(self).expressions@,
            final(self).items@ == old(self).items@,
            final(self).statements@.len() == old(self).statements@.len(),
            forall|i: int| 0 <= i < old(self).statements@.len() && i != stmt_id.idx
                ==> final(self).statements@[i] == old(self).statements@[i],
            ({
                let old_s = old(self).statements@[stmt_id.idx as int];
                let new_s = final(self).statements@[stmt_id.idx as int];
                &&& new_s.id == old_s.id
                &&& match (old_s.kind, new_s.kind) {
                    (StmtKind::Let(a), StmtKind::Let(b)) => b == LetStmt { variable_idx, ..a },
                    _ => false,
                }
            }),
    {
        let stmt = self.statements.get_mut(stmt_id);
        match &mut stmt.kind {
            StmtKind::Let(var_decl) => {
                var_decl.variable_idx = variable_idx;
            },
            _ => {},
        }
        assert forall|i: int| 0 <= i < self.expressions@.len() implies {
            let e = #[trigger] self.expressions@[i];
            self.expr_kind_ok(e.kind, i as nat)
        } by {
            let e = self.expressions@[i];
            assert(old(self).expr_kind_ok(e.kind, i as nat));
            assert forall|k: int| 0 <= k < expr_stmt_children(e.kind).len() implies {
                let s = #[trigger] expr_stmt_children(e.kind)[k];
                &&& s.idx < self.statements@.len()
                &&& stmt_below(self.statements@[s.idx as int].kind, i as nat)
            } by {
                let s = expr_stmt_children(e.kind)[k];
                if s.idx == stmt_id.idx {
                    assert(stmt_below(old(self).statements@[s.idx as int].kind, i as nat));
                    assert(stmt_children(self.statements@[s.idx as int].kind) =~= stmt_children(
                        old(self).statements@[s.idx as int].kind,
                    ));
                }
            }
        }
        assert forall|i: int| 0 <= i < self.statements@.len() implies {
            let s = #[trigger] self.statements@[i];
            &&& s.id.idx == i
            &&& stmt_below(s.kind, self.expressions@.len())
        } by {
            if i == stmt_id.idx {
                assert(stmt_children(self.statements@[i].kind) =~= stmt_children(
                    old(self).statements@[i].kind,
                ));
            }
        }
    }

    /// Records the type of an expression.
    pub fn set_type(&mut self, expr_id: ExprId, expr_type: Type)
        requires
            old(self).wf(),
            expr_id.idx < old(self).expressions@.len(),
        ensures
            final(self).wf(),
            same_shape(*final(self), *old(self)),
            final(self).statements@ == old(self).statements@,
            final(self).items@ == old(self).items@,
            final(self).expressions@ == old(self).expressions@.update(
                expr_id.idx as int,
                Expr { ty: expr_type, ..old(self).expressions@[expr_id.idx as int] },
            ),
    {
        let expr = self.expressions.get_mut(expr_id);
        expr.ty = expr_type;
        proof { self.lemma_wf_after_expr_update(*old(self), expr_id.idx as int); }
    }

    /// Replacing an expression by one with the same id and the same children keeps
    /// the tree well formed.
    proof fn lemma_wf_after_expr_update(&self, prev: Ast, j: int)
        requires
            prev.wf(),
            0 <= j < prev.expressions@.len(),
            self.statements@ == prev.statements@,
            self.items@ == prev.items@,
            self.expressions@.len() == prev.expressions@.len(),
            forall|i: int| 0 <= i < prev.expressions@.len() && i != j ==> self.expressions@[i]
                == prev.expressions@[i],
            self.expressions@[j].id == prev.expressions@[j].id,
            expr_children(self.expressions@[j].kind) == expr_children(prev.expressions@[j].kind),
            expr_stmt_children(self.expressions@[j].kind) == expr_stmt_children(
                prev.expressions@[j].kind,
            ),
        ensures
            self.wf(),
    {
        assert forall|i: int| 0 <= i < self.expressions@.len() implies {
            let e = #[trigger] self.expressions@[i];
            &&& e.id.idx == i
            &&& self.expr_kind_ok(e.kind, i as nat)
        } by {
            let e = prev.expressions@[i];
            assert(prev.expr_kind_ok(e.kind, i as nat));
        }
    }

    /// Adds a statement; its id names its position.
    pub fn stmt_from_kind(&mut self, kind: StmtKind) -> (r: StmtId)
        requires
            old(self).wf(),
            stmt_below(kind, old(self).expressions@.len()),
        ensures
            final(self).wf(),
            r.idx == old(self).statements@.len(),
            final(self).statements@ == old(self).statements@.push(Stmt { kind, id: r }),
            final(self).expressions@ == old(self).expressions@,
            final(self).items@ == old(self).items@,
    {
        let id = StmtId { idx: self.statements.len() };
        let stmt = Stmt::new(kind, id);
        self.statements.push(stmt);
        assert forall|i: int| 0 <= i < self.expressions@.len() implies {
            let e = #[trigger] self.expressions@[i];
            &&& e.id.idx == i
            &&& self.expr_kind_ok(e.kind, i as nat)
        } by {
            let e = old(self).expressions@[i];
            assert(old(self).expr_kind_ok(e.kind, i as nat));
        }
        assert forall|i: int| 0 <= i < self.items@.len() implies {
            let it = #[trigger] self.items@[i];
            &&& it.id.idx == i
            &&& self.item_kind_ok(it.kind)
        } by {
            assert(old(self).item_kind_ok(old(self).items@[i].kind));
        }
        id
    }

    /// Adds an expression of type `Unresolved`; its id names its position.
    pub fn expr_from_kind(&mut self, kind: ExprKind) -> (r: ExprId)
        requires
            old(self).wf(),
            old(self).expr_kind_ok(kind, old(self).expressions@.len()),
        ensures
            final(self).wf(),
            r.idx == old(self).expressions@.len(),
            final(self).expressions@ == old(self).expressions@.push(
                Expr { kind, id: r, ty: Type::Unresolved },
            ),
            final(self).statements@ == old(self).statements@,
            final(self).items@ == old(self).items@,
    {
        let id = ExprId { idx: self.expressions.len() };
        let expr = Expr::new(kind, id, Type::Unresolved);
        self.expressions.push(expr);
        assert forall|i: int| 0 <= i < self.statements@.len() implies {
            let s = #[trigger] self.statements@[i];
            &&& s.id.idx == i
            &&& stmt_below(s.kind, self.expressions@.len())
        } by {
            let s = self.statements@[i];
            assert(stmt_below(s.kind, old(self).expressions@.len()));
        }
        id
    }

    /// Adds an item; its id names its position.
    pub fn item_from_kind(&mut self, kind: ItemKind) -> (r: ItemId)
        requires
            old(self).wf(),
            old(self).item_kind_ok(kind),
        ensures
            final(self).wf(),
            r.idx == old(self).items@.len(),
            final(self).items@ == old(self).items@.push(Item { kind, id: r }),
            final(self).expressions@ == old(self).expressions@,
            final(self).statements@ == old(self).statements@,
    {
        let id = ItemId { idx: self.items.len() };
        let item = Item::new(kind, id);
        self.items.push(item);
        id
    }
    pub fn expression_statement(&mut self, expr_id: ExprId) -> (r: StmtId)
        requires
            old(self).wf(),
            expr_id.idx < old(self).expressions@.len(),
        ensures
            final(self).wf(),
            r.idx == old(self).statements@.len(),
            final(self).statements@ == old(self).statements@.push(
                Stmt { kind: StmtKind::Expr(expr_id), id: r },
            ),
            final(self).expressions@ == old(self).expressions@,
            final(self).items@ == old(self).items@,
    {
        self.stmt_from_kind(StmtKind::Expr(expr_id))
    }

    /// Adds `let identifier = initializer`, whose variable is not resolved yet (index 0).
    pub fn let_statement(
        &mut self,
        identifier: Token,
        initializer: ExprId,
        type_annotation: Option<StaticTypeAnnotation>,
    ) -> (r: StmtId)
        requires
            old(self).wf(),
            initializer.idx < old(self).expressions@.len(),
        ensures
            final(self).wf(),
            r.idx == old(self).statements@.len(),
            final(self).statements@ == old(self).statements@.push(
                Stmt {
                    kind: StmtKind::Let(
                        LetStmt {
                            identifier,
                            initializer,
                            type_annotation,
                            variable_idx: VariableIndex { idx: 0 },
                        },
                    ),
                    id: r,
                },
            ),
            final(self).expressions@ == old(self).expressions@,
            final(self).items@ == old(self).items@,
    {
        self.stmt_from_kind(
            StmtKind::Let(
                LetStmt {
                    identifier,
                    initializer,
                    type_annotation,
                    variable_idx: VariableIndex::new(0),
                },
            ),
        )
    }

    pub fn if_expr(
        &mut self,
        if_keyword: Token,
        condition: ExprId,
        then: ExprId,
        else_statement: Option<ElseBranch>,
    ) -> (r: ExprId)
        requires
            old(self).wf(),
            condition.idx < old(self).expressions@.len(),
            then.idx < old(self).expressions@.len(),
            else_statement matches Some(e) ==> e.expr.idx < old(self).expressions@.len(),
        ensures
            final(self).wf(),
            r.idx == old(self).expressions@.len(),
            final(self).expressions@ == old(self).expressions@.push(
                Expr {
                    kind: ExprKind::If(
                        IfExpr {
                            if_keyword,
                            condition,
                            then_branch: then,
                            else_branch: else_statement,
                        },
                    ),
                    id: r,
                    ty: Type::Unresolved,
                },
            ),
            final(self).statements@ == old(self).statements@,
            final(self).items@ == old(self).items@,
    {
        self.expr_from_kind(
            ExprKind::If(
                IfExpr { if_keyword, condition, then_branch: then, else_branch: else_statement },
            ),
        )
    }

    pub fn while_statement(&mut self, while_keyword: Token, condition: ExprId, body: ExprId) -> (r:
        StmtId)
        requires
            old(self).wf(),
            condition.idx < old(self).expressions@.len(),
            body.idx < old(self).expressions@.len(),
        ensures
            final(self).wf(),
            r.idx == old(self).statements@.len(),
            final(self).statements@ == old(self).statements@.push(
                Stmt { kind: StmtKind::While(WhileStmt { while_keyword, condition, body }), id: r },
            ),
            final(self).expressions@ == old(self).expressions@,
            final(self).items@ == old(self).items@,
    {
        self.stmt_from_kind(StmtKind::While(WhileStmt { while_keyword, condition, body }))
    }

    pub fn block_expression(&mut self, left_brace: Token, stmts: Vec<StmtId>, right_brace: Token) -> (r:
        ExprId)
        requires
            old(self).wf(),
            forall|k: int| 0 <= k < stmts@.len() ==> (#[trigger] stmts@[k]).idx < old(
                self,
            ).statements@.len(),
        ensures
            final(self).wf(),
            r.idx == old(self).expressions@.len(),
            final(self).expressions@ == old(self).expressions@.push(
                Expr {
                    kind: ExprKind::Block(BlockExpr { left_brace, stmts, right_brace }),
                    id: r,
                    ty: Type::Unresolved,
                },
            ),
            final(self).statements@ == old(self).statements@,
            final(self).items@ == old(self).items@,
    {
        let ghost kind = ExprKind::Block(BlockExpr { left_brace, stmts, right_brace });
        assert forall|k: int| 0 <= k < expr_stmt_children(kind).len() implies {
            let s = #[trigger] expr_stmt_children(kind)[k];
            &&& s.idx < self.statements@.len()
            &&& stmt_below(self.statements@[s.idx as int].kind, self.expressions@.len())
        } by {
            let s = stmts@[k];
            assert(stmt_below(self.statements@[s.idx as int].kind, self.expressions@.len()));
        }
        self.expr_from_kind(ExprKind::Block(BlockExpr { left_brace, stmts, right_brace }))
    }

    pub fn return_statement(&mut self, return_keyword: Token, return_value: Option<ExprId>) -> (r:
        StmtId)
        requires
            old(self).wf(),
            return_value matches Some(e) ==> e.idx < old(self).expressions@.len(),
        ensures
            final(self).wf(),
            r.idx == old(self).statements@.len(),
            final(self).statements@ == old(self).statements@.push(
                Stmt { kind: StmtKind::Return(ReturnStmt { return_keyword, return_value }), id: r },
            ),
            final(self).expressions@ == old(self).expressions@,
            final(self).items@ == old(self).items@,
    {
        self.stmt_from_kind(StmtKind::Return(ReturnStmt { return_keyword, return_value }))
    }

    /// Adds the item that declares a function.
    pub fn func_decl_statement(
        &mut self,
        identifier: Token,
        parameters: Vec<FuncDeclParameter>,
        body: StmtId,
        return_type: Option<FunctionReturnType>,
    ) -> (r: ItemId)
        requires
            old(self).wf(),
            body.idx < old(self).statements@.len(),
        ensures
            final(self).wf(),
            r.idx == old(self).items@.len(),
            final(self).items@ == old(self).items@.push(
                Item {
                    kind: ItemKind::Func(
                        FunctionDeclaration { identifier, parameters, body, return_type },
                    ),
                    id: r,
                },
            ),
            final(self).expressions@ == old(self).expressions@,
            final(self).statements@ == old(self).statements@,
    {
        self.item_from_kind(
            ItemKind::Func(FunctionDeclaration { identifier, parameters, body, return_type }),
        )
    }

    pub fn number_expression(&mut self, token: Token, number: i64) -> (r: ExprId)
        requires
            old(self).wf(),
        ensures
            final(self).wf(),
            r.idx == old(self).expressions@.len(),
            final(self).expressions@ == old(self).expressions@.push(
                Expr { kind: ExprKind::Number(NumberExpr { number, token }), id: r, ty: Type::Unresolved },
            ),
            final(self).statements@ == old(self).statements@,
            final(self).items@ == old(self).items@,
    {
        self.expr_from_kind(ExprKind::Number(NumberExpr { number, token }))
    }

    pub fn binary_expression(&mut self, operator: BinaryOperator, left: ExprId, right: ExprId) -> (r:
        ExprId)
        requires
            old(self).wf(),
            left.idx < old(self).expressions@.len(),
            right.idx < old(self).expressions@.len(),
        ensures
            final(self).wf(),
            r.idx == old(self).expressions@.len(),
            final(self).expressions@ == old(self).expressions@.push(
                Expr {
                    kind: ExprKind::Binary(BinaryExpr { left, operator, right }),
                    id: r,
                    ty: Type::Unresolved,
                },
            ),
            final(self).statements@ == old(self).statements@,
            final(self).items@ == old(self).items@,
    {
        self.expr_from_kind(ExprKind::Binary(BinaryExpr { left, operator, right }))
    }

    pub fn parenthesized_expression(
        &mut self,
        left_paren: Token,
        expression: ExprId,
        right_paren: Token,
    ) -> (r: ExprId)
        requires
            old(self).wf(),
            expression.idx < old(self).expressions@.len(),
        ensures
            final(self).wf(),
            r.idx == old(self).expressions@.len(),
            final(self).expressions@ == old(self).expressions@.push(
                Expr {
                    kind: ExprKind::Parenthesized(
                        ParenthesizedExpr { left_paren, expression, right_paren },
                    ),
                    id: r,
                    ty: Type::Unresolved,
                },
            ),
            final(self).statements@ == old(self).statements@,
            final(self).items@ == old(self).items@,
    {
        self.expr_from_kind(
            ExprKind::Parenthesized(ParenthesizedExpr { left_paren, expression, right_paren }),
        )
    }

    /// Adds a use of the variable `identifier`, not resolved yet (index 0).
    pub fn variable_expression(&mut self, identifier: Token) -> (r: ExprId)
        requires
            old(self).wf(),
        ensures
            final(self).wf(),
            r.idx == old(self).expressions@.len(),
            final(self).expressions@ == old(self).expressions@.push(
                Expr {
                    kind: ExprKind::Variable(
                        VariableExpr { identifier, variable_idx: VariableIndex { idx: 0 } },
                    ),
                    id: r,
                    ty: Type::Unresolved,
                },
            ),
            final(self).statements@ == old(self).statements@,
            final(self).items@ == old(self).items@,
    {
        self.expr_from_kind(
            ExprKind::Variable(VariableExpr { identifier, variable_idx: VariableIndex::new(0) }),
        )
    }

    pub fn unary_expression(&mut self, operator: UnaryOperator, operand: ExprId) -> (r: ExprId)
        requires
            old(self).wf(),
            operand.idx < old(self).expressions@.len(),
        ensures
            final(self).wf(),
            r.idx == old(self).expressions@.len(),
            final(self).expressions@ == old(self).expressions@.push(
                Expr {
                    kind: ExprKind::Unary(UnaryExpr { operator, operand }),
                    id: r,
                    ty: Type::Unresolved,
                },
            ),
            final(self).statements@ == old(self).statements@,
            final(self).items@ == old(self).items@,
    {
        self.expr_from_kind(ExprKind::Unary(UnaryExpr { operator, operand }))
    }

    /// Adds `identifier = expression`, whose variable is not resolved yet (index 0).
    pub fn assignment_expression(&mut self, identifier: Token, equals: Token, expression: ExprId) -> (r:
        ExprId)
        requires
            old(self).wf(),
            expression.idx < old(self).expressions@.len(),
        ensures
            final(self).wf(),
            r.idx == old(self).expressions@.len(),
            final(self).expressions@ == old(self).expressions@.push(
                Expr {
                    kind: ExprKind::Assignment(
                        AssignmentExpr {
                            identifier,
                            equals,
                            expression,
                            variable_idx: VariableIndex { idx: 0 },
                        },
                    ),
                    id: r,
                    ty: Type::Unresolved,
                },
            ),
            final(self).statements@ == old(self).statements@,
            final(self).items@ == old(self).items@,
    {
        self.expr_from_kind(
            ExprKind::Assignment(
                AssignmentExpr { identifier, equals, expression, variable_idx: VariableIndex::new(0) },
            ),
        )
    }

    pub fn boolean_expression(&mut self, token: Token, value: bool) -> (r: ExprId)
        requires
            old(self).wf(),
        ensures
            final(self).wf(),
            r.idx == old(self).expressions@.len(),
            final(self).expressions@ == old(self).expressions@.push(
                Expr { kind: ExprKind::Boolean(BooleanExpr { value, token }), id: r, ty: Type::Unresolved },
            ),
            final(self).statements@ == old(self).statements@,
            final(self).items@ == old(self).items@,
    {
        self.expr_from_kind(ExprKind::Boolean(BooleanExpr { value, token }))
    }

    pub fn call_expression(
        &mut self,
        identifier: Token,
        left_paren: Token,
        arguments: Vec<ExprId>,
        right_paren: Token,
    ) -> (r: ExprId)
        requires
            old(self).wf(),
            forall|k: int| 0 <= k < arguments@.len() ==> (#[trigger] arguments@[k]).idx < old(
                self,
            ).expressions@.len(),
        ensures
            final(self).wf(),
            r.idx == old(self).expressions@.len(),
            final(self).expressions@ == old(self).expressions@.push(
                Expr {
                    kind: ExprKind::Call(CallExpr { identifier, left_paren, arguments, right_paren }),
                    id: r,
                    ty: Type::Unresolved,
                },
            ),
            final(self).statements@ == old(self).statements@,
            final(self).items@ == old(self).items@,
    {
        self.expr_from_kind(ExprKind::Call(CallExpr { identifier, left_paren, arguments, right_paren }))
    }

    pub fn error_expression(&mut self, span: TextSpan) -> (r: ExprId)
        requires
            old(self).wf(),
        ensures
            final(self).wf(),
            r.idx == old(self).expressions@.len(),
            final(self).expressions@ == old(self).expressions@.push(
                Expr { kind: ExprKind::Error(span), id: r, ty: Type::Unresolved },
            ),
            final(self).statements@ == old(self).statements@,
            final(self).items@ == old(self).items@,
    {
        self.expr_from_kind(ExprKind::Error(span))
    }
}

// ---------------------------------------------------------------------------
// Spans of nodes.

/// The span of no text, standing for a node that is missing.
pub open spec fn empty_model() -> SpanModel {
    (0usize, 0usize, Seq::empty())
}

/// The span that covers the expression at position `i` of `ast`: the
/// combination of the spans of its tokens and subexpressions.
pub open spec fn expr_span_model(ast: Ast, i: int) -> SpanModel
    decreases i, 2int, 0int,
{
    if 0 <= i < ast.expressions@.len() {
        match ast.expressions@[i].kind {
            ExprKind::Number(e) => e.token.span.model(),
            ExprKind::Binary(e) => combine_models(
                seq![
                    if e.left.idx < i { expr_span_model(ast, e.left.idx as int) } else { empty_model() },
                    e.operator.token.span.model(),
                    if e.right.idx < i { expr_span_model(ast, e.right.idx as int) } else { empty_model() },
                ],
            ),
            ExprKind::Unary(e) => combine_models(
                seq![
                    e.operator.token.span.model(),
                    if e.operand.idx < i { expr_span_model(ast, e.operand.idx as int) } else { empty_model() },
                ],
            ),
            ExprKind::Parenthesized(e) => combine_models(
                seq![
                    e.left_paren.span.model(),
                    if e.expression.idx < i { expr_span_model(ast, e.expression.idx as int) } else { empty_model() },
                    e.right_paren.span.model(),
                ],
            ),
            ExprKind::Variable(e) => e.identifier.span.model(),
            ExprKind::Assignment(e) => combine_models(
                seq![
                    e.identifier.span.model(),
                    e.equals.span.model(),
                    if e.expression.idx < i { expr_span_model(ast, e.expression.idx as int) } else { empty_model() },
                ],
            ),
            ExprKind::Boolean(e) => e.token.span.model(),
            ExprKind::Call(e) => combine_models(
                seq![e.identifier.span.model(), e.left_paren.span.model(), e.right_paren.span.model()]
                    + args_span_models(ast, e.arguments@, i),
            ),
            ExprKind::If(e) => combine_models(
                seq![
                    e.if_keyword.span.model(),
                    if e.condition.idx < i { expr_span_model(ast, e.condition.idx as int) } else { empty_model() },
                    if e.then_branch.idx < i { expr_span_model(ast, e.then_branch.idx as int) } else { empty_model() },
                ] + match e.else_branch {
                    Some(b) => seq![
                        b.else_keyword.span.model(),
                        if b.expr.idx < i { expr_span_model(ast, b.expr.idx as int) } else { empty_model() },
                    ],
                    None => Seq::empty(),
                },
            ),
            ExprKind::Block(e) => combine_models(
                seq![e.left_brace.span.model()] + stmts_span_models(ast, e.stmts@, i) + seq![
                    e.right_brace.span.model(),
                ],
            ),
            ExprKind::Error(span) => span.model(),
        }
    } else {
        empty_model()
    }
}

/// The spans of the expressions `args`, all of which lie below `bound`.
pub open spec fn args_span_models(ast: Ast, args: Seq<ExprId>, bound: int) -> Seq<SpanModel>
    decreases bound, 1int, args.len(),
{
    if args.len() == 0 {
        Seq::empty()
    } else {
        args_span_models(ast, args.drop_last(), bound).push(
            if args.last().idx < bound { expr_span_model(ast, args.last().idx as int) } else { empty_model() },
        )
    }
}

/// The spans of the statements `stmts`, whose expressions lie below `bound`.
pub open spec fn stmts_span_models(ast: Ast, stmts: Seq<StmtId>, bound: int) -> Seq<SpanModel>
    decreases bound, 1int, stmts.len(),
{
    if stmts.len() == 0 {
        Seq::empty()
    } else {
        stmts_span_models(ast, stmts.drop_last(), bound).push(
            stmt_span_model(ast, stmts.last().idx as int, bound),
        )
    }
}

/// The span of the statement at position `s` of `ast`, whose expressions lie below `bound`.
pub open spec fn stmt_span_model(ast: Ast, s: int, bound: int) -> SpanModel
    decreases bound, 0int, 0int,
{
    if 0 <= s < ast.statements@.len() {
        match ast.statements@[s].kind {
            StmtKind::Expr(e) => if e.idx < bound { expr_span_model(ast, e.idx as int) } else { empty_model() },
            StmtKind::Let(l) => combine_models(
                seq![l.identifier.span.model()] + match l.type_annotation {
                    Some(t) => seq![t.colon.span.model(), t.type_ident.span.model()],
                    None => Seq::empty(),
                },
            ),
            StmtKind::While(w) => combine_models(
                seq![
                    w.while_keyword.span.model(),
                    if w.condition.idx < bound { expr_span_model(ast, w.condition.idx as int) } else { empty_model() },
                    if w.body.idx < bound { expr_span_model(ast, w.body.idx as int) } else { empty_model() },
                ],
            ),
            StmtKind::Return(r) => combine_models(
                seq![r.return_keyword.span.model()] + match r.return_value {
                    Some(v) => seq![if v.idx < bound { expr_span_model(ast, v.idx as int) } else { empty_model() }],
                    None => Seq::empty(),
                },
            ),
        }
    } else {
        empty_model()
    }
}

impl Expr {
    /// The span of text that this expression covers in `ast`.
    pub fn span(&self, ast: &Ast) -> (r: TextSpan)
        requires
            ast.wf(),
            self.id.idx < ast.expressions@.len(),
            ast.expressions@[self.id.idx as int] == *self,
        ensures
            r.model() == expr_span_model(*ast, self.id.idx as int),
        decreases self.id.idx, 2nat,
    {
        let ghost i = self.id.idx as int;
        assert(ast.expr_kind_ok(self.kind, i as nat));
        match &self.kind {
            ExprKind::Number(expr) => expr.token.span.clone(),
            ExprKind::Binary(expr) => {
                assert(expr_children(self.kind)[0] == expr.left);
                assert(expr_children(self.kind)[1] == expr.right);
                let left = ast.query_expr(expr.left).span(ast);
                let operator = expr.operator.token.span.clone();
                let right = ast.query_expr(expr.right).span(ast);
                let v = vec![left, operator, right];
                assert(span_models(v@) =~= seq![v@[0].model(), v@[1].model(), v@[2].model()]);
                TextSpan::combine(v)
            },
            ExprKind::Unary(expr) => {
                assert(expr_children(self.kind)[0] == expr.operand);
                let operator = expr.operator.token.span.clone();
                let operand = ast.query_expr(expr.operand).span(ast);
                let v = vec![operator, operand];
                assert(span_models(v@) =~= seq![v@[0].model(), v@[1].model()]);
                TextSpan::combine(v)
            },
            ExprKind::Parenthesized(expr) => {
                assert(expr_children(self.kind)[0] == expr.expression);
                let open_paren = expr.left_paren.span.clone();
                let expression = ast.query_expr(expr.expression).span(ast);
                let close_paren = expr.right_paren.span.clone();
                let v = vec![open_paren, expression, close_paren];
                assert(span_models(v@) =~= seq![v@[0].model(), v@[1].model(), v@[2].model()]);
                TextSpan::combine(v)
            },
            ExprKind::Variable(expr) => expr.identifier.span.clone(),
            ExprKind::Assignment(expr) => {
                assert(expr_children(self.kind)[0] == expr.expression);
                let identifier = expr.identifier.span.clone();
                let equals = expr.equals.span.clone();
                let expression = ast.query_expr(expr.expression).span(ast);
                let v = vec![identifier, equals, expression];
                assert(span_models(v@) =~= seq![v@[0].model(), v@[1].model(), v@[2].model()]);
                TextSpan::combine(v)
            },
            ExprKind::Boolean(expr) => expr.token.span.clone(),
            ExprKind::Call(expr) => {
                let identifier = expr.identifier.span.clone();
                let left_paren = expr.left_paren.span.clone();
                let right_paren = expr.right_paren.span.clone();
                let mut spans = vec![identifier, left_paren, right_paren];
                let ghost head = span_models(spans@);
                assert(head =~= seq![spans@[0].model(), spans@[1].model(), spans@[2].model()]);
                let mut k: usize = 0;
                while k < expr.arguments.len()
                    invariant
                        ast.wf(),
                        ast.expressions@[i] == *self,
                        0 <= i < ast.expressions@.len(),
                        self.kind == ExprKind::Call(*expr),
                        ast.expr_kind_ok(self.kind, i as nat),
                        k <= expr.arguments@.len(),
                        span_models(spans@) == head + args_span_models(
                            *ast,
                            expr.arguments@.subrange(0, k as int),
                            i,
                        ),
                    decreases expr.arguments@.len() - k,
                {
                    let arg = expr.arguments[k];
                    assert(expr_children(self.kind)[k as int] == arg);
                    let sp = ast.query_expr(arg).span(ast);
                    let ghost before = spans@;
                    spans.push(sp);
                    assert(expr.arguments@.subrange(0, (k + 1) as int).drop_last() =~= expr.arguments@.subrange(0, k as int));
                    assert(span_models(spans@) =~= span_models(before).push(sp.model()));
                    k = k + 1;
                }
                assert(expr.arguments@.subrange(0, k as int) =~= expr.arguments@);
                TextSpan::combine(spans)
            },
            ExprKind::If(expr) => {
                assert(expr_children(self.kind)[0] == expr.condition);
                assert(expr_children(self.kind)[1] == expr.then_branch);
                let if_span = expr.if_keyword.span.clone();
                let condition = ast.query_expr(expr.condition).span(ast);
                let then_branch = ast.query_expr(expr.then_branch).span(ast);
                let mut spans = vec![if_span, condition, then_branch];
                let ghost head = span_models(spans@);
                assert(head =~= seq![spans@[0].model(), spans@[1].model(), spans@[2].model()]);
                if let Some(else_branch) = &expr.else_branch {
                    assert(expr_children(self.kind)[2] == else_branch.expr);
                    let else_span = else_branch.else_keyword.span.clone();
                    spans.push(else_span);
                    let e = ast.query_expr(else_branch.expr).span(ast);
                    spans.push(e);
                    assert(span_models(spans@) =~= head + seq![spans@[3].model(), spans@[4].model()]);
                } else {
                    assert(span_models(spans@) =~= head + Seq::<SpanModel>::empty());
                }
                TextSpan::combine(spans)
            },
            ExprKind::Block(expr) => {
                let mut spans = vec![expr.left_brace.span.clone()];
                let ghost head = span_models(spans@);
                assert(head =~= seq![spans@[0].model()]);
                let mut k: usize = 0;
                while k < expr.stmts.len()
                    invariant
                        ast.wf(),
                        ast.expressions@[i] == *self,
                        0 <= i < ast.expressions@.len(),
                        self.kind == ExprKind::Block(*expr),
                        ast.expr_kind_ok(self.kind, i as nat),
                        k <= expr.stmts@.len(),
                        span_models(spans@) == head + stmts_span_models(
                            *ast,
                            expr.stmts@.subrange(0, k as int),
                            i,
                        ),
                    decreases expr.stmts@.len() - k,
                {
                    let sid = expr.stmts[k];
                    assert(expr_stmt_children(self.kind)[k as int] == sid);
                    let stmt = ast.query_stmt(sid);
                    let sp = stmt_span_below(stmt, ast, Ghost(i as nat));
                    let ghost before = spans@;
                    spans.push(sp);
                    assert(expr.stmts@.subrange(0, (k + 1) as int).drop_last() =~= expr.stmts@.subrange(0, k as int));
                    assert(span_models(spans@) =~= span_models(before).push(sp.model()));
                    k = k + 1;
                }
                assert(expr.stmts@.subrange(0, k as int) =~= expr.stmts@);
                let ghost middle = span_models(spans@);
                spans.push(expr.right_brace.span.clone());
                assert(span_models(spans@) =~= middle + seq![spans@[spans@.len() - 1].model()]);
                TextSpan::combine(spans)
            },
            ExprKind::Error(span) => span.clone(),
        }
    }
}

/// The span of `stmt`, a statement of `ast` whose expressions lie below `bound`.
fn stmt_span_below(stmt: &Stmt, ast: &Ast, Ghost(bound): Ghost<nat>) -> (r: TextSpan)
    requires
        ast.wf(),
        stmt.id.idx < ast.statements@.len(),
        ast.statements@[stmt.id.idx as int] == *stmt,
        stmt_below(stmt.kind, bound),
        bound <= ast.expressions@.len(),
    ensures
        r.model() == stmt_span_model(*ast, stmt.id.idx as int, bound as int),
    decreases bound, 0nat,
{
    match &stmt.kind {
        StmtKind::Expr(expr_id) => {
            assert(stmt_children(stmt.kind)[0] == *expr_id);
            ast.query_expr(*expr_id).span(ast)
        },
        StmtKind::Let(let_stmt) => {
            let mut spans = vec![let_stmt.identifier.span.clone()];
            let ghost head = span_models(spans@);
            assert(head =~= seq![spans@[0].model()]);
            if let Some(type_annotation) = &let_stmt.type_annotation {
                spans.push(type_annotation.colon.span.clone());
                spans.push(type_annotation.type_ident.span.clone());
                assert(span_models(spans@) =~= head + seq![spans@[1].model(), spans@[2].model()]);
            } else {
                assert(span_models(spans@) =~= head + Seq::<SpanModel>::empty());
            }
            TextSpan::combine(spans)
        },
        StmtKind::While(while_stmt) => {
            assert(stmt_children(stmt.kind)[0] == while_stmt.condition);
            assert(stmt_children(stmt.kind)[1] == while_stmt.body);
            let mut spans = vec![while_stmt.while_keyword.span.clone()];
            spans.push(ast.query_expr(while_stmt.condition).span(ast));
            spans.push(ast.query_expr(while_stmt.body).span(ast));
            assert(span_models(spans@) =~= seq![spans@[0].model(), spans@[1].model(), spans@[2].model()]);
            TextSpan::combine(spans)
        },
        StmtKind::Return(return_stmt) => {
            let mut spans = vec![return_stmt.return_keyword.span.clone()];
            let ghost head = span_models(spans@);
            assert(head =~= seq![spans@[0].model()]);
            if let Some(return_value) = &return_stmt.return_value {
                assert(stmt_children(stmt.kind)[0] == *return_value);
                spans.push(ast.query_expr(*return_value).span(ast));
                assert(span_models(spans@) =~= head + seq![spans@[1].model()]);
            } else {
                assert(span_models(spans@) =~= head + Seq::<SpanModel>::empty());
            }
            TextSpan::combine(spans)
        },
    }
}

impl Stmt {
    /// The span of text that this statement covers in `ast`.
    pub fn span(&self, ast: &Ast) -> (r: TextSpan)
        requires
            ast.wf(),
            self.id.idx < ast.statements@.len(),
            ast.statements@[self.id.idx as int] == *self,
        ensures
            r.model() == stmt_span_model(*ast, self.id.idx as int, ast.expressions@.len() as int),
    {
        stmt_span_below(self, ast, Ghost(ast.expressions@.len()))
    }
}

/// `kind` with the variables it refers to cleared.
pub open spec fn erase_variables(kind: ExprKind) -> ExprKind {
    match kind {
        ExprKind::Assignment(a) => ExprKind::Assignment(AssignmentExpr { variable_idx: VariableIndex { idx: 0 }, ..a }),
        ExprKind::Variable(v) => ExprKind::Variable(VariableExpr { variable_idx: VariableIndex { idx: 0 }, ..v }),
        k => k,
    }
}

/// `kind` with the variable it declares cleared.
pub open spec fn erase_stmt_variables(kind: StmtKind) -> StmtKind {
    match kind {
        StmtKind::Let(l) => StmtKind::Let(LetStmt { variable_idx: VariableIndex { idx: 0 }, ..l }),
        k => k,
    }
}

/// `a` and `b` hold the same nodes, but for the types and the variables that
/// resolution records in them.
pub open spec fn same_shape(a: Ast, b: Ast) -> bool {
    &&& a.expressions@.len() == b.expressions@.len()
    &&& a.statements@.len() == b.statements@.len()
    &&& a.items@ == b.items@
    &&& forall|i: int| 0 <= i < a.expressions@.len() ==> {
        &&& erase_variables((#[trigger] a.expressions@[i]).kind) == erase_variables(b.expressions@[i].kind)
        &&& a.expressions@[i].id == b.expressions@[i].id
    }
    &&& forall|i: int| 0 <= i < a.statements@.len() ==> {
        &&& erase_stmt_variables((#[trigger] a.statements@[i]).kind) == erase_stmt_variables(b.statements@[i].kind)
        &&& a.statements@[i].id == b.statements@[i].id
    }
}

/// Clearing variables keeps the children of an expression.
pub proof fn lemma_erase_keeps_children(a: ExprKind, b: ExprKind)
    requires
        erase_variables(a) == erase_variables(b),
    ensures
        expr_children(a) == expr_children(b),
        expr_stmt_children(a) == expr_stmt_children(b),
{
    match (a, b) {
        (ExprKind::Assignment(x), ExprKind::Assignment(y)) => {
            assert(x.expression == y.expression);
        },
        _ => {},
    }
}

/// Clearing variables keeps the children of a statement.
pub proof fn lemma_erase_keeps_stmt_children(a: StmtKind, b: StmtKind)
    requires
        erase_stmt_variables(a) == erase_stmt_variables(b),
    ensures
        stmt_children(a) == stmt_children(b),
{
    match (a, b) {
        (StmtKind::Let(x), StmtKind::Let(y)) => {
            assert(x.initializer == y.initializer);
        },
        _ => {},
    }
}

/// Having the same shape is an equivalence.
pub proof fn lemma_same_shape_trans(a: Ast, b: Ast, c: Ast)
    requires
        same_shape(a, b),
        same_shape(b, c),
    ensures
        same_shape(a, c),
{
    assert forall|i: int| 0 <= i < a.expressions@.len() implies {
        &&& erase_variables((#[trigger] a.expressions@[i]).kind) == erase_variables(c.expressions@[i].kind)
        &&& a.expressions@[i].id == c.expressions@[i].id
    } by {
        assert(erase_variables(b.expressions@[i].kind) == erase_variables(c.expressions@[i].kind));
    }
    assert forall|i: int| 0 <= i < a.statements@.len() implies {
        &&& erase_stmt_variables((#[trigger] a.statements@[i]).kind) == erase_stmt_variables(c.statements@[i].kind)
        &&& a.statements@[i].id == c.statements@[i].id
    } by {
        assert(erase_stmt_variables(b.statements@[i].kind) == erase_stmt_variables(c.statements@[i].kind));
    }
}

pub proof fn lemma_same_shape_refl(a: Ast)
    ensures
        same_shape(a, a),
{
}

} // verus!
