//! The evaluator of Terebinth programs: it walks a checked syntax tree and
//! computes the value of each expression, keeping the values of variables in
//! a stack of frames.
//!
//! What a program means is given by [`eval_expr`] and the functions beside
//! it, which run a program for a number of steps (its fuel). The evaluator
//! computes exactly that.

use vstd::prelude::*;

use std::collections::HashMap;

use crate::ast::{Ast, BinaryOperatorKind, ExprId, ExprKind, StmtId, StmtKind, UnaryOperatorKind, is_comparison_kind};
use crate::compilation_unit::{GlobalScope, first_function_named};

verus! {

broadcast use vstd::std_specs::hash::group_hash_axioms;

/// Why an evaluation stopped without a value.
#[derive(Clone, Copy, PartialEq, Eq, Debug, Structural)]
pub enum EvalError {
    /// The steps allowed ran out.
    OutOfFuel,
    /// An expression that gives no value stood where a value was needed.
    MissingValue,
    /// A variable was read before it was given a value.
    UnboundVariable,
    /// A call named no function.
    UnknownFunction,
    /// An arithmetic operation overflowed.
    Overflow,
    /// A division by zero.
    DivisionByZero,
    /// A power with a negative or too large exponent.
    InvalidExponent,
    /// A shift by a negative amount or by 64 bits or more.
    InvalidShift,
    /// An expression the parser could not read.
    ErrorExpression,
    /// A node that the tree does not hold.
    InvalidNode,
    /// A variable defined with no frame to hold it.
    NoFrame,
}

/// The state of an evaluation: the frames of variables, innermost last, and
/// the value of the last expression evaluated.
pub type EvalState = (Seq<Map<usize, i64>>, Option<i64>);

/// The value of variable `idx`: in the innermost frame that holds it.
pub open spec fn frames_get(fs: Seq<Map<usize, i64>>, idx: usize) -> Option<i64>
    decreases fs.len(),
{
    if fs.len() == 0 {
        None
    } else if fs.last().contains_key(idx) {
        Some(fs.last()[idx])
    } else {
        frames_get(fs.drop_last(), idx)
    }
}

/// The frames with variable `idx` set to `v` in the innermost frame that
/// holds it; unchanged if none does.
pub open spec fn frames_update(fs: Seq<Map<usize, i64>>, idx: usize, v: i64) -> Seq<Map<usize, i64>>
    decreases fs.len(),
{
    if fs.len() == 0 {
        fs
    } else if fs.last().contains_key(idx) {
        fs.update(fs.len() - 1, fs.last().insert(idx, v))
    } else {
        frames_update(fs.drop_last(), idx, v).push(fs.last())
    }
}

/// The frames with variable `idx` defined as `v` in the innermost frame.
pub open spec fn frames_insert(fs: Seq<Map<usize, i64>>, idx: usize, v: i64) -> Seq<Map<usize, i64>> {
    fs.update(fs.len() - 1, fs.last().insert(idx, v))
}

/// The frames without the innermost one.
pub open spec fn frames_pop(fs: Seq<Map<usize, i64>>) -> Seq<Map<usize, i64>> {
    if fs.len() > 0 { fs.drop_last() } else { fs }
}

/// `b` to the power `e`.
pub open spec fn int_pow(b: int, e: nat) -> int
    decreases e,
{
    if e == 0 { 1 } else { b * int_pow(b, (e - 1) as nat) }
}

/// The value of the binary operation `op` on `l` and `r`, when it is defined
/// on 64-bit integers: comparisons give 1 or 0.
pub open spec fn binary_value(op: BinaryOperatorKind, l: i64, r: i64) -> Result<i64, EvalError> {
    match op {
        BinaryOperatorKind::Plus => match l.checked_add(r) {
            Some(v) => Ok(v),
            None => Err(EvalError::Overflow),
        },
        BinaryOperatorKind::Minus => match l.checked_sub(r) {
            Some(v) => Ok(v),
            None => Err(EvalError::Overflow),
        },
        BinaryOperatorKind::Multiply => match l.checked_mul(r) {
            Some(v) => Ok(v),
            None => Err(EvalError::Overflow),
        },
        BinaryOperatorKind::Divide => if r == 0 {
            Err(EvalError::DivisionByZero)
        } else {
            match l.checked_div(r) {
                Some(v) => Ok(v),
                None => Err(EvalError::Overflow),
            }
        },
        BinaryOperatorKind::Power => if r < 0 || r > u32::MAX {
            Err(EvalError::InvalidExponent)
        } else if i64::MIN <= int_pow(l as int, r as nat) <= i64::MAX {
            Ok(int_pow(l as int, r as nat) as i64)
        } else {
            Err(EvalError::Overflow)
        },
        BinaryOperatorKind::BitwiseAnd => Ok(l & r),
        BinaryOperatorKind::BitwiseOr => Ok(l | r),
        BinaryOperatorKind::BitwiseXor => Ok(l ^ r),
        BinaryOperatorKind::LeftShift => if r < 0 || r >= 64 {
            Err(EvalError::InvalidShift)
        } else {
            Ok(vstd::wrapping::i64_specs::wrapping_shl(l, r as u32))
        },
        BinaryOperatorKind::RightShift => if r < 0 || r >= 64 {
            Err(EvalError::InvalidShift)
        } else {
            Ok(vstd::wrapping::i64_specs::wrapping_shr(l, r as u32))
        },
        BinaryOperatorKind::Equals => Ok(if l == r { 1 } else { 0 }),
        BinaryOperatorKind::NotEquals => Ok(if l != r { 1 } else { 0 }),
        BinaryOperatorKind::LessThan => Ok(if l < r { 1 } else { 0 }),
        BinaryOperatorKind::LessThanOrEqual => Ok(if l <= r { 1 } else { 0 }),
        BinaryOperatorKind::GreaterThan => Ok(if l > r { 1 } else { 0 }),
        BinaryOperatorKind::GreaterThanOrEqual => Ok(if l >= r { 1 } else { 0 }),
    }
}

/// Sums, differences and products are those of the integers whenever they
/// fit in 64 bits, and an overflow otherwise; `+` and `*` do not depend on the
/// order of their operands, and `-` undoes `+`.
pub proof fn lemma_arithmetic_is_exact(l: i64, r: i64)
    ensures
        i64::MIN <= l + r <= i64::MAX ==> binary_value(BinaryOperatorKind::Plus, l, r) == Ok::<i64, EvalError>((l + r) as i64),
        !(i64::MIN <= l + r <= i64::MAX) ==> binary_value(BinaryOperatorKind::Plus, l, r) == Err::<i64, EvalError>(EvalError::Overflow),
        i64::MIN <= l - r <= i64::MAX ==> binary_value(BinaryOperatorKind::Minus, l, r) == Ok::<i64, EvalError>((l - r) as i64),
        !(i64::MIN <= l - r <= i64::MAX) ==> binary_value(BinaryOperatorKind::Minus, l, r) == Err::<i64, EvalError>(EvalError::Overflow),
        i64::MIN <= l * r <= i64::MAX ==> binary_value(BinaryOperatorKind::Multiply, l, r) == Ok::<i64, EvalError>((l * r) as i64),
        !(i64::MIN <= l * r <= i64::MAX) ==> binary_value(BinaryOperatorKind::Multiply, l, r) == Err::<i64, EvalError>(EvalError::Overflow),
        binary_value(BinaryOperatorKind::Plus, l, r) == binary_value(BinaryOperatorKind::Plus, r, l),
        binary_value(BinaryOperatorKind::Multiply, l, r) == binary_value(BinaryOperatorKind::Multiply, r, l),
        binary_value(BinaryOperatorKind::Plus, l, r) matches Ok(v) ==> binary_value(BinaryOperatorKind::Minus, v, r) == Ok::<i64, EvalError>(l),
        binary_value(BinaryOperatorKind::Divide, l, 0) == Err::<i64, EvalError>(EvalError::DivisionByZero),
        binary_value(BinaryOperatorKind::Power, l, 0) == Ok::<i64, EvalError>(1),
        binary_value(BinaryOperatorKind::Power, l, 1) == Ok::<i64, EvalError>(l),
        r < 0 ==> binary_value(BinaryOperatorKind::Power, l, r) == Err::<i64, EvalError>(EvalError::InvalidExponent),
{
    assert(l * r == r * l) by (nonlinear_arith);
    assert(int_pow(l as int, 1) == l) by {
        assert(int_pow(l as int, 0) == 1);
    }
}

/// Comparisons follow the order of the integers: each gives 1 when it holds
/// and 0 otherwise; `<` and `==` are the order and equality themselves; `<=`
/// is `<` or `==`, `>` and `>=` are `<` and `<=` with the operands swapped,
/// and `!=` is the negation of `==`.
pub proof fn lemma_comparisons_follow_the_order(l: i64, r: i64)
    ensures
        forall|op: BinaryOperatorKind| #![trigger binary_value(op, l, r)] is_comparison_kind(op)
            ==> (binary_value(op, l, r) == Ok::<i64, EvalError>(0) || binary_value(op, l, r) == Ok::<i64, EvalError>(1)),
        (binary_value(BinaryOperatorKind::LessThan, l, r) == Ok::<i64, EvalError>(1)) <==> l < r,
        (binary_value(BinaryOperatorKind::Equals, l, r) == Ok::<i64, EvalError>(1)) <==> l == r,
        (binary_value(BinaryOperatorKind::LessThanOrEqual, l, r) == Ok::<i64, EvalError>(1)) <==> (
            binary_value(BinaryOperatorKind::LessThan, l, r) == Ok::<i64, EvalError>(1)
            || binary_value(BinaryOperatorKind::Equals, l, r) == Ok::<i64, EvalError>(1)),
        binary_value(BinaryOperatorKind::GreaterThan, l, r) == binary_value(BinaryOperatorKind::LessThan, r, l),
        binary_value(BinaryOperatorKind::GreaterThanOrEqual, l, r) == binary_value(BinaryOperatorKind::LessThanOrEqual, r, l),
        (binary_value(BinaryOperatorKind::NotEquals, l, r) == Ok::<i64, EvalError>(1)) <==> (
            binary_value(BinaryOperatorKind::Equals, l, r) == Ok::<i64, EvalError>(0)),
        binary_value(BinaryOperatorKind::LessThanOrEqual, l, l) == Ok::<i64, EvalError>(1),
        binary_value(BinaryOperatorKind::GreaterThanOrEqual, l, l) == Ok::<i64, EvalError>(1),
        binary_value(BinaryOperatorKind::LessThan, l, l) == Ok::<i64, EvalError>(0),
        binary_value(BinaryOperatorKind::GreaterThan, l, l) == Ok::<i64, EvalError>(0),
{
}

/// The value of the unary operation `op` on `v`.
pub open spec fn unary_value(op: UnaryOperatorKind, v: i64) -> Result<i64, EvalError> {
    match op {
        UnaryOperatorKind::Minus => if v == i64::MIN { Err(EvalError::Overflow) } else { Ok(-v as i64) },
        UnaryOperatorKind::BitwiseNot => Ok(!v),
    }
}

/// The frames with parameters `params[k..]` defined as `vals[k..]`, as far
/// as both go.
pub open spec fn bind_params(fs: Seq<Map<usize, i64>>, params: Seq<usize>, vals: Seq<i64>, k: int) -> Seq<Map<usize, i64>>
    decreases params.len() - k,
{
    if k < 0 || k >= params.len() || k >= vals.len() {
        fs
    } else {
        bind_params(frames_insert(fs, params[k], vals[k]), params, vals, k + 1)
    }
}

/// The value an expression needs, or the error of its absence.
pub open spec fn needs_value(st: EvalState) -> Result<i64, EvalError> {
    match st.1 {
        Some(v) => Ok(v),
        None => Err(EvalError::MissingValue),
    }
}

/// The evaluation of expression `id` in state `st`, for `fuel` steps.
pub open spec fn eval_expr(ast: Ast, gs: GlobalScope, fuel: nat, st: EvalState, id: int) -> Result<EvalState, EvalError>
    decreases fuel, 0nat,
{
    if fuel == 0 {
        Err(EvalError::OutOfFuel)
    } else if id < 0 || id >= ast.expressions@.len() {
        Err(EvalError::InvalidNode)
    } else {
        let f = (fuel - 1) as nat;
        match ast.expressions@[id].kind {
            ExprKind::Number(n) => Ok((st.0, Some(n.number))),
            ExprKind::Boolean(b) => Ok((st.0, Some(if b.value { 1i64 } else { 0i64 }))),
            ExprKind::Error(_) => Err(EvalError::ErrorExpression),
            ExprKind::Unary(u) => match eval_expr(ast, gs, f, st, u.operand.idx as int) {
                Err(e) => Err(e),
                Ok(s1) => match needs_value(s1) {
                    Err(e) => Err(e),
                    Ok(v) => match unary_value(u.operator.kind, v) {
                        Err(e) => Err(e),
                        Ok(r) => Ok((s1.0, Some(r))),
                    },
                },
            },
            ExprKind::Binary(b) => match eval_expr(ast, gs, f, st, b.left.idx as int) {
                Err(e) => Err(e),
                Ok(s1) => match needs_value(s1) {
                    Err(e) => Err(e),
                    Ok(l) => match eval_expr(ast, gs, f, s1, b.right.idx as int) {
                        Err(e) => Err(e),
                        Ok(s2) => match needs_value(s2) {
                            Err(e) => Err(e),
                            Ok(r) => match binary_value(b.operator.kind, l, r) {
                                Err(e) => Err(e),
                                Ok(v) => Ok((s2.0, Some(v))),
                            },
                        },
                    },
                },
            },
            ExprKind::Parenthesized(p) => eval_expr(ast, gs, f, st, p.expression.idx as int),
            ExprKind::Variable(v) => match frames_get(st.0, v.variable_idx.idx) {
                Some(x) => Ok((st.0, Some(x))),
                None => Err(EvalError::UnboundVariable),
            },
            ExprKind::Assignment(a) => match eval_expr(ast, gs, f, st, a.expression.idx as int) {
                Err(e) => Err(e),
                Ok(s1) => match needs_value(s1) {
                    Err(e) => Err(e),
                    Ok(v) => Ok((frames_update(s1.0, a.variable_idx.idx, v), s1.1)),
                },
            },
            ExprKind::Call(c) => match first_function_named(gs.functions@, c.identifier.span.literal@) {
                None => Err(EvalError::UnknownFunction),
                Some(fi) => match eval_args(ast, gs, f, st, c.arguments@, 0, Seq::empty()) {
                    Err(e) => Err(e),
                    Ok((s1, vals)) => {
                        let function = gs.functions@[fi];
                        let params = function.parameters@.map_values(|p: crate::compilation_unit::VariableIndex| p.idx);
                        let fs = bind_params(s1.0.push(Map::empty()), params, vals, 0);
                        match eval_stmt(ast, gs, f, (fs, s1.1), function.body.idx as int) {
                            Err(e) => Err(e),
                            Ok(s2) => Ok((frames_pop(s2.0), s2.1)),
                        }
                    },
                },
            },
            ExprKind::If(i) => match eval_expr(ast, gs, f, (st.0.push(Map::empty()), st.1), i.condition.idx as int) {
                Err(e) => Err(e),
                Ok(s1) => match needs_value(s1) {
                    Err(e) => Err(e),
                    Ok(c) => if c != 0 {
                        match eval_expr(ast, gs, f, (s1.0.push(Map::empty()), s1.1), i.then_branch.idx as int) {
                            Err(e) => Err(e),
                            Ok(s2) => Ok((frames_pop(frames_pop(s2.0)), s2.1)),
                        }
                    } else {
                        match i.else_branch {
                            Some(eb) => match eval_expr(ast, gs, f, (s1.0.push(Map::empty()), s1.1), eb.expr.idx as int) {
                                Err(e) => Err(e),
                                Ok(s2) => Ok((frames_pop(frames_pop(s2.0)), s2.1)),
                            },
                            None => Ok((frames_pop(s1.0), s1.1)),
                        }
                    },
                },
            },
            ExprKind::Block(b) => match eval_stmts(ast, gs, f, (st.0.push(Map::empty()), st.1), b.stmts@, 0) {
                Err(e) => Err(e),
                Ok(s1) => Ok((frames_pop(s1.0), s1.1)),
            },
        }
    }
}

/// The evaluation of the arguments `args[k..]` in turn, after the values `acc`.
pub open spec fn eval_args(ast: Ast, gs: GlobalScope, fuel: nat, st: EvalState, args: Seq<ExprId>, k: int, acc: Seq<i64>) -> Result<(EvalState, Seq<i64>), EvalError>
    decreases fuel, args.len() - k,
{
    if k < 0 || k >= args.len() {
        Ok((st, acc))
    } else if fuel == 0 {
        Err(EvalError::OutOfFuel)
    } else {
        match eval_expr(ast, gs, (fuel - 1) as nat, st, args[k].idx as int) {
            Err(e) => Err(e),
            Ok(s1) => match needs_value(s1) {
                Err(e) => Err(e),
                Ok(v) => eval_args(ast, gs, fuel, s1, args, k + 1, acc.push(v)),
            },
        }
    }
}

/// The evaluation of the statements `stmts[k..]` in turn.
pub open spec fn eval_stmts(ast: Ast, gs: GlobalScope, fuel: nat, st: EvalState, stmts: Seq<StmtId>, k: int) -> Result<EvalState, EvalError>
    decreases fuel, stmts.len() - k,
{
    if k < 0 || k >= stmts.len() {
        Ok(st)
    } else if fuel == 0 {
        Err(EvalError::OutOfFuel)
    } else {
        match eval_stmt(ast, gs, (fuel - 1) as nat, st, stmts[k].idx as int) {
            Err(e) => Err(e),
            Ok(s1) => eval_stmts(ast, gs, fuel, s1, stmts, k + 1),
        }
    }
}

/// The evaluation of statement `sid`: an expression, a definition, a loop,
/// or a `return`, which evaluates its value and goes on.
pub open spec fn eval_stmt(ast: Ast, gs: GlobalScope, fuel: nat, st: EvalState, sid: int) -> Result<EvalState, EvalError>
    decreases fuel, 0nat,
{
    if fuel == 0 {
        Err(EvalError::OutOfFuel)
    } else if sid < 0 || sid >= ast.statements@.len() {
        Err(EvalError::InvalidNode)
    } else {
        let f = (fuel - 1) as nat;
        match ast.statements@[sid].kind {
            StmtKind::Expr(e) => eval_expr(ast, gs, f, st, e.idx as int),
            StmtKind::Let(l) => match eval_expr(ast, gs, f, st, l.initializer.idx as int) {
                Err(e) => Err(e),
                Ok(s1) => match needs_value(s1) {
                    Err(e) => Err(e),
                    Ok(v) => if s1.0.len() == 0 {
                        Err(EvalError::NoFrame)
                    } else {
                        Ok((frames_insert(s1.0, l.variable_idx.idx, v), s1.1))
                    },
                },
            },
            StmtKind::While(w) => match eval_while(ast, gs, f, (st.0.push(Map::empty()), st.1), w.condition.idx as int, w.body.idx as int) {
                Err(e) => Err(e),
                Ok(s1) => Ok((frames_pop(s1.0), s1.1)),
            },
            StmtKind::Return(r) => match r.return_value {
                Some(e) => eval_expr(ast, gs, f, st, e.idx as int),
                None => Ok(st),
            },
        }
    }
}

/// A `while` loop: its condition, then, while it is not 0, its body and
/// the condition again.
pub open spec fn eval_while(ast: Ast, gs: GlobalScope, fuel: nat, st: EvalState, cond: int, body: int) -> Result<EvalState, EvalError>
    decreases fuel, 0nat,
{
    if fuel == 0 {
        Err(EvalError::OutOfFuel)
    } else {
        let f = (fuel - 1) as nat;
        match eval_expr(ast, gs, f, st, cond) {
            Err(e) => Err(e),
            Ok(s1) => match needs_value(s1) {
                Err(e) => Err(e),
                Ok(c) => if c == 0 {
                    Ok(s1)
                } else {
                    match eval_expr(ast, gs, f, s1, body) {
                        Err(e) => Err(e),
                        Ok(s2) => eval_while(ast, gs, f, s2, cond, body),
                    }
                },
            },
        }
    }
}

/// The evaluation of the items `items[k..]` in turn: statements are
/// evaluated, function declarations skipped.
pub open spec fn eval_items(ast: Ast, gs: GlobalScope, fuel: nat, st: EvalState, k: int) -> Result<EvalState, EvalError>
    decreases ast.items@.len() - k,
{
    if k < 0 || k >= ast.items@.len() {
        Ok(st)
    } else {
        match ast.items@[k].kind {
            crate::ast::ItemKind::Stmt(s) => match eval_stmt(ast, gs, fuel, st, s.idx as int) {
                Err(e) => Err(e),
                Ok(s1) => eval_items(ast, gs, fuel, s1, k + 1),
            },
            crate::ast::ItemKind::Func(_) => eval_items(ast, gs, fuel, st, k + 1),
        }
    }
}

// ---------------------------------------------------------------------------
// Frames

/// The variables defined in one scope, by index.
pub struct Frame {
    variables: HashMap<usize, i64>,
}

impl View for Frame {
    type V = Map<usize, i64>;

    closed spec fn view(&self) -> Map<usize, i64> {
        self.variables@
    }
}

impl Frame {
    pub fn new() -> (r: Frame)
        ensures
            r@ == Map::<usize, i64>::empty(),
    {
        Frame { variables: HashMap::new() }
    }

    /// Defines variable `idx` as `value`.
    pub fn insert(&mut self, idx: usize, value: i64)
        ensures
            final(self)@ == old(self)@.insert(idx, value),
    {
        self.variables.insert(idx, value);
    }

    /// The value of variable `idx`, if this frame defines it.
    pub fn get(&self, idx: usize) -> (r: Option<i64>)
        ensures
            r == if self@.contains_key(idx) { Some(self@[idx]) } else { None::<i64> },
    {
        match self.variables.get(&idx) {
            Some(v) => Some(*v),
            None => None,
        }
    }
}

/// The frames of variables, innermost last.
pub struct Frames {
    frames: Vec<Frame>,
}

impl View for Frames {
    type V = Seq<Map<usize, i64>>;

    closed spec fn view(&self) -> Seq<Map<usize, i64>> {
        self.frames@.map_values(|f: Frame| f@)
    }
}

proof fn lemma_frames_get_skip(fs: Seq<Map<usize, i64>>, idx: usize, i: int)
    requires
        0 <= i <= fs.len(),
        forall|k: int| i <= k < fs.len() ==> !(#[trigger] fs[k]).contains_key(idx),
    ensures
        frames_get(fs, idx) == frames_get(fs.subrange(0, i), idx),
    decreases fs.len(),
{
    if i < fs.len() {
        assert(!fs[fs.len() - 1].contains_key(idx));
        assert(fs.drop_last().subrange(0, i) =~= fs.subrange(0, i));
        lemma_frames_get_skip(fs.drop_last(), idx, i);
    } else {
        assert(fs.subrange(0, i) =~= fs);
    }
}

proof fn lemma_frames_update_skip(fs: Seq<Map<usize, i64>>, idx: usize, v: i64, i: int)
    requires
        0 <= i <= fs.len(),
        forall|k: int| i <= k < fs.len() ==> !(#[trigger] fs[k]).contains_key(idx),
    ensures
        frames_update(fs, idx, v) == frames_update(fs.subrange(0, i), idx, v) + fs.subrange(i, fs.len() as int),
    decreases fs.len(),
{
    if i < fs.len() {
        assert(!fs[fs.len() - 1].contains_key(idx));
        assert(fs.drop_last().subrange(0, i) =~= fs.subrange(0, i));
        lemma_frames_update_skip(fs.drop_last(), idx, v, i);
        assert(fs.drop_last().subrange(i, fs.len() - 1).push(fs.last()) =~= fs.subrange(i, fs.len() as int));
        assert(frames_update(fs.subrange(0, i), idx, v) + fs.drop_last().subrange(i, fs.len() - 1) + seq![fs.last()]
            =~= frames_update(fs.subrange(0, i), idx, v) + fs.subrange(i, fs.len() as int));
    } else {
        assert(fs.subrange(0, i) =~= fs);
        assert(frames_update(fs, idx, v) + fs.subrange(i, fs.len() as int) =~= frames_update(fs, idx, v));
    }
}

impl Frames {
    /// One empty frame.
    pub fn new() -> (r: Frames)
        ensures
            r@ == seq![Map::<usize, i64>::empty()],
    {
        let mut frames: Vec<Frame> = Vec::new();
        frames.push(Frame::new());
        let r = Frames { frames };
        assert(r@ =~= seq![Map::<usize, i64>::empty()]);
        r
    }

    /// Opens a new innermost frame.
    pub fn push(&mut self)
        ensures
            final(self)@ == old(self)@.push(Map::empty()),
    {
        self.frames.push(Frame::new());
        assert(self@ =~= old(self)@.push(Map::empty()));
    }

    /// Closes the innermost frame, if there is one.
    pub fn pop(&mut self)
        ensures
            final(self)@ == frames_pop(old(self)@),
    {
        if self.frames.len() > 0 {
            self.frames.pop();
            assert(self@ =~= old(self)@.drop_last());
        }
    }

    /// Sets variable `idx` to `value` in the innermost frame that defines it.
    pub fn update(&mut self, idx: usize, value: i64)
        ensures
            final(self)@ == frames_update(old(self)@, idx, value),
    {
        let ghost fs = self@;
        let mut i = self.frames.len();
        while i > 0
            invariant
                i <= self.frames@.len(),
                self@ == fs,
                fs == old(self)@,
                forall|k: int| i <= k < fs.len() ==> !(#[trigger] fs[k]).contains_key(idx),
            decreases i,
        {
            if self.frames[i - 1].get(idx).is_some() {
                let frame = &mut self.frames[i - 1];
                frame.insert(idx, value);
                proof {
                    assert(self@ =~= fs.update(i - 1, fs[i - 1].insert(idx, value)));
                    lemma_frames_update_skip(fs, idx, value, i as int);
                    let pre = fs.subrange(0, i as int);
                    assert(pre.last() == fs[i - 1]);
                    assert(pre.last().contains_key(idx));
                    assert(frames_update(pre, idx, value) == pre.update(i - 1, pre.last().insert(idx, value)));
                    assert(fs.update(i - 1, fs[i - 1].insert(idx, value)) =~= pre.update(i - 1, pre.last().insert(idx, value)) + fs.subrange(i as int, fs.len() as int));
                }
                return;
            }
            i = i - 1;
        }
        proof {
            lemma_frames_update_skip(fs, idx, value, 0);
            assert(fs.subrange(0, 0).len() == 0);
            assert(fs.subrange(0, fs.len() as int) =~= fs);
            assert(Seq::<Map<usize, i64>>::empty() + fs =~= fs);
        }
    }

    /// Defines variable `idx` as `value` in the innermost frame.
    pub fn insert(&mut self, idx: usize, value: i64)
        requires
            old(self)@.len() > 0,
        ensures
            final(self)@ == frames_insert(old(self)@, idx, value),
    {
        let n = self.frames.len();
        let frame = &mut self.frames[n - 1];
        frame.insert(idx, value);
        assert(self@ =~= frames_insert(old(self)@, idx, value));
    }

    /// The value of variable `idx` in the innermost frame that defines it.
    pub fn get(&self, idx: usize) -> (r: Option<i64>)
        ensures
            r == frames_get(self@, idx),
    {
        let ghost fs = self@;
        let mut i = self.frames.len();
        while i > 0
            invariant
                i <= self.frames@.len(),
                self@ == fs,
                forall|k: int| i <= k < fs.len() ==> !(#[trigger] fs[k]).contains_key(idx),
            decreases i,
        {
            if let Some(v) = self.frames[i - 1].get(idx) {
                proof {
                    lemma_frames_get_skip(fs, idx, i as int);
                    assert(fs.subrange(0, i as int).last() == fs[i - 1]);
                }
                return Some(v);
            }
            i = i - 1;
        }
        proof { lemma_frames_get_skip(fs, idx, 0); }
        None
    }

    /// The number of frames.
    pub fn len(&self) -> (r: usize)
        ensures
            r == self@.len(),
    {
        self.frames.len()
    }
}

// ---------------------------------------------------------------------------
// The evaluator

/// The value of the binary operation `op` on `l` and `r`.
pub fn eval_binary(op: BinaryOperatorKind, l: i64, r: i64) -> (res: Result<i64, EvalError>)
    ensures
        res == binary_value(op, l, r),
{
    match op {
        BinaryOperatorKind::Plus => match l.checked_add(r) {
            Some(v) => Ok(v),
            None => Err(EvalError::Overflow),
        },
        BinaryOperatorKind::Minus => match l.checked_sub(r) {
            Some(v) => Ok(v),
            None => Err(EvalError::Overflow),
        },
        BinaryOperatorKind::Multiply => match l.checked_mul(r) {
            Some(v) => Ok(v),
            None => Err(EvalError::Overflow),
        },
        BinaryOperatorKind::Divide => {
            if r == 0 {
                Err(EvalError::DivisionByZero)
            } else {
                match l.checked_div(r) {
                    Some(v) => Ok(v),
                    None => Err(EvalError::Overflow),
                }
            }
        },
        BinaryOperatorKind::Power => {
            if r < 0 || r > u32::MAX as i64 {
                Err(EvalError::InvalidExponent)
            } else {
                match checked_pow(l, r as u32) {
                    Some(v) => Ok(v),
                    None => Err(EvalError::Overflow),
                }
            }
        },
        BinaryOperatorKind::BitwiseAnd => Ok(l & r),
        BinaryOperatorKind::BitwiseOr => Ok(l | r),
        BinaryOperatorKind::BitwiseXor => Ok(l ^ r),
        BinaryOperatorKind::LeftShift => {
            if r < 0 || r >= 64 {
                Err(EvalError::InvalidShift)
            } else {
                Ok(l.wrapping_shl(r as u32))
            }
        },
        BinaryOperatorKind::RightShift => {
            if r < 0 || r >= 64 {
                Err(EvalError::InvalidShift)
            } else {
                Ok(l.wrapping_shr(r as u32))
            }
        },
        BinaryOperatorKind::Equals => Ok(if l == r { 1 } else { 0 }),
        BinaryOperatorKind::NotEquals => Ok(if l != r { 1 } else { 0 }),
        BinaryOperatorKind::LessThan => Ok(if l < r { 1 } else { 0 }),
        BinaryOperatorKind::LessThanOrEqual => Ok(if l <= r { 1 } else { 0 }),
        BinaryOperatorKind::GreaterThan => Ok(if l > r { 1 } else { 0 }),
        BinaryOperatorKind::GreaterThanOrEqual => Ok(if l >= r { 1 } else { 0 }),
    }
}

proof fn lemma_pow_unit(b: int, e: nat)
    requires
        b == 0 || b == 1 || b == -1,
    ensures
        b == 1 ==> int_pow(b, e) == 1,
        b == 0 ==> int_pow(b, e) == if e == 0 { 1int } else { 0int },
        b == -1 ==> int_pow(b, e) == if e % 2 == 0 { 1int } else { -1int },
    decreases e,
{
    if e > 0 {
        lemma_pow_unit(b, (e - 1) as nat);
    }
}

proof fn lemma_pow_grows(b: int, k: nat, e: nat)
    requires
        b >= 2 || b <= -2,
        k <= e,
    ensures
        int_pow(b, k) <= int_pow(b, e) || int_pow(b, k) <= -int_pow(b, e),
        int_pow(b, k) >= int_pow(b, e) || int_pow(b, k) >= -int_pow(b, e),
    decreases e - k,
{
    if k < e {
        lemma_pow_grows(b, k, (e - 1) as nat);
        let p = int_pow(b, (e - 1) as nat);
        assert(int_pow(b, e) == b * p);
        assert(b * p >= p || b * p <= -p) by (nonlinear_arith)
            requires
                b >= 2 || b <= -2,
        ;
        assert(b * p <= p || b * p >= -p) by (nonlinear_arith)
            requires
                b >= 2 || b <= -2,
        ;
        assert(p >= 0 ==> (b * p >= p || b * p <= -p)) by (nonlinear_arith)
            requires
                b >= 2 || b <= -2,
        ;
        assert(p >= 0 ==> (b >= 2 ==> b * p >= p) && (b <= -2 ==> -(b * p) >= p)) by (nonlinear_arith)
            requires
                b >= 2 || b <= -2,
        ;
        assert(p < 0 ==> (b >= 2 ==> b * p <= p) && (b <= -2 ==> b * p >= -p)) by (nonlinear_arith)
            requires
                b >= 2 || b <= -2,
        ;
    }
}

/// `b` to the power `e`, when it fits in 64 bits.
fn checked_pow(b: i64, e: u32) -> (r: Option<i64>)
    ensures
        r == if i64::MIN <= int_pow(b as int, e as nat) <= i64::MAX { Some(int_pow(b as int, e as nat) as i64) } else { None::<i64> },
{
    if b == 0 || b == 1 || b == -1 {
        proof { lemma_pow_unit(b as int, e as nat); }
        if b == 1 {
            return Some(1);
        } else if b == 0 {
            return if e == 0 { Some(1) } else { Some(0) };
        } else {
            return if e % 2 == 0 { Some(1) } else { Some(-1) };
        }
    }
    let mut acc: i64 = 1;
    let mut k: u32 = 0;
    while k < e
        invariant
            k <= e,
            b >= 2 || b <= -2,
            acc as int == int_pow(b as int, k as nat),
        decreases e - k,
    {
        match acc.checked_mul(b) {
            Some(v) => {
                acc = v;
                k = k + 1;
            },
            None => {
                proof {
                    let big = int_pow(b as int, (k + 1) as nat);
                    assert(big == b * int_pow(b as int, k as nat));
                    assert(big > i64::MAX || big < i64::MIN);
                    let p = int_pow(b as int, e as nat);
                    if k + 1 == e {
                        assert(p == big);
                    } else {
                        let big2 = int_pow(b as int, (k + 2) as nat);
                        assert(big2 == b * big);
                        lemma_pow_grows(b as int, (k + 2) as nat, e as nat);
                        if big >= 0 {
                            assert(big2 >= 2 * big || big2 <= -2 * big) by (nonlinear_arith)
                                requires
                                    big2 == b * big,
                                    b >= 2 || b <= -2,
                                    big >= 0,
                            ;
                        } else {
                            assert(big2 >= -2 * big || big2 <= 2 * big) by (nonlinear_arith)
                                requires
                                    big2 == b * big,
                                    b >= 2 || b <= -2,
                                    big < 0,
                            ;
                        }
                    }
                }
                return None;
            },
        }
    }
    Some(acc)
}

/// The value of the unary operation `op` on `v`.
pub fn eval_unary(op: UnaryOperatorKind, v: i64) -> (r: Result<i64, EvalError>)
    ensures
        r == unary_value(op, v),
{
    match op {
        UnaryOperatorKind::Minus => {
            if v == i64::MIN {
                Err(EvalError::Overflow)
            } else {
                Ok(-v)
            }
        },
        UnaryOperatorKind::BitwiseNot => Ok(!v),
    }
}

/// The evaluation of a program: the frames and the value last computed.
pub struct AstEvaluator {
    pub last_value: Option<i64>,
    pub frames: Frames,
}

/// The evaluator ends in the state `s` if the evaluation `spec` succeeds,
/// and fails with its error otherwise.
pub open spec fn evaluated(r: Result<(), EvalError>, state: EvalState, spec: Result<EvalState, EvalError>) -> bool {
    match spec {
        Ok(s) => r is Ok && state == s,
        Err(e) => r == Err::<(), EvalError>(e),
    }
}

impl AstEvaluator {
    pub open spec fn state(&self) -> EvalState {
        (self.frames@, self.last_value)
    }

    /// An evaluator with one empty frame and no value.
    pub fn new() -> (r: AstEvaluator)
        ensures
            r.state() == (seq![Map::<usize, i64>::empty()], None::<i64>),
    {
        AstEvaluator { last_value: None, frames: Frames::new() }
    }

    fn push_frame(&mut self)
        ensures
            final(self).state() == (old(self).frames@.push(Map::empty()), old(self).last_value),
    {
        self.frames.push();
    }

    fn pop_frame(&mut self)
        ensures
            final(self).state() == (frames_pop(old(self).frames@), old(self).last_value),
    {
        self.frames.pop();
    }

    /// The value of the last expression, needed by what comes next.
    fn value(&self) -> (r: Result<i64, EvalError>)
        ensures
            r == needs_value(self.state()),
    {
        match self.last_value {
            Some(v) => Ok(v),
            None => Err(EvalError::MissingValue),
        }
    }

    /// Evaluates expression `id` for at most `fuel` steps.
    pub fn visit_expr(&mut self, ast: &Ast, gs: &GlobalScope, id: ExprId, fuel: u64) -> (r: Result<(), EvalError>)
        ensures
            evaluated(r, final(self).state(), eval_expr(*ast, *gs, fuel as nat, old(self).state(), id.idx as int)),
        decreases fuel, 2nat,
    {
        if fuel == 0 {
            return Err(EvalError::OutOfFuel);
        }
        if id.idx >= ast.expressions.len() {
            return Err(EvalError::InvalidNode);
        }
        let f = fuel - 1;
        match &ast.query_expr(id).kind {
            ExprKind::Number(n) => {
                self.last_value = Some(n.number);
                Ok(())
            },
            ExprKind::Boolean(b) => {
                self.last_value = Some(if b.value { 1 } else { 0 });
                Ok(())
            },
            ExprKind::Error(_) => Err(EvalError::ErrorExpression),
            ExprKind::Unary(u) => {
                let operand = u.operand;
                let op = u.operator.kind;
                self.visit_unary_expr(ast, gs, operand, op, f)
            },
            ExprKind::Binary(b) => {
                let left = b.left;
                let right = b.right;
                let op = b.operator.kind;
                self.visit_binary_expr(ast, gs, left, right, op, f)
            },
            ExprKind::Parenthesized(p) => self.visit_expr(ast, gs, p.expression, f),
            ExprKind::Variable(v) => {
                match self.frames.get(v.variable_idx.idx) {
                    Some(x) => {
                        self.last_value = Some(x);
                        Ok(())
                    },
                    None => Err(EvalError::UnboundVariable),
                }
            },
            ExprKind::Assignment(a) => {
                let inner = a.expression;
                let idx = a.variable_idx.idx;
                self.visit_assignment_expr(ast, gs, inner, idx, f)
            },
            ExprKind::Call(c) => self.visit_call_expr(ast, gs, c, f),
            ExprKind::If(i) => {
                let condition = i.condition;
                let then_branch = i.then_branch;
                let else_expr = match &i.else_branch {
                    Some(eb) => Some(eb.expr),
                    None => None,
                };
                self.visit_if_expr(ast, gs, condition, then_branch, else_expr, f)
            },
            ExprKind::Block(b) => self.visit_block_expr(ast, gs, &b.stmts, f),
        }
    }

    fn visit_unary_expr(&mut self, ast: &Ast, gs: &GlobalScope, operand: ExprId, op: UnaryOperatorKind, f: u64) -> (r: Result<(), EvalError>)
        ensures
            evaluated(r, final(self).state(), match eval_expr(*ast, *gs, f as nat, old(self).state(), operand.idx as int) {
                Err(e) => Err(e),
                Ok(s1) => match needs_value(s1) {
                    Err(e) => Err(e),
                    Ok(v) => match unary_value(op, v) {
                        Err(e) => Err(e),
                        Ok(x) => Ok((s1.0, Some(x))),
                    },
                },
            }),
        decreases f, 3nat,
    {
        self.visit_expr(ast, gs, operand, f)?;
        let v = self.value()?;
        let x = eval_unary(op, v)?;
        self.last_value = Some(x);
        Ok(())
    }

    fn visit_binary_expr(&mut self, ast: &Ast, gs: &GlobalScope, left: ExprId, right: ExprId, op: BinaryOperatorKind, f: u64) -> (r: Result<(), EvalError>)
        ensures
            evaluated(r, final(self).state(), match eval_expr(*ast, *gs, f as nat, old(self).state(), left.idx as int) {
                Err(e) => Err(e),
                Ok(s1) => match needs_value(s1) {
                    Err(e) => Err(e),
                    Ok(l) => match eval_expr(*ast, *gs, f as nat, s1, right.idx as int) {
                        Err(e) => Err(e),
                        Ok(s2) => match needs_value(s2) {
                            Err(e) => Err(e),
                            Ok(rv) => match binary_value(op, l, rv) {
                                Err(e) => Err(e),
                                Ok(v) => Ok((s2.0, Some(v))),
                            },
                        },
                    },
                },
            }),
        decreases f, 3nat,
    {
        self.visit_expr(ast, gs, left, f)?;
        let l = self.value()?;
        self.visit_expr(ast, gs, right, f)?;
        let rv = self.value()?;
        let v = eval_binary(op, l, rv)?;
        self.last_value = Some(v);
        Ok(())
    }

    fn visit_assignment_expr(&mut self, ast: &Ast, gs: &GlobalScope, inner: ExprId, idx: usize, f: u64) -> (r: Result<(), EvalError>)
        ensures
            evaluated(r, final(self).state(), match eval_expr(*ast, *gs, f as nat, old(self).state(), inner.idx as int) {
                Err(e) => Err(e),
                Ok(s1) => match needs_value(s1) {
                    Err(e) => Err(e),
                    Ok(v) => Ok((frames_update(s1.0, idx, v), s1.1)),
                },
            }),
        decreases f, 3nat,
    {
        self.visit_expr(ast, gs, inner, f)?;
        let v = self.value()?;
        self.frames.update(idx, v);
        Ok(())
    }
}

impl AstEvaluator {
    fn visit_call_expr(&mut self, ast: &Ast, gs: &GlobalScope, c: &crate::ast::CallExpr, f: u64) -> (r: Result<(), EvalError>)
        ensures
            evaluated(r, final(self).state(), match first_function_named(gs.functions@, c.identifier.span.literal@) {
                None => Err(EvalError::UnknownFunction),
                Some(fi) => match eval_args(*ast, *gs, f as nat, old(self).state(), c.arguments@, 0, Seq::empty()) {
                    Err(e) => Err(e),
                    Ok((s1, vals)) => {
                        let function = gs.functions@[fi];
                        let params = function.parameters@.map_values(|p: crate::compilation_unit::VariableIndex| p.idx);
                        let fs = bind_params(s1.0.push(Map::empty()), params, vals, 0);
                        match eval_stmt(*ast, *gs, f as nat, (fs, s1.1), function.body.idx as int) {
                            Err(e) => Err(e),
                            Ok(s2) => Ok((frames_pop(s2.0), s2.1)),
                        }
                    },
                },
            }),
        decreases f, 3nat,
    {
        let function_idx = match gs.lookup_function(&c.identifier.span.literal) {
            Some(fi) => fi,
            None => {
                return Err(EvalError::UnknownFunction);
            },
        };
        let ghost target = eval_args(*ast, *gs, f as nat, old(self).state(), c.arguments@, 0, Seq::empty());
        let mut arguments: Vec<i64> = Vec::new();
        let mut k: usize = 0;
        while k < c.arguments.len()
            invariant
                k <= c.arguments@.len(),
                target == eval_args(*ast, *gs, f as nat, old(self).state(), c.arguments@, 0, Seq::empty()),
                eval_args(*ast, *gs, f as nat, self.state(), c.arguments@, k as int, arguments@) == target,
                first_function_named(gs.functions@, c.identifier.span.literal@) == Some(function_idx.idx as int),
            decreases c.arguments@.len() - k,
        {
            if f == 0 {
                return Err(EvalError::OutOfFuel);
            }
            self.visit_expr(ast, gs, c.arguments[k], f - 1)?;
            let v = self.value()?;
            arguments.push(v);
            k = k + 1;
        }
        let ghost s1 = self.state();
        assert(target == Ok::<(EvalState, Seq<i64>), EvalError>((s1, arguments@)));
        let function = gs.functions.get(function_idx);
        let ghost params = function.parameters@.map_values(|p: crate::compilation_unit::VariableIndex| p.idx);
        self.push_frame();
        let ghost fs0 = self.frames@;
        let mut j: usize = 0;
        while j < function.parameters.len() && j < arguments.len()
            invariant
                j <= function.parameters@.len(),
                params == function.parameters@.map_values(|p: crate::compilation_unit::VariableIndex| p.idx),
                bind_params(self.frames@, params, arguments@, j as int) == bind_params(fs0, params, arguments@, 0),
                self.frames@.len() == fs0.len(),
                fs0.len() > 0,
                self.last_value == s1.1,
            decreases function.parameters@.len() - j,
        {
            self.frames.insert(function.parameters[j].idx, arguments[j]);
            j = j + 1;
        }
        assert(bind_params(self.frames@, params, arguments@, j as int) == self.frames@);
        self.visit_stmt(ast, gs, function.body, f)?;
        self.pop_frame();
        Ok(())
    }

    fn visit_if_expr(&mut self, ast: &Ast, gs: &GlobalScope, condition: ExprId, then_branch: ExprId, else_expr: Option<ExprId>, f: u64) -> (r: Result<(), EvalError>)
        ensures
            evaluated(r, final(self).state(), match eval_expr(*ast, *gs, f as nat, (old(self).frames@.push(Map::empty()), old(self).last_value), condition.idx as int) {
                Err(e) => Err(e),
                Ok(s1) => match needs_value(s1) {
                    Err(e) => Err(e),
                    Ok(cv) => if cv != 0 {
                        match eval_expr(*ast, *gs, f as nat, (s1.0.push(Map::empty()), s1.1), then_branch.idx as int) {
                            Err(e) => Err(e),
                            Ok(s2) => Ok((frames_pop(frames_pop(s2.0)), s2.1)),
                        }
                    } else {
                        match else_expr {
                            Some(x) => match eval_expr(*ast, *gs, f as nat, (s1.0.push(Map::empty()), s1.1), x.idx as int) {
                                Err(e) => Err(e),
                                Ok(s2) => Ok((frames_pop(frames_pop(s2.0)), s2.1)),
                            },
                            None => Ok((frames_pop(s1.0), s1.1)),
                        }
                    },
                },
            }),
        decreases f, 3nat,
    {
        self.push_frame();
        self.visit_expr(ast, gs, condition, f)?;
        let cv = self.value()?;
        if cv != 0 {
            self.push_frame();
            self.visit_expr(ast, gs, then_branch, f)?;
            self.pop_frame();
        } else if let Some(x) = else_expr {
            self.push_frame();
            self.visit_expr(ast, gs, x, f)?;
            self.pop_frame();
        }
        self.pop_frame();
        Ok(())
    }

    fn visit_block_expr(&mut self, ast: &Ast, gs: &GlobalScope, stmts: &Vec<StmtId>, f: u64) -> (r: Result<(), EvalError>)
        ensures
            evaluated(r, final(self).state(), match eval_stmts(*ast, *gs, f as nat, (old(self).frames@.push(Map::empty()), old(self).last_value), stmts@, 0) {
                Err(e) => Err(e),
                Ok(s1) => Ok((frames_pop(s1.0), s1.1)),
            }),
        decreases f, 3nat,
    {
        self.push_frame();
        let ghost target = eval_stmts(*ast, *gs, f as nat, self.state(), stmts@, 0);
        let mut k: usize = 0;
        while k < stmts.len()
            invariant
                k <= stmts@.len(),
                eval_stmts(*ast, *gs, f as nat, self.state(), stmts@, k as int) == target,
                target == eval_stmts(*ast, *gs, f as nat, (old(self).frames@.push(Map::empty()), old(self).last_value), stmts@, 0),
            decreases stmts@.len() - k,
        {
            if f == 0 {
                return Err(EvalError::OutOfFuel);
            }
            self.visit_stmt(ast, gs, stmts[k], f - 1)?;
            k = k + 1;
        }
        self.pop_frame();
        Ok(())
    }

    /// Evaluates statement `sid` for at most `fuel` steps.
    pub fn visit_stmt(&mut self, ast: &Ast, gs: &GlobalScope, sid: StmtId, fuel: u64) -> (r: Result<(), EvalError>)
        ensures
            evaluated(r, final(self).state(), eval_stmt(*ast, *gs, fuel as nat, old(self).state(), sid.idx as int)),
        decreases fuel, 2nat,
    {
        if fuel == 0 {
            return Err(EvalError::OutOfFuel);
        }
        if sid.idx >= ast.statements.len() {
            return Err(EvalError::InvalidNode);
        }
        let f = fuel - 1;
        match &ast.query_stmt(sid).kind {
            StmtKind::Expr(e) => self.visit_expr(ast, gs, *e, f),
            StmtKind::Let(l) => {
                self.visit_expr(ast, gs, l.initializer, f)?;
                let v = self.value()?;
                if self.frames.len() == 0 {
                    return Err(EvalError::NoFrame);
                }
                self.frames.insert(l.variable_idx.idx, v);
                Ok(())
            },
            StmtKind::While(w) => {
                let condition = w.condition;
                let body = w.body;
                self.push_frame();
                self.visit_while_stmt(ast, gs, condition, body, f)?;
                self.pop_frame();
                Ok(())
            },
            StmtKind::Return(ret) => match ret.return_value {
                Some(e) => self.visit_expr(ast, gs, e, f),
                None => Ok(()),
            },
        }
    }

    /// Evaluates a `while` loop: its condition, then, while it is not 0, its
    /// body and the condition again.
    fn visit_while_stmt(&mut self, ast: &Ast, gs: &GlobalScope, condition: ExprId, body: ExprId, fuel: u64) -> (r: Result<(), EvalError>)
        ensures
            evaluated(r, final(self).state(), eval_while(*ast, *gs, fuel as nat, old(self).state(), condition.idx as int, body.idx as int)),
        decreases fuel, 3nat,
    {
        let ghost target = eval_while(*ast, *gs, fuel as nat, self.state(), condition.idx as int, body.idx as int);
        let mut f = fuel;
        loop
            invariant
                f <= fuel,
                eval_while(*ast, *gs, f as nat, self.state(), condition.idx as int, body.idx as int) == target,
                target == eval_while(*ast, *gs, fuel as nat, old(self).state(), condition.idx as int, body.idx as int),
            decreases f,
        {
            if f == 0 {
                return Err(EvalError::OutOfFuel);
            }
            self.visit_expr(ast, gs, condition, f - 1)?;
            let cv = self.value()?;
            if cv == 0 {
                return Ok(());
            }
            self.visit_expr(ast, gs, body, f - 1)?;
            f = f - 1;
        }
    }
}

} // verus!
