//! What the second pass of resolution does, stated over a model of its
//! state: the expressions and statements of the tree, the variables and the
//! scopes declared so far, the function being resolved, and the reports made.
//! Each step of the model is one step of the resolver; the resolver's
//! contracts say that it moves its state exactly as the model does.

use vstd::prelude::*;

use crate::ast::{
    Ast, AssignmentExpr, Expr, ExprKind, Item, ItemKind, LetStmt, Stmt, StmtId, StmtKind, VariableExpr,
    args_span_models, erase_stmt_variables, erase_variables, expr_span_model, same_shape,
    stmt_span_model, stmts_span_models,
};
use crate::ast::lexer::Token;
use crate::compilation_unit::{
    FunctionIndex, FunctionSymbol, LocalScope, Resolver, Scopes, VariableIndex, VariableSymbol,
    binary_signature, first_function_named, first_named, lookup_locals, mismatch_reports,
    named_type, report_models, type_reports, var_models, func_models, lemma_first_named_bounds,
    lemma_first_function_named_bounds,
};
use crate::diagnostics::{DiagnosticKind, Report, decimal_text};
use crate::text::SpanModel;
use crate::typings::Type;

verus! {

/// The state that resolution reads and changes.
#[verifier::ext_equal]
pub ghost struct ResolveState {
    pub exprs: Seq<Expr>,
    pub stmts: Seq<Stmt>,
    pub vars: Seq<VariableSymbol>,
    pub globals: Seq<VariableIndex>,
    pub locals: Seq<Seq<VariableIndex>>,
    pub surrounding: Option<FunctionIndex>,
    pub reports: Seq<Report>,
}

/// The variables of each of the local scopes `ls`.
pub open spec fn locals_model(ls: Seq<LocalScope>) -> Seq<Seq<VariableIndex>> {
    ls.map_values(|l: LocalScope| l.locals@)
}

pub proof fn lemma_locals_model_push(before: Seq<LocalScope>, x: LocalScope)
    ensures
        locals_model(before.push(x)) == locals_model(before).push(x.locals@),
{
    assert(locals_model(before.push(x)) =~= locals_model(before).push(x.locals@));
}

pub proof fn lemma_locals_model_drop_last(before: Seq<LocalScope>)
    requires
        before.len() > 0,
    ensures
        locals_model(before.drop_last()) == locals_model(before).drop_last(),
{
    assert(locals_model(before.drop_last()) =~= locals_model(before).drop_last());
}

pub proof fn lemma_locals_model_last(before: Seq<LocalScope>, after: Seq<LocalScope>)
    requires
        before.len() > 0,
        after.len() == before.len(),
        after.drop_last() == before.drop_last(),
    ensures
        locals_model(after) == locals_model(before).update(before.len() - 1, after.last().locals@),
{
    assert forall|j: int| 0 <= j < before.len() - 1 implies after[j] == before[j] by {
        assert(after.drop_last()[j] == after[j]);
        assert(before.drop_last()[j] == before[j]);
    }
    assert(locals_model(after) =~= locals_model(before).update(before.len() - 1, after.last().locals@));
}

/// The state of a resolver working on `ast`.
pub open spec fn state_of(r: Resolver, ast: Ast) -> ResolveState {
    ResolveState {
        exprs: ast.expressions@,
        stmts: ast.statements@,
        vars: r.scopes.global_scope.variables@,
        globals: r.scopes.global_scope.global_variables@,
        locals: locals_model(r.scopes.local_scopes_vec@),
        surrounding: r.scopes.surrounding_function,
        reports: report_models(r.diagnostics),
    }
}

/// The span of each expression of `ast`.
pub open spec fn span_oracle(ast: Ast) -> spec_fn(int) -> SpanModel {
    |j: int| expr_span_model(ast, j)
}

// ---------------------------------------------------------------------------
// Lookups

/// The variable that `name` denotes in the local scopes `ls`: the first of
/// that name in the innermost scope that has one.
pub open spec fn locals_lookup(vars: Seq<VariableSymbol>, ls: Seq<Seq<VariableIndex>>, name: Seq<char>) -> Option<VariableIndex>
    decreases ls.len(),
{
    if ls.len() == 0 {
        None
    } else {
        match first_named(vars, ls.last(), name) {
            Some(k) => Some(ls.last()[k]),
            None => locals_lookup(vars, ls.drop_last(), name),
        }
    }
}

/// The variable that `name` denotes in the state `st`: a local, else a global.
pub open spec fn state_lookup(st: ResolveState, name: Seq<char>) -> Option<VariableIndex> {
    match locals_lookup(st.vars, st.locals, name) {
        Some(v) => Some(v),
        None => match first_named(st.vars, st.globals, name) {
            Some(k) => Some(st.globals[k]),
            None => None,
        },
    }
}

proof fn lemma_locals_lookup(vars: Seq<VariableSymbol>, scopes: Seq<LocalScope>, name: Seq<char>)
    ensures
        lookup_locals(vars, scopes, name) == locals_lookup(vars, locals_model(scopes), name),
    decreases scopes.len(),
{
    if scopes.len() > 0 {
        lemma_locals_model_drop_last(scopes);
        lemma_locals_lookup(vars, scopes.drop_last(), name);
    }
}

/// The model looks names up as the scopes do.
pub proof fn lemma_state_lookup(r: Resolver, ast: Ast, name: Seq<char>)
    ensures
        r.scopes.lookup(name) == state_lookup(state_of(r, ast), name),
{
    lemma_locals_lookup(r.scopes.global_scope.variables@, r.scopes.local_scopes_vec@, name);
}

// ---------------------------------------------------------------------------
// Steps of the model

/// Expression `i` gets the type `t`.
pub open spec fn with_type(st: ResolveState, i: int, t: Type) -> ResolveState {
    ResolveState { exprs: st.exprs.update(i, Expr { ty: t, ..st.exprs[i] }), ..st }
}

/// Expression `i`, a variable or an assignment, records the variable `x`.
pub open spec fn with_variable(st: ResolveState, i: int, x: VariableIndex) -> ResolveState {
    let e = st.exprs[i];
    match e.kind {
        ExprKind::Variable(v) => ResolveState {
            exprs: st.exprs.update(i, Expr { kind: ExprKind::Variable(VariableExpr { variable_idx: x, ..v }), ..e }),
            ..st
        },
        ExprKind::Assignment(a) => ResolveState {
            exprs: st.exprs.update(i, Expr { kind: ExprKind::Assignment(AssignmentExpr { variable_idx: x, ..a }), ..e }),
            ..st
        },
        _ => st,
    }
}

/// Statement `s`, a `let`, records the variable `x`.
pub open spec fn with_let_variable(st: ResolveState, s: int, x: VariableIndex) -> ResolveState {
    let stmt = st.stmts[s];
    match stmt.kind {
        StmtKind::Let(l) => ResolveState {
            stmts: st.stmts.update(s, Stmt { kind: StmtKind::Let(LetStmt { variable_idx: x, ..l }), ..stmt }),
            ..st
        },
        _ => st,
    }
}

/// The reports `rs` are made.
pub open spec fn reporting(st: ResolveState, rs: Seq<Report>) -> ResolveState {
    ResolveState { reports: st.reports + rs, ..st }
}

/// A new, empty, innermost scope.
pub open spec fn entering(st: ResolveState) -> ResolveState {
    ResolveState { locals: st.locals.push(Seq::empty()), ..st }
}

/// The innermost scope is closed, if there is one.
pub open spec fn exiting(st: ResolveState) -> ResolveState {
    ResolveState { locals: if st.locals.len() > 0 { st.locals.drop_last() } else { st.locals }, ..st }
}

/// A variable named `name` of type `t` is declared: a local of the
/// innermost scope if there is one, else a global.
pub open spec fn declaring(st: ResolveState, name: String, t: Type) -> ResolveState {
    let x = VariableIndex { idx: st.vars.len() as usize };
    if st.locals.len() > 0 {
        ResolveState {
            vars: st.vars.push(VariableSymbol { name, var_type: t }),
            locals: st.locals.update(st.locals.len() - 1, st.locals.last().push(x)),
            ..st
        }
    } else {
        ResolveState {
            vars: st.vars.push(VariableSymbol { name, var_type: t }),
            globals: st.globals.push(x),
            ..st
        }
    }
}

/// The report that `t` names no function.
pub open spec fn undeclared_function_report(t: Token) -> Report {
    (DiagnosticKind::Error, "Undeclared function '"@ + t.span.literal@ + "'"@, t.span.model())
}

/// The report that `t` names a function of `expected` parameters that was
/// given `actual` arguments.
pub open spec fn argument_count_report(t: Token, expected: nat, actual: nat) -> Report {
    (
        DiagnosticKind::Error,
        "Function '"@ + t.span.literal@ + "' expects "@ + decimal_text(expected) + " arguments, but was given "@
            + decimal_text(actual),
        t.span.model(),
    )
}

/// The report that the `return` at `t` stands outside any function.
pub open spec fn return_outside_report(t: Token) -> Report {
    (DiagnosticKind::Error, "Cannot use 'return' outside of function"@, t.span.model())
}

// ---------------------------------------------------------------------------
// Resolution in the model

/// Resolving expression `i` in the state `st`, when the functions are `fs`
/// and `sp` gives the spans of expressions.
pub open spec fn resolve_expr(sp: spec_fn(int) -> SpanModel, fs: Seq<FunctionSymbol>, st: ResolveState, i: int) -> ResolveState
    decreases i, 3int, 0int,
{
    if !(0 <= i < st.exprs.len()) {
        st
    } else {
        match st.exprs[i].kind {
            ExprKind::Number(_) => with_type(st, i, Type::Int),
            ExprKind::Binary(b) => {
                let l = b.left.idx as int;
                let r = b.right.idx as int;
                let s1 = if 0 <= l < i { resolve_expr(sp, fs, st, l) } else { st };
                let s2 = if 0 <= r < i { resolve_expr(sp, fs, s1, r) } else { s1 };
                let sig = binary_signature(b.operator.kind);
                let s3 = reporting(
                    s2,
                    mismatch_reports(sig.0, s2.exprs[l].ty, sp(l)) + mismatch_reports(sig.1, s2.exprs[r].ty, sp(r)),
                );
                with_type(s3, i, sig.2)
            },
            ExprKind::Unary(u) => {
                let o = u.operand.idx as int;
                let s1 = if 0 <= o < i { resolve_expr(sp, fs, st, o) } else { st };
                with_type(reporting(s1, mismatch_reports(Type::Int, s1.exprs[o].ty, sp(o))), i, Type::Int)
            },
            ExprKind::Parenthesized(p) => {
                let inner = p.expression.idx as int;
                let s1 = if 0 <= inner < i { resolve_expr(sp, fs, st, inner) } else { st };
                with_type(s1, i, s1.exprs[inner].ty)
            },
            ExprKind::Variable(v) => match state_lookup(st, v.identifier.span.literal@) {
                Some(x) => with_variable(with_type(st, i, st.vars[x.idx as int].var_type), i, x),
                None => reporting(st, undeclared_variable_reports_in(st, v.identifier)),
            },
            ExprKind::Assignment(a) => {
                let inner = a.expression.idx as int;
                let s1 = if 0 <= inner < i { resolve_expr(sp, fs, st, inner) } else { st };
                match state_lookup(s1, a.identifier.span.literal@) {
                    Some(x) => {
                        let t = s1.vars[x.idx as int].var_type;
                        with_variable(
                            with_type(reporting(s1, mismatch_reports(t, s1.exprs[inner].ty, sp(inner))), i, t),
                            i,
                            x,
                        )
                    },
                    None => with_type(reporting(s1, undeclared_variable_reports_in(s1, a.identifier)), i, Type::Void),
                }
            },
            ExprKind::Call(c) => match first_function_named(fs, c.identifier.span.literal@) {
                Some(f) => {
                    let params = fs[f].parameters@;
                    let args = c.arguments@;
                    let s1 = if params.len() != args.len() {
                        reporting(st, seq![argument_count_report(c.identifier, params.len(), args.len())])
                    } else {
                        st
                    };
                    with_type(resolve_args(sp, fs, s1, i, args, params, 0), i, fs[f].return_type)
                },
                None => with_type(reporting(st, seq![undeclared_function_report(c.identifier)]), i, Type::Void),
            },
            ExprKind::If(e) => resolve_if(sp, fs, st, i, e.condition, e.then_branch, match e.else_branch {
                Some(b) => Some(b.expr),
                None => None,
            }),
            ExprKind::Block(b) => exiting(resolve_stmts(sp, fs, entering(st), i, b.stmts@, 0)),
            ExprKind::Boolean(_) | ExprKind::Error(_) => st,
        }
    }
}

/// Resolving an `if` that is expression `i`: the condition, which must be
/// `bool`, and the then-branch in a scope of their own, the else-branch in
/// another.
pub open spec fn resolve_if(
    sp: spec_fn(int) -> SpanModel,
    fs: Seq<FunctionSymbol>,
    st: ResolveState,
    i: int,
    condition: crate::ast::ExprId,
    then_branch: crate::ast::ExprId,
    else_expr: Option<crate::ast::ExprId>,
) -> ResolveState
    decreases i, 2int, 0int,
{
    let c = condition.idx as int;
    let t = then_branch.idx as int;
    let s1 = entering(st);
    let s2 = if 0 <= c < i { resolve_expr(sp, fs, s1, c) } else { s1 };
    let s3 = reporting(s2, mismatch_reports(Type::Bool, s2.exprs[c].ty, sp(c)));
    let s4 = if 0 <= t < i { resolve_expr(sp, fs, s3, t) } else { s3 };
    let s5 = exiting(s4);
    match else_expr {
        Some(x) => {
            let xi = x.idx as int;
            let s6 = entering(s5);
            exiting(if 0 <= xi < i { resolve_expr(sp, fs, s6, xi) } else { s6 })
        },
        None => s5,
    }
}

/// Resolving a `return` at `keyword` whose value, if any, lies below `bound`:
/// outside a function it is reported; inside, the value (`void` without one)
/// must fit the function's return type.
pub open spec fn resolve_return(
    sp: spec_fn(int) -> SpanModel,
    fs: Seq<FunctionSymbol>,
    st: ResolveState,
    keyword: Token,
    value: Option<crate::ast::ExprId>,
    bound: int,
) -> ResolveState
    decreases bound, 0int, 0int,
{
    match st.surrounding {
        None => reporting(st, seq![return_outside_report(keyword)]),
        Some(f) => match value {
            Some(v) => {
                let vi = v.idx as int;
                let s1 = if 0 <= vi < bound { resolve_expr(sp, fs, st, vi) } else { st };
                reporting(s1, mismatch_reports(fs[f.idx as int].return_type, s1.exprs[vi].ty, sp(vi)))
            },
            None => reporting(st, mismatch_reports(Type::Void, fs[f.idx as int].return_type, keyword.span.model())),
        },
    }
}

/// The report that the name of `t` denotes no variable in `st`, if it does not.
pub open spec fn undeclared_variable_reports_in(st: ResolveState, t: Token) -> Seq<Report> {
    if state_lookup(st, t.span.literal@) is Some {
        Seq::empty()
    } else {
        seq![(DiagnosticKind::Error, "Undeclared variable '"@ + t.span.literal@ + "'"@, t.span.model())]
    }
}

/// Resolving the arguments `args` of a call of expression `i` from the
/// `j`-th on, each checked against its parameter among `params`, as far as
/// both go.
pub open spec fn resolve_args(
    sp: spec_fn(int) -> SpanModel,
    fs: Seq<FunctionSymbol>,
    st: ResolveState,
    i: int,
    args: Seq<crate::ast::ExprId>,
    params: Seq<VariableIndex>,
    j: int,
) -> ResolveState
    decreases i, 2int, args.len() - j,
{
    if 0 <= j < params.len() && j < args.len() {
        let a = args[j].idx as int;
        let s1 = if 0 <= a < i { resolve_expr(sp, fs, st, a) } else { st };
        let pt = s1.vars[params[j].idx as int].var_type;
        resolve_args(sp, fs, reporting(s1, mismatch_reports(pt, s1.exprs[a].ty, sp(a))), i, args, params, j + 1)
    } else {
        st
    }
}

/// Resolving the statements `stmts` from the `k`-th on, whose expressions
/// lie below `bound`.
pub open spec fn resolve_stmts(
    sp: spec_fn(int) -> SpanModel,
    fs: Seq<FunctionSymbol>,
    st: ResolveState,
    bound: int,
    stmts: Seq<StmtId>,
    k: int,
) -> ResolveState
    decreases bound, 2int, stmts.len() - k,
{
    if 0 <= k < stmts.len() {
        resolve_stmts(sp, fs, resolve_stmt(sp, fs, st, stmts[k].idx as int, bound), bound, stmts, k + 1)
    } else {
        st
    }
}

/// Resolving statement `s`, whose expressions lie below `bound`.
pub open spec fn resolve_stmt(sp: spec_fn(int) -> SpanModel, fs: Seq<FunctionSymbol>, st: ResolveState, s: int, bound: int) -> ResolveState
    decreases bound, 1int, 0int,
{
    if !(0 <= s < st.stmts.len()) {
        st
    } else {
        match st.stmts[s].kind {
            StmtKind::Expr(e) => if 0 <= e.idx < bound { resolve_expr(sp, fs, st, e.idx as int) } else { st },
            StmtKind::Let(l) => {
                let init = l.initializer.idx as int;
                let s1 = if 0 <= init < bound { resolve_expr(sp, fs, st, init) } else { st };
                let init_type = s1.exprs[init].ty;
                let (t, s2) = match l.type_annotation {
                    Some(a) => {
                        let t = named_type(a.type_ident.span.literal@);
                        (t, reporting(s1, type_reports(a.type_ident) + mismatch_reports(t, init_type, sp(init))))
                    },
                    None => (init_type, s1),
                };
                let x = VariableIndex { idx: s2.vars.len() as usize };
                with_let_variable(declaring(s2, l.identifier.span.literal, t), s, x)
            },
            StmtKind::While(w) => {
                let c = w.condition.idx as int;
                let b = w.body.idx as int;
                let s1 = if 0 <= c < bound { resolve_expr(sp, fs, st, c) } else { st };
                let s2 = reporting(s1, mismatch_reports(Type::Bool, s1.exprs[c].ty, sp(c)));
                if 0 <= b < bound { resolve_expr(sp, fs, s2, b) } else { s2 }
            },
            StmtKind::Return(r) => resolve_return(sp, fs, st, r.return_keyword, r.return_value, bound),
        }
    }
}

/// Resolving the body of the function named `name`, in a scope of its own
/// that holds its parameters.
pub open spec fn resolve_function(sp: spec_fn(int) -> SpanModel, fs: Seq<FunctionSymbol>, st: ResolveState, name: Seq<char>, body: StmtId) -> ResolveState {
    match first_function_named(fs, name) {
        Some(f) => {
            let s1 = ResolveState {
                surrounding: Some(FunctionIndex { idx: f as usize }),
                locals: st.locals.push(fs[f].parameters@),
                ..st
            };
            let s2 = resolve_stmt(sp, fs, s1, body.idx as int, s1.exprs.len() as int);
            ResolveState { surrounding: None, ..exiting(s2) }
        },
        None => st,
    }
}

/// Resolving one item.
pub open spec fn resolve_item(sp: spec_fn(int) -> SpanModel, fs: Seq<FunctionSymbol>, st: ResolveState, item: Item) -> ResolveState {
    match item.kind {
        ItemKind::Func(f) => resolve_function(sp, fs, st, f.identifier.span.literal@, f.body),
        ItemKind::Stmt(s) => resolve_stmt(sp, fs, st, s.idx as int, st.exprs.len() as int),
    }
}

/// Resolving the items `items` from the `k`-th on, in order.
pub open spec fn resolve_items(sp: spec_fn(int) -> SpanModel, fs: Seq<FunctionSymbol>, st: ResolveState, items: Seq<Item>, k: int) -> ResolveState
    decreases items.len() - k,
{
    if 0 <= k < items.len() {
        resolve_items(sp, fs, resolve_item(sp, fs, st, items[k]), items, k + 1)
    } else {
        st
    }
}

// ---------------------------------------------------------------------------
// Resolution reads the declarations only through what they hold

/// Two states that agree but for how the names of their variables are stored.
pub open spec fn same_state(a: ResolveState, b: ResolveState) -> bool {
    &&& a.exprs == b.exprs
    &&& a.stmts == b.stmts
    &&& var_models(a.vars) == var_models(b.vars)
    &&& a.globals == b.globals
    &&& a.locals == b.locals
    &&& a.surrounding == b.surrounding
    &&& a.reports == b.reports
}

proof fn lemma_var_models_at(a: Seq<VariableSymbol>, b: Seq<VariableSymbol>, k: int)
    requires
        var_models(a) == var_models(b),
        0 <= k < a.len(),
    ensures
        a.len() == b.len(),
        a[k].name@ == b[k].name@,
        a[k].var_type == b[k].var_type,
{
    assert(var_models(a).len() == a.len());
    assert(var_models(b).len() == b.len());
    assert(var_models(a)[k] == (a[k].name@, a[k].var_type));
    assert(var_models(a)[k] == var_models(b)[k]);
}

proof fn lemma_first_named_same(a: Seq<VariableSymbol>, b: Seq<VariableSymbol>, idxs: Seq<VariableIndex>, name: Seq<char>)
    requires
        var_models(a) == var_models(b),
    ensures
        first_named(a, idxs, name) == first_named(b, idxs, name),
    decreases idxs.len(),
{
    assert(var_models(a).len() == a.len());
    assert(var_models(b).len() == b.len());
    if idxs.len() > 0 {
        lemma_first_named_same(a, b, idxs.drop_last(), name);
        let x = idxs.last().idx as int;
        if 0 <= x < a.len() {
            lemma_var_models_at(a, b, x);
        }
    }
}

proof fn lemma_locals_lookup_same(a: Seq<VariableSymbol>, b: Seq<VariableSymbol>, ls: Seq<Seq<VariableIndex>>, name: Seq<char>)
    requires
        var_models(a) == var_models(b),
    ensures
        locals_lookup(a, ls, name) == locals_lookup(b, ls, name),
    decreases ls.len(),
{
    if ls.len() > 0 {
        lemma_first_named_same(a, b, ls.last(), name);
        lemma_locals_lookup_same(a, b, ls.drop_last(), name);
    }
}

proof fn lemma_state_lookup_same(a: ResolveState, b: ResolveState, name: Seq<char>)
    requires
        same_state(a, b),
    ensures
        state_lookup(a, name) == state_lookup(b, name),
        state_lookup(a, name) matches Some(x) ==> 0 <= x.idx < a.vars.len(),
{
    lemma_state_lookup_in_range(a, name);
    lemma_locals_lookup_same(a.vars, b.vars, a.locals, name);
    lemma_first_named_same(a.vars, b.vars, a.globals, name);
}

proof fn lemma_locals_lookup_in_range(vars: Seq<VariableSymbol>, ls: Seq<Seq<VariableIndex>>, name: Seq<char>)
    ensures
        locals_lookup(vars, ls, name) matches Some(x) ==> 0 <= x.idx < vars.len(),
    decreases ls.len(),
{
    if ls.len() > 0 {
        lemma_first_named_bounds(vars, ls.last(), name);
        lemma_locals_lookup_in_range(vars, ls.drop_last(), name);
    }
}

proof fn lemma_state_lookup_in_range(a: ResolveState, name: Seq<char>)
    ensures
        state_lookup(a, name) matches Some(x) ==> 0 <= x.idx < a.vars.len(),
{
    lemma_locals_lookup_in_range(a.vars, a.locals, name);
    lemma_first_named_bounds(a.vars, a.globals, name);
}

proof fn lemma_first_function_named_same(a: Seq<FunctionSymbol>, b: Seq<FunctionSymbol>, name: Seq<char>)
    requires
        func_models(a) == func_models(b),
    ensures
        first_function_named(a, name) == first_function_named(b, name),
    decreases a.len(),
{
    assert(func_models(a).len() == a.len());
    assert(func_models(b).len() == b.len());
    if a.len() > 0 {
        assert(func_models(a.drop_last()) =~= func_models(b.drop_last())) by {
            assert forall|k: int| 0 <= k < a.len() - 1 implies #[trigger] func_models(a.drop_last())[k] == func_models(b.drop_last())[k] by {
                assert(func_models(a)[k] == func_models(b)[k]);
                assert(a.drop_last()[k] == a[k]);
                assert(b.drop_last()[k] == b[k]);
            }
        }
        lemma_first_function_named_same(a.drop_last(), b.drop_last(), name);
        assert(func_models(a)[a.len() - 1] == func_models(b)[a.len() - 1]);
        assert(func_models(a)[a.len() - 1].name == a.last().name@);
        assert(func_models(b)[a.len() - 1].name == b.last().name@);
    }
}

proof fn lemma_func_models_at(a: Seq<FunctionSymbol>, b: Seq<FunctionSymbol>, k: int)
    requires
        func_models(a) == func_models(b),
        0 <= k < a.len(),
    ensures
        a.len() == b.len(),
        a[k].parameters@ == b[k].parameters@,
        a[k].return_type == b[k].return_type,
        a[k].body == b[k].body,
{
    assert(func_models(a).len() == a.len());
    assert(func_models(b).len() == b.len());
    assert(func_models(a)[k] == func_models(b)[k]);
}

proof fn lemma_var_models_push(a: Seq<VariableSymbol>, b: Seq<VariableSymbol>, x: VariableSymbol)
    requires
        var_models(a) == var_models(b),
    ensures
        var_models(a.push(x)) == var_models(b.push(x)),
{
    assert(var_models(a).len() == a.len());
    assert(var_models(b).len() == b.len());
    assert forall|k: int| 0 <= k < a.len() + 1 implies #[trigger] var_models(a.push(x))[k] == var_models(b.push(x))[k] by {
        if k < a.len() {
            lemma_var_models_at(a, b, k);
        }
    }
    assert(var_models(a.push(x)) =~= var_models(b.push(x)));
}

/// Every parameter of the functions `fs` is among the first `n` variables.
pub open spec fn params_declared(fs: Seq<FunctionSymbol>, n: int) -> bool {
    forall|f: int, k: int|
        0 <= f < fs.len() && 0 <= k < fs[f].parameters@.len() ==> (#[trigger] fs[f].parameters@[k]).idx < n
}

/// Two resolutions that may be compared: their functions hold the same, their
/// states agree, every parameter is a variable and the function being
/// resolved, if any, exists.
pub open spec fn comparable(fs1: Seq<FunctionSymbol>, fs2: Seq<FunctionSymbol>, st1: ResolveState, st2: ResolveState) -> bool {
    &&& func_models(fs1) == func_models(fs2)
    &&& same_state(st1, st2)
    &&& params_declared(fs1, st1.vars.len() as int)
    &&& st1.surrounding matches Some(f) ==> f.idx < fs1.len()
}

/// The outcome of one resolution step from comparable states: comparable
/// again, with no variable lost and the same function being resolved.
pub open spec fn step_comparable(
    fs1: Seq<FunctionSymbol>,
    fs2: Seq<FunctionSymbol>,
    st1: ResolveState,
    out1: ResolveState,
    out2: ResolveState,
) -> bool {
    &&& comparable(fs1, fs2, out1, out2)
    &&& out1.vars.len() >= st1.vars.len()
    &&& out1.surrounding == st1.surrounding
}

#[verifier::spinoff_prover]
#[verifier::rlimit(50)]
proof fn lemma_resolve_expr_same(
    sp: spec_fn(int) -> SpanModel,
    fs1: Seq<FunctionSymbol>,
    fs2: Seq<FunctionSymbol>,
    st1: ResolveState,
    st2: ResolveState,
    i: int,
)
    requires
        comparable(fs1, fs2, st1, st2),
    ensures
        step_comparable(fs1, fs2, st1, resolve_expr(sp, fs1, st1, i), resolve_expr(sp, fs2, st2, i)),
    decreases i, 3int, 0int,
{
    if 0 <= i < st1.exprs.len() {
        match st1.exprs[i].kind {
            ExprKind::Binary(b) => {
                let l = b.left.idx as int;
                let r = b.right.idx as int;
                if 0 <= l < i {
                    lemma_resolve_expr_same(sp, fs1, fs2, st1, st2, l);
                }
                let s1a = if 0 <= l < i { resolve_expr(sp, fs1, st1, l) } else { st1 };
                let s1b = if 0 <= l < i { resolve_expr(sp, fs2, st2, l) } else { st2 };
                if 0 <= r < i {
                    lemma_resolve_expr_same(sp, fs1, fs2, s1a, s1b, r);
                }
            },
            ExprKind::Unary(u) => {
                let o = u.operand.idx as int;
                if 0 <= o < i {
                    lemma_resolve_expr_same(sp, fs1, fs2, st1, st2, o);
                }
            },
            ExprKind::Parenthesized(p) => {
                let inner = p.expression.idx as int;
                if 0 <= inner < i {
                    lemma_resolve_expr_same(sp, fs1, fs2, st1, st2, inner);
                }
            },
            ExprKind::Variable(v) => {
                let name = v.identifier.span.literal@;
                lemma_state_lookup_same(st1, st2, name);
                if let Some(x) = state_lookup(st1, name) {
                    lemma_var_models_at(st1.vars, st2.vars, x.idx as int);
                }
            },
            ExprKind::Assignment(a) => {
                let inner = a.expression.idx as int;
                if 0 <= inner < i {
                    lemma_resolve_expr_same(sp, fs1, fs2, st1, st2, inner);
                }
                let s1a = if 0 <= inner < i { resolve_expr(sp, fs1, st1, inner) } else { st1 };
                let s1b = if 0 <= inner < i { resolve_expr(sp, fs2, st2, inner) } else { st2 };
                let name = a.identifier.span.literal@;
                lemma_state_lookup_same(s1a, s1b, name);
                if let Some(x) = state_lookup(s1a, name) {
                    lemma_var_models_at(s1a.vars, s1b.vars, x.idx as int);
                }
            },
            ExprKind::Call(c) => {
                let name = c.identifier.span.literal@;
                lemma_first_function_named_same(fs1, fs2, name);
                lemma_first_function_named_bounds(fs1, name);
                if let Some(f) = first_function_named(fs1, name) {
                    lemma_func_models_at(fs1, fs2, f);
                    let params = fs1[f].parameters@;
                    let args = c.arguments@;
                    let s1a = if params.len() != args.len() {
                        reporting(st1, seq![argument_count_report(c.identifier, params.len(), args.len())])
                    } else {
                        st1
                    };
                    let s1b = if params.len() != args.len() {
                        reporting(st2, seq![argument_count_report(c.identifier, params.len(), args.len())])
                    } else {
                        st2
                    };
                    assert forall|j: int| 0 <= j < params.len() implies (#[trigger] params[j]).idx < s1a.vars.len() by {
                        assert(fs1[f].parameters@[j] == params[j]);
                    }
                    lemma_resolve_args_same(sp, fs1, fs2, s1a, s1b, i, args, params, 0);
                }
            },
            ExprKind::If(e) => {
                let else_expr = match e.else_branch {
                    Some(b) => Some(b.expr),
                    None => None,
                };
                lemma_resolve_if_same(sp, fs1, fs2, st1, st2, i, e.condition, e.then_branch, else_expr);
            },
            ExprKind::Block(b) => {
                lemma_resolve_stmts_same(sp, fs1, fs2, entering(st1), entering(st2), i, b.stmts@, 0);
            },
            ExprKind::Number(_) | ExprKind::Boolean(_) | ExprKind::Error(_) => {},
        }
    }
}

#[verifier::spinoff_prover]
#[verifier::rlimit(50)]
proof fn lemma_resolve_if_same(
    sp: spec_fn(int) -> SpanModel,
    fs1: Seq<FunctionSymbol>,
    fs2: Seq<FunctionSymbol>,
    st1: ResolveState,
    st2: ResolveState,
    i: int,
    condition: crate::ast::ExprId,
    then_branch: crate::ast::ExprId,
    else_expr: Option<crate::ast::ExprId>,
)
    requires
        comparable(fs1, fs2, st1, st2),
    ensures
        step_comparable(
            fs1,
            fs2,
            st1,
            resolve_if(sp, fs1, st1, i, condition, then_branch, else_expr),
            resolve_if(sp, fs2, st2, i, condition, then_branch, else_expr),
        ),
    decreases i, 2int, 0int,
{
    let c = condition.idx as int;
    let t = then_branch.idx as int;
    let a1 = entering(st1);
    let b1 = entering(st2);
    if 0 <= c < i {
        lemma_resolve_expr_same(sp, fs1, fs2, a1, b1, c);
    }
    let a2 = if 0 <= c < i { resolve_expr(sp, fs1, a1, c) } else { a1 };
    let b2 = if 0 <= c < i { resolve_expr(sp, fs2, b1, c) } else { b1 };
    let a3 = reporting(a2, mismatch_reports(Type::Bool, a2.exprs[c].ty, sp(c)));
    let b3 = reporting(b2, mismatch_reports(Type::Bool, b2.exprs[c].ty, sp(c)));
    if 0 <= t < i {
        lemma_resolve_expr_same(sp, fs1, fs2, a3, b3, t);
    }
    let a4 = if 0 <= t < i { resolve_expr(sp, fs1, a3, t) } else { a3 };
    let b4 = if 0 <= t < i { resolve_expr(sp, fs2, b3, t) } else { b3 };
    let a5 = exiting(a4);
    let b5 = exiting(b4);
    if let Some(x) = else_expr {
        let xi = x.idx as int;
        if 0 <= xi < i {
            lemma_resolve_expr_same(sp, fs1, fs2, entering(a5), entering(b5), xi);
        }
    }
}

proof fn lemma_resolve_return_same(
    sp: spec_fn(int) -> SpanModel,
    fs1: Seq<FunctionSymbol>,
    fs2: Seq<FunctionSymbol>,
    st1: ResolveState,
    st2: ResolveState,
    keyword: Token,
    value: Option<crate::ast::ExprId>,
    bound: int,
)
    requires
        comparable(fs1, fs2, st1, st2),
    ensures
        step_comparable(
            fs1,
            fs2,
            st1,
            resolve_return(sp, fs1, st1, keyword, value, bound),
            resolve_return(sp, fs2, st2, keyword, value, bound),
        ),
    decreases bound, 0int, 0int,
{
    if let Some(f) = st1.surrounding {
        lemma_func_models_at(fs1, fs2, f.idx as int);
        if let Some(v) = value {
            let vi = v.idx as int;
            if 0 <= vi < bound {
                lemma_resolve_expr_same(sp, fs1, fs2, st1, st2, vi);
            }
        }
    }
}

proof fn lemma_resolve_args_same(
    sp: spec_fn(int) -> SpanModel,
    fs1: Seq<FunctionSymbol>,
    fs2: Seq<FunctionSymbol>,
    st1: ResolveState,
    st2: ResolveState,
    i: int,
    args: Seq<crate::ast::ExprId>,
    params: Seq<VariableIndex>,
    j: int,
)
    requires
        comparable(fs1, fs2, st1, st2),
        forall|k: int| 0 <= k < params.len() ==> (#[trigger] params[k]).idx < st1.vars.len(),
    ensures
        step_comparable(
            fs1,
            fs2,
            st1,
            resolve_args(sp, fs1, st1, i, args, params, j),
            resolve_args(sp, fs2, st2, i, args, params, j),
        ),
    decreases i, 2int, args.len() - j,
{
    if 0 <= j < params.len() && j < args.len() {
        let a = args[j].idx as int;
        if 0 <= a < i {
            lemma_resolve_expr_same(sp, fs1, fs2, st1, st2, a);
        }
        let s1a = if 0 <= a < i { resolve_expr(sp, fs1, st1, a) } else { st1 };
        let s1b = if 0 <= a < i { resolve_expr(sp, fs2, st2, a) } else { st2 };
        lemma_var_models_at(s1a.vars, s1b.vars, params[j].idx as int);
        let pt = s1a.vars[params[j].idx as int].var_type;
        lemma_resolve_args_same(
            sp,
            fs1,
            fs2,
            reporting(s1a, mismatch_reports(pt, s1a.exprs[a].ty, sp(a))),
            reporting(s1b, mismatch_reports(pt, s1b.exprs[a].ty, sp(a))),
            i,
            args,
            params,
            j + 1,
        );
    }
}

proof fn lemma_resolve_stmts_same(
    sp: spec_fn(int) -> SpanModel,
    fs1: Seq<FunctionSymbol>,
    fs2: Seq<FunctionSymbol>,
    st1: ResolveState,
    st2: ResolveState,
    bound: int,
    stmts: Seq<StmtId>,
    k: int,
)
    requires
        comparable(fs1, fs2, st1, st2),
    ensures
        step_comparable(
            fs1,
            fs2,
            st1,
            resolve_stmts(sp, fs1, st1, bound, stmts, k),
            resolve_stmts(sp, fs2, st2, bound, stmts, k),
        ),
    decreases bound, 2int, stmts.len() - k,
{
    if 0 <= k < stmts.len() {
        let s = stmts[k].idx as int;
        lemma_resolve_stmt_same(sp, fs1, fs2, st1, st2, s, bound);
        lemma_resolve_stmts_same(
            sp,
            fs1,
            fs2,
            resolve_stmt(sp, fs1, st1, s, bound),
            resolve_stmt(sp, fs2, st2, s, bound),
            bound,
            stmts,
            k + 1,
        );
    }
}

proof fn lemma_let_same(
    sp: spec_fn(int) -> SpanModel,
    fs1: Seq<FunctionSymbol>,
    fs2: Seq<FunctionSymbol>,
    s1a: ResolveState,
    s1b: ResolveState,
    l: LetStmt,
    s: int,
)
    requires
        comparable(fs1, fs2, s1a, s1b),
    ensures
        ({
            let init = l.initializer.idx as int;
            let init_type = s1a.exprs[init].ty;
            let (t, s2a) = match l.type_annotation {
                Some(a) => {
                    let t = named_type(a.type_ident.span.literal@);
                    (t, reporting(s1a, type_reports(a.type_ident) + mismatch_reports(t, init_type, sp(init))))
                },
                None => (init_type, s1a),
            };
            let (u, s2b) = match l.type_annotation {
                Some(a) => {
                    let u = named_type(a.type_ident.span.literal@);
                    (u, reporting(s1b, type_reports(a.type_ident) + mismatch_reports(u, s1b.exprs[init].ty, sp(init))))
                },
                None => (s1b.exprs[init].ty, s1b),
            };
            step_comparable(
                fs1,
                fs2,
                s1a,
                with_let_variable(declaring(s2a, l.identifier.span.literal, t), s, VariableIndex { idx: s2a.vars.len() as usize }),
                with_let_variable(declaring(s2b, l.identifier.span.literal, u), s, VariableIndex { idx: s2b.vars.len() as usize }),
            )
        }),
{
    let init = l.initializer.idx as int;
    let init_type = s1a.exprs[init].ty;
    let (t, s2a) = match l.type_annotation {
        Some(a) => {
            let t = named_type(a.type_ident.span.literal@);
            (t, reporting(s1a, type_reports(a.type_ident) + mismatch_reports(t, init_type, sp(init))))
        },
        None => (init_type, s1a),
    };
    let s2b = match l.type_annotation {
        Some(a) => reporting(s1b, type_reports(a.type_ident) + mismatch_reports(t, init_type, sp(init))),
        None => s1b,
    };
    assert(var_models(s2a.vars).len() == s2a.vars.len());
    assert(var_models(s2b.vars).len() == s2b.vars.len());
    lemma_var_models_push(s2a.vars, s2b.vars, VariableSymbol { name: l.identifier.span.literal, var_type: t });
}

#[verifier::spinoff_prover]
#[verifier::rlimit(50)]
proof fn lemma_resolve_stmt_same(
    sp: spec_fn(int) -> SpanModel,
    fs1: Seq<FunctionSymbol>,
    fs2: Seq<FunctionSymbol>,
    st1: ResolveState,
    st2: ResolveState,
    s: int,
    bound: int,
)
    requires
        comparable(fs1, fs2, st1, st2),
    ensures
        step_comparable(fs1, fs2, st1, resolve_stmt(sp, fs1, st1, s, bound), resolve_stmt(sp, fs2, st2, s, bound)),
    decreases bound, 1int, 0int,
{
    if 0 <= s < st1.stmts.len() {
        match st1.stmts[s].kind {
            StmtKind::Expr(e) => {
                if 0 <= e.idx < bound {
                    lemma_resolve_expr_same(sp, fs1, fs2, st1, st2, e.idx as int);
                }
            },
            StmtKind::Let(l) => {
                let init = l.initializer.idx as int;
                if 0 <= init < bound {
                    lemma_resolve_expr_same(sp, fs1, fs2, st1, st2, init);
                }
                let s1a = if 0 <= init < bound { resolve_expr(sp, fs1, st1, init) } else { st1 };
                let s1b = if 0 <= init < bound { resolve_expr(sp, fs2, st2, init) } else { st2 };
                lemma_let_same(sp, fs1, fs2, s1a, s1b, l, s);
            },
            StmtKind::While(w) => {
                let c = w.condition.idx as int;
                let b = w.body.idx as int;
                if 0 <= c < bound {
                    lemma_resolve_expr_same(sp, fs1, fs2, st1, st2, c);
                }
                let s1a = if 0 <= c < bound { resolve_expr(sp, fs1, st1, c) } else { st1 };
                let s1b = if 0 <= c < bound { resolve_expr(sp, fs2, st2, c) } else { st2 };
                let s2a = reporting(s1a, mismatch_reports(Type::Bool, s1a.exprs[c].ty, sp(c)));
                let s2b = reporting(s1b, mismatch_reports(Type::Bool, s1b.exprs[c].ty, sp(c)));
                if 0 <= b < bound {
                    lemma_resolve_expr_same(sp, fs1, fs2, s2a, s2b, b);
                }
            },
            StmtKind::Return(r) => {
                lemma_resolve_return_same(sp, fs1, fs2, st1, st2, r.return_keyword, r.return_value, bound);
            },
        }
    }
}

pub(crate) proof fn lemma_resolve_items_same(
    sp: spec_fn(int) -> SpanModel,
    fs1: Seq<FunctionSymbol>,
    fs2: Seq<FunctionSymbol>,
    st1: ResolveState,
    st2: ResolveState,
    items: Seq<Item>,
    k: int,
)
    requires
        comparable(fs1, fs2, st1, st2),
        st1.surrounding is None,
    ensures
        step_comparable(fs1, fs2, st1, resolve_items(sp, fs1, st1, items, k), resolve_items(sp, fs2, st2, items, k)),
    decreases items.len() - k,
{
    if 0 <= k < items.len() {
        let a = resolve_item(sp, fs1, st1, items[k]);
        let b = resolve_item(sp, fs2, st2, items[k]);
        match items[k].kind {
            ItemKind::Func(f) => {
                let name = f.identifier.span.literal@;
                lemma_first_function_named_same(fs1, fs2, name);
                lemma_first_function_named_bounds(fs1, name);
                if let Some(g) = first_function_named(fs1, name) {
                    lemma_func_models_at(fs1, fs2, g);
                    let s1a = ResolveState {
                        surrounding: Some(FunctionIndex { idx: g as usize }),
                        locals: st1.locals.push(fs1[g].parameters@),
                        ..st1
                    };
                    let s1b = ResolveState {
                        surrounding: Some(FunctionIndex { idx: g as usize }),
                        locals: st2.locals.push(fs2[g].parameters@),
                        ..st2
                    };
                    lemma_resolve_stmt_same(sp, fs1, fs2, s1a, s1b, f.body.idx as int, s1a.exprs.len() as int);
                }
            },
            ItemKind::Stmt(s) => {
                lemma_resolve_stmt_same(sp, fs1, fs2, st1, st2, s.idx as int, st1.exprs.len() as int);
            },
        }
        lemma_resolve_items_same(sp, fs1, fs2, a, b, items, k + 1);
    }
}

/// What resolving expression `i` of `ast` does to the resolver `r`'s state.
pub open spec fn expr_resolution(r: Resolver, ast: Ast, i: int) -> ResolveState {
    resolve_expr(span_oracle(ast), r.scopes.global_scope.functions@, state_of(r, ast), i)
}

// ---------------------------------------------------------------------------
// Spans do not depend on what resolution records

pub proof fn lemma_expr_span_same_shape(a: Ast, b: Ast, i: int)
    requires
        same_shape(a, b),
    ensures
        expr_span_model(a, i) == expr_span_model(b, i),
    decreases i, 2int, 0int,
{
    if 0 <= i < a.expressions@.len() {
        let ka = a.expressions@[i].kind;
        let kb = b.expressions@[i].kind;
        assert(erase_variables(ka) == erase_variables(kb));
        match ka {
            ExprKind::Binary(e) => {
                if e.left.idx < i { lemma_expr_span_same_shape(a, b, e.left.idx as int); }
                if e.right.idx < i { lemma_expr_span_same_shape(a, b, e.right.idx as int); }
            },
            ExprKind::Unary(e) => {
                if e.operand.idx < i { lemma_expr_span_same_shape(a, b, e.operand.idx as int); }
            },
            ExprKind::Parenthesized(e) => {
                if e.expression.idx < i { lemma_expr_span_same_shape(a, b, e.expression.idx as int); }
            },
            ExprKind::Assignment(e) => {
                if e.expression.idx < i { lemma_expr_span_same_shape(a, b, e.expression.idx as int); }
            },
            ExprKind::Call(e) => {
                lemma_args_span_same_shape(a, b, e.arguments@, i);
            },
            ExprKind::If(e) => {
                if e.condition.idx < i { lemma_expr_span_same_shape(a, b, e.condition.idx as int); }
                if e.then_branch.idx < i { lemma_expr_span_same_shape(a, b, e.then_branch.idx as int); }
                if let Some(x) = e.else_branch {
                    if x.expr.idx < i { lemma_expr_span_same_shape(a, b, x.expr.idx as int); }
                }
            },
            ExprKind::Block(e) => {
                lemma_stmts_span_same_shape(a, b, e.stmts@, i);
            },
            _ => {},
        }
    }
}

pub proof fn lemma_args_span_same_shape(a: Ast, b: Ast, args: Seq<crate::ast::ExprId>, bound: int)
    requires
        same_shape(a, b),
    ensures
        args_span_models(a, args, bound) == args_span_models(b, args, bound),
    decreases bound, 1int, args.len(),
{
    if args.len() > 0 {
        lemma_args_span_same_shape(a, b, args.drop_last(), bound);
        if args.last().idx < bound {
            lemma_expr_span_same_shape(a, b, args.last().idx as int);
        }
    }
}

pub proof fn lemma_stmts_span_same_shape(a: Ast, b: Ast, stmts: Seq<StmtId>, bound: int)
    requires
        same_shape(a, b),
    ensures
        stmts_span_models(a, stmts, bound) == stmts_span_models(b, stmts, bound),
    decreases bound, 1int, stmts.len(),
{
    if stmts.len() > 0 {
        lemma_stmts_span_same_shape(a, b, stmts.drop_last(), bound);
        lemma_stmt_span_same_shape(a, b, stmts.last().idx as int, bound);
    }
}

pub proof fn lemma_stmt_span_same_shape(a: Ast, b: Ast, s: int, bound: int)
    requires
        same_shape(a, b),
    ensures
        stmt_span_model(a, s, bound) == stmt_span_model(b, s, bound),
    decreases bound, 0int, 0int,
{
    if 0 <= s < a.statements@.len() {
        let ka = a.statements@[s].kind;
        let kb = b.statements@[s].kind;
        assert(erase_stmt_variables(ka) == erase_stmt_variables(kb));
        match ka {
            StmtKind::Expr(e) => {
                if e.idx < bound { lemma_expr_span_same_shape(a, b, e.idx as int); }
            },
            StmtKind::While(w) => {
                if w.condition.idx < bound { lemma_expr_span_same_shape(a, b, w.condition.idx as int); }
                if w.body.idx < bound { lemma_expr_span_same_shape(a, b, w.body.idx as int); }
            },
            StmtKind::Return(r) => {
                if let Some(v) = r.return_value {
                    if v.idx < bound { lemma_expr_span_same_shape(a, b, v.idx as int); }
                }
            },
            _ => {},
        }
    }
}

/// Trees of the same shape give the same spans.
pub proof fn lemma_span_oracle_same_shape(a: Ast, b: Ast)
    requires
        same_shape(a, b),
    ensures
        span_oracle(a) == span_oracle(b),
{
    assert forall|j: int| #[trigger] span_oracle(a)(j) == span_oracle(b)(j) by {
        lemma_expr_span_same_shape(a, b, j);
    }
    assert(span_oracle(a) =~= span_oracle(b));
}

} // verus!
