//! Name resolution and type checking of a parsed program, and the
//! compilation pipeline from source text to a checked syntax tree.

use vstd::prelude::*;

use crate::ast::lexer::Token;
use crate::ast::{lemma_same_shape_refl, 
    Ast, BinaryOperatorKind, ExprId, ExprKind, ItemId, ItemKind, StmtId, StmtKind,
    UnaryOperatorKind, expr_children, expr_stmt_children, lemma_erase_keeps_children,
    lemma_erase_keeps_stmt_children, lemma_same_shape_trans, same_shape, stmt_below,
    stmt_children, expr_span_model,
};
use crate::ast::lexer::{numbers_fit, tokenize, tokenized};
use crate::ast::parser::non_whitespace;
use crate::ast::syntax::{lemma_syn_item_same_shape, p_items, syn_item};
use crate::diagnostics::diagnostic_models;
use crate::ast::evaluator::{AstEvaluator, EvalError, EvalState, eval_items, eval_stmt};
use crate::ast::parser::Parser;
use crate::diagnostics::{Diagnostic, DiagnosticKind, DiagnosticsList, message_model};
use crate::text::SpanModel;
use crate::text::TextSpan;
use crate::idx_vec::{Idx, IdxVec};
use crate::typings::{Type, assignable, type_of_name, type_text};
use crate::resolution::{
    expr_resolution, lemma_expr_span_same_shape, lemma_span_oracle_same_shape, lemma_state_lookup,
    resolve_expr, span_oracle, state_of, with_type, with_variable, reporting, lemma_locals_model_push,
    lemma_locals_model_drop_last, lemma_locals_model_last,
};

verus! {

/// The index of a function in the global scope.
#[derive(Debug, Clone, Copy, PartialEq, Eq, Hash, Structural)]
pub struct FunctionIndex {
    pub idx: usize,
}

impl Idx for FunctionIndex {
    open spec fn spec_idx(&self) -> nat {
        self.idx as nat
    }

    fn as_idx(&self) -> (r: usize) {
        self.idx
    }

    fn new(idx: usize) -> (r: Self) {
        Self { idx }
    }
}

/// The index of a variable in the global scope.
#[derive(Debug, Clone, Copy, PartialEq, Eq, Hash, Structural)]
pub struct VariableIndex {
    pub idx: usize,
}

impl Idx for VariableIndex {
    open spec fn spec_idx(&self) -> nat {
        self.idx as nat
    }

    fn as_idx(&self) -> (r: usize) {
        self.idx
    }

    fn new(idx: usize) -> (r: Self) {
        Self { idx }
    }
}

/// A declared function: its parameters, body, return type and name.
#[derive(Debug)]
pub struct FunctionSymbol {
    pub parameters: Vec<VariableIndex>,
    pub body: StmtId,
    pub return_type: Type,
    pub name: String,
}

/// A declared variable: its name and type.
#[derive(Debug)]
pub struct VariableSymbol {
    pub name: String,
    pub var_type: Type,
}

/// The position of the first variable among `idxs` named `name`, if any.
pub open spec fn first_named(vars: Seq<VariableSymbol>, idxs: Seq<VariableIndex>, name: Seq<char>) -> Option<int>
    decreases idxs.len(),
{
    if idxs.len() == 0 {
        None
    } else {
        match first_named(vars, idxs.drop_last(), name) {
            Some(k) => Some(k),
            None => if 0 <= idxs.last().idx < vars.len() && vars[idxs.last().idx as int].name@ == name {
                Some(idxs.len() - 1)
            } else {
                None
            },
        }
    }
}

/// The position of the first function named `name`, if any.
pub open spec fn first_function_named(funcs: Seq<FunctionSymbol>, name: Seq<char>) -> Option<int>
    decreases funcs.len(),
{
    if funcs.len() == 0 {
        None
    } else {
        match first_function_named(funcs.drop_last(), name) {
            Some(k) => Some(k),
            None => if funcs.last().name@ == name { Some(funcs.len() - 1) } else { None },
        }
    }
}

pub(crate) proof fn lemma_first_named_bounds(vars: Seq<VariableSymbol>, idxs: Seq<VariableIndex>, name: Seq<char>)
    ensures
        first_named(vars, idxs, name) matches Some(k) ==> 0 <= k < idxs.len() && idxs[k].idx
            < vars.len() && vars[idxs[k].idx as int].name@ == name,
    decreases idxs.len(),
{
    if idxs.len() > 0 {
        lemma_first_named_bounds(vars, idxs.drop_last(), name);
    }
}

pub(crate) proof fn lemma_first_function_named_bounds(funcs: Seq<FunctionSymbol>, name: Seq<char>)
    ensures
        first_function_named(funcs, name) matches Some(k) ==> 0 <= k < funcs.len() && funcs[k].name@
            == name,
        first_function_named(funcs, name) is None ==> forall|k: int|
            0 <= k < funcs.len() ==> (#[trigger] funcs[k]).name@ != name,
    decreases funcs.len(),
{
    if funcs.len() > 0 {
        lemma_first_function_named_bounds(funcs.drop_last(), name);
        assert forall|k: int| 0 <= k < funcs.len() - 1 implies #[trigger] funcs[k] == funcs.drop_last()[k] by {}
    }
}

/// The scope of the whole program: every variable and function declared, and
/// which variables are global.
pub struct GlobalScope {
    pub variables: IdxVec<VariableIndex, VariableSymbol>,
    pub functions: IdxVec<FunctionIndex, FunctionSymbol>,
    pub global_variables: Vec<VariableIndex>,
}

impl GlobalScope {
    /// Every global variable and every function parameter exists.
    pub open spec fn wf(&self) -> bool {
        &&& forall|k: int| 0 <= k < self.global_variables@.len() ==> (#[trigger] self.global_variables@[k]).idx
            < self.variables@.len()
        &&& forall|f: int, k: int| 0 <= f < self.functions@.len() && 0 <= k < self.functions@[f].parameters@.len()
            ==> (#[trigger] self.functions@[f].parameters@[k]).idx < self.variables@.len()
    }

    pub fn new() -> (r: Self)
        ensures
            r.wf(),
            r.variables@.len() == 0,
            r.functions@.len() == 0,
            r.global_variables@.len() == 0,
    {
        GlobalScope {
            variables: IdxVec::new(),
            functions: IdxVec::new(),
            global_variables: Vec::new(),
        }
    }

    /// Declares a variable; a global one is also listed among the globals.
    pub fn declare_variable(&mut self, identifier: &String, var_type: Type, is_global: bool) -> (r:
        VariableIndex)
        requires
            old(self).wf(),
        ensures
            final(self).wf(),
            r.idx == old(self).variables@.len(),
            final(self).variables@.len() == old(self).variables@.len() + 1,
            final(self).variables@.drop_last() == old(self).variables@,
            final(self).variables@.last().name@ == identifier@,
            final(self).variables@.last().name == *identifier,
            final(self).variables@.last().var_type == var_type,
            final(self).functions@ == old(self).functions@,
            final(self).global_variables@ == if is_global {
                old(self).global_variables@.push(r)
            } else {
                old(self).global_variables@
            },
    {
        let variable = VariableSymbol { name: identifier.clone(), var_type };
        let variable_idx: VariableIndex = self.variables.push(variable);
        if is_global {
            self.global_variables.push(variable_idx);
        }
        assert(self.variables@.drop_last() =~= old(self).variables@);
        assert forall|f: int, k: int| 0 <= f < self.functions@.len() && 0 <= k < self.functions@[f].parameters@.len()
            implies (#[trigger] self.functions@[f].parameters@[k]).idx < self.variables@.len() by {
            assert(old(self).functions@[f].parameters@[k].idx < old(self).variables@.len());
        }
        variable_idx
    }

    /// The first global variable named `identifier`, if any.
    pub fn lookup_global_variable(&self, identifier: &String) -> (r: Option<VariableIndex>)
        requires
            self.wf(),
        ensures
            r == match first_named(self.variables@, self.global_variables@, identifier@) {
                Some(k) => Some(self.global_variables@[k]),
                None => None,
            },
    {
        Self::first_named_in(&self.variables, &self.global_variables, identifier)
    }

    /// The first variable among `idxs` named `identifier`, if any.
    fn first_named_in(
        variables: &IdxVec<VariableIndex, VariableSymbol>,
        idxs: &Vec<VariableIndex>,
        identifier: &String,
    ) -> (r: Option<VariableIndex>)
        requires
            forall|k: int| 0 <= k < idxs@.len() ==> (#[trigger] idxs@[k]).idx < variables@.len(),
        ensures
            r == match first_named(variables@, idxs@, identifier@) {
                Some(k) => Some(idxs@[k]),
                None => None,
            },
    {
        let mut i: usize = 0;
        while i < idxs.len()
            invariant
                i <= idxs@.len(),
                forall|k: int| 0 <= k < idxs@.len() ==> (#[trigger] idxs@[k]).idx < variables@.len(),
                first_named(variables@, idxs@.subrange(0, i as int), identifier@) is None,
            decreases idxs@.len() - i,
        {
            let idx = idxs[i];
            let variable = variables.get(idx);
            let ghost pre = idxs@.subrange(0, (i + 1) as int);
            assert(pre.drop_last() =~= idxs@.subrange(0, i as int));
            if variable.name == *identifier {
                proof { Self::lemma_first_named_prefix(variables@, idxs@, identifier@, i as int); }
                return Some(idx);
            }
            i = i + 1;
        }
        assert(idxs@.subrange(0, i as int) =~= idxs@);
        None
    }

    /// A first match within a prefix is the first match of the whole sequence.
    proof fn lemma_first_named_prefix(
        vars: Seq<VariableSymbol>,
        idxs: Seq<VariableIndex>,
        name: Seq<char>,
        i: int,
    )
        requires
            0 <= i < idxs.len(),
            first_named(vars, idxs.subrange(0, i), name) is None,
            0 <= idxs[i].idx < vars.len(),
            vars[idxs[i].idx as int].name@ == name,
        ensures
            first_named(vars, idxs, name) == Some(i),
        decreases idxs.len(),
    {
        if i == idxs.len() - 1 {
            assert(idxs.drop_last() =~= idxs.subrange(0, i));
        } else {
            assert(idxs.drop_last().subrange(0, i) =~= idxs.subrange(0, i));
            Self::lemma_first_named_prefix(vars, idxs.drop_last(), name, i);
        }
    }

    /// Declares a function, unless one of that name exists already.
    pub fn declare_function(
        &mut self,
        identifier: &String,
        function_body: StmtId,
        parameters: Vec<VariableIndex>,
        return_type: Type,
    ) -> (r: Result<(), ()>)
        requires
            old(self).wf(),
            forall|k: int| 0 <= k < parameters@.len() ==> (#[trigger] parameters@[k]).idx
                < old(self).variables@.len(),
        ensures
            final(self).wf(),
            final(self).variables@ == old(self).variables@,
            final(self).global_variables@ == old(self).global_variables@,
            r is Err <==> first_function_named(old(self).functions@, identifier@) is Some,
            r is Err ==> final(self).functions@ == old(self).functions@,
            r is Ok ==> final(self).functions@ == old(self).functions@.push(
                FunctionSymbol {
                    parameters,
                    body: function_body,
                    return_type,
                    name: final(self).functions@.last().name,
                },
            ) && final(self).functions@.last().name@ == identifier@,
    {
        if self.lookup_function(identifier).is_some() {
            return Err(());
        }
        let function = FunctionSymbol {
            parameters,
            body: function_body,
            return_type,
            name: identifier.clone(),
        };
        self.functions.push(function);
        assert forall|f: int, k: int| 0 <= f < self.functions@.len() && 0 <= k < self.functions@[f].parameters@.len()
            implies (#[trigger] self.functions@[f].parameters@[k]).idx < self.variables@.len() by {
            if f < old(self).functions@.len() {
                assert(self.functions@[f] == old(self).functions@[f]);
            }
        }
        Ok(())
    }

    /// The first function named `identifier`, if any.
    pub fn lookup_function(&self, identifier: &String) -> (r: Option<FunctionIndex>)
        ensures
            r == match first_function_named(self.functions@, identifier@) {
                Some(k) => Some(FunctionIndex { idx: k as usize }),
                None => None,
            },
            r matches Some(f) ==> f.idx < self.functions@.len()
                && first_function_named(self.functions@, identifier@) == Some(f.idx as int),
            r is None <==> first_function_named(self.functions@, identifier@) is None,
    {
        proof { lemma_first_function_named_bounds(self.functions@, identifier@); }
        let n = self.functions.len();
        let mut i: usize = 0;
        while i < n
            invariant
                i <= n,
                n == self.functions@.len(),
                first_function_named(self.functions@.subrange(0, i as int), identifier@) is None,
            decreases n - i,
        {
            let idx = FunctionIndex { idx: i };
            let function = self.functions.get(idx);
            let ghost pre = self.functions@.subrange(0, (i + 1) as int);
            assert(pre.drop_last() =~= self.functions@.subrange(0, i as int));
            if function.name == *identifier {
                proof { Self::lemma_first_function_prefix(self.functions@, identifier@, i as int); }
                return Some(idx);
            }
            i = i + 1;
        }
        assert(self.functions@.subrange(0, i as int) =~= self.functions@);
        None
    }

    proof fn lemma_first_function_prefix(funcs: Seq<FunctionSymbol>, name: Seq<char>, i: int)
        requires
            0 <= i < funcs.len(),
            first_function_named(funcs.subrange(0, i), name) is None,
            funcs[i].name@ == name,
        ensures
            first_function_named(funcs, name) == Some(i),
        decreases funcs.len(),
    {
        if i == funcs.len() - 1 {
            assert(funcs.drop_last() =~= funcs.subrange(0, i));
        } else {
            assert(funcs.drop_last().subrange(0, i) =~= funcs.subrange(0, i));
            Self::lemma_first_function_prefix(funcs.drop_last(), name, i);
        }
    }
}

/// The variables declared in one block, function body or branch.
pub struct LocalScope {
    pub locals: Vec<VariableIndex>,
}

impl LocalScope {
    pub fn new() -> (r: Self)
        ensures
            r.locals@.len() == 0,
    {
        LocalScope { locals: Vec::new() }
    }

    pub fn add_local(&mut self, local: VariableIndex)
        ensures
            final(self).locals@ == old(self).locals@.push(local),
    {
        self.locals.push(local);
    }
}

/// The variable that `name` denotes in the local scopes `scopes`: the first of
/// that name in the innermost scope that has one.
pub open spec fn lookup_locals(vars: Seq<VariableSymbol>, scopes: Seq<LocalScope>, name: Seq<char>) -> Option<VariableIndex>
    decreases scopes.len(),
{
    if scopes.len() == 0 {
        None
    } else {
        match first_named(vars, scopes.last().locals@, name) {
            Some(k) => Some(scopes.last().locals@[k]),
            None => lookup_locals(vars, scopes.drop_last(), name),
        }
    }
}

/// The scopes in force at a point of the program: the nested local scopes,
/// innermost last, the global scope, and the function being resolved.
pub struct Scopes {
    pub local_scopes_vec: Vec<LocalScope>,
    pub global_scope: GlobalScope,
    pub surrounding_function: Option<FunctionIndex>,
}

impl Scopes {
    /// Every variable named by a scope exists, and so does the surrounding function.
    pub open spec fn wf(&self) -> bool {
        &&& self.global_scope.wf()
        &&& forall|i: int, k: int|
            0 <= i < self.local_scopes_vec@.len() && 0 <= k < self.local_scopes_vec@[i].locals@.len()
                ==> (#[trigger] self.local_scopes_vec@[i].locals@[k]).idx
                < self.global_scope.variables@.len()
        &&& self.surrounding_function matches Some(f) ==> f.idx < self.global_scope.functions@.len()
    }

    /// The variable that `name` denotes here.
    pub open spec fn lookup(&self, name: Seq<char>) -> Option<VariableIndex> {
        match lookup_locals(self.global_scope.variables@, self.local_scopes_vec@, name) {
            Some(v) => Some(v),
            None => match first_named(
                self.global_scope.variables@,
                self.global_scope.global_variables@,
                name,
            ) {
                Some(k) => Some(self.global_scope.global_variables@[k]),
                None => None,
            },
        }
    }

    pub fn new() -> (r: Self)
        ensures
            r.wf(),
            r.local_scopes_vec@.len() == 0,
            r.surrounding_function is None,
            r.global_scope.variables@.len() == 0,
            r.global_scope.functions@.len() == 0,
    {
        Scopes { local_scopes_vec: Vec::new(), global_scope: GlobalScope::new(), surrounding_function: None }
    }

    pub fn from_global_scope(global_scope: GlobalScope) -> (r: Self)
        requires
            global_scope.wf(),
        ensures
            r.wf(),
            r.local_scopes_vec@.len() == 0,
            r.surrounding_function is None,
            r.global_scope == global_scope,
    {
        Scopes { local_scopes_vec: Vec::new(), global_scope, surrounding_function: None }
    }

    /// Enters the body of function `function_idx`, in a scope of its own.
    pub fn enter_function_scope(&mut self, function_idx: FunctionIndex)
        requires
            old(self).wf(),
            function_idx.idx < old(self).global_scope.functions@.len(),
        ensures
            final(self).wf(),
            final(self).surrounding_function == Some(function_idx),
            final(self).local_scopes_vec@ == old(self).local_scopes_vec@.push(LocalScope { locals: final(self).local_scopes_vec@.last().locals }),
            final(self).local_scopes_vec@.last().locals@.len() == 0,
            final(self).global_scope == old(self).global_scope,
    {
        self.surrounding_function = Some(function_idx);
        self.enter_scope();
    }

    /// Opens a new, empty, innermost scope.
    pub fn enter_scope(&mut self)
        requires
            old(self).wf(),
        ensures
            final(self).wf(),
            final(self).surrounding_function == old(self).surrounding_function,
            final(self).local_scopes_vec@ == old(self).local_scopes_vec@.push(LocalScope { locals: final(self).local_scopes_vec@.last().locals }),
            final(self).local_scopes_vec@.last().locals@.len() == 0,
            final(self).global_scope == old(self).global_scope,
    {
        self.local_scopes_vec.push(LocalScope::new());
        assert forall|i: int, k: int|
            0 <= i < self.local_scopes_vec@.len() && 0 <= k < self.local_scopes_vec@[i].locals@.len()
                implies (#[trigger] self.local_scopes_vec@[i].locals@[k]).idx
                < self.global_scope.variables@.len() by {
            if i < old(self).local_scopes_vec@.len() {
                assert(self.local_scopes_vec@[i] == old(self).local_scopes_vec@[i]);
            }
        }
    }

    /// Leaves the function body.
    pub fn exit_function_scope(&mut self)
        requires
            old(self).wf(),
        ensures
            final(self).wf(),
            final(self).surrounding_function is None,
            final(self).local_scopes_vec@ == if old(self).local_scopes_vec@.len() > 0 {
                old(self).local_scopes_vec@.drop_last()
            } else {
                old(self).local_scopes_vec@
            },
            final(self).global_scope == old(self).global_scope,
    {
        self.surrounding_function = None;
        self.exit_scope();
    }

    /// Closes the innermost scope, if there is one.
    pub fn exit_scope(&mut self)
        requires
            old(self).wf(),
        ensures
            final(self).wf(),
            final(self).surrounding_function == old(self).surrounding_function,
            final(self).local_scopes_vec@ == if old(self).local_scopes_vec@.len() > 0 {
                old(self).local_scopes_vec@.drop_last()
            } else {
                old(self).local_scopes_vec@
            },
            final(self).global_scope == old(self).global_scope,
    {
        let ghost before = self.local_scopes_vec@;
        self.local_scopes_vec.pop();
        proof {
            if before.len() > 0 {
                assert(self.local_scopes_vec@ =~= before.drop_last());
                assert forall|i: int, k: int|
                    0 <= i < self.local_scopes_vec@.len() && 0 <= k < self.local_scopes_vec@[i].locals@.len()
                        implies (#[trigger] self.local_scopes_vec@[i].locals@[k]).idx
                        < self.global_scope.variables@.len() by {
                    assert(self.local_scopes_vec@[i] == before[i]);
                }
            }
        }
    }

    /// Declares a variable: a local of the innermost scope if there is one,
    /// else a global. Unless that scope already holds a variable of the same
    /// name, the name then denotes the new variable.
    pub fn declare_variable(&mut self, identifier: &String, var_type: Type)
        requires
            old(self).wf(),
        ensures
            final(self).wf(),
            final(self).surrounding_function == old(self).surrounding_function,
            final(self).global_scope.variables@ == old(self).global_scope.variables@.push(
                VariableSymbol { name: final(self).global_scope.variables@.last().name, var_type },
            ),
            final(self).global_scope.variables@.last().name@ == identifier@,
            final(self).global_scope.variables@.last().name == *identifier,
            final(self).global_scope.functions@ == old(self).global_scope.functions@,
            final(self).local_scopes_vec@.len() == old(self).local_scopes_vec@.len(),
            ({
                let new_var = VariableIndex { idx: old(self).global_scope.variables@.len() as usize };
                if old(self).local_scopes_vec@.len() > 0 {
                    &&& first_named(
                        old(self).global_scope.variables@,
                        old(self).local_scopes_vec@.last().locals@,
                        identifier@,
                    ) is None ==> final(self).lookup(identifier@) == Some(new_var)
                    &&& final(self).local_scopes_vec@.last().locals@
                        == old(self).local_scopes_vec@.last().locals@.push(new_var)
                    &&& final(self).local_scopes_vec@.drop_last() == old(self).local_scopes_vec@.drop_last()
                    &&& final(self).global_scope.global_variables@ == old(self).global_scope.global_variables@
                } else {
                    &&& first_named(
                        old(self).global_scope.variables@,
                        old(self).global_scope.global_variables@,
                        identifier@,
                    ) is None ==> final(self).lookup(identifier@) == Some(new_var)
                    &&& final(self).global_scope.global_variables@
                        == old(self).global_scope.global_variables@.push(new_var)
                }
            }),
    {
        let is_inside_local_scope = self.is_inside_local_scope();
        let idx = self.global_scope.declare_variable(identifier, var_type, !is_inside_local_scope);
        if is_inside_local_scope {
            let ghost before = self.local_scopes_vec@;
            let n = self.local_scopes_vec.len();
            let mut scope = self.local_scopes_vec.pop().unwrap();
            scope.add_local(idx);
            self.local_scopes_vec.push(scope);
            proof {
                assert(self.local_scopes_vec@.drop_last() =~= before.drop_last());
                let vars = self.global_scope.variables@;
                let old_vars = old(self).global_scope.variables@;
                assert forall|i: int, k: int|
                    0 <= i < self.local_scopes_vec@.len() && 0 <= k < self.local_scopes_vec@[i].locals@.len()
                        implies (#[trigger] self.local_scopes_vec@[i].locals@[k]).idx
                        < vars.len() by {
                    if i < n - 1 {
                        assert(self.local_scopes_vec@[i] == before[i]);
                    } else if k < before[i].locals@.len() {
                        assert(self.local_scopes_vec@[i].locals@[k] == before[i].locals@[k]);
                    }
                }
                let last = before.last().locals@;
                if first_named(old_vars, last, identifier@) is None {
                    lemma_first_named_extend(old_vars, vars, last, identifier@);
                    assert(self.local_scopes_vec@.last().locals@ =~= last.push(idx));
                    assert(last.push(idx).drop_last() =~= last);
                }
            }
        } else {
            proof {
                let vars = self.global_scope.variables@;
                let old_vars = old(self).global_scope.variables@;
                let g = old(self).global_scope.global_variables@;
                assert(self.local_scopes_vec@.len() == 0);
                if first_named(old_vars, g, identifier@) is None {
                    lemma_first_named_extend(old_vars, vars, g, identifier@);
                    assert(g.push(idx).drop_last() =~= g);
                }
                assert forall|k: int| 0 <= k < self.global_scope.global_variables@.len() implies
                    (#[trigger] self.global_scope.global_variables@[k]).idx < vars.len() by {}
            }
        }
    }

    /// The variable that `identifier` denotes here, if any.
    pub fn lookup_variable(&self, identifier: &String) -> (r: Option<VariableIndex>)
        requires
            self.wf(),
        ensures
            r == self.lookup(identifier@),
            r matches Some(v) ==> v.idx < self.global_scope.variables@.len(),
    {
        let n = self.local_scopes_vec.len();
        let mut i = n;
        assert(self.local_scopes_vec@.subrange(0, n as int) =~= self.local_scopes_vec@);
        while i > 0
            invariant
                i <= n,
                n == self.local_scopes_vec@.len(),
                self.wf(),
                lookup_locals(self.global_scope.variables@, self.local_scopes_vec@, identifier@)
                    == lookup_locals(self.global_scope.variables@, self.local_scopes_vec@.subrange(0, i as int), identifier@),
            decreases i,
        {
            let scope = &self.local_scopes_vec[i - 1];
            let ghost pre = self.local_scopes_vec@.subrange(0, i as int);
            assert(pre.last() == *scope);
            assert(pre.drop_last() =~= self.local_scopes_vec@.subrange(0, i - 1));
            assert forall|k: int| 0 <= k < scope.locals@.len() implies (#[trigger] scope.locals@[k]).idx
                < self.global_scope.variables@.len() by {
                assert(self.local_scopes_vec@[i - 1].locals@[k] == scope.locals@[k]);
            }
            proof { lemma_first_named_bounds(self.global_scope.variables@, scope.locals@, identifier@); }
            let found = GlobalScope::first_named_in(&self.global_scope.variables, &scope.locals, identifier);
            if let Some(idx) = found {
                return Some(idx);
            }
            i = i - 1;
        }
        assert(self.local_scopes_vec@.subrange(0, 0) =~= Seq::<LocalScope>::empty());
        proof { lemma_first_named_bounds(self.global_scope.variables@, self.global_scope.global_variables@, identifier@); }
        self.global_scope.lookup_global_variable(identifier)
    }

    /// The first function named `identifier`, if any.
    pub fn lookup_function(&self, identifier: &String) -> (r: Option<FunctionIndex>)
        ensures
            r == match first_function_named(self.global_scope.functions@, identifier@) {
                Some(k) => Some(FunctionIndex { idx: k as usize }),
                None => None,
            },
            r matches Some(f) ==> f.idx < self.global_scope.functions@.len()
                && first_function_named(self.global_scope.functions@, identifier@) == Some(f.idx as int),
            r is None <==> first_function_named(self.global_scope.functions@, identifier@) is None,
    {
        self.global_scope.lookup_function(identifier)
    }

    pub fn is_inside_local_scope(&self) -> (r: bool)
        ensures
            r == (self.local_scopes_vec@.len() > 0),
    {
        self.local_scopes_vec.len() != 0
    }

    /// The function whose body is being resolved, if any.
    /// The innermost scope, to be changed in place.
    pub fn current_local_scope_mut(&mut self) -> (r: &mut LocalScope)
        requires
            old(self).local_scopes_vec@.len() > 0,
        ensures
            *r == old(self).local_scopes_vec@.last(),
            final(self).local_scopes_vec@ == old(self).local_scopes_vec@.update(
                old(self).local_scopes_vec@.len() - 1,
                *final(r),
            ),
            final(self).global_scope == old(self).global_scope,
            final(self).surrounding_function == old(self).surrounding_function,
    {
        let n = self.local_scopes_vec.len();
        &mut self.local_scopes_vec[n - 1]
    }

    pub fn surrounding_function(&self) -> (r: Option<&FunctionSymbol>)
        requires
            self.wf(),
        ensures
            match self.surrounding_function {
                Some(f) => r matches Some(s) && *s == self.global_scope.functions@[f.idx as int],
                None => r is None,
            },
    {
        match self.surrounding_function {
            Some(idx) => Some(self.global_scope.functions.get(idx)),
            None => None,
        }
    }
}

/// A name found nowhere in `idxs` is found at the end once appended there.
proof fn lemma_first_named_extend(
    old_vars: Seq<VariableSymbol>,
    vars: Seq<VariableSymbol>,
    idxs: Seq<VariableIndex>,
    name: Seq<char>,
)
    requires
        vars.len() == old_vars.len() + 1,
        old_vars.len() <= usize::MAX,
        vars.drop_last() == old_vars,
        vars.last().name@ == name,
        forall|k: int| 0 <= k < idxs.len() ==> (#[trigger] idxs[k]).idx < old_vars.len(),
        first_named(old_vars, idxs, name) is None,
    ensures
        first_named(vars, idxs, name) is None,
        first_named(vars, idxs.push(VariableIndex { idx: old_vars.len() as usize }), name) == Some(idxs.len() as int),
    decreases idxs.len(),
{
    if idxs.len() > 0 {
        assert(idxs.drop_last().len() < idxs.len());
        assert forall|k: int| 0 <= k < idxs.drop_last().len() implies (#[trigger] idxs.drop_last()[k]).idx < old_vars.len() by {
            assert(idxs.drop_last()[k] == idxs[k]);
        }
        lemma_first_named_extend(old_vars, vars, idxs.drop_last(), name);
        assert(vars[idxs.last().idx as int] == old_vars[idxs.last().idx as int]);
    }
    let p = idxs.push(VariableIndex { idx: old_vars.len() as usize });
    assert(p.drop_last() =~= idxs);
}

/// The types an operator of kind `op` wants on its left and right and gives.
pub open spec fn binary_signature(op: BinaryOperatorKind) -> (Type, Type, Type) {
    match op {
        BinaryOperatorKind::Equals
        | BinaryOperatorKind::NotEquals
        | BinaryOperatorKind::LessThan
        | BinaryOperatorKind::LessThanOrEqual
        | BinaryOperatorKind::GreaterThan
        | BinaryOperatorKind::GreaterThanOrEqual => (Type::Int, Type::Int, Type::Bool),
        _ => (Type::Int, Type::Int, Type::Int),
    }
}

/// The types of the binary operators: every operator takes two `int`s; a
/// comparison yields `bool`, so it is accepted where a condition is wanted,
/// and every other operator yields `int`, which is not.
pub proof fn lemma_binary_signatures(op: BinaryOperatorKind, span: SpanModel)
    ensures
        binary_signature(op).0 == Type::Int,
        binary_signature(op).1 == Type::Int,
        crate::ast::is_comparison_kind(op) ==> binary_signature(op).2 == Type::Bool,
        !crate::ast::is_comparison_kind(op) ==> binary_signature(op).2 == Type::Int,
        mismatch_reports(Type::Bool, binary_signature(op).2, span).len() == 0 <==> crate::ast::is_comparison_kind(op),
{
}

/// The diagnostics `after` extend `before`.
pub open spec fn reports_extend(before: DiagnosticsList, after: DiagnosticsList) -> bool {
    before.diagnostics@.is_prefix_of(after.diagnostics@)
}

/// The report that an expression of type `actual` over `span` stands where
/// one of type `expected` is wanted, unless it may.
pub open spec fn mismatch_reports(expected: Type, actual: Type, span: SpanModel) -> Seq<(DiagnosticKind, Seq<char>, SpanModel)> {
    if assignable(actual, expected) {
        Seq::empty()
    } else {
        seq![(
            DiagnosticKind::Error,
            "Type mismatch: expected '"@ + type_text(expected) + "', found '"@ + type_text(actual) + "'"@,
            span,
        )]
    }
}

/// The report that the name `t` denotes no variable in the scopes `s`, if it does not.
pub open spec fn undeclared_variable_reports(s: Scopes, t: Token) -> Seq<(DiagnosticKind, Seq<char>, SpanModel)> {
    if s.lookup(t.span.literal@) is Some {
        Seq::empty()
    } else {
        seq![(DiagnosticKind::Error, "Undeclared variable '"@ + t.span.literal@ + "'"@, t.span.model())]
    }
}

/// Reports a type mismatch unless `actual` may stand where `expected` is wanted;
/// returns `expected`.
pub fn expect_type(diagnostics: &mut DiagnosticsList, expected: Type, actual: Type, span: &TextSpan) -> (r: Type)
    ensures
        r == expected,
        assignable(actual, expected) ==> final(diagnostics).diagnostics@ == old(diagnostics).diagnostics@,
        !assignable(actual, expected) ==> final(diagnostics).diagnostics@.len() == old(diagnostics).diagnostics@.len() + 1
            && final(diagnostics).diagnostics@.drop_last() == old(diagnostics).diagnostics@,
        report_models(*final(diagnostics)) == report_models(*old(diagnostics)) + mismatch_reports(expected, actual, span.model()),
{
    let ghost before = *diagnostics;
    if !actual.is_assignable_to(expected) {
        diagnostics.report_type_mismatch(span, expected, actual);
        proof { lemma_report_models_push(before, *diagnostics); }
    }
    assert(report_models(*diagnostics) =~= report_models(before) + mismatch_reports(expected, actual, span.model()));
    expected
}

/// The type that a type name denotes: the error type for an unknown name.
pub open spec fn named_type(name: Seq<char>) -> Type {
    match type_of_name(name) {
        Some(t) => t,
        None => Type::Error,
    }
}

/// What the reports of a list of diagnostics say: kind, message and span of each.
pub open spec fn report_models(d: DiagnosticsList) -> Seq<(DiagnosticKind, Seq<char>, SpanModel)> {
    crate::diagnostics::diagnostic_models(d.diagnostics@)
}

/// The report that the type name `t` denotes no type, if it does not.
pub open spec fn type_reports(t: Token) -> Seq<(DiagnosticKind, Seq<char>, SpanModel)> {
    if type_of_name(t.span.literal@) is Some {
        Seq::empty()
    } else {
        seq![(DiagnosticKind::Error, "Undeclared type '"@ + t.span.literal@ + "'"@, t.span.model())]
    }
}

/// The reports of the parameters `ps` whose type names denote no type, in order.
pub open spec fn param_reports(ps: Seq<crate::ast::FuncDeclParameter>) -> Seq<(DiagnosticKind, Seq<char>, SpanModel)>
    decreases ps.len(),
{
    if ps.len() == 0 {
        Seq::empty()
    } else {
        param_reports(ps.drop_last()) + type_reports(ps.last().type_annotation.type_ident)
    }
}

/// The return type that a declaration states, `void` when it states none.
pub open spec fn declared_return_type(f: crate::ast::FunctionDeclaration) -> Type {
    match f.return_type {
        Some(t) => named_type(t.type_ident.span.literal@),
        None => Type::Void,
    }
}

/// The reports that declaring `f` makes: unknown parameter types, an unknown
/// return type, and a name already taken when `taken` holds.
pub open spec fn func_decl_reports(f: crate::ast::FunctionDeclaration, taken: bool) -> Seq<(DiagnosticKind, Seq<char>, SpanModel)> {
    param_reports(f.parameters@) + match f.return_type {
        Some(t) => type_reports(t.type_ident),
        None => Seq::empty(),
    } + if taken {
        seq![(DiagnosticKind::Error, "Function '"@ + f.identifier.span.literal@ + "' already declared"@, f.identifier.span.model())]
    } else {
        Seq::empty()
    }
}

proof fn lemma_report_models_push(d: DiagnosticsList, e: DiagnosticsList)
    requires
        e.diagnostics@.len() == d.diagnostics@.len() + 1,
        e.diagnostics@.drop_last() == d.diagnostics@,
    ensures
        report_models(e) == report_models(d).push(message_model(e.diagnostics@.last())),
{
    crate::diagnostics::lemma_diagnostic_models_push(d.diagnostics@, e.diagnostics@);
}

/// The type a type name denotes; an unknown name is reported and gives the error type.
pub fn resolve_type_from_string(diagnostics: &mut DiagnosticsList, type_ident: &Token) -> (r: Type)
    ensures
        r == named_type(type_ident.span.literal@),
        type_of_name(type_ident.span.literal@) is Some ==> final(diagnostics).diagnostics@ == old(diagnostics).diagnostics@,
        type_of_name(type_ident.span.literal@) is None ==> final(diagnostics).diagnostics@.len()
            == old(diagnostics).diagnostics@.len() + 1 && final(diagnostics).diagnostics@.drop_last()
            == old(diagnostics).diagnostics@,
        report_models(*final(diagnostics)) == report_models(*old(diagnostics)) + type_reports(*type_ident),
{
    let lit_type = Type::from_str(type_ident.span.literal.as_str());
    match lit_type {
        None => {
            let ghost before = *diagnostics;
            diagnostics.report_undeclared_type(type_ident);
            proof { lemma_report_models_push(before, *diagnostics); }
            assert(report_models(*diagnostics) =~= report_models(before) + type_reports(*type_ident));
            Type::Error
        },
        Some(lit_type) => {
            assert(report_models(*diagnostics) =~= report_models(*diagnostics) + type_reports(*type_ident));
            lit_type
        },
    }
}

/// The first pass of resolution: it declares every function with its parameters.
pub struct GlobalSymbolResolver {
    pub diagnostics: DiagnosticsList,
    pub global_scope: GlobalScope,
}

/// The name of the function that an item declares, if it declares one.
pub open spec fn declared_name(kind: ItemKind) -> Option<Seq<char>> {
    match kind {
        ItemKind::Func(f) => Some(f.identifier.span.literal@),
        ItemKind::Stmt(_) => None,
    }
}

/// The names of the functions `funcs`, in order.
pub open spec fn function_names(funcs: Seq<FunctionSymbol>) -> Seq<Seq<char>> {
    Seq::new(funcs.len(), |i: int| funcs[i].name@)
}

/// The names of the functions declared once the first pass has gone over
/// `items`, when `names` were declared before: each function item adds its
/// name unless it is already there.
pub open spec fn first_pass_names(items: Seq<crate::ast::Item>, names: Seq<Seq<char>>) -> Seq<Seq<char>>
    decreases items.len(),
{
    if items.len() == 0 {
        names
    } else {
        let before = first_pass_names(items.drop_last(), names);
        match items.last().kind {
            ItemKind::Func(f) => if before.contains(f.identifier.span.literal@) {
                before
            } else {
                before.push(f.identifier.span.literal@)
            },
            ItemKind::Stmt(_) => before,
        }
    }
}

/// What the first pass reports over `items`, when the functions `names` were
/// declared before: each function item's reports, its name taken when an
/// earlier function has it.
pub open spec fn first_pass_reports(items: Seq<crate::ast::Item>, names: Seq<Seq<char>>) -> Seq<(DiagnosticKind, Seq<char>, SpanModel)>
    decreases items.len(),
{
    if items.len() == 0 {
        Seq::empty()
    } else {
        let before = first_pass_names(items.drop_last(), names);
        first_pass_reports(items.drop_last(), names) + match items.last().kind {
            ItemKind::Func(f) => func_decl_reports(f, before.contains(f.identifier.span.literal@)),
            ItemKind::Stmt(_) => Seq::empty(),
        }
    }
}

/// A declared function as the first pass records it: its name, the
/// variables of its parameters, its body and its return type.
#[verifier::ext_equal]
pub ghost struct FunctionModel {
    pub name: Seq<char>,
    pub parameters: Seq<VariableIndex>,
    pub body: StmtId,
    pub return_type: Type,
}

/// What a global scope holds: each variable's name and type, each function,
/// and which variables are global.
#[verifier::ext_equal]
pub ghost struct ScopeModel {
    pub vars: Seq<(Seq<char>, Type)>,
    pub funcs: Seq<FunctionModel>,
    pub globals: Seq<VariableIndex>,
}

/// The name and type of each of the variables `vs`.
pub open spec fn var_models(vs: Seq<VariableSymbol>) -> Seq<(Seq<char>, Type)> {
    Seq::new(vs.len(), |i: int| (vs[i].name@, vs[i].var_type))
}

/// What each of the functions `fs` is.
pub open spec fn func_models(fs: Seq<FunctionSymbol>) -> Seq<FunctionModel> {
    Seq::new(
        fs.len(),
        |i: int| FunctionModel {
            name: fs[i].name@,
            parameters: fs[i].parameters@,
            body: fs[i].body,
            return_type: fs[i].return_type,
        },
    )
}

/// The contents of the global scope `g`.
pub open spec fn scope_model(g: GlobalScope) -> ScopeModel {
    ScopeModel { vars: var_models(g.variables@), funcs: func_models(g.functions@), globals: g.global_variables@ }
}

/// A scope that declares nothing.
pub open spec fn empty_scope() -> ScopeModel {
    ScopeModel { vars: Seq::empty(), funcs: Seq::empty(), globals: Seq::empty() }
}

/// The names of the functions `funcs`, in order.
pub open spec fn model_names(funcs: Seq<FunctionModel>) -> Seq<Seq<char>> {
    Seq::new(funcs.len(), |i: int| funcs[i].name)
}

/// The scope after the first pass declares `f` in `m`: its parameters become
/// new variables, one per parameter with the type its annotation names; the
/// function is added, over those variables, unless its name is taken.
pub open spec fn declare_in_model(f: crate::ast::FunctionDeclaration, m: ScopeModel) -> ScopeModel {
    let v0 = m.vars.len();
    let n = f.parameters@.len();
    let name = f.identifier.span.literal@;
    ScopeModel {
        vars: m.vars + Seq::new(
            n,
            |k: int| (
                f.parameters@[k].identifier.span.literal@,
                named_type(f.parameters@[k].type_annotation.type_ident.span.literal@),
            ),
        ),
        funcs: if model_names(m.funcs).contains(name) {
            m.funcs
        } else {
            m.funcs.push(
                FunctionModel {
                    name,
                    parameters: Seq::new(n, |k: int| VariableIndex { idx: (v0 + k) as usize }),
                    body: f.body,
                    return_type: declared_return_type(f),
                },
            )
        },
        globals: m.globals,
    }
}

/// The scope that the first pass builds over `items`, from the scope `m`:
/// each function item is declared in turn.
pub open spec fn first_pass_scope(items: Seq<crate::ast::Item>, m: ScopeModel) -> ScopeModel
    decreases items.len(),
{
    if items.len() == 0 {
        m
    } else {
        let before = first_pass_scope(items.drop_last(), m);
        match items.last().kind {
            ItemKind::Func(f) => declare_in_model(f, before),
            ItemKind::Stmt(_) => before,
        }
    }
}

/// The function names of a scope are those of its contents.
proof fn lemma_model_names(g: GlobalScope)
    ensures
        model_names(scope_model(g).funcs) == function_names(g.functions@),
{
    assert(model_names(scope_model(g).funcs) =~= function_names(g.functions@));
}

/// What declaring one function does to a scope, read off its contents.
proof fn lemma_declare_in_model(a: GlobalScope, b: GlobalScope, f: crate::ast::FunctionDeclaration)
    requires
        ({
            let v0 = a.variables@.len();
            let vs = b.variables@;
            let taken = first_function_named(a.functions@, f.identifier.span.literal@) is Some;
            &&& vs.len() == v0 + f.parameters@.len()
            &&& vs.subrange(0, v0 as int) == a.variables@
            &&& forall|k: int| 0 <= k < f.parameters@.len() ==> {
                &&& (#[trigger] vs[v0 + k]).name@ == f.parameters@[k].identifier.span.literal@
                &&& vs[v0 + k].var_type == named_type(f.parameters@[k].type_annotation.type_ident.span.literal@)
            }
            &&& b.global_variables@ == a.global_variables@
            &&& taken ==> b.functions@ == a.functions@
            &&& !taken ==> {
                let fs = b.functions@;
                &&& fs.drop_last() == a.functions@
                &&& fs.len() == a.functions@.len() + 1
                &&& fs.last().name@ == f.identifier.span.literal@
                &&& fs.last().body == f.body
                &&& fs.last().return_type == declared_return_type(f)
                &&& fs.last().parameters@.len() == f.parameters@.len()
                &&& forall|k: int| 0 <= k < f.parameters@.len() ==> (#[trigger] fs.last().parameters@[k]).idx == v0 + k
            }
        }),
    ensures
        scope_model(b) == declare_in_model(f, scope_model(a)),
{
    let ma = scope_model(a);
    let mb = scope_model(b);
    let want = declare_in_model(f, ma);
    let v0 = a.variables@.len();
    let name = f.identifier.span.literal@;
    lemma_model_names(a);
    lemma_first_function_named_names(a.functions@, name);
    assert forall|i: int| 0 <= i < mb.vars.len() implies #[trigger] mb.vars[i] == want.vars[i] by {
        if i < v0 {
            assert(b.variables@[i] == b.variables@.subrange(0, v0 as int)[i]);
        } else {
            let k = i - v0;
            assert(b.variables@[v0 + k].name@ == f.parameters@[k].identifier.span.literal@);
        }
    }
    assert(mb.vars =~= want.vars);
    if first_function_named(a.functions@, name) is Some {
        assert(mb.funcs =~= want.funcs);
    } else {
        let fs = b.functions@;
        assert forall|i: int| 0 <= i < mb.funcs.len() implies #[trigger] mb.funcs[i] =~~= want.funcs[i] by {
            if i < a.functions@.len() {
                assert(fs[i] == fs.drop_last()[i]);
            } else {
                let ps = Seq::new(f.parameters@.len(), |k: int| VariableIndex { idx: (v0 + k) as usize });
                assert(fs.last().parameters@ =~= ps);
            }
        }
        assert(mb.funcs =~~= want.funcs);
    }
    assert(mb =~~= want);
}

/// A function of some name is found exactly when the name is among theirs.
proof fn lemma_first_function_named_names(funcs: Seq<FunctionSymbol>, name: Seq<char>)
    ensures
        first_function_named(funcs, name) is Some <==> function_names(funcs).contains(name),
{
    lemma_first_function_named_bounds(funcs, name);
    if let Some(k) = first_function_named(funcs, name) {
        assert(function_names(funcs)[k] == name);
    }
    if function_names(funcs).contains(name) {
        let k = choose|k: int| 0 <= k < function_names(funcs).len() && function_names(funcs)[k] == name;
        assert(funcs[k].name@ == name);
    }
}

impl GlobalSymbolResolver {
    pub fn new(diagnostics: DiagnosticsList) -> (r: Self)
        ensures
            r.global_scope.wf(),
            r.global_scope.functions@.len() == 0,
            r.global_scope.variables@.len() == 0,
            r.global_scope.global_variables@.len() == 0,
            r.diagnostics == diagnostics,
    {
        GlobalSymbolResolver { diagnostics, global_scope: GlobalScope::new() }
    }

    /// Declares the functions of all items of `ast`, in order; after it every
    /// function item's name names a function.
    pub fn resolve(&mut self, ast: &Ast)
        requires
            old(self).global_scope.wf(),
        ensures
            final(self).global_scope.wf(),
            reports_extend(old(self).diagnostics, final(self).diagnostics),
            forall|i: int| 0 <= i < ast.items@.len() ==> (declared_name(#[trigger] ast.items@[i].kind) matches Some(n)
                ==> first_function_named(final(self).global_scope.functions@, n) is Some),
            forall|i: int| 0 <= i < old(self).global_scope.functions@.len() ==> #[trigger] final(self).global_scope.functions@[i]
                == old(self).global_scope.functions@[i],
            final(self).global_scope.functions@.len() >= old(self).global_scope.functions@.len(),
            function_names(final(self).global_scope.functions@)
                == first_pass_names(ast.items@, function_names(old(self).global_scope.functions@)),
            report_models(final(self).diagnostics) == report_models(old(self).diagnostics)
                + first_pass_reports(ast.items@, function_names(old(self).global_scope.functions@)),
            scope_model(final(self).global_scope) == first_pass_scope(ast.items@, scope_model(old(self).global_scope)),
    {
        let ghost names0 = function_names(self.global_scope.functions@);
        let ghost m0 = scope_model(self.global_scope);
        assert(ast.items@.subrange(0, 0) =~= Seq::<crate::ast::Item>::empty());
        assert(report_models(self.diagnostics) =~= report_models(self.diagnostics) + Seq::empty());
        let n = ast.items.len();
        let mut i: usize = 0;
        while i < n
            invariant
                n == ast.items@.len(),
                i <= n,
                self.global_scope.wf(),
                reports_extend(old(self).diagnostics, self.diagnostics),
                forall|j: int| 0 <= j < i ==> (declared_name(#[trigger] ast.items@[j].kind) matches Some(nm)
                    ==> first_function_named(self.global_scope.functions@, nm) is Some),
                forall|j: int| 0 <= j < old(self).global_scope.functions@.len() ==> #[trigger] self.global_scope.functions@[j]
                    == old(self).global_scope.functions@[j],
                self.global_scope.functions@.len() >= old(self).global_scope.functions@.len(),
                names0 == function_names(old(self).global_scope.functions@),
                function_names(self.global_scope.functions@) == first_pass_names(ast.items@.subrange(0, i as int), names0),
                report_models(self.diagnostics) == report_models(old(self).diagnostics)
                    + first_pass_reports(ast.items@.subrange(0, i as int), names0),
                m0 == scope_model(old(self).global_scope),
                scope_model(self.global_scope) == first_pass_scope(ast.items@.subrange(0, i as int), m0),
            decreases n - i,
        {
            let item = ast.query_item(ItemId { idx: i });
            let ghost before = self.global_scope.functions@;
            let ghost d_before = self.diagnostics;
            let ghost items_i = ast.items@.subrange(0, i as int);
            let ghost items_next = ast.items@.subrange(0, i + 1);
            assert(items_next.drop_last() =~= items_i);
            assert(items_next.last() == *item);
            if let ItemKind::Func(func) = &item.kind {
                self.visit_func_decl_statement(func);
                proof {
                    let name = func.identifier.span.literal@;
                    lemma_first_function_named_names(before, name);
                    let fs = self.global_scope.functions@;
                    if !function_names(before).contains(name) {
                        assert(function_names(fs) =~= function_names(before).push(name));
                    }
                }
            } else {
                assert(report_models(self.diagnostics) =~= report_models(d_before) + Seq::empty());
            }
            proof {
                assert(report_models(self.diagnostics) =~= report_models(old(self).diagnostics)
                    + first_pass_reports(items_next, names0));
            }
            proof {
                assert forall|j: int| 0 <= j <= i implies (declared_name(#[trigger] ast.items@[j].kind) matches Some(nm)
                    ==> first_function_named(self.global_scope.functions@, nm) is Some) by {
                    if j < i {
                        if let Some(nm) = declared_name(ast.items@[j].kind) {
                            lemma_first_function_named_grow(before, self.global_scope.functions@, nm);
                        }
                    }
                }
            }
            i = i + 1;
        }
        assert(ast.items@.subrange(0, n as int) =~= ast.items@);
    }

    /// Declares the parameters of a function and then the function itself; a
    /// second function of the same name is reported.
    pub fn visit_func_decl_statement(&mut self, func_decl_statement: &crate::ast::FunctionDeclaration)
        requires
            old(self).global_scope.wf(),
        ensures
            final(self).global_scope.wf(),
            reports_extend(old(self).diagnostics, final(self).diagnostics),
            first_function_named(final(self).global_scope.functions@, func_decl_statement.identifier.span.literal@) is Some,
            final(self).global_scope.functions@.len() >= old(self).global_scope.functions@.len(),
            forall|j: int| 0 <= j < old(self).global_scope.functions@.len() ==> #[trigger] final(self).global_scope.functions@[j]
                == old(self).global_scope.functions@[j],
            ({
                let f = *func_decl_statement;
                let v0 = old(self).global_scope.variables@.len();
                let vs = final(self).global_scope.variables@;
                let taken = first_function_named(old(self).global_scope.functions@, f.identifier.span.literal@) is Some;
                &&& vs.len() == v0 + f.parameters@.len()
                &&& vs.subrange(0, v0 as int) == old(self).global_scope.variables@
                &&& forall|k: int| 0 <= k < f.parameters@.len() ==> {
                    &&& (#[trigger] vs[v0 + k]).name@ == f.parameters@[k].identifier.span.literal@
                    &&& vs[v0 + k].var_type == named_type(f.parameters@[k].type_annotation.type_ident.span.literal@)
                }
                &&& final(self).global_scope.global_variables@ == old(self).global_scope.global_variables@
                &&& taken ==> final(self).global_scope.functions@ == old(self).global_scope.functions@
                &&& !taken ==> {
                    let fs = final(self).global_scope.functions@;
                    &&& fs.drop_last() == old(self).global_scope.functions@
                    &&& fs.len() == old(self).global_scope.functions@.len() + 1
                    &&& fs.last().name@ == f.identifier.span.literal@
                    &&& fs.last().body == f.body
                    &&& fs.last().return_type == declared_return_type(f)
                    &&& fs.last().parameters@.len() == f.parameters@.len()
                    &&& forall|k: int| 0 <= k < f.parameters@.len() ==> (#[trigger] fs.last().parameters@[k]).idx == v0 + k
                }
                &&& report_models(final(self).diagnostics) == report_models(old(self).diagnostics) + func_decl_reports(f, taken)
            }),
            scope_model(final(self).global_scope) == declare_in_model(*func_decl_statement, scope_model(old(self).global_scope)),
    {
        let ghost v0 = self.global_scope.variables@.len();
        let ghost d0 = self.diagnostics;
        let mut parameters: Vec<VariableIndex> = Vec::new();
        let n = func_decl_statement.parameters.len();
        let mut k: usize = 0;
        while k < n
            invariant
                n == func_decl_statement.parameters@.len(),
                k <= n,
                v0 == old(self).global_scope.variables@.len(),
                d0 == old(self).diagnostics,
                self.global_scope.wf(),
                self.global_scope.functions@ == old(self).global_scope.functions@,
                self.global_scope.global_variables@ == old(self).global_scope.global_variables@,
                reports_extend(old(self).diagnostics, self.diagnostics),
                self.global_scope.variables@.len() == v0 + k,
                self.global_scope.variables@.subrange(0, v0 as int) == old(self).global_scope.variables@,
                forall|j: int| 0 <= j < k ==> {
                    &&& (#[trigger] self.global_scope.variables@[v0 + j]).name@ == func_decl_statement.parameters@[j].identifier.span.literal@
                    &&& self.global_scope.variables@[v0 + j].var_type == named_type(func_decl_statement.parameters@[j].type_annotation.type_ident.span.literal@)
                },
                parameters@.len() == k,
                forall|j: int| 0 <= j < k ==> (#[trigger] parameters@[j]).idx == v0 + j,
                report_models(self.diagnostics) == report_models(d0) + param_reports(func_decl_statement.parameters@.subrange(0, k as int)),
            decreases n - k,
        {
            let parameter = &func_decl_statement.parameters[k];
            let ghost d = self.diagnostics;
            let ghost vars_before = self.global_scope.variables@;
            let ty = resolve_type_from_string(&mut self.diagnostics, &parameter.type_annotation.type_ident);
            assert(reports_extend(d, self.diagnostics)) by {
                if self.diagnostics.diagnostics@.len() > d.diagnostics@.len() {
                    assert(self.diagnostics.diagnostics@.drop_last() == d.diagnostics@);
                }
            }
            let idx = self.global_scope.declare_variable(&parameter.identifier.span.literal, ty, false);
            parameters.push(idx);
            proof {
                let ps = func_decl_statement.parameters@.subrange(0, k + 1);
                assert(ps.drop_last() =~= func_decl_statement.parameters@.subrange(0, k as int));
                assert(ps.last() == func_decl_statement.parameters@[k as int]);
                assert(report_models(self.diagnostics) =~= report_models(d0) + param_reports(ps));
                assert(self.global_scope.variables@.subrange(0, v0 as int) =~= old(self).global_scope.variables@) by {
                    assert(self.global_scope.variables@.drop_last() == vars_before);
                    assert(vars_before.subrange(0, v0 as int) == old(self).global_scope.variables@);
                }
                assert forall|j: int| 0 <= j < k + 1 implies {
                    &&& (#[trigger] self.global_scope.variables@[v0 + j]).name@ == func_decl_statement.parameters@[j].identifier.span.literal@
                    &&& self.global_scope.variables@[v0 + j].var_type == named_type(func_decl_statement.parameters@[j].type_annotation.type_ident.span.literal@)
                } by {
                    if j < k {
                        assert(self.global_scope.variables@[v0 + j] == vars_before[v0 + j]);
                    }
                }
            }
            k = k + 1;
        }
        assert(func_decl_statement.parameters@.subrange(0, n as int) =~= func_decl_statement.parameters@);
        let ghost d1 = self.diagnostics;
        let return_type = match &func_decl_statement.return_type {
            None => Type::Void,
            Some(return_type) => {
                let ghost d = self.diagnostics;
                let t = resolve_type_from_string(&mut self.diagnostics, &return_type.type_ident);
                assert(reports_extend(d, self.diagnostics)) by {
                    if self.diagnostics.diagnostics@.len() > d.diagnostics@.len() {
                        assert(self.diagnostics.diagnostics@.drop_last() == d.diagnostics@);
                    }
                }
                t
            },
        };
        let ghost d2 = self.diagnostics;
        assert(report_models(d2) =~= report_models(d1) + match func_decl_statement.return_type {
            Some(t) => type_reports(t.type_ident),
            None => Seq::empty(),
        });
        let ghost before = self.global_scope.functions@;
        match self.global_scope.declare_function(
            &func_decl_statement.identifier.span.literal,
            func_decl_statement.body,
            parameters,
            return_type,
        ) {
            Ok(()) => {
                proof {
                    let fs = self.global_scope.functions@;
                    assert(fs.drop_last() =~= before);
                    assert(report_models(self.diagnostics) =~= report_models(d0) + func_decl_reports(*func_decl_statement, false));
                }
            },
            Err(()) => {
                let ghost d = self.diagnostics;
                self.diagnostics.report_function_already_declared(&func_decl_statement.identifier);
                assert(reports_extend(d, self.diagnostics)) by {
                    assert(self.diagnostics.diagnostics@.drop_last() == d.diagnostics@);
                }
                proof {
                    lemma_report_models_push(d, self.diagnostics);
                    assert(report_models(self.diagnostics) =~= report_models(d0) + func_decl_reports(*func_decl_statement, true));
                }
            },
        }
        proof {
            lemma_declare_in_model(old(self).global_scope, self.global_scope, *func_decl_statement);
        }
    }
}

/// A function found among some is found among more.
proof fn lemma_first_function_named_grow(before: Seq<FunctionSymbol>, after: Seq<FunctionSymbol>, name: Seq<char>)
    requires
        first_function_named(before, name) is Some,
        before.len() <= after.len(),
        forall|j: int| 0 <= j < before.len() ==> #[trigger] after[j] == before[j],
    ensures
        first_function_named(after, name) is Some,
    decreases after.len(),
{
    if after.len() > before.len() {
        assert forall|j: int| 0 <= j < before.len() implies #[trigger] after.drop_last()[j] == before[j] by {}
        lemma_first_function_named_grow(before, after.drop_last(), name);
    } else {
        assert(after =~= before);
    }
}

/// The type each expression gets from resolution, in terms of the scopes in
/// force when it is visited (`prev`): numbers and unary operations are `int`,
/// binary operations have their operator's result type, parentheses pass on
/// the inner type, variables and assignments have the type of the variable
/// their name denotes (an assignment to an undeclared name is `void`), calls
/// have the return type of the function named (`void` if none); the other
/// expressions keep the type they had. Variables and assignments record the
/// variable found.
pub open spec fn expr_typed(prev: Scopes, prev_ast: Ast, cur_ast: Ast, i: int) -> bool {
    let e = prev_ast.expressions@[i];
    let c = cur_ast.expressions@[i];
    let t = c.ty;
    match e.kind {
        ExprKind::Number(_) => t == Type::Int,
        ExprKind::Unary(_) => t == Type::Int,
        ExprKind::Binary(b) => t == binary_signature(b.operator.kind).2,
        ExprKind::Parenthesized(p) => t == cur_ast.expressions@[p.expression.idx as int].ty,
        ExprKind::Variable(v) => match prev.lookup(v.identifier.span.literal@) {
            Some(x) => t == prev.global_scope.variables@[x.idx as int].var_type && (c.kind matches ExprKind::Variable(v2) && v2.variable_idx == x),
            None => t == e.ty,
        },
        ExprKind::Assignment(a) => match prev.lookup(a.identifier.span.literal@) {
            Some(x) => t == prev.global_scope.variables@[x.idx as int].var_type && (c.kind matches ExprKind::Assignment(a2) && a2.variable_idx == x),
            None => t == Type::Void,
        },
        ExprKind::Call(call) => match first_function_named(prev.global_scope.functions@, call.identifier.span.literal@) {
            Some(f) => t == prev.global_scope.functions@[f].return_type,
            None => t == Type::Void,
        },
        _ => t == e.ty,
    }
}

/// What visiting a statement may change of the scopes: variables and globals
/// are only added, the innermost scope only gains locals, nothing else moves.
pub open spec fn stmt_frame(cur: Scopes, prev: Scopes) -> bool {
    &&& cur.local_scopes_vec@.len() == prev.local_scopes_vec@.len()
    &&& cur.local_scopes_vec@.len() > 0 ==> {
        &&& cur.local_scopes_vec@.drop_last() == prev.local_scopes_vec@.drop_last()
        &&& prev.local_scopes_vec@.last().locals@.is_prefix_of(cur.local_scopes_vec@.last().locals@)
        &&& cur.global_scope.global_variables@ == prev.global_scope.global_variables@
    }
    &&& cur.surrounding_function == prev.surrounding_function
    &&& cur.global_scope.functions@ == prev.global_scope.functions@
    &&& prev.global_scope.global_variables@.is_prefix_of(cur.global_scope.global_variables@)
    &&& prev.global_scope.variables@.is_prefix_of(cur.global_scope.variables@)
}

/// What visiting an expression may change of the scopes: only variables are added.
pub open spec fn expr_frame(cur: Scopes, prev: Scopes) -> bool {
    &&& cur.local_scopes_vec@ == prev.local_scopes_vec@
    &&& cur.surrounding_function == prev.surrounding_function
    &&& cur.global_scope.functions@ == prev.global_scope.functions@
    &&& cur.global_scope.global_variables@ == prev.global_scope.global_variables@
    &&& prev.global_scope.variables@.is_prefix_of(cur.global_scope.variables@)
}

/// What resolving a function body leaves changed of the scopes: variables
/// are only added, and no function surrounds what follows.
pub open spec fn item_frame(cur: Scopes, prev: Scopes) -> bool {
    &&& cur.local_scopes_vec@ == prev.local_scopes_vec@
    &&& cur.surrounding_function is None
    &&& cur.global_scope.functions@ == prev.global_scope.functions@
    &&& cur.global_scope.global_variables@ == prev.global_scope.global_variables@
    &&& prev.global_scope.variables@.is_prefix_of(cur.global_scope.variables@)
}

proof fn lemma_first_named_stable(old_vars: Seq<VariableSymbol>, vars: Seq<VariableSymbol>, idxs: Seq<VariableIndex>, name: Seq<char>)
    requires
        old_vars.is_prefix_of(vars),
        forall|k: int| 0 <= k < idxs.len() ==> (#[trigger] idxs[k]).idx < old_vars.len(),
    ensures
        first_named(vars, idxs, name) == first_named(old_vars, idxs, name),
    decreases idxs.len(),
{
    if idxs.len() > 0 {
        assert forall|k: int| 0 <= k < idxs.drop_last().len() implies (#[trigger] idxs.drop_last()[k]).idx < old_vars.len() by {
            assert(idxs.drop_last()[k] == idxs[k]);
        }
        lemma_first_named_stable(old_vars, vars, idxs.drop_last(), name);
        assert(vars[idxs.last().idx as int] == old_vars[idxs.last().idx as int]);
    }
}

proof fn lemma_lookup_locals_stable(old_vars: Seq<VariableSymbol>, vars: Seq<VariableSymbol>, scopes: Seq<LocalScope>, name: Seq<char>)
    requires
        old_vars.is_prefix_of(vars),
        forall|i: int, k: int| 0 <= i < scopes.len() && 0 <= k < scopes[i].locals@.len()
            ==> (#[trigger] scopes[i].locals@[k]).idx < old_vars.len(),
    ensures
        lookup_locals(vars, scopes, name) == lookup_locals(old_vars, scopes, name),
    decreases scopes.len(),
{
    if scopes.len() > 0 {
        let last = scopes.last().locals@;
        assert forall|k: int| 0 <= k < last.len() implies (#[trigger] last[k]).idx < old_vars.len() by {
            assert(scopes[scopes.len() - 1].locals@[k] == last[k]);
        }
        lemma_first_named_stable(old_vars, vars, last, name);
        assert forall|i: int, k: int| 0 <= i < scopes.drop_last().len() && 0 <= k < scopes.drop_last()[i].locals@.len()
            implies (#[trigger] scopes.drop_last()[i].locals@[k]).idx < old_vars.len() by {
            assert(scopes.drop_last()[i] == scopes[i]);
        }
        lemma_lookup_locals_stable(old_vars, vars, scopes.drop_last(), name);
    }
}

/// Adding variables does not change what a name denotes.
proof fn lemma_lookup_stable(prev: Scopes, cur: Scopes, name: Seq<char>)
    requires
        prev.wf(),
        expr_frame(cur, prev),
    ensures
        cur.lookup(name) == prev.lookup(name),
        prev.lookup(name) matches Some(x) ==> cur.global_scope.variables@[x.idx as int] == prev.global_scope.variables@[x.idx as int],
{
    lemma_lookup_locals_stable(prev.global_scope.variables@, cur.global_scope.variables@, prev.local_scopes_vec@, name);
    lemma_first_named_stable(prev.global_scope.variables@, cur.global_scope.variables@, prev.global_scope.global_variables@, name);
    lemma_lookup_bounds(prev, name);
}

proof fn lemma_lookup_locals_bounds(vars: Seq<VariableSymbol>, scopes: Seq<LocalScope>, name: Seq<char>)
    requires
        forall|i: int, k: int| 0 <= i < scopes.len() && 0 <= k < scopes[i].locals@.len()
            ==> (#[trigger] scopes[i].locals@[k]).idx < vars.len(),
    ensures
        lookup_locals(vars, scopes, name) matches Some(x) ==> x.idx < vars.len(),
    decreases scopes.len(),
{
    if scopes.len() > 0 {
        lemma_first_named_bounds(vars, scopes.last().locals@, name);
        assert forall|i: int, k: int| 0 <= i < scopes.drop_last().len() && 0 <= k < scopes.drop_last()[i].locals@.len()
            implies (#[trigger] scopes.drop_last()[i].locals@[k]).idx < vars.len() by {
            assert(scopes.drop_last()[i] == scopes[i]);
        }
        lemma_lookup_locals_bounds(vars, scopes.drop_last(), name);
        if let Some(k) = first_named(vars, scopes.last().locals@, name) {
            assert(scopes[scopes.len() - 1].locals@[k] == scopes.last().locals@[k]);
        }
    }
}

/// A name denotes an existing variable.
proof fn lemma_lookup_bounds(s: Scopes, name: Seq<char>)
    requires
        s.wf(),
    ensures
        s.lookup(name) matches Some(x) ==> x.idx < s.global_scope.variables@.len(),
{
    lemma_lookup_locals_bounds(s.global_scope.variables@, s.local_scopes_vec@, name);
    lemma_first_named_bounds(s.global_scope.variables@, s.global_scope.global_variables@, name);
}

/// Being a prefix is transitive.
pub proof fn lemma_prefix_trans<A>(a: Seq<A>, b: Seq<A>, c: Seq<A>)
    requires
        a.is_prefix_of(b),
        b.is_prefix_of(c),
    ensures
        a.is_prefix_of(c),
{
    assert(a =~= c.subrange(0, a.len() as int)) by {
        assert forall|i: int| 0 <= i < a.len() implies a[i] == c.subrange(0, a.len() as int)[i] by {
            assert(a[i] == b.subrange(0, a.len() as int)[i]);
            assert(b[i] == c.subrange(0, b.len() as int)[i]);
        }
    }
}

/// The second pass of resolution: it resolves names and checks types,
/// recording in the tree the type of each expression and the variable each
/// name refers to.
pub struct Resolver {
    pub scopes: Scopes,
    pub diagnostics: DiagnosticsList,
}

impl Resolver {
    pub fn new(diagnostics: DiagnosticsList, scopes: Scopes) -> (r: Self)
        ensures
            r.scopes == scopes,
            r.diagnostics == diagnostics,
    {
        Resolver { scopes, diagnostics }
    }

    fn expect_type(&mut self, expected: Type, actual: Type, span: &TextSpan)
        ensures
            final(self).scopes == old(self).scopes,
            reports_extend(old(self).diagnostics, final(self).diagnostics),
            assignable(actual, expected) ==> final(self).diagnostics.diagnostics@ == old(self).diagnostics.diagnostics@,
            !assignable(actual, expected) ==> final(self).diagnostics.diagnostics@.len() == old(self).diagnostics.diagnostics@.len() + 1,
            report_models(final(self).diagnostics) == report_models(old(self).diagnostics) + mismatch_reports(expected, actual, span.model()),
    {
        let ghost d = self.diagnostics;
        expect_type(&mut self.diagnostics, expected, actual, span);
        proof {
            if !assignable(actual, expected) {
                assert(self.diagnostics.diagnostics@.drop_last() == d.diagnostics@);
            } else {
                assert(self.diagnostics.diagnostics@ =~= d.diagnostics@);
            }
        }
    }

    /// The type of a binary operation: its operands are checked against the
    /// operator's wanted types; the result is the operator's result type.
    pub fn resolve_binary_expression(&mut self, ast: &Ast, left: ExprId, right: ExprId, operator: BinaryOperatorKind) -> (r: Type)
        requires
            ast.wf(),
            left.idx < ast.expressions@.len(),
            right.idx < ast.expressions@.len(),
        ensures
            r == binary_signature(operator).2,
            final(self).scopes == old(self).scopes,
            reports_extend(old(self).diagnostics, final(self).diagnostics),
            report_models(final(self).diagnostics) == report_models(old(self).diagnostics)
                + mismatch_reports(binary_signature(operator).0, ast.expressions@[left.idx as int].ty, expr_span_model(*ast, left.idx as int))
                + mismatch_reports(binary_signature(operator).1, ast.expressions@[right.idx as int].ty, expr_span_model(*ast, right.idx as int)),
    {
        let matrix: (Type, Type, Type) = match operator {
            BinaryOperatorKind::Equals
            | BinaryOperatorKind::NotEquals
            | BinaryOperatorKind::LessThan
            | BinaryOperatorKind::LessThanOrEqual
            | BinaryOperatorKind::GreaterThan
            | BinaryOperatorKind::GreaterThanOrEqual => (Type::Int, Type::Int, Type::Bool),
            _ => (Type::Int, Type::Int, Type::Int),
        };
        let l = ast.query_expr(left);
        let r = ast.query_expr(right);
        let ls = l.span(ast);
        self.expect_type(matrix.0, l.ty, &ls);
        let rs = r.span(ast);
        let ghost d = self.diagnostics;
        self.expect_type(matrix.1, r.ty, &rs);
        proof { lemma_prefix_trans(old(self).diagnostics.diagnostics@, d.diagnostics@, self.diagnostics.diagnostics@); }
        assert(report_models(self.diagnostics) =~= report_models(old(self).diagnostics)
            + mismatch_reports(binary_signature(operator).0, ast.expressions@[left.idx as int].ty, expr_span_model(*ast, left.idx as int))
            + mismatch_reports(binary_signature(operator).1, ast.expressions@[right.idx as int].ty, expr_span_model(*ast, right.idx as int)));
        matrix.2
    }

    /// The type of a unary operation: its operand is checked to be `int`.
    pub fn resolve_unary_expression(&mut self, ast: &Ast, operand: ExprId, operator: UnaryOperatorKind) -> (r: Type)
        requires
            ast.wf(),
            operand.idx < ast.expressions@.len(),
        ensures
            r == Type::Int,
            final(self).scopes == old(self).scopes,
            reports_extend(old(self).diagnostics, final(self).diagnostics),
            report_models(final(self).diagnostics) == report_models(old(self).diagnostics)
                + mismatch_reports(Type::Int, ast.expressions@[operand.idx as int].ty, expr_span_model(*ast, operand.idx as int)),
    {
        let matrix: (Type, Type) = match operator {
            UnaryOperatorKind::Minus | UnaryOperatorKind::BitwiseNot => (Type::Int, Type::Int),
        };
        let o = ast.query_expr(operand);
        let os = o.span(ast);
        self.expect_type(matrix.0, o.ty, &os);
        matrix.1
    }
}

/// The expressions from `bound` on are as they were.
pub open spec fn untouched_from(cur: Ast, prev: Ast, bound: int) -> bool {
    forall|j: int| bound <= j < prev.expressions@.len() ==> #[trigger] cur.expressions@[j] == prev.expressions@[j]
}

/// What every visit owes: the resolver and the tree stay well formed, the
/// tree keeps its shape and is changed only below `bound`, and diagnostics
/// are only added.
pub open spec fn visit_kept(cur: Resolver, prev: Resolver, cur_ast: Ast, prev_ast: Ast, bound: int) -> bool {
    &&& cur.wf()
    &&& cur_ast.wf()
    &&& same_shape(cur_ast, prev_ast)
    &&& reports_extend(prev.diagnostics, cur.diagnostics)
    &&& untouched_from(cur_ast, prev_ast, bound)
}

impl Resolver {
    pub open spec fn wf(&self) -> bool {
        self.scopes.wf()
    }

    /// Resolves the expression `id` after its subexpressions, recording its
    /// type as [`expr_typed`] says.
    pub fn visit_expr(&mut self, ast: &mut Ast, id: ExprId)
        requires
            old(self).wf(),
            old(ast).wf(),
            id.idx < old(ast).expressions@.len(),
        ensures
            visit_kept(*final(self), *old(self), *final(ast), *old(ast), id.idx + 1),
            expr_frame(final(self).scopes, old(self).scopes),
            expr_typed(old(self).scopes, *old(ast), *final(ast), id.idx as int),
            old(ast).expressions@[id.idx as int].kind matches ExprKind::Variable(v) ==> report_models(final(self).diagnostics)
                == report_models(old(self).diagnostics) + undeclared_variable_reports(old(self).scopes, v.identifier),
            ({
                let k = old(ast).expressions@[id.idx as int].kind;
                k is Number || k is Boolean || k is Error
            }) ==> final(self).diagnostics == old(self).diagnostics,
            state_of(*final(self), *final(ast)) == expr_resolution(*old(self), *old(ast), id.idx as int),
        decreases id.idx, 3nat,
    {
        let ghost i = id.idx as int;
        let ghost ast0 = *ast;
        assert(ast.expr_kind_ok(ast.expressions@[i].kind, i as nat));
        match &ast.query_expr(id).kind {
            ExprKind::Number(_) => {
                self.visit_number_expression(ast, id);
                proof { lemma_expr_frame_refl(self.scopes); }
            },
            ExprKind::Binary(b) => {
                let left = b.left;
                let right = b.right;
                let op = b.operator.kind;
                assert(expr_children(ast0.expressions@[i].kind)[0] == left);
                assert(expr_children(ast0.expressions@[i].kind)[1] == right);
                self.visit_binary_expression(ast, id, left, right, op);
            },
            ExprKind::Unary(u) => {
                let operand = u.operand;
                let op = u.operator.kind;
                assert(expr_children(ast0.expressions@[i].kind)[0] == operand);
                self.visit_unary_expression(ast, id, operand, op);
            },
            ExprKind::Parenthesized(p) => {
                let inner = p.expression;
                assert(expr_children(ast0.expressions@[i].kind)[0] == inner);
                self.visit_parenthesized_expression(ast, id, inner);
            },
            ExprKind::Variable(v) => {
                let identifier = v.identifier.clone();
                self.visit_variable_expression(ast, id, &identifier);
                proof { lemma_expr_frame_refl(self.scopes); }
            },
            ExprKind::Assignment(a) => {
                let identifier = a.identifier.clone();
                let inner = a.expression;
                assert(expr_children(ast0.expressions@[i].kind)[0] == inner);
                self.visit_assignment_expression(ast, id, &identifier, inner);
            },
            ExprKind::Call(c) => {
                let identifier = c.identifier.clone();
                let mut arguments: Vec<ExprId> = Vec::new();
                let mut k: usize = 0;
                while k < c.arguments.len()
                    invariant
                        k <= c.arguments@.len(),
                        arguments@ == c.arguments@.subrange(0, k as int),
                    decreases c.arguments@.len() - k,
                {
                    arguments.push(c.arguments[k]);
                    assert(arguments@ =~= c.arguments@.subrange(0, (k + 1) as int));
                    k = k + 1;
                }
                assert(arguments@ =~= c.arguments@);
                assert(forall|j: int| 0 <= j < arguments@.len() ==> #[trigger] arguments@[j] == expr_children(ast0.expressions@[i].kind)[j]);
                self.visit_call_expression(ast, id, &identifier, &arguments);
            },
            ExprKind::If(e) => {
                let condition = e.condition;
                let then_branch = e.then_branch;
                let else_expr = match &e.else_branch {
                    Some(b) => Some(b.expr),
                    None => None,
                };
                assert(expr_children(ast0.expressions@[i].kind)[0] == condition);
                assert(expr_children(ast0.expressions@[i].kind)[1] == then_branch);
                if let Some(x) = else_expr {
                    assert(expr_children(ast0.expressions@[i].kind)[2] == x);
                }
                self.visit_if_expr(ast, condition, then_branch, else_expr, Ghost(i));
            },
            ExprKind::Block(b) => {
                let mut stmts: Vec<StmtId> = Vec::new();
                let mut k: usize = 0;
                while k < b.stmts.len()
                    invariant
                        k <= b.stmts@.len(),
                        stmts@ == b.stmts@.subrange(0, k as int),
                    decreases b.stmts@.len() - k,
                {
                    stmts.push(b.stmts[k]);
                    assert(stmts@ =~= b.stmts@.subrange(0, (k + 1) as int));
                    k = k + 1;
                }
                assert(stmts@ =~= b.stmts@);
                assert(forall|j: int| 0 <= j < stmts@.len() ==> #[trigger] stmts@[j] == expr_stmt_children(ast0.expressions@[i].kind)[j]);
                self.visit_block_expr(ast, &stmts, Ghost(i));
            },
            ExprKind::Boolean(_) | ExprKind::Error(_) => {
                proof {
                    lemma_expr_frame_refl(self.scopes);
                    lemma_same_shape_refl(*ast);
                    assert(self.diagnostics.diagnostics@ =~= self.diagnostics.diagnostics@.subrange(0, self.diagnostics.diagnostics@.len() as int));
                }
            },
        }
    }

    /// A number is an `int`.
    fn visit_number_expression(&mut self, ast: &mut Ast, id: ExprId)
        requires
            old(self).wf(),
            old(ast).wf(),
            id.idx < old(ast).expressions@.len(),
            old(ast).expressions@[id.idx as int].kind is Number,
        ensures
            visit_kept(*final(self), *old(self), *final(ast), *old(ast), id.idx + 1),
            *final(self) == *old(self),
            final(ast).expressions@[id.idx as int].ty == Type::Int,
            state_of(*final(self), *final(ast)) == expr_resolution(*old(self), *old(ast), id.idx as int),
    {
        ast.set_type(id, Type::Int);
        assert(state_of(*self, *ast) =~= with_type(state_of(*old(self), *old(ast)), id.idx as int, Type::Int));
    }

    /// A binary operation: both operands, then the operator's check.
    fn visit_binary_expression(&mut self, ast: &mut Ast, id: ExprId, left: ExprId, right: ExprId, op: BinaryOperatorKind)
        requires
            old(self).wf(),
            old(ast).wf(),
            id.idx < old(ast).expressions@.len(),
            left.idx < id.idx,
            right.idx < id.idx,
            old(ast).expressions@[id.idx as int].kind matches ExprKind::Binary(b)
                && b.left == left && b.right == right && b.operator.kind == op,
        ensures
            visit_kept(*final(self), *old(self), *final(ast), *old(ast), id.idx + 1),
            expr_frame(final(self).scopes, old(self).scopes),
            final(ast).expressions@[id.idx as int].ty == binary_signature(op).2,
            state_of(*final(self), *final(ast)) == expr_resolution(*old(self), *old(ast), id.idx as int),
        decreases id.idx, 2nat,
    {
        let ghost ast0 = *ast;
        let ghost self0 = *self;
        self.visit_expr(ast, left);
        let ghost ast1 = *ast;
        let ghost self1 = *self;
        proof { lemma_span_oracle_same_shape(ast1, ast0); }
        self.visit_expr(ast, right);
        proof {
            lemma_same_shape_trans(*ast, ast1, ast0);
            lemma_frame_trans(self.scopes, self1.scopes, self0.scopes);
            lemma_prefix_trans(self0.diagnostics.diagnostics@, self1.diagnostics.diagnostics@, self.diagnostics.diagnostics@);
        }
        let ghost self2 = *self;
        let ty = self.resolve_binary_expression(ast, left, right, op);
        proof { lemma_prefix_trans(self0.diagnostics.diagnostics@, self2.diagnostics.diagnostics@, self.diagnostics.diagnostics@); }
        let ghost ast2 = *ast;
        ast.set_type(id, ty);
        proof {
            lemma_same_shape_trans(*ast, ast2, ast0);
            lemma_same_shape_trans(ast2, ast1, ast0);
            lemma_expr_span_same_shape(ast2, ast0, left.idx as int);
            lemma_expr_span_same_shape(ast2, ast0, right.idx as int);
            let sig = binary_signature(op);
            let s2 = state_of(self2, ast2);
            assert(state_of(*self, *ast) =~= with_type(reporting(s2, mismatch_reports(sig.0, s2.exprs[left.idx as int].ty,
                span_oracle(ast0)(left.idx as int)) + mismatch_reports(sig.1, s2.exprs[right.idx as int].ty,
                span_oracle(ast0)(right.idx as int))), id.idx as int, sig.2));
        }
    }

    /// A unary operation: its operand, then the operator's check.
    fn visit_unary_expression(&mut self, ast: &mut Ast, id: ExprId, operand: ExprId, op: UnaryOperatorKind)
        requires
            old(self).wf(),
            old(ast).wf(),
            id.idx < old(ast).expressions@.len(),
            operand.idx < id.idx,
            old(ast).expressions@[id.idx as int].kind matches ExprKind::Unary(u) && u.operand == operand,
        ensures
            visit_kept(*final(self), *old(self), *final(ast), *old(ast), id.idx + 1),
            expr_frame(final(self).scopes, old(self).scopes),
            final(ast).expressions@[id.idx as int].ty == Type::Int,
            state_of(*final(self), *final(ast)) == expr_resolution(*old(self), *old(ast), id.idx as int),
        decreases id.idx, 2nat,
    {
        let ghost ast0 = *ast;
        let ghost self0 = *self;
        self.visit_expr(ast, operand);
        let ghost self1 = *self;
        let ty = self.resolve_unary_expression(ast, operand, op);
        proof { lemma_prefix_trans(self0.diagnostics.diagnostics@, self1.diagnostics.diagnostics@, self.diagnostics.diagnostics@); }
        let ghost ast1 = *ast;
        ast.set_type(id, ty);
        proof {
            lemma_same_shape_trans(*ast, ast1, ast0);
            lemma_expr_span_same_shape(ast1, ast0, operand.idx as int);
            let s1 = state_of(self1, ast1);
            assert(state_of(*self, *ast) =~= with_type(reporting(s1, mismatch_reports(Type::Int, s1.exprs[operand.idx as int].ty,
                span_oracle(ast0)(operand.idx as int))), id.idx as int, Type::Int));
        }
    }

    /// Parentheses pass on the type of what they hold.
    fn visit_parenthesized_expression(&mut self, ast: &mut Ast, id: ExprId, inner: ExprId)
        requires
            old(self).wf(),
            old(ast).wf(),
            id.idx < old(ast).expressions@.len(),
            inner.idx < id.idx,
            old(ast).expressions@[id.idx as int].kind matches ExprKind::Parenthesized(p) && p.expression == inner,
        ensures
            visit_kept(*final(self), *old(self), *final(ast), *old(ast), id.idx + 1),
            expr_frame(final(self).scopes, old(self).scopes),
            final(ast).expressions@[id.idx as int].ty == final(ast).expressions@[inner.idx as int].ty,
            state_of(*final(self), *final(ast)) == expr_resolution(*old(self), *old(ast), id.idx as int),
        decreases id.idx, 2nat,
    {
        let ghost ast0 = *ast;
        self.visit_expr(ast, inner);
        let ty = ast.query_expr(inner).ty;
        let ghost ast1 = *ast;
        ast.set_type(id, ty);
        proof {
            lemma_same_shape_trans(*ast, ast1, ast0);
            assert(state_of(*self, *ast) =~= with_type(state_of(*self, ast1), id.idx as int, ty));
        }
    }

    /// A variable takes the type of the variable its name denotes and records
    /// it; an unknown name is reported.
    fn visit_variable_expression(&mut self, ast: &mut Ast, id: ExprId, identifier: &Token)
        requires
            old(self).wf(),
            old(ast).wf(),
            id.idx < old(ast).expressions@.len(),
            old(ast).expressions@[id.idx as int].kind is Variable,
        ensures
            visit_kept(*final(self), *old(self), *final(ast), *old(ast), id.idx + 1),
            final(self).scopes == old(self).scopes,
            match old(self).scopes.lookup(identifier.span.literal@) {
                Some(x) => final(ast).expressions@[id.idx as int].ty == old(self).scopes.global_scope.variables@[x.idx as int].var_type
                    && (final(ast).expressions@[id.idx as int].kind matches ExprKind::Variable(v2) && v2.variable_idx == x),
                None => final(ast).expressions@[id.idx as int] == old(ast).expressions@[id.idx as int],
            },
            report_models(final(self).diagnostics) == report_models(old(self).diagnostics)
                + undeclared_variable_reports(old(self).scopes, *identifier),
            old(ast).expressions@[id.idx as int].kind matches ExprKind::Variable(v) && v.identifier == *identifier
                ==> state_of(*final(self), *final(ast)) == expr_resolution(*old(self), *old(ast), id.idx as int),
    {
        let ghost ast0 = *ast;
        proof { lemma_state_lookup(*self, *ast, identifier.span.literal@); }
        match self.scopes.lookup_variable(&identifier.span.literal) {
            None => {
                let ghost d = self.diagnostics;
                self.diagnostics.report_undeclared_variable(identifier);
                assert(self.diagnostics.diagnostics@.drop_last() == d.diagnostics@);
                proof { lemma_report_models_push(d, self.diagnostics); }
                assert(report_models(self.diagnostics) =~= report_models(d)
                    + undeclared_variable_reports(old(self).scopes, *identifier));
                assert(state_of(*self, *ast) =~= reporting(state_of(*old(self), ast0),
                    crate::resolution::undeclared_variable_reports_in(state_of(*old(self), ast0), *identifier)));
            },
            Some(variable) => {
                let ty = self.scopes.global_scope.variables.get(variable).var_type;
                ast.set_type(id, ty);
                let ghost ast1 = *ast;
                ast.set_variable(id, variable);
                proof { lemma_same_shape_trans(*ast, ast1, ast0); }
                assert(report_models(self.diagnostics) =~= report_models(old(self).diagnostics)
                    + undeclared_variable_reports(old(self).scopes, *identifier));
                assert(state_of(*self, *ast) =~= with_variable(
                    with_type(state_of(*old(self), ast0), id.idx as int, ty), id.idx as int, variable));
            },
        }
    }

    /// An assignment: its value, which must fit the variable named; the
    /// assignment has the variable's type (`void` for an unknown name).
    fn visit_assignment_expression(&mut self, ast: &mut Ast, id: ExprId, identifier: &Token, inner: ExprId)
        requires
            old(self).wf(),
            old(ast).wf(),
            id.idx < old(ast).expressions@.len(),
            inner.idx < id.idx,
            old(ast).expressions@[id.idx as int].kind matches ExprKind::Assignment(a)
                && a.expression == inner && a.identifier == *identifier,
        ensures
            visit_kept(*final(self), *old(self), *final(ast), *old(ast), id.idx + 1),
            expr_frame(final(self).scopes, old(self).scopes),
            match old(self).scopes.lookup(identifier.span.literal@) {
                Some(x) => final(ast).expressions@[id.idx as int].ty == old(self).scopes.global_scope.variables@[x.idx as int].var_type
                    && (final(ast).expressions@[id.idx as int].kind matches ExprKind::Assignment(a2) && a2.variable_idx == x),
                None => final(ast).expressions@[id.idx as int].ty == Type::Void,
            },
            state_of(*final(self), *final(ast)) == expr_resolution(*old(self), *old(ast), id.idx as int),
        decreases id.idx, 2nat,
    {
        let ghost ast0 = *ast;
        let ghost self0 = *self;
        self.visit_expr(ast, inner);
        let ghost self1 = *self;
        let ghost ast_v = *ast;
        proof {
            lemma_lookup_stable(self0.scopes, self.scopes, identifier.span.literal@);
            lemma_state_lookup(*self, *ast, identifier.span.literal@);
            lemma_expr_span_same_shape(*ast, ast0, inner.idx as int);
        }
        let value_type = ast.query_expr(inner).ty;
        let value_span = ast.query_expr(inner).span(ast);
        match self.scopes.lookup_variable(&identifier.span.literal) {
            None => {
                self.diagnostics.report_undeclared_variable(identifier);
                assert(self.diagnostics.diagnostics@.drop_last() == self1.diagnostics.diagnostics@);
                proof {
                    lemma_prefix_trans(self0.diagnostics.diagnostics@, self1.diagnostics.diagnostics@, self.diagnostics.diagnostics@);
                    lemma_report_models_push(self1.diagnostics, self.diagnostics);
                }
                let ghost self2 = *self;
                let ghost ast1 = *ast;
                ast.set_type(id, Type::Void);
                proof {
                    lemma_same_shape_trans(*ast, ast1, ast0);
                    let s1 = state_of(self1, ast_v);
                    assert(state_of(self2, ast1) =~= reporting(s1, crate::resolution::undeclared_variable_reports_in(s1, *identifier)));
                    assert(state_of(*self, *ast) =~= with_type(state_of(self2, ast1), id.idx as int, Type::Void));
                }
            },
            Some(variable) => {
                let var_type = self.scopes.global_scope.variables.get(variable).var_type;
                self.expect_type(var_type, value_type, &value_span);
                proof { lemma_prefix_trans(self0.diagnostics.diagnostics@, self1.diagnostics.diagnostics@, self.diagnostics.diagnostics@); }
                let ghost self2 = *self;
                let ghost ast1 = *ast;
                ast.set_type(id, var_type);
                let ghost ast2 = *ast;
                ast.set_variable(id, variable);
                proof {
                    lemma_same_shape_trans(ast2, ast1, ast0);
                    lemma_same_shape_trans(*ast, ast2, ast0);
                    let s1 = state_of(self1, ast_v);
                    let s2 = reporting(s1, mismatch_reports(var_type, s1.exprs[inner.idx as int].ty, span_oracle(ast0)(inner.idx as int)));
                    assert(state_of(self2, ast1) =~= s2);
                    assert(state_of(self2, ast2) =~= with_type(s2, id.idx as int, var_type));
                    assert(state_of(*self, *ast) =~= with_variable(with_type(s2, id.idx as int, var_type), id.idx as int, variable));
                }
            },
        }
    }

    /// A call: the function must exist and take as many arguments as given;
    /// each argument is resolved and must fit its parameter. The call has the
    /// function's return type (`void` for an unknown function).
    fn visit_call_expression(&mut self, ast: &mut Ast, id: ExprId, identifier: &Token, arguments: &Vec<ExprId>)
        requires
            old(self).wf(),
            old(ast).wf(),
            id.idx < old(ast).expressions@.len(),
            forall|m: int| 0 <= m < arguments@.len() ==> (#[trigger] arguments@[m]).idx < id.idx,
            old(ast).expressions@[id.idx as int].kind matches ExprKind::Call(c)
                && c.identifier == *identifier && c.arguments@ == arguments@,
        ensures
            visit_kept(*final(self), *old(self), *final(ast), *old(ast), id.idx + 1),
            expr_frame(final(self).scopes, old(self).scopes),
            final(ast).expressions@[id.idx as int].ty == match first_function_named(old(self).scopes.global_scope.functions@, identifier.span.literal@) {
                Some(f) => old(self).scopes.global_scope.functions@[f].return_type,
                None => Type::Void,
            },
            state_of(*final(self), *final(ast)) == expr_resolution(*old(self), *old(ast), id.idx as int),
        decreases id.idx, 2nat,
    {
        let ghost i = id.idx as int;
        let ghost ast0 = *ast;
        let ghost self0 = *self;
        let ghost sp = span_oracle(ast0);
        let ghost fs = self0.scopes.global_scope.functions@;
        let function = self.scopes.lookup_function(&identifier.span.literal);
        proof { lemma_first_function_named_bounds(self.scopes.global_scope.functions@, identifier.span.literal@); }
        let ty = match function {
            None => {
                self.diagnostics.report_undeclared_function(identifier);
                assert(self.diagnostics.diagnostics@.drop_last() == self0.diagnostics.diagnostics@);
                proof {
                    lemma_report_models_push(self0.diagnostics, self.diagnostics);
                    assert(state_of(*self, *ast) =~= reporting(state_of(self0, ast0),
                        seq![crate::resolution::undeclared_function_report(*identifier)]));
                }
                Type::Void
            },
            Some(function) => {
                let n_params = self.scopes.global_scope.functions.get(function).parameters.len();
                let n_args = arguments.len();
                let ghost params = fs[function.idx as int].parameters@;
                if n_params != n_args {
                    self.diagnostics.report_invalid_argument_count(identifier, n_params, n_args);
                    assert(self.diagnostics.diagnostics@.drop_last() == self0.diagnostics.diagnostics@);
                    proof {
                        lemma_report_models_push(self0.diagnostics, self.diagnostics);
                        assert(state_of(*self, *ast) =~= reporting(state_of(self0, ast0),
                            seq![crate::resolution::argument_count_report(*identifier, params.len(), arguments@.len())]));
                    }
                }
                let ghost s_start = state_of(*self, *ast);
                let return_type = self.scopes.global_scope.functions.get(function).return_type;
                let ghost fname = identifier.span.literal@;
                assert(first_function_named(self0.scopes.global_scope.functions@, fname) == Some(function.idx as int));
                let mut j: usize = 0;
                while j < n_params && j < n_args
                    invariant
                        sp == span_oracle(ast0),
                        fs == self0.scopes.global_scope.functions@,
                        params == fs[function.idx as int].parameters@,
                        crate::resolution::resolve_args(sp, fs, state_of(*self, *ast), i, arguments@, params, j as int)
                            == crate::resolution::resolve_args(sp, fs, s_start, i, arguments@, params, 0),
                        visit_kept(*self, self0, *ast, ast0, i),
                        expr_frame(self.scopes, self0.scopes),
                        function.idx < self.scopes.global_scope.functions@.len(),
                        n_params == self.scopes.global_scope.functions@[function.idx as int].parameters@.len(),
                        n_args == arguments@.len(),
                        forall|m: int| 0 <= m < arguments@.len() ==> (#[trigger] arguments@[m]).idx < i,
                        i == id.idx,
                        0 <= i < ast0.expressions@.len(),
                        return_type == self0.scopes.global_scope.functions@[function.idx as int].return_type,
                        first_function_named(self0.scopes.global_scope.functions@, fname) == Some(function.idx as int),
                        fname == identifier.span.literal@,
                    decreases n_args - j,
                {
                    let argument = arguments[j];
                    let ghost self1 = *self;
                    let ghost ast1 = *ast;
                    let ghost st_j = state_of(self1, ast1);
                    proof { lemma_span_oracle_same_shape(ast1, ast0); }
                    self.visit_expr(ast, argument);
                    proof {
                        lemma_same_shape_trans(*ast, ast1, ast0);
                        lemma_frame_trans(self.scopes, self1.scopes, self0.scopes);
                        lemma_expr_span_same_shape(*ast, ast0, argument.idx as int);
                    }
                    let ghost ast2 = *ast;
                    let param = self.scopes.global_scope.functions.get(function).parameters[j];
                    let param_type = self.scopes.global_scope.variables.get(param).var_type;
                    let arg_type = ast.query_expr(argument).ty;
                    let arg_span = ast.query_expr(argument).span(ast);
                    let ghost self2 = *self;
                    self.expect_type(param_type, arg_type, &arg_span);
                    proof {
                        lemma_prefix_trans(self0.diagnostics.diagnostics@, self1.diagnostics.diagnostics@, self2.diagnostics.diagnostics@);
                        lemma_prefix_trans(self0.diagnostics.diagnostics@, self2.diagnostics.diagnostics@, self.diagnostics.diagnostics@);
                        let s1 = state_of(self2, ast2);
                        let a = argument.idx as int;
                        assert(s1 == resolve_expr(sp, fs, st_j, a));
                        assert(state_of(*self, *ast) =~= reporting(s1, mismatch_reports(s1.vars[params[j as int].idx as int].var_type,
                            s1.exprs[a].ty, sp(a))));
                    }
                    j = j + 1;
                }
                return_type
            },
        };
        let ghost self3 = *self;
        let ghost ast1 = *ast;
        ast.set_type(id, ty);
        proof {
            lemma_same_shape_trans(*ast, ast1, ast0);
            assert(state_of(*self, *ast) =~= with_type(state_of(self3, ast1), i, ty));
        }
    }

    /// Resolves the body of the function named `identifier` in a scope of its
    /// own that holds its parameters.
    pub fn visit_func_decl_statement(&mut self, ast: &mut Ast, identifier: &Token, body: StmtId)
        requires
            old(self).wf(),
            old(ast).wf(),
            body.idx < old(ast).statements@.len(),
            first_function_named(old(self).scopes.global_scope.functions@, identifier.span.literal@) is Some,
        ensures
            visit_kept(*final(self), *old(self), *final(ast), *old(ast), old(ast).expressions@.len() as int),
            item_frame(final(self).scopes, old(self).scopes),
            state_of(*final(self), *final(ast)) == crate::resolution::resolve_function(span_oracle(*old(ast)),
                old(self).scopes.global_scope.functions@, state_of(*old(self), *old(ast)), identifier.span.literal@, body),
    {
        let ghost self0 = *self;
        let ghost ast0 = *ast;
        let ghost st0 = state_of(self0, ast0);
        let function_id = match self.scopes.lookup_function(&identifier.span.literal) {
            Some(f) => f,
            None => {
                proof { lemma_same_shape_refl(*ast); }
                return;
            },
        };
        self.scopes.enter_function_scope(function_id);
        let n = self.scopes.global_scope.functions.get(function_id).parameters.len();
        let ghost params = self0.scopes.global_scope.functions@[function_id.idx as int].parameters@;
        assert(self.scopes.local_scopes_vec@.last().locals@ =~= params.subrange(0, 0));
        let mut k: usize = 0;
        while k < n
            invariant
                params == self0.scopes.global_scope.functions@[function_id.idx as int].parameters@,
                self.scopes.local_scopes_vec@.last().locals@ == params.subrange(0, k as int),
                *ast == ast0,
                k <= n,
                self.wf(),
                function_id.idx < self.scopes.global_scope.functions@.len(),
                n == self.scopes.global_scope.functions@[function_id.idx as int].parameters@.len(),
                self.scopes.global_scope == self0.scopes.global_scope,
                self.scopes.surrounding_function == Some(function_id),
                self.scopes.local_scopes_vec@.len() == self0.scopes.local_scopes_vec@.len() + 1,
                self.scopes.local_scopes_vec@.drop_last() == self0.scopes.local_scopes_vec@,
                self.diagnostics == self0.diagnostics,
            decreases n - k,
        {
            let parameter = self.scopes.global_scope.functions.get(function_id).parameters[k];
            let ghost before = self.scopes.local_scopes_vec@;
            self.scopes.current_local_scope_mut().add_local(parameter);
            proof {
                let after = self.scopes.local_scopes_vec@;
                assert(after.last().locals@ =~= params.subrange(0, k + 1));
                assert(after.drop_last() =~= before.drop_last());
                assert forall|i: int, m: int| 0 <= i < after.len() && 0 <= m < after[i].locals@.len()
                    implies (#[trigger] after[i].locals@[m]).idx < self.scopes.global_scope.variables@.len() by {
                    if i < after.len() - 1 {
                        assert(after[i] == before[i]);
                    } else if m < before[i].locals@.len() {
                        assert(after[i].locals@[m] == before[i].locals@[m]);
                    }
                }
            }
            k = k + 1;
        }
        let ghost s_in = self.scopes;
        proof {
            let vec = self.scopes.local_scopes_vec@;
            assert(vec =~= self0.scopes.local_scopes_vec@.push(vec.last()));
            lemma_locals_model_push(self0.scopes.local_scopes_vec@, vec.last());
            assert(vec.last().locals@ =~= params);
            assert(state_of(*self, *ast) =~= crate::resolution::ResolveState {
                surrounding: Some(FunctionIndex { idx: function_id.idx }),
                locals: st0.locals.push(params),
                ..st0
            });
        }
        self.visit_stmt(ast, body, Ghost(ast.expressions@.len() as int));
        let ghost s2 = state_of(*self, *ast);
        let ghost before_exit = self.scopes.local_scopes_vec@;
        self.scopes.exit_function_scope();
        proof {
            assert(self.scopes.local_scopes_vec@ =~= self0.scopes.local_scopes_vec@);
            lemma_prefix_trans(self0.scopes.global_scope.variables@, s_in.global_scope.variables@, self.scopes.global_scope.variables@);
            lemma_locals_model_drop_last(before_exit);
            assert(state_of(*self, *ast) =~= crate::resolution::ResolveState { surrounding: None, ..crate::resolution::exiting(s2) });
        }
    }

    /// Resolves one item: a function's body, or a statement at the top level.
    pub fn visit_item(&mut self, ast: &mut Ast, item_id: ItemId)
        requires
            old(self).wf(),
            old(ast).wf(),
            item_id.idx < old(ast).items@.len(),
            declared_name(old(ast).items@[item_id.idx as int].kind) matches Some(n)
                ==> first_function_named(old(self).scopes.global_scope.functions@, n) is Some,
            old(self).scopes.local_scopes_vec@.len() == 0,
        ensures
            visit_kept(*final(self), *old(self), *final(ast), *old(ast), old(ast).expressions@.len() as int),
            final(self).scopes.local_scopes_vec@.len() == 0,
            final(self).scopes.global_scope.functions@ == old(self).scopes.global_scope.functions@,
            old(self).scopes.global_scope.variables@.is_prefix_of(final(self).scopes.global_scope.variables@),
            state_of(*final(self), *final(ast)) == crate::resolution::resolve_item(span_oracle(*old(ast)),
                old(self).scopes.global_scope.functions@, state_of(*old(self), *old(ast)), old(ast).items@[item_id.idx as int]),
    {
        match &ast.query_item(item_id).kind {
            ItemKind::Func(f) => {
                let identifier = f.identifier.clone();
                let body = f.body;
                self.visit_func_decl_statement(ast, &identifier, body);
            },
            ItemKind::Stmt(s) => {
                let s = *s;
                self.visit_stmt(ast, s, Ghost(ast.expressions@.len() as int));
            },
        }
    }

    /// Resolves every item in order.
    pub fn resolve(&mut self, ast: &mut Ast)
        requires
            old(self).wf(),
            old(ast).wf(),
            forall|i: int| 0 <= i < old(ast).items@.len() ==> (declared_name(#[trigger] old(ast).items@[i].kind) matches Some(n)
                ==> first_function_named(old(self).scopes.global_scope.functions@, n) is Some),
            old(self).scopes.local_scopes_vec@.len() == 0,
        ensures
            visit_kept(*final(self), *old(self), *final(ast), *old(ast), old(ast).expressions@.len() as int),
            final(self).scopes.local_scopes_vec@.len() == 0,
            final(self).scopes.global_scope.functions@ == old(self).scopes.global_scope.functions@,
            old(self).scopes.global_scope.variables@.is_prefix_of(final(self).scopes.global_scope.variables@),
            state_of(*final(self), *final(ast)) == crate::resolution::resolve_items(span_oracle(*old(ast)),
                old(self).scopes.global_scope.functions@, state_of(*old(self), *old(ast)), old(ast).items@, 0),
    {
        let ghost ast0 = *ast;
        let ghost self0 = *self;
        let ghost sp = span_oracle(ast0);
        let ghost fs = self0.scopes.global_scope.functions@;
        let ghost st0 = state_of(self0, ast0);
        proof {
            lemma_same_shape_refl(*ast);
            lemma_expr_frame_refl(self.scopes);
            assert(self.diagnostics.diagnostics@ =~= self.diagnostics.diagnostics@.subrange(0, self.diagnostics.diagnostics@.len() as int));
        }
        let n = ast.items.len();
        let mut i: usize = 0;
        while i < n
            invariant
                sp == span_oracle(ast0),
                fs == self0.scopes.global_scope.functions@,
                crate::resolution::resolve_items(sp, fs, state_of(*self, *ast), ast0.items@, i as int)
                    == crate::resolution::resolve_items(sp, fs, st0, ast0.items@, 0),
                i <= n,
                n == ast0.items@.len(),
                visit_kept(*self, self0, *ast, ast0, ast0.expressions@.len() as int),
                self.scopes.local_scopes_vec@.len() == 0,
                self.scopes.global_scope.functions@ == self0.scopes.global_scope.functions@,
                self0.scopes.global_scope.variables@.is_prefix_of(self.scopes.global_scope.variables@),
                forall|j: int| 0 <= j < ast0.items@.len() ==> (declared_name(#[trigger] ast0.items@[j].kind) matches Some(nm)
                    ==> first_function_named(self0.scopes.global_scope.functions@, nm) is Some),
            decreases n - i,
        {
            let ghost ast1 = *ast;
            let ghost self1 = *self;
            assert(ast.items@[i as int] == ast0.items@[i as int]);
            proof { lemma_span_oracle_same_shape(ast1, ast0); }
            self.visit_item(ast, ItemId { idx: i });
            proof {
                lemma_same_shape_trans(*ast, ast1, ast0);
                lemma_prefix_trans(self0.diagnostics.diagnostics@, self1.diagnostics.diagnostics@, self.diagnostics.diagnostics@);
                lemma_prefix_trans(self0.scopes.global_scope.variables@, self1.scopes.global_scope.variables@, self.scopes.global_scope.variables@);
            }
            i = i + 1;
        }
    }

    /// Resolves an `if`: condition and then-branch in a scope of their own, the
    /// else-branch in another; the condition must be `bool`.
    #[verifier::spinoff_prover]
    #[verifier::rlimit(60)]
    fn visit_if_expr(&mut self, ast: &mut Ast, condition: ExprId, then_branch: ExprId, else_expr: Option<ExprId>, Ghost(bound): Ghost<int>)
        requires
            old(self).wf(),
            old(ast).wf(),
            0 <= bound < old(ast).expressions@.len(),
            condition.idx < bound,
            then_branch.idx < bound,
            else_expr matches Some(x) ==> x.idx < bound,
        ensures
            final(self).wf(),
            final(ast).wf(),
            same_shape(*final(ast), *old(ast)),
            expr_frame(final(self).scopes, old(self).scopes),
            reports_extend(old(self).diagnostics, final(self).diagnostics),
            untouched_from(*final(ast), *old(ast), bound),
            state_of(*final(self), *final(ast)) == crate::resolution::resolve_if(span_oracle(*old(ast)),
                old(self).scopes.global_scope.functions@, state_of(*old(self), *old(ast)), bound, condition, then_branch, else_expr),
        decreases bound, 2nat,
    {
        let ghost ast0 = *ast;
        let ghost self0 = *self;
        let ghost sp = span_oracle(ast0);
        let ghost fs = self0.scopes.global_scope.functions@;
        let ghost st0 = state_of(self0, ast0);
        self.scopes.enter_scope();
        let ghost s_in = self.scopes;
        proof {
            lemma_locals_model_push(self0.scopes.local_scopes_vec@, self.scopes.local_scopes_vec@.last());
            assert(self.scopes.local_scopes_vec@.last().locals@ =~= Seq::<VariableIndex>::empty());
            assert(state_of(*self, *ast) =~= crate::resolution::entering(st0));
        }
        self.visit_expr(ast, condition);
        proof { lemma_expr_span_same_shape(*ast, ast0, condition.idx as int); }
        let cond_type = ast.query_expr(condition).ty;
        let cond_span = ast.query_expr(condition).span(ast);
        let ghost self1 = *self;
        let ghost s2 = state_of(self1, *ast);
        self.expect_type(Type::Bool, cond_type, &cond_span);
        let ghost ast1 = *ast;
        let ghost self2 = *self;
        assert(state_of(self2, ast1) =~= reporting(s2, mismatch_reports(Type::Bool, s2.exprs[condition.idx as int].ty, sp(condition.idx as int))));
        proof { lemma_span_oracle_same_shape(ast1, ast0); }
        self.visit_expr(ast, then_branch);
        proof {
            lemma_same_shape_trans(*ast, ast1, ast0);
            lemma_frame_trans(self.scopes, self2.scopes, s_in);
            lemma_prefix_trans(self0.diagnostics.diagnostics@, self1.diagnostics.diagnostics@, self2.diagnostics.diagnostics@);
            lemma_prefix_trans(self0.diagnostics.diagnostics@, self2.diagnostics.diagnostics@, self.diagnostics.diagnostics@);
        }
        let ghost s4 = state_of(*self, *ast);
        let ghost before_exit = self.scopes.local_scopes_vec@;
        self.scopes.exit_scope();
        assert(self.scopes.local_scopes_vec@ =~= self0.scopes.local_scopes_vec@);
        proof {
            lemma_locals_model_drop_last(before_exit);
            assert(state_of(*self, *ast) =~= crate::resolution::exiting(s4));
        }
        if let Some(else_expr) = else_expr {
            let ghost self3 = *self;
            let ghost ast3 = *ast;
            let ghost s5 = state_of(self3, ast3);
            self.scopes.enter_scope();
            proof {
                lemma_locals_model_push(self3.scopes.local_scopes_vec@, self.scopes.local_scopes_vec@.last());
                assert(self.scopes.local_scopes_vec@.last().locals@ =~= Seq::<VariableIndex>::empty());
                assert(state_of(*self, *ast) =~= crate::resolution::entering(s5));
            }
            proof { lemma_span_oracle_same_shape(ast3, ast0); }
            self.visit_expr(ast, else_expr);
            let ghost s6 = state_of(*self, *ast);
            let ghost before_exit2 = self.scopes.local_scopes_vec@;
            self.scopes.exit_scope();
            assert(self.scopes.local_scopes_vec@ =~= self0.scopes.local_scopes_vec@);
            proof {
                lemma_locals_model_drop_last(before_exit2);
                assert(state_of(*self, *ast) =~= crate::resolution::exiting(s6));
            }
            proof {
                lemma_same_shape_trans(*ast, ast3, ast0);
                lemma_prefix_trans(self0.diagnostics.diagnostics@, self3.diagnostics.diagnostics@, self.diagnostics.diagnostics@);
                lemma_prefix_trans(self0.scopes.global_scope.variables@, self3.scopes.global_scope.variables@, self.scopes.global_scope.variables@);
            }
        }
    }

    /// Resolves the statements of a block in a scope of their own.
    fn visit_block_expr(&mut self, ast: &mut Ast, stmts: &Vec<StmtId>, Ghost(bound): Ghost<int>)
        requires
            old(self).wf(),
            old(ast).wf(),
            0 <= bound < old(ast).expressions@.len(),
            forall|k: int| 0 <= k < stmts@.len() ==> (#[trigger] stmts@[k]).idx < old(ast).statements@.len()
                && stmt_below(old(ast).statements@[stmts@[k].idx as int].kind, bound as nat),
        ensures
            final(self).wf(),
            final(ast).wf(),
            same_shape(*final(ast), *old(ast)),
            expr_frame(final(self).scopes, old(self).scopes),
            reports_extend(old(self).diagnostics, final(self).diagnostics),
            untouched_from(*final(ast), *old(ast), bound),
            state_of(*final(self), *final(ast)) == crate::resolution::exiting(crate::resolution::resolve_stmts(span_oracle(*old(ast)),
                old(self).scopes.global_scope.functions@, crate::resolution::entering(state_of(*old(self), *old(ast))), bound, stmts@, 0)),
        decreases bound, 2nat,
    {
        let ghost ast0 = *ast;
        let ghost self0 = *self;
        let ghost sp = span_oracle(ast0);
        let ghost fs = self0.scopes.global_scope.functions@;
        let ghost st0 = state_of(self0, ast0);
        self.scopes.enter_scope();
        let ghost s_in = self.scopes;
        proof {
            lemma_locals_model_push(self0.scopes.local_scopes_vec@, self.scopes.local_scopes_vec@.last());
            assert(self.scopes.local_scopes_vec@.last().locals@ =~= Seq::<VariableIndex>::empty());
            assert(state_of(*self, *ast) =~= crate::resolution::entering(st0));
        }
        let ghost s_start = state_of(*self, *ast);
        let mut k: usize = 0;
        while k < stmts.len()
            invariant
                sp == span_oracle(ast0),
                fs == self0.scopes.global_scope.functions@,
                crate::resolution::resolve_stmts(sp, fs, state_of(*self, *ast), bound, stmts@, k as int)
                    == crate::resolution::resolve_stmts(sp, fs, s_start, bound, stmts@, 0),
                k <= stmts@.len(),
                self.wf(),
                ast.wf(),
                same_shape(*ast, ast0),
                0 <= bound < ast.expressions@.len(),
                forall|m: int| 0 <= m < stmts@.len() ==> (#[trigger] stmts@[m]).idx < ast0.statements@.len()
                    && stmt_below(ast0.statements@[stmts@[m].idx as int].kind, bound as nat),
                stmt_frame(self.scopes, s_in),
                s_in.local_scopes_vec@.len() > 0,
                s_in.local_scopes_vec@.drop_last() == self0.scopes.local_scopes_vec@,
                reports_extend(self0.diagnostics, self.diagnostics),
                untouched_from(*ast, ast0, bound),
                s_in.global_scope == self0.scopes.global_scope,
                s_in.surrounding_function == self0.scopes.surrounding_function,
            decreases stmts@.len() - k,
        {
            let sid = stmts[k];
            let ghost ast1 = *ast;
            let ghost self1 = *self;
            proof {
                lemma_erase_keeps_stmt_children(ast.statements@[sid.idx as int].kind, ast0.statements@[sid.idx as int].kind);
            }
            proof { lemma_span_oracle_same_shape(ast1, ast0); }
            self.visit_stmt(ast, sid, Ghost(bound));
            proof {
                lemma_same_shape_trans(*ast, ast1, ast0);
                lemma_stmt_frame_trans(self.scopes, self1.scopes, s_in);
                lemma_prefix_trans(self0.diagnostics.diagnostics@, self1.diagnostics.diagnostics@, self.diagnostics.diagnostics@);
            }
            k = k + 1;
        }
        let ghost s_end = state_of(*self, *ast);
        let ghost before_exit = self.scopes.local_scopes_vec@;
        self.scopes.exit_scope();
        proof {
            assert(self.scopes.local_scopes_vec@ =~= self0.scopes.local_scopes_vec@);
            lemma_locals_model_drop_last(before_exit);
            assert(state_of(*self, *ast) =~= crate::resolution::exiting(s_end));
        }
    }

    /// Resolves the statement `sid`, whose expressions lie below `bound`.
    #[verifier::spinoff_prover]
    #[verifier::rlimit(60)]
    pub fn visit_stmt(&mut self, ast: &mut Ast, sid: StmtId, Ghost(bound): Ghost<int>)
        requires
            old(self).wf(),
            old(ast).wf(),
            0 <= bound <= old(ast).expressions@.len(),
            sid.idx < old(ast).statements@.len(),
            stmt_below(old(ast).statements@[sid.idx as int].kind, bound as nat),
        ensures
            final(self).wf(),
            final(ast).wf(),
            same_shape(*final(ast), *old(ast)),
            stmt_frame(final(self).scopes, old(self).scopes),
            reports_extend(old(self).diagnostics, final(self).diagnostics),
            untouched_from(*final(ast), *old(ast), bound),
            state_of(*final(self), *final(ast)) == crate::resolution::resolve_stmt(span_oracle(*old(ast)),
                old(self).scopes.global_scope.functions@, state_of(*old(self), *old(ast)), sid.idx as int, bound),
        decreases bound, 1nat,
    {
        let ghost ast0 = *ast;
        let ghost self0 = *self;
        let ghost sp = span_oracle(ast0);
        let ghost fs = self0.scopes.global_scope.functions@;
        let ghost st0 = state_of(self0, ast0);
        let ghost k0 = ast.statements@[sid.idx as int].kind;
        match &ast.query_stmt(sid).kind {
            StmtKind::Expr(e) => {
                let e = *e;
                assert(stmt_children(k0)[0] == e);
                self.visit_expr(ast, e);
                proof { lemma_expr_frame_is_stmt_frame(self.scopes, self0.scopes); }
            },
            StmtKind::Let(_) => {
                self.visit_let_statement(ast, sid, Ghost(bound));
            },
            StmtKind::While(w) => {
                let condition = w.condition;
                let body = w.body;
                assert(stmt_children(k0)[0] == condition);
                assert(stmt_children(k0)[1] == body);
                self.visit_expr(ast, condition);
                proof { lemma_expr_span_same_shape(*ast, ast0, condition.idx as int); }
                let cond_type = ast.query_expr(condition).ty;
                let cond_span = ast.query_expr(condition).span(ast);
                let ghost self1 = *self;
                let ghost st1 = state_of(self1, *ast);
                self.expect_type(Type::Bool, cond_type, &cond_span);
                let ghost self2 = *self;
                let ghost ast1 = *ast;
                assert(state_of(self2, ast1) =~= reporting(st1, mismatch_reports(Type::Bool, st1.exprs[condition.idx as int].ty, sp(condition.idx as int))));
                proof { lemma_span_oracle_same_shape(ast1, ast0); }
                self.visit_expr(ast, body);
                proof {
                    lemma_same_shape_trans(*ast, ast1, ast0);
                    lemma_frame_trans(self.scopes, self2.scopes, self0.scopes);
                    lemma_expr_frame_is_stmt_frame(self.scopes, self0.scopes);
                    lemma_prefix_trans(self0.diagnostics.diagnostics@, self1.diagnostics.diagnostics@, self2.diagnostics.diagnostics@);
                    lemma_prefix_trans(self0.diagnostics.diagnostics@, self2.diagnostics.diagnostics@, self.diagnostics.diagnostics@);
                }
            },
            StmtKind::Return(r) => {
                let return_keyword = r.return_keyword.clone();
                let value = r.return_value;
                if let Some(v) = value {
                    assert(stmt_children(k0)[0] == v);
                }
                self.visit_return_statement(ast, &return_keyword, value, Ghost(bound));
            },
        }
    }

    /// Resolves a `let`: its initializer, which must fit the annotated type
    /// if there is one; then the variable is declared with that type (or the
    /// initializer's) and recorded in the statement.
    #[verifier::spinoff_prover]
    #[verifier::rlimit(60)]
    fn visit_let_statement(&mut self, ast: &mut Ast, sid: StmtId, Ghost(bound): Ghost<int>)
        requires
            old(self).wf(),
            old(ast).wf(),
            0 <= bound <= old(ast).expressions@.len(),
            sid.idx < old(ast).statements@.len(),
            stmt_below(old(ast).statements@[sid.idx as int].kind, bound as nat),
            old(ast).statements@[sid.idx as int].kind is Let,
        ensures
            final(self).wf(),
            final(ast).wf(),
            same_shape(*final(ast), *old(ast)),
            stmt_frame(final(self).scopes, old(self).scopes),
            reports_extend(old(self).diagnostics, final(self).diagnostics),
            untouched_from(*final(ast), *old(ast), bound),
            state_of(*final(self), *final(ast)) == crate::resolution::resolve_stmt(span_oracle(*old(ast)),
                old(self).scopes.global_scope.functions@, state_of(*old(self), *old(ast)), sid.idx as int, bound),
        decreases bound, 0nat,
    {
        let ghost ast0 = *ast;
        let ghost self0 = *self;
        let ghost sp = span_oracle(ast0);
        let ghost fs = self0.scopes.global_scope.functions@;
        let ghost st0 = state_of(self0, ast0);
        let ghost k0 = ast.statements@[sid.idx as int].kind;
        let (identifier, initializer, annotation) = match &ast.query_stmt(sid).kind {
            StmtKind::Let(l) => (
                l.identifier.clone(),
                l.initializer,
                match &l.type_annotation {
                    Some(t) => Some(t.type_ident.clone()),
                    None => None,
                },
            ),
            _ => {
                assert(false);
                return;
            },
        };
        assert(stmt_children(k0)[0] == initializer);
        self.visit_expr(ast, initializer);
        proof { lemma_expr_span_same_shape(*ast, ast0, initializer.idx as int); }
        let init_type = ast.query_expr(initializer).ty;
        let init_span = ast.query_expr(initializer).span(ast);
        let ghost self1 = *self;
        let ghost st1 = state_of(self1, *ast);
        let ty = match &annotation {
            Some(type_ident) => {
                let ghost d = self.diagnostics;
                let ty = resolve_type_from_string(&mut self.diagnostics, type_ident);
                assert(reports_extend(d, self.diagnostics)) by {
                    if self.diagnostics.diagnostics@.len() > d.diagnostics@.len() {
                        assert(self.diagnostics.diagnostics@.drop_last() == d.diagnostics@);
                    }
                }
                let ghost self2 = *self;
                self.expect_type(ty, init_type, &init_span);
                proof { lemma_prefix_trans(d.diagnostics@, self2.diagnostics.diagnostics@, self.diagnostics.diagnostics@); }
                assert(state_of(*self, *ast) =~= reporting(st1, type_reports(*type_ident)
                    + mismatch_reports(ty, init_type, sp(initializer.idx as int))));
                ty
            },
            None => init_type,
        };
        proof { lemma_prefix_trans(self0.diagnostics.diagnostics@, self1.diagnostics.diagnostics@, self.diagnostics.diagnostics@); }
        let ghost s1 = self.scopes;
        let ghost st2 = state_of(*self, *ast);
        let new_idx = VariableIndex { idx: self.scopes.global_scope.variables.len() };
        self.scopes.declare_variable(&identifier.span.literal, ty);
        assert(self.scopes.global_scope.variables@.drop_last() =~= s1.global_scope.variables@);
        proof { lemma_declare_frame(self.scopes, s1, self0.scopes); }
        proof {
            let st3 = crate::resolution::declaring(st2, identifier.span.literal, ty);
            assert(self.scopes.global_scope.variables@ =~= st3.vars);
            if s1.local_scopes_vec@.len() > 0 {
                lemma_locals_model_last(s1.local_scopes_vec@, self.scopes.local_scopes_vec@);
            } else {
                assert(self.scopes.local_scopes_vec@ =~= s1.local_scopes_vec@);
            }
            assert(state_of(*self, *ast) =~= st3);
        }
        let ghost self4 = *self;
        let ghost ast1 = *ast;
        assert(ast.statements@[sid.idx as int].kind is Let) by {
            assert(erase_stmt_kind_is_let(ast.statements@[sid.idx as int].kind, k0));
        }
        ast.set_variable_for_stmt(sid, new_idx);
        proof {
            lemma_same_shape_trans(*ast, ast1, ast0);
            assert(state_of(*self, *ast) =~= crate::resolution::with_let_variable(state_of(self4, ast1), sid.idx as int, new_idx));
        }
    }

    /// Resolves `return`: outside a function it is reported; inside, the value
    /// (or `void` without one) must fit the function's return type.
    fn visit_return_statement(&mut self, ast: &mut Ast, return_keyword: &Token, value: Option<ExprId>, Ghost(bound): Ghost<int>)
        requires
            old(self).wf(),
            old(ast).wf(),
            0 <= bound <= old(ast).expressions@.len(),
            value matches Some(v) ==> v.idx < bound,
        ensures
            final(self).wf(),
            final(ast).wf(),
            same_shape(*final(ast), *old(ast)),
            stmt_frame(final(self).scopes, old(self).scopes),
            reports_extend(old(self).diagnostics, final(self).diagnostics),
            untouched_from(*final(ast), *old(ast), bound),
            state_of(*final(self), *final(ast)) == crate::resolution::resolve_return(span_oracle(*old(ast)),
                old(self).scopes.global_scope.functions@, state_of(*old(self), *old(ast)), *return_keyword, value, bound),
        decreases bound, 0nat,
    {
        let ghost self0 = *self;
        let ghost ast0 = *ast;
        let ghost st0 = state_of(self0, ast0);
        let surrounding = match self.scopes.surrounding_function() {
            Some(f) => Some(f.return_type),
            None => None,
        };
        match surrounding {
            None => {
                self.diagnostics.report_cannot_return_outside_function(return_keyword);
                assert(self.diagnostics.diagnostics@.drop_last() == self0.diagnostics.diagnostics@);
                proof {
                    lemma_expr_frame_is_stmt_frame(self.scopes, self0.scopes);
                    lemma_report_models_push(self0.diagnostics, self.diagnostics);
                    assert(state_of(*self, *ast) =~= reporting(st0, seq![crate::resolution::return_outside_report(*return_keyword)]));
                }
            },
            Some(return_type) => {
                if let Some(return_expression) = value {
                    self.visit_expr(ast, return_expression);
                    proof { lemma_expr_span_same_shape(*ast, ast0, return_expression.idx as int); }
                    let ty = ast.query_expr(return_expression).ty;
                    let span = ast.query_expr(return_expression).span(ast);
                    let ghost self1 = *self;
                    let ghost st1 = state_of(self1, *ast);
                    self.expect_type(return_type, ty, &span);
                    proof {
                        lemma_prefix_trans(self0.diagnostics.diagnostics@, self1.diagnostics.diagnostics@, self.diagnostics.diagnostics@);
                        lemma_expr_frame_is_stmt_frame(self.scopes, self0.scopes);
                        assert(state_of(*self, *ast) =~= reporting(st1, mismatch_reports(return_type, ty,
                            span_oracle(ast0)(return_expression.idx as int))));
                    }
                } else {
                    self.expect_type(Type::Void, return_type, &return_keyword.span);
                    proof {
                        lemma_expr_frame_is_stmt_frame(self.scopes, self0.scopes);
                        assert(state_of(*self, *ast) =~= reporting(st0, mismatch_reports(Type::Void, return_type, return_keyword.span.model())));
                    }
                }
            },
        }
    }
}

/// A node that clears to a `let` is a `let`.
pub open spec fn erase_stmt_kind_is_let(a: StmtKind, b: StmtKind) -> bool {
    (crate::ast::erase_stmt_variables(a) == crate::ast::erase_stmt_variables(b) && b is Let) ==> a is Let
}

proof fn lemma_expr_frame_refl(s: Scopes)
    ensures
        expr_frame(s, s),
{
    assert(s.global_scope.variables@ =~= s.global_scope.variables@.subrange(0, s.global_scope.variables@.len() as int));
}

proof fn lemma_frame_trans(c: Scopes, b: Scopes, a: Scopes)
    requires
        expr_frame(c, b),
        expr_frame(b, a),
    ensures
        expr_frame(c, a),
{
    lemma_prefix_trans(a.global_scope.variables@, b.global_scope.variables@, c.global_scope.variables@);
}

proof fn lemma_stmt_frame_trans(c: Scopes, b: Scopes, a: Scopes)
    requires
        stmt_frame(c, b),
        stmt_frame(b, a),
    ensures
        stmt_frame(c, a),
{
    lemma_prefix_trans(a.global_scope.variables@, b.global_scope.variables@, c.global_scope.variables@);
    lemma_prefix_trans(a.global_scope.global_variables@, b.global_scope.global_variables@, c.global_scope.global_variables@);
    if c.local_scopes_vec@.len() > 0 {
        lemma_prefix_trans(a.local_scopes_vec@.last().locals@, b.local_scopes_vec@.last().locals@, c.local_scopes_vec@.last().locals@);
    }
}

proof fn lemma_expr_frame_is_stmt_frame(c: Scopes, a: Scopes)
    requires
        expr_frame(c, a),
    ensures
        stmt_frame(c, a),
{
    assert(a.global_scope.global_variables@.is_prefix_of(c.global_scope.global_variables@)) by {
        assert(a.global_scope.global_variables@ =~= c.global_scope.global_variables@.subrange(0, a.global_scope.global_variables@.len() as int));
    }
    if c.local_scopes_vec@.len() > 0 {
        assert(a.local_scopes_vec@.last().locals@ =~= c.local_scopes_vec@.last().locals@.subrange(0, a.local_scopes_vec@.last().locals@.len() as int));
    }
}

/// A declaration after some expressions frames like a statement.
proof fn lemma_declare_frame(c: Scopes, b: Scopes, a: Scopes)
    requires
        expr_frame(b, a),
        c.surrounding_function == b.surrounding_function,
        c.global_scope.variables@.len() == b.global_scope.variables@.len() + 1,
        c.global_scope.variables@.drop_last() == b.global_scope.variables@,
        c.global_scope.functions@ == b.global_scope.functions@,
        c.local_scopes_vec@.len() == b.local_scopes_vec@.len(),
        b.local_scopes_vec@.len() > 0 ==> {
            &&& c.local_scopes_vec@.last().locals@ == b.local_scopes_vec@.last().locals@.push(VariableIndex { idx: b.global_scope.variables@.len() as usize })
            &&& c.local_scopes_vec@.drop_last() == b.local_scopes_vec@.drop_last()
            &&& c.global_scope.global_variables@ == b.global_scope.global_variables@
        },
        b.local_scopes_vec@.len() == 0 ==> c.global_scope.global_variables@ == b.global_scope.global_variables@.push(VariableIndex { idx: b.global_scope.variables@.len() as usize }),
    ensures
        stmt_frame(c, a),
{
    lemma_expr_frame_is_stmt_frame(b, a);
    assert(b.global_scope.variables@.is_prefix_of(c.global_scope.variables@)) by {
        assert(b.global_scope.variables@ =~= c.global_scope.variables@.subrange(0, b.global_scope.variables@.len() as int));
    }
    if b.local_scopes_vec@.len() > 0 {
        let bl = b.local_scopes_vec@.last().locals@;
        assert(bl.is_prefix_of(c.local_scopes_vec@.last().locals@)) by {
            assert(bl =~= c.local_scopes_vec@.last().locals@.subrange(0, bl.len() as int));
        }
        assert(b.global_scope.global_variables@.is_prefix_of(c.global_scope.global_variables@)) by {
            assert(b.global_scope.global_variables@ =~= c.global_scope.global_variables@.subrange(0, b.global_scope.global_variables@.len() as int));
        }
    } else {
        let bg = b.global_scope.global_variables@;
        assert(bg.is_prefix_of(c.global_scope.global_variables@)) by {
            assert(bg =~= c.global_scope.global_variables@.subrange(0, bg.len() as int));
        }
    }
    lemma_stmt_frame_trans(c, b, a);
}

/// What resolving the parsed tree `ast` does, when the first pass declared
/// the functions and parameters of `g` and made its reports.
pub open spec fn resolution_of(ast: Ast, g: GlobalScope) -> crate::resolution::ResolveState {
    crate::resolution::resolve_items(
        span_oracle(ast),
        g.functions@,
        crate::resolution::ResolveState {
            exprs: ast.expressions@,
            stmts: ast.statements@,
            vars: g.variables@,
            globals: g.global_variables@,
            locals: Seq::empty(),
            surrounding: None,
            reports: first_pass_reports(ast.items@, Seq::empty()),
        },
        ast.items@,
        0,
    )
}

/// Resolution depends on the first pass only through what it declared: two
/// well-formed scopes with the same variables, functions and globals resolve
/// a tree to the same expressions, statements, globals and reports, and to
/// variables of the same names and types.
pub proof fn lemma_resolution_of_model(ast: Ast, g1: GlobalScope, g2: GlobalScope)
    requires
        g1.wf(),
        scope_model(g1) == scope_model(g2),
    ensures
        crate::resolution::same_state(resolution_of(ast, g1), resolution_of(ast, g2)),
{
    let st1 = crate::resolution::ResolveState {
        exprs: ast.expressions@,
        stmts: ast.statements@,
        vars: g1.variables@,
        globals: g1.global_variables@,
        locals: Seq::empty(),
        surrounding: None,
        reports: first_pass_reports(ast.items@, Seq::empty()),
    };
    let st2 = crate::resolution::ResolveState { vars: g2.variables@, globals: g2.global_variables@, ..st1 };
    assert(var_models(st1.vars).len() == st1.vars.len());
    crate::resolution::lemma_resolve_items_same(span_oracle(ast), g1.functions@, g2.functions@, st1, st2, ast.items@, 0);
}

/// How the checks of a program whose tokens are `ts` went, when parsing
/// them gave the tree `ast` and the first pass declared `g`: the diagnostics
/// of a failure are those of the first pass and of resolution, in order; a
/// compiled program holds the tree as resolution left it.
pub open spec fn checked_as(ts: Seq<Token>, ast: Ast, g: GlobalScope, r: Result<CompilationUnit, DiagnosticsList>) -> bool {
    let parsed = p_items(non_whitespace(ts), 0);
    &&& ast.items@.len() == parsed.0.len()
    &&& forall|k: int| 0 <= k < parsed.0.len() ==> #[trigger] syn_item(ast, k) == parsed.0[k]
    &&& checked_tree(ast, g, r)
}

/// How the checks of the tree `ast` went, when the first pass declared `g`:
/// the diagnostics of a failure are those of the first pass and of
/// resolution, in order; a compiled program holds the tree as resolution
/// left it.
#[verifier::opaque]
pub open spec fn checked_tree(ast: Ast, g: GlobalScope, r: Result<CompilationUnit, DiagnosticsList>) -> bool {
    let res = resolution_of(ast, g);
    &&& function_names(g.functions@) == first_pass_names(ast.items@, Seq::empty())
    &&& scope_model(g) == first_pass_scope(ast.items@, empty_scope())
    &&& g.wf()
    &&& r matches Err(d) ==> report_models(d) == res.reports
    &&& r matches Ok(cu) ==> {
        &&& res.reports.len() == 0
        &&& cu.ast.expressions@ == res.exprs
        &&& cu.ast.statements@ == res.stmts
        &&& cu.ast.items@ == ast.items@
        &&& cu.global_scope.functions@ == g.functions@
        &&& cu.global_scope.variables@ == res.vars
        &&& cu.global_scope.global_variables@ == res.globals
    }
}

/// What compiling a program whose tokens are `ts` gives: when parsing them
/// reports anything, exactly those reports; otherwise the outcome of the
/// checks of the tree that parsing gives; and a compiled program holds the
/// items that parsing them gives.
pub open spec fn compiled_from(ts: Seq<Token>, r: Result<CompilationUnit, DiagnosticsList>) -> bool {
    let parsed = p_items(non_whitespace(ts), 0);
    &&& parsed.2.len() > 0 ==> (r matches Err(d) && diagnostic_models(d.diagnostics@) == parsed.2)
    &&& parsed.2.len() == 0 ==> exists|ast: Ast, g: GlobalScope| #[trigger] checked_as(ts, ast, g, r)
    &&& r matches Ok(cu) ==> {
        &&& parsed.2.len() == 0
        &&& cu.ast.items@.len() == parsed.0.len()
        &&& forall|k: int| 0 <= k < parsed.0.len() ==> #[trigger] syn_item(cu.ast, k) == parsed.0[k]
    }
}

/// A compiled program: its checked tree, the (empty) diagnostics, and the
/// functions and variables it declares.
pub struct CompilationUnit {
    pub ast: Ast,
    pub diagnostics_list: DiagnosticsList,
    pub global_scope: GlobalScope,
}

impl CompilationUnit {
    /// Lexes, parses and resolves `input`. It fails with the diagnostics as
    /// soon as parsing, or else resolution, has reported any; otherwise the
    /// program comes back with a well-formed tree in which every function it
    /// declares is known.
    #[verifier::spinoff_prover]
    #[verifier::rlimit(80)]
    pub fn compile(input: &str) -> (r: Result<CompilationUnit, DiagnosticsList>)
        requires
            numbers_fit(input@),
            input@.len() < usize::MAX - 1,
        ensures
            r matches Ok(cu) ==> {
                &&& cu.ast.wf()
                &&& cu.global_scope.wf()
                &&& cu.diagnostics_list.diagnostics@.len() == 0
                &&& forall|i: int| 0 <= i < cu.ast.items@.len() ==> (declared_name(#[trigger] cu.ast.items@[i].kind) matches Some(n)
                    ==> first_function_named(cu.global_scope.functions@, n) is Some)
            },
            r matches Err(d) ==> d.diagnostics@.len() > 0,
            exists|ts: Seq<Token>| #[trigger] tokenized(input@, ts) && compiled_from(ts, r),
    {
        let tokens = tokenize(input);
        let ghost ts = tokens@;
        let diagnostics_list = DiagnosticsList::new();
        let ast = Ast::new();
        let mut parser = Parser::new(tokens, diagnostics_list, ast);
        assert(parser.models() =~= Seq::<crate::diagnostics::Report>::empty());
        parser.parse();
        let ghost parsed = p_items(non_whitespace(ts), 0);
        let (mut ast, diagnostics_list) = parser.into_parts();
        let ghost parse_ast = ast;
        assert(diagnostic_models(diagnostics_list.diagnostics@) =~= parsed.2);
        if Self::check_diagnostics(&diagnostics_list).is_err() {
            assert(compiled_from(ts, Err::<CompilationUnit, DiagnosticsList>(diagnostics_list)));
            return Err(diagnostics_list);
        }
        let r = Self::check_tree(ast, diagnostics_list);
        proof {
            let g = choose|g: GlobalScope| #[trigger] checked_tree(parse_ast, g, r);
            assert forall|k: int| 0 <= k < parsed.0.len() implies #[trigger] syn_item(parse_ast, k) == parsed.0[k] by {
                assert(syn_item(parse_ast, 0 + k) == parsed.0[k]);
            }
            if r is Ok {
                let cu_ast = r->Ok_0.ast;
                assert forall|k: int| 0 <= k < parsed.0.len() implies #[trigger] syn_item(cu_ast, k) == parsed.0[k] by {
                    lemma_syn_item_same_shape(parse_ast, cu_ast, k);
                    assert(syn_item(parse_ast, 0 + k) == parsed.0[k]);
                }
            }
            assert(checked_as(ts, parse_ast, g, r));
        }
        assert(compiled_from(ts, r));
        r
    }

    /// Resolves a parsed tree: the first pass declares the functions, the
    /// second resolves every item; the diagnostics of either fail it.
    #[verifier::spinoff_prover]
    #[verifier::rlimit(60)]
    fn check_tree(ast: Ast, diagnostics_list: DiagnosticsList) -> (r: Result<CompilationUnit, DiagnosticsList>)
        requires
            ast.wf(),
            diagnostics_list.diagnostics@.len() == 0,
        ensures
            exists|g: GlobalScope| #[trigger] checked_tree(ast, g, r),
            r matches Ok(cu) ==> {
                &&& cu.ast.wf()
                &&& cu.global_scope.wf()
                &&& cu.diagnostics_list.diagnostics@.len() == 0
                &&& same_shape(cu.ast, ast)
                &&& forall|i: int| 0 <= i < cu.ast.items@.len() ==> (declared_name(#[trigger] cu.ast.items@[i].kind) matches Some(n)
                    ==> first_function_named(cu.global_scope.functions@, n) is Some)
            },
            r matches Err(d) ==> d.diagnostics@.len() > 0,
    {
        reveal(checked_tree);
        let ghost parse_ast = ast;
        let mut ast = ast;
        let mut global_symbol_resolver = GlobalSymbolResolver::new(diagnostics_list);
        proof {
            assert(function_names(global_symbol_resolver.global_scope.functions@) =~= Seq::<Seq<char>>::empty());
            assert(scope_model(global_symbol_resolver.global_scope) =~~= empty_scope());
        }
        global_symbol_resolver.resolve(&ast);
        let global_scope = global_symbol_resolver.global_scope;
        let ghost g = global_scope;
        proof {
            assert(report_models(global_symbol_resolver.diagnostics) =~= first_pass_reports(ast.items@, Seq::empty()));
        }
        let scopes = Scopes::from_global_scope(global_scope);
        let mut resolver = Resolver::new(global_symbol_resolver.diagnostics, scopes);
        proof {
            assert(crate::resolution::locals_model(resolver.scopes.local_scopes_vec@) =~= Seq::<Seq<VariableIndex>>::empty());
            assert(state_of(resolver, ast) =~= crate::resolution::ResolveState {
                exprs: ast.expressions@,
                stmts: ast.statements@,
                vars: g.variables@,
                globals: g.global_variables@,
                locals: Seq::empty(),
                surrounding: None,
                reports: first_pass_reports(ast.items@, Seq::empty()),
            });
        }
        resolver.resolve(&mut ast);
        if Self::check_diagnostics(&resolver.diagnostics).is_err() {
            assert(checked_tree(parse_ast, g, Err::<CompilationUnit, DiagnosticsList>(resolver.diagnostics)));
            return Err(resolver.diagnostics);
        }
        let cu = CompilationUnit {
            global_scope: resolver.scopes.global_scope,
            ast,
            diagnostics_list: resolver.diagnostics,
        };
        proof {
            assert(report_models(cu.diagnostics_list) =~= Seq::<crate::diagnostics::Report>::empty());
        }
        assert(checked_tree(parse_ast, g, Ok::<CompilationUnit, DiagnosticsList>(cu)));
        Ok(cu)
    }

    /// `Err` exactly when some diagnostic was reported.
    pub fn check_diagnostics(diagnostics_list: &DiagnosticsList) -> (r: Result<(), ()>)
        ensures
            r is Ok <==> diagnostics_list.diagnostics@.len() == 0,
    {
        if diagnostics_list.diagnostics.len() != 0 {
            return Err(());
        }
        Ok(())
    }
}

impl CompilationUnit {
    /// Runs the program: the body of its `main` function if it has one,
    /// else its top-level statements in order, each for at most `fuel`
    /// steps. The result is the value computed last, if any.
    pub fn run(&self, fuel: u64) -> (r: Result<Option<i64>, EvalError>)
        ensures
            ({
                let init: EvalState = (seq![Map::<usize, i64>::empty()], None::<i64>);
                let outcome = match first_function_named(self.global_scope.functions@, "main"@) {
                    Some(f) => eval_stmt(self.ast, self.global_scope, fuel as nat, init, self.global_scope.functions@[f].body.idx as int),
                    None => eval_items(self.ast, self.global_scope, fuel as nat, init, 0),
                };
                match outcome {
                    Ok(s) => r == Ok::<Option<i64>, EvalError>(s.1),
                    Err(e) => r == Err::<Option<i64>, EvalError>(e),
                }
            }),
    {
        let mut eval = AstEvaluator::new();
        let main_name = String::from_str("main");
        match self.global_scope.lookup_function(&main_name) {
            Some(function) => {
                let body = self.global_scope.functions.get(function).body;
                eval.visit_stmt(&self.ast, &self.global_scope, body, fuel)?;
            },
            None => {
                let ghost target = eval_items(self.ast, self.global_scope, fuel as nat, eval.state(), 0);
                let n = self.ast.items.len();
                let mut i: usize = 0;
                while i < n
                    invariant
                        n == self.ast.items@.len(),
                        i <= n,
                        eval_items(self.ast, self.global_scope, fuel as nat, eval.state(), i as int) == target,
                        target == eval_items(self.ast, self.global_scope, fuel as nat, (seq![Map::<usize, i64>::empty()], None::<i64>), 0),
                        first_function_named(self.global_scope.functions@, "main"@) is None,
                    decreases n - i,
                {
                    match &self.ast.query_item(ItemId { idx: i }).kind {
                        ItemKind::Stmt(s) => {
                            eval.visit_stmt(&self.ast, &self.global_scope, *s, fuel)?;
                        },
                        ItemKind::Func(_) => {},
                    }
                    i = i + 1;
                }
            },
        }
        Ok(eval.last_value)
    }
}

} // verus!
