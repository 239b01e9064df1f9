use terebinth::ast::ItemKind;
use terebinth::compilation_unit::{CompilationUnit, GlobalScope, GlobalSymbolResolver, Scopes};
use terebinth::diagnostics::DiagnosticsList;
use terebinth::typings::Type;

fn messages(input: &str) -> Vec<String> {
    match CompilationUnit::compile(input) {
        Ok(_) => Vec::new(),
        Err(d) => d.diagnostics.iter().map(|d| d.message.clone()).collect(),
    }
}

#[test]
fn accepts_well_typed_program() {
    assert!(CompilationUnit::compile("let a = 1\nlet b = a + 2").is_ok());
}

#[test]
fn reports_undeclared_variable() {
    assert_eq!(messages("let a = b"), vec!["Undeclared variable 'b'".to_string()]);
}

#[test]
fn reports_type_mismatch() {
    let m = messages("let a: bool = 1");
    assert_eq!(m, vec!["Type mismatch: expected 'bool', found 'int'".to_string()]);
}

#[test]
fn reports_undeclared_function() {
    assert_eq!(messages("foo()"), vec!["Undeclared function 'foo'".to_string()]);
}

#[test]
fn reports_wrong_argument_count() {
    let m = messages("func f(a: int) -> int { return a }\nf(1, 2)");
    assert_eq!(m.len(), 1, "{:?}", m);
}

#[test]
fn reports_return_outside_function() {
    let m = messages("return 1");
    assert_eq!(m.len(), 1, "{:?}", m);
}

#[test]
fn records_types_of_expressions() {
    let cu = CompilationUnit::compile("let a = 1 < 2").expect("compiles");
    let last = cu.ast.expressions.len() - 1;
    let e = cu.ast.query_expr(terebinth::ast::ExprId { idx: last });
    assert_eq!(e.ty, Type::Bool);
}

#[test]
fn scopes_declare_then_lookup() {
    let mut scopes = Scopes::new();
    scopes.enter_scope();
    let x = "x".to_string();
    scopes.declare_variable(&x, Type::Int);
    let found = scopes.lookup_variable(&x);
    assert!(found.is_some());
    scopes.exit_scope();
    assert!(scopes.lookup_variable(&x).is_none());
}

#[test]
fn global_scope_rejects_second_function() {
    let mut g = GlobalScope::new();
    let name = "f".to_string();
    assert!(g
        .declare_function(&name, terebinth::ast::StmtId { idx: 0 }, Vec::new(), Type::Void)
        .is_ok());
    assert!(g
        .declare_function(&name, terebinth::ast::StmtId { idx: 0 }, Vec::new(), Type::Void)
        .is_err());
    assert!(g.lookup_function(&name).is_some());
}

#[test]
fn first_pass_declares_parameters_and_reports_unknown_types() {
    let input = "func f(a: int, b: nosuch) -> bool { return true }\nfunc f() { 1 }";
    let tokens = terebinth::ast::lexer::tokenize(input);
    let mut parser = terebinth::ast::parser::Parser::new(
        tokens,
        DiagnosticsList::new(),
        terebinth::ast::Ast::new(),
    );
    parser.parse();
    let (ast, _) = parser.into_parts();
    let mut resolver = GlobalSymbolResolver::new(DiagnosticsList::new());
    for item in ast.items.iter() {
        if let ItemKind::Func(func) = &item.kind {
            resolver.visit_func_decl_statement(func);
        }
    }
    let scope = &resolver.global_scope;
    assert_eq!(scope.functions.len(), 1);
    assert_eq!(scope.variables.len(), 2);
    let a = scope.variables.get(terebinth::compilation_unit::VariableIndex { idx: 0 });
    let b = scope.variables.get(terebinth::compilation_unit::VariableIndex { idx: 1 });
    assert_eq!((a.name.as_str(), a.var_type), ("a", Type::Int));
    assert_eq!((b.name.as_str(), b.var_type), ("b", Type::Error));
    let f = scope.functions.get(terebinth::compilation_unit::FunctionIndex { idx: 0 });
    assert_eq!(f.return_type, Type::Bool);
    assert_eq!(f.parameters.iter().map(|p| p.idx).collect::<Vec<_>>(), vec![0, 1]);
    let messages: Vec<String> =
        resolver.diagnostics.diagnostics.iter().map(|d| d.message.clone()).collect();
    assert_eq!(
        messages,
        vec![
            "Undeclared type 'nosuch'".to_string(),
            "Function 'f' already declared".to_string(),
        ]
    );
}

#[test]
fn booleans_are_left_unresolved() {
    let m = messages("let b = true\nb = false");
    assert_eq!(m, vec!["Type mismatch: expected 'unresolved', found 'unresolved'".to_string()]);
}

#[test]
fn parsing_reports_every_unexpected_token() {
    assert_eq!(
        messages("let = 1"),
        vec![
            "Expected <Identifier>, found <=>".to_string(),
            "Expected <=>, found <Number>".to_string(),
            "Expected expression, found <EOF>".to_string(),
        ]
    );
}

#[test]
fn first_pass_declares_each_name_once_in_order() {
    let input = "func g() -> nosuch { 1 }\nlet x = 1\nfunc h() { 2 }\nfunc g() { 3 }";
    let tokens = terebinth::ast::lexer::tokenize(input);
    let mut parser = terebinth::ast::parser::Parser::new(
        tokens,
        DiagnosticsList::new(),
        terebinth::ast::Ast::new(),
    );
    parser.parse();
    let (ast, _) = parser.into_parts();
    let mut resolver = GlobalSymbolResolver::new(DiagnosticsList::new());
    resolver.resolve(&ast);
    let names: Vec<String> =
        resolver.global_scope.functions.iter().into_iter().map(|f| f.name.clone()).collect();
    assert_eq!(names, vec!["g".to_string(), "h".to_string()]);
    let messages: Vec<String> =
        resolver.diagnostics.diagnostics.iter().map(|d| d.message.clone()).collect();
    assert_eq!(
        messages,
        vec![
            "Undeclared type 'nosuch'".to_string(),
            "Function 'g' already declared".to_string(),
        ]
    );
}
