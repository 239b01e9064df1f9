use terebinth::ast::{Ast, ExprId, ExprKind, ItemId, ItemKind, StmtId, StmtKind};
use terebinth::compilation_unit::CompilationUnit;

#[derive(Debug, PartialEq, Eq)]
enum TestAstNode {
    Number(i64),
    Boolean(bool),
    Binary,
    Unary,
    Parenthesized,
    Let,
    Assignment,
    Block,
    Variable(String),
    If,
    Else,
    Func,
    While,
    Return,
    Call,
}

struct Flattener<'a> {
    ast: &'a Ast,
    actual: Vec<TestAstNode>,
}

impl<'a> Flattener<'a> {
    fn visit_item(&mut self, id: ItemId) {
        match &self.ast.query_item(id).kind {
            ItemKind::Func(f) => {
                self.actual.push(TestAstNode::Func);
                self.visit_stmt(f.body);
            }
            ItemKind::Stmt(s) => self.visit_stmt(*s),
        }
    }

    fn visit_stmt(&mut self, id: StmtId) {
        match &self.ast.query_stmt(id).kind {
            StmtKind::Expr(e) => self.visit_expr(*e),
            StmtKind::Let(l) => {
                self.actual.push(TestAstNode::Let);
                self.visit_expr(l.initializer);
            }
            StmtKind::While(w) => {
                self.actual.push(TestAstNode::While);
                self.visit_expr(w.condition);
                self.visit_expr(w.body);
            }
            StmtKind::Return(r) => {
                self.actual.push(TestAstNode::Return);
                if let Some(e) = r.return_value {
                    self.visit_expr(e);
                }
            }
        }
    }

    fn visit_expr(&mut self, id: ExprId) {
        match &self.ast.query_expr(id).kind {
            ExprKind::Number(n) => self.actual.push(TestAstNode::Number(n.number)),
            ExprKind::Boolean(b) => self.actual.push(TestAstNode::Boolean(b.value)),
            ExprKind::Binary(b) => {
                self.actual.push(TestAstNode::Binary);
                self.visit_expr(b.left);
                self.visit_expr(b.right);
            }
            ExprKind::Unary(u) => {
                self.actual.push(TestAstNode::Unary);
                self.visit_expr(u.operand);
            }
            ExprKind::Parenthesized(p) => {
                self.actual.push(TestAstNode::Parenthesized);
                self.visit_expr(p.expression);
            }
            ExprKind::Variable(v) => self
                .actual
                .push(TestAstNode::Variable(v.identifier.span.literal.clone())),
            ExprKind::Assignment(a) => {
                self.actual.push(TestAstNode::Assignment);
                self.visit_expr(a.expression);
            }
            ExprKind::Call(c) => {
                self.actual.push(TestAstNode::Call);
                for a in &c.arguments {
                    self.visit_expr(*a);
                }
            }
            ExprKind::If(i) => {
                self.actual.push(TestAstNode::If);
                self.visit_expr(i.condition);
                self.visit_expr(i.then_branch);
                if let Some(e) = &i.else_branch {
                    self.actual.push(TestAstNode::Else);
                    self.visit_expr(e.expr);
                }
            }
            ExprKind::Block(b) => {
                self.actual.push(TestAstNode::Block);
                for s in &b.stmts {
                    self.visit_stmt(*s);
                }
            }
            ExprKind::Error(_) => {}
        }
    }
}

fn assert_tree(input: &str, expected: Vec<TestAstNode>) {
    let compilation_unit = match CompilationUnit::compile(input) {
        Ok(cu) => cu,
        Err(d) => panic!("Failed to compile: {:?}", d),
    };
    let mut flattener = Flattener {
        ast: &compilation_unit.ast,
        actual: Vec::new(),
    };
    for i in 0..compilation_unit.ast.items.len() {
        flattener.visit_item(ItemId { idx: i });
    }
    assert_eq!(
        expected.len(),
        flattener.actual.len(),
        "Expected {} nodes, but got {}. Actual nodes: {:?}",
        expected.len(),
        flattener.actual.len(),
        flattener.actual
    );
    for (index, (expected, actual)) in expected.iter().zip(flattener.actual.iter()).enumerate() {
        assert_eq!(
            expected, actual,
            "Expected {:?} at index {}, but got {:?}",
            expected, index, actual
        );
    }
}

#[test]
fn should_parse_basic_binary_expression() {
    let input = "let a = 1 + 2";
    let expected = vec![
        TestAstNode::Let,
        TestAstNode::Binary,
        TestAstNode::Number(1),
        TestAstNode::Number(2),
    ];
    assert_tree(input, expected);
}

#[test]
fn should_parse_parenthesized_binary_expression() {
    let input = "let a = (1 + 2) * 3";
    let expected = vec![
        TestAstNode::Let,
        TestAstNode::Binary,
        TestAstNode::Parenthesized,
        TestAstNode::Binary,
        TestAstNode::Number(1),
        TestAstNode::Number(2),
        TestAstNode::Number(3),
    ];
    assert_tree(input, expected);
}

#[test]
fn should_parse_parenthesized_binary_expression_with_variable() {
    let input = "\
        let b = 1
        let a = (1 + 2) * b";
    let expected = vec![
        TestAstNode::Let,
        TestAstNode::Number(1),
        TestAstNode::Let,
        TestAstNode::Binary,
        TestAstNode::Parenthesized,
        TestAstNode::Binary,
        TestAstNode::Number(1),
        TestAstNode::Number(2),
        TestAstNode::Variable("b".to_string()),
    ];
    assert_tree(input, expected);
}

#[test]
fn should_parse_parenthesized_binary_expression_with_variable_and_number() {
    let input = "\
        let b = 1
        let a = (1 + 2) * b + 3";
    let expected = vec![
        TestAstNode::Let,
        TestAstNode::Number(1),
        TestAstNode::Let,
        TestAstNode::Binary,
        TestAstNode::Binary,
        TestAstNode::Parenthesized,
        TestAstNode::Binary,
        TestAstNode::Number(1),
        TestAstNode::Number(2),
        TestAstNode::Variable("b".to_string()),
        TestAstNode::Number(3),
    ];
    assert_tree(input, expected);
}

#[test]
fn should_parse_bitwise_and() {
    let input = "let a = 1 & 2";
    let expected = vec![
        TestAstNode::Let,
        TestAstNode::Binary,
        TestAstNode::Number(1),
        TestAstNode::Number(2),
    ];
    assert_tree(input, expected);
}

#[test]
fn should_parse_bitwise_or() {
    let input = "let a = 1 | 2";
    let expected = vec![
        TestAstNode::Let,
        TestAstNode::Binary,
        TestAstNode::Number(1),
        TestAstNode::Number(2),
    ];
    assert_tree(input, expected);
}

#[test]
fn should_parse_bitwise_xor() {
    let input = "let a = 1 ^ 2";
    let expected = vec![
        TestAstNode::Let,
        TestAstNode::Binary,
        TestAstNode::Number(1),
        TestAstNode::Number(2),
    ];
    assert_tree(input, expected);
}

#[test]
fn should_parse_bitwise_not() {
    let input = "let a = ~1";
    let expected = vec![TestAstNode::Let, TestAstNode::Unary, TestAstNode::Number(1)];
    assert_tree(input, expected);
}

#[test]
fn should_parse_bitwise_shift_left() {
    let input = "let a = 1 << 2";
    let expected = vec![
        TestAstNode::Let,
        TestAstNode::Binary,
        TestAstNode::Number(1),
        TestAstNode::Number(2),
    ];
    assert_tree(input, expected);
}

#[test]
fn should_parse_bitwise_shift_right() {
    let input = "let a = 2 >> 1";
    let expected = vec![
        TestAstNode::Let,
        TestAstNode::Binary,
        TestAstNode::Number(2),
        TestAstNode::Number(1),
    ];
    assert_tree(input, expected);
}

#[test]
fn should_parse_negation() {
    let input = "let a = -1";
    let expected = vec![TestAstNode::Let, TestAstNode::Unary, TestAstNode::Number(1)];
    assert_tree(input, expected);
}

#[test]
fn should_parse_power() {
    let input = "let a = 1 ** 2";
    let expected = vec![
        TestAstNode::Let,
        TestAstNode::Binary,
        TestAstNode::Number(1),
        TestAstNode::Number(2),
    ];
    assert_tree(input, expected);
}

#[test]
fn should_parse_if_statement() {
    let input = "\
        let a = 1
        if a > 0 {
            a = 20
        }
        ";
    let expected = vec![
        TestAstNode::Let,
        TestAstNode::Number(1),
        TestAstNode::If,
        TestAstNode::Binary,
        TestAstNode::Variable("a".to_string()),
        TestAstNode::Number(0),
        TestAstNode::Block,
        TestAstNode::Assignment,
        TestAstNode::Number(20),
    ];
    assert_tree(input, expected);
}

#[test]
fn should_parse_if_statement_with_else() {
    let input = "\
        let a = 1
        if a > 0 {
            a = 20
        } else {
            a = 30
        }
        ";
    let expected = vec![
        TestAstNode::Let,
        TestAstNode::Number(1),
        TestAstNode::If,
        TestAstNode::Binary,
        TestAstNode::Variable("a".to_string()),
        TestAstNode::Number(0),
        TestAstNode::Block,
        TestAstNode::Assignment,
        TestAstNode::Number(20),
        TestAstNode::Else,
        TestAstNode::Block,
        TestAstNode::Assignment,
        TestAstNode::Number(30),
    ];
    assert_tree(input, expected);
}

#[test]
fn should_parse_while_statement() {
    let input = "\
        let a = 1
        while a < 10 {
            a = a + 1
        }
        ";
    let expected = vec![
        TestAstNode::Let,
        TestAstNode::Number(1),
        TestAstNode::While,
        TestAstNode::Binary,
        TestAstNode::Variable("a".to_string()),
        TestAstNode::Number(10),
        TestAstNode::Block,
        TestAstNode::Assignment,
        TestAstNode::Binary,
        TestAstNode::Variable("a".to_string()),
        TestAstNode::Number(1),
    ];
    assert_tree(input, expected);
}

#[test]
fn should_parse_function_declaration() {
    let input = "\
        func add(a: int, b: int) -> int {
            return a + b
        }
        ";
    let expected = vec![
        TestAstNode::Func,
        TestAstNode::Block,
        TestAstNode::Return,
        TestAstNode::Binary,
        TestAstNode::Variable("a".to_string()),
        TestAstNode::Variable("b".to_string()),
    ];
    assert_tree(input, expected);
}

#[test]
fn should_parse_call_expression() {
    let input = "\
        func add(a: int, b: int) -> int {
            return a + b
        }
        add(2 * 3, 4 + 5)";
    let expected = vec![
        TestAstNode::Func,
        TestAstNode::Block,
        TestAstNode::Return,
        TestAstNode::Binary,
        TestAstNode::Variable("a".to_string()),
        TestAstNode::Variable("b".to_string()),
        TestAstNode::Call,
        TestAstNode::Binary,
        TestAstNode::Number(2),
        TestAstNode::Number(3),
        TestAstNode::Binary,
        TestAstNode::Number(4),
        TestAstNode::Number(5),
    ];
    assert_tree(input, expected);
}

#[test]
fn boolean_literals_flatten() {
    let expected = vec![TestAstNode::Let, TestAstNode::Boolean(true)];
    assert_tree("let a = true", expected);
}

#[test]
fn expressions_change_in_place() {
    let mut cu = CompilationUnit::compile("let a = 1").expect("compiles");
    let id = ExprId { idx: 0 };
    cu.ast.query_expr_mut(id).ty = terebinth::typings::Type::Bool;
    assert_eq!(cu.ast.query_expr(id).ty, terebinth::typings::Type::Bool);
    let sid = StmtId { idx: 0 };
    let stmt = cu.ast.query_stmt_mut(sid);
    assert!(matches!(stmt.kind, StmtKind::Let(_)));
}

fn first_message(input: &str) -> String {
    match CompilationUnit::compile(input) {
        Ok(_) => panic!("expected {:?} to be rejected", input),
        Err(d) => d.diagnostics[0].message.clone(),
    }
}

#[test]
fn block_is_not_an_expression_operand() {
    assert_eq!(first_message("let a = { 1 }"), "Expected expression, found <{>");
}

#[test]
fn if_is_not_an_expression_operand() {
    assert_eq!(
        first_message("let x = if true { 1 } else { 2 }"),
        "Expected expression, found <If>"
    );
}

#[test]
fn semicolon_is_reported() {
    assert_eq!(first_message("let a = 1;"), "Expected expression, found <;>");
}

#[test]
fn if_statement_ends_before_next_line() {
    let input = "\
        if 1 == 1 { 1 }
        -1";
    let expected = vec![
        TestAstNode::If,
        TestAstNode::Binary,
        TestAstNode::Number(1),
        TestAstNode::Number(1),
        TestAstNode::Block,
        TestAstNode::Number(1),
        TestAstNode::Unary,
        TestAstNode::Number(1),
    ];
    assert_tree(input, expected);
}

#[test]
fn else_if_chain_parses_as_nested_if() {
    let input = "if 1 == 1 { 1 } else if 1 == 2 { 2 } else { 3 }";
    let expected = vec![
        TestAstNode::If,
        TestAstNode::Binary,
        TestAstNode::Number(1),
        TestAstNode::Number(1),
        TestAstNode::Block,
        TestAstNode::Number(1),
        TestAstNode::Else,
        TestAstNode::If,
        TestAstNode::Binary,
        TestAstNode::Number(1),
        TestAstNode::Number(2),
        TestAstNode::Block,
        TestAstNode::Number(2),
        TestAstNode::Else,
        TestAstNode::Block,
        TestAstNode::Number(3),
    ];
    assert_tree(input, expected);
}
