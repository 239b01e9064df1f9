use terebinth::ast::lexer::tokenize;
use terebinth::ast::parser::Parser;
use terebinth::ast::printer::Printer;
use terebinth::ast::Ast;
use terebinth::compilation_unit::CompilationUnit;
use terebinth::diagnostics::DiagnosticsList;

const NUMBER: &str = "\x1b[38;5;5m";
const TEXT: &str = "\x1b[38;5;15m";
const KEYWORD: &str = "\x1b[38;5;4m";
const VARIABLE: &str = "\x1b[38;5;2m";
const BOOLEAN: &str = "\x1b[38;5;13m";
const TYPE: &str = "\x1b[38;5;11m";
const RESET: &str = "\x1b[39m";

fn printed(input: &str) -> String {
    match CompilationUnit::compile(input) {
        Ok(unit) => unit.ast.visualize(),
        Err(d) => panic!(
            "{input:?} should compile: {:?}",
            d.diagnostics.iter().map(|x| x.message.clone()).collect::<Vec<_>>()
        ),
    }
}

fn parsed_only(input: &str) -> Ast {
    let tokens = tokenize(input);
    let mut parser = Parser::new(tokens, DiagnosticsList::new(), Ast::new());
    parser.parse();
    parser.into_parts().0
}

#[test]
fn prints_let_with_binary_initializer() {
    let expected = format!(
        "{KEYWORD}let {TEXT}a {TEXT}= {NUMBER}1 {TEXT}+ {NUMBER}2{RESET}\n"
    );
    assert_eq!(printed("let a = 1 + 2"), expected);
}

#[test]
fn prints_annotation_unary_and_parentheses() {
    let expected = format!(
        "{KEYWORD}let {TEXT}a{TEXT}: {TYPE}int {TEXT}= {TEXT}-{TEXT}({NUMBER}3{TEXT}){RESET}\n"
    );
    assert_eq!(printed("let a: int = -(3)"), expected);
}

#[test]
fn prints_booleans_and_assignment() {
    let expected = format!(
        "{KEYWORD}let {TEXT}b {TEXT}= {BOOLEAN}true{RESET}\n\
         {VARIABLE}b {TEXT}= {BOOLEAN}false{RESET}\n"
    );
    assert_eq!(parsed_only("let b = true\nb = false").visualize(), expected);
}

#[test]
fn prints_function_with_block_body() {
    let expected = format!(
        "{KEYWORD}func {TEXT}add{TEXT}({TEXT}a{TEXT}: {TYPE}int{TEXT}, {TEXT}b{TEXT}: {TYPE}int{TEXT}) \
         {TEXT}-> {TYPE}int {TEXT}{{\n\
         \x20 {KEYWORD}return {VARIABLE}a {TEXT}+ {VARIABLE}b{RESET}\n\
         {TEXT}}}{RESET}\n\
         {TEXT}add{TEXT}({NUMBER}1{TEXT}, {NUMBER}2{TEXT}){RESET}\n"
    );
    assert_eq!(
        printed("func add(a: int, b: int) -> int { return a + b }\nadd(1, 2)"),
        expected
    );
}

#[test]
fn prints_if_else_and_while() {
    let expected = format!(
        "{KEYWORD}let {TEXT}a {TEXT}= {NUMBER}0{RESET}\n\
         {KEYWORD}while {VARIABLE}a {TEXT}< {NUMBER}3 {TEXT}{{\n\
         \x20 {VARIABLE}a {TEXT}= {VARIABLE}a {TEXT}+ {NUMBER}1{RESET}\n\
         {TEXT}}}{RESET}\n\
         {KEYWORD}if {VARIABLE}a {TEXT}== {NUMBER}3 {TEXT}{{\n\
         \x20 {NUMBER}1{RESET}\n\
         {TEXT}}}{KEYWORD}else {TEXT}{{\n\
         \x20 {NUMBER}2{RESET}\n\
         {TEXT}}}{RESET}\n"
    );
    assert_eq!(
        printed("let a = 0\nwhile a < 3 { a = a + 1 }\nif a == 3 { 1 } else { 2 }"),
        expected
    );
}

#[test]
fn prints_nested_blocks_with_deeper_indentation() {
    let expected = format!(
        "{TEXT}{{\n\
         \x20 {TEXT}{{\n\
         \x20   {NUMBER}7{RESET}\n\
         \x20 {TEXT}}}{RESET}\n\
         {TEXT}}}{RESET}\n"
    );
    assert_eq!(printed("{ { 7 } }"), expected);
}

#[test]
fn prints_a_tree_that_does_not_check() {
    let ast = parsed_only("let x = y");
    assert!(CompilationUnit::compile("let x = y").is_err());
    let expected = format!("{KEYWORD}let {TEXT}x {TEXT}= {VARIABLE}y{RESET}\n");
    assert_eq!(ast.visualize(), expected);
}

#[test]
fn new_printer_holds_nothing() {
    let printer = Printer::new();
    assert_eq!(printer.result, "");
}
