use terebinth::ast::evaluator::{eval_binary, eval_unary, EvalError, Frames};
use terebinth::ast::{BinaryOperatorKind, UnaryOperatorKind};
use terebinth::compilation_unit::CompilationUnit;

const FUEL: u64 = 1_000_000;

fn run(input: &str) -> Result<Option<i64>, EvalError> {
    let cu = CompilationUnit::compile(input).expect("compiles");
    cu.run(FUEL)
}

#[test]
fn runs_arithmetic() {
    assert_eq!(run("let a = (1 + 2) * 3"), Ok(Some(9)));
    assert_eq!(run("let a = 2 ** 10"), Ok(Some(1024)));
    assert_eq!(run("let a = 7 / 2"), Ok(Some(3)));
    assert_eq!(run("let a = -7 / 2"), Ok(Some(-3)));
}

#[test]
fn runs_while_loop() {
    let input = "\
        let a = 1
        while a < 10 {
            a = a + 1
        }
        a";
    assert_eq!(run(input), Ok(Some(10)));
}

#[test]
fn runs_if_else() {
    let input = "\
        let a = 1
        if a > 0 {
            a = 20
        } else {
            a = 30
        }
        a";
    assert_eq!(run(input), Ok(Some(20)));
}

#[test]
fn runs_main_function() {
    let input = "\
        func add(a: int, b: int) -> int {
            return a + b
        }
        func main() {
            add(2 * 3, 4 + 5)
        }";
    assert_eq!(run(input), Ok(Some(15)));
}

#[test]
fn reports_division_by_zero() {
    assert_eq!(run("let a = 1 / 0"), Err(EvalError::DivisionByZero));
}

#[test]
fn reports_overflow() {
    assert_eq!(
        run("let a = 9223372036854775807 + 1"),
        Err(EvalError::Overflow)
    );
}

#[test]
fn runs_out_of_fuel() {
    let input = "\
        let a = 1
        while a > 0 {
            a = a + 1
        }";
    let cu = CompilationUnit::compile(input).expect("compiles");
    assert_eq!(cu.run(1000), Err(EvalError::OutOfFuel));
}

#[test]
fn binary_operations() {
    assert_eq!(eval_binary(BinaryOperatorKind::Plus, 2, 3), Ok(5));
    assert_eq!(eval_binary(BinaryOperatorKind::Minus, 2, 3), Ok(-1));
    assert_eq!(eval_binary(BinaryOperatorKind::Multiply, -4, 3), Ok(-12));
    assert_eq!(eval_binary(BinaryOperatorKind::Divide, 7, -2), Ok(-3));
    assert_eq!(eval_binary(BinaryOperatorKind::Divide, i64::MIN, -1), Err(EvalError::Overflow));
    assert_eq!(eval_binary(BinaryOperatorKind::Power, 3, 4), Ok(81));
    assert_eq!(eval_binary(BinaryOperatorKind::Power, -2, 63), Ok(i64::MIN));
    assert_eq!(eval_binary(BinaryOperatorKind::Power, 2, 63), Err(EvalError::Overflow));
    assert_eq!(eval_binary(BinaryOperatorKind::Power, -1, 5), Ok(-1));
    assert_eq!(eval_binary(BinaryOperatorKind::Power, 2, -1), Err(EvalError::InvalidExponent));
    assert_eq!(eval_binary(BinaryOperatorKind::LeftShift, 1, 4), Ok(16));
    assert_eq!(eval_binary(BinaryOperatorKind::RightShift, -16, 2), Ok(-4));
    assert_eq!(eval_binary(BinaryOperatorKind::LeftShift, 1, 64), Err(EvalError::InvalidShift));
    assert_eq!(eval_binary(BinaryOperatorKind::BitwiseAnd, 6, 3), Ok(2));
    assert_eq!(eval_binary(BinaryOperatorKind::BitwiseOr, 6, 3), Ok(7));
    assert_eq!(eval_binary(BinaryOperatorKind::BitwiseXor, 6, 3), Ok(5));
    assert_eq!(eval_binary(BinaryOperatorKind::LessThan, 1, 2), Ok(1));
    assert_eq!(eval_binary(BinaryOperatorKind::GreaterThanOrEqual, 1, 2), Ok(0));
    assert_eq!(eval_binary(BinaryOperatorKind::Equals, 2, 2), Ok(1));
    assert_eq!(eval_binary(BinaryOperatorKind::NotEquals, 2, 2), Ok(0));
}

#[test]
fn unary_operations() {
    assert_eq!(eval_unary(UnaryOperatorKind::Minus, 5), Ok(-5));
    assert_eq!(eval_unary(UnaryOperatorKind::Minus, i64::MIN), Err(EvalError::Overflow));
    assert_eq!(eval_unary(UnaryOperatorKind::BitwiseNot, 0), Ok(-1));
}

#[test]
fn frames_scope_variables() {
    let mut frames = Frames::new();
    frames.insert(0, 1);
    frames.push();
    frames.insert(1, 2);
    assert_eq!(frames.get(0), Some(1));
    assert_eq!(frames.get(1), Some(2));
    frames.update(0, 10);
    assert_eq!(frames.get(0), Some(10));
    frames.pop();
    assert_eq!(frames.get(1), None);
    assert_eq!(frames.get(0), Some(10));
    frames.update(7, 3);
    assert_eq!(frames.get(7), None);
}

#[test]
fn runs_readme_program() {
    let input = "func add(x: int, y: int) -> int {\n  return x + y\n}\n\nfunc main() {\n  let z = add(3, 5)\n}";
    assert_eq!(run(input), Ok(Some(8)));
}

#[test]
fn first_pass_declares_parameters_with_their_types() {
    let cu = CompilationUnit::compile("func f(a: bool, b: int) -> int { return b }\nf(1 == 1, 2)").expect("compiles");
    let scope = &cu.global_scope;
    assert_eq!(scope.functions.len(), 1);
    assert!(CompilationUnit::compile("func f(a: bool) -> int { return 1 }\nf(1)").is_err());
    assert!(CompilationUnit::compile("b").is_err());
}
