//! Writing a syntax tree back out as source text, coloured for a terminal.

use vstd::prelude::*;

use crate::ast::{
    expr_children, expr_stmt_children, stmt_below, stmt_children, Ast, ExprId, ExprKind,
    FuncDeclParameter, FunctionDeclaration, ItemId, ItemKind, StaticTypeAnnotation, StmtId,
    StmtKind,
};
use crate::diagnostics::{decimal_text, digit_char};
use crate::text::{push_char, push_str};

verus! {

// ---------------------------------------------------------------------------
// Terminal colours.

/// The control sequence that sets the foreground to colour `code` of the
/// 256-colour palette: `ESC [ 38 ; 5 ; code m`.
pub open spec fn fg_sequence(code: Seq<char>) -> Seq<char> {
    seq!['\u{1b}', '[', '3', '8', ';', '5', ';'] + code + seq!['m']
}

/// The control sequence that restores the default foreground: `ESC [ 39 m`.
pub open spec fn reset_sequence() -> Seq<char> {
    seq!['\u{1b}', '[', '3', '9', 'm']
}

/// Numbers are magenta (palette colour 5).
pub open spec fn number_color() -> Seq<char> {
    fg_sequence(seq!['5'])
}

/// Punctuation, names and other text are light white (palette colour 15).
pub open spec fn text_color() -> Seq<char> {
    fg_sequence(seq!['1', '5'])
}

/// Keywords are blue (palette colour 4).
pub open spec fn keyword_color() -> Seq<char> {
    fg_sequence(seq!['4'])
}

/// Variables are green (palette colour 2).
pub open spec fn variable_color() -> Seq<char> {
    fg_sequence(seq!['2'])
}

/// Boolean literals are light magenta (palette colour 13).
pub open spec fn boolean_color() -> Seq<char> {
    fg_sequence(seq!['1', '3'])
}

/// Type names are light yellow (palette colour 11).
pub open spec fn type_color() -> Seq<char> {
    fg_sequence(seq!['1', '1'])
}

/// Calls `termion::color::Magenta::fg_str`, which returns `ESC [38;5;5m`.
#[verifier::external_body]
fn magenta_fg() -> (r: &'static str)
    ensures
        r@ == number_color(),
{
    termion::color::Magenta.fg_str()
}

/// Calls `termion::color::LightWhite::fg_str`, which returns `ESC [38;5;15m`.
#[verifier::external_body]
fn light_white_fg() -> (r: &'static str)
    ensures
        r@ == text_color(),
{
    termion::color::LightWhite.fg_str()
}

/// Calls `termion::color::Blue::fg_str`, which returns `ESC [38;5;4m`.
#[verifier::external_body]
fn blue_fg() -> (r: &'static str)
    ensures
        r@ == keyword_color(),
{
    termion::color::Blue.fg_str()
}

/// Calls `termion::color::Green::fg_str`, which returns `ESC [38;5;2m`.
#[verifier::external_body]
fn green_fg() -> (r: &'static str)
    ensures
        r@ == variable_color(),
{
    termion::color::Green.fg_str()
}

/// Calls `termion::color::LightMagenta::fg_str`, which returns `ESC [38;5;13m`.
#[verifier::external_body]
fn light_magenta_fg() -> (r: &'static str)
    ensures
        r@ == boolean_color(),
{
    termion::color::LightMagenta.fg_str()
}

/// Calls `termion::color::LightYellow::fg_str`, which returns `ESC [38;5;11m`.
#[verifier::external_body]
fn light_yellow_fg() -> (r: &'static str)
    ensures
        r@ == type_color(),
{
    termion::color::LightYellow.fg_str()
}

/// Calls `termion::color::Reset::fg_str`, which returns `ESC [39m`, the text
/// that `termion::color::Fg(Reset)` displays as.
#[verifier::external_body]
fn reset_fg() -> (r: &'static str)
    ensures
        r@ == reset_sequence(),
{
    termion::color::Reset.fg_str()
}

// ---------------------------------------------------------------------------
// The printed text.

/// `n` in decimal, with a leading `-` when it is negative.
pub open spec fn integer_text(n: int) -> Seq<char> {
    if n < 0 {
        seq!['-'] + decimal_text((-n) as nat)
    } else {
        decimal_text(n as nat)
    }
}

/// `n` levels of indentation, two spaces each.
pub open spec fn indent_text(n: nat) -> Seq<char>
    decreases n,
{
    if n == 0 {
        Seq::empty()
    } else {
        indent_text((n - 1) as nat) + seq![' ', ' ']
    }
}

/// The text of a boolean literal.
pub open spec fn boolean_text(b: bool) -> Seq<char> {
    if b {
        "true"@
    } else {
        "false"@
    }
}

/// `: type`, as a type annotation prints.
pub open spec fn annotation_text(t: StaticTypeAnnotation) -> Seq<char> {
    text_color() + ":"@ + seq![' '] + type_color() + t.type_ident.span.literal@
}

/// The parameters of a function declaration, separated by `, `.
pub open spec fn params_text(ps: Seq<FuncDeclParameter>) -> Seq<char>
    decreases ps.len(),
{
    if ps.len() == 0 {
        Seq::empty()
    } else {
        params_text(ps.drop_last()) + (if ps.len() > 1 {
            text_color() + ","@ + seq![' ']
        } else {
            Seq::empty()
        }) + text_color() + ps.last().identifier.span.literal@ + annotation_text(
            ps.last().type_annotation,
        )
    }
}

/// The text of the expression `e` if it lies below `bound`, else nothing.
pub open spec fn printed_sub(ast: Ast, e: ExprId, bound: int, ind: nat) -> Seq<char>
    decreases bound, 0int, 0int,
{
    if e.idx < bound {
        printed_expr(ast, e.idx as int, ind)
    } else {
        Seq::empty()
    }
}

/// The text of the expression at position `i` of `ast`, at indentation `ind`.
pub open spec fn printed_expr(ast: Ast, i: int, ind: nat) -> Seq<char>
    decreases i, 3int, 0int,
{
    if 0 <= i < ast.expressions@.len() {
        match ast.expressions@[i].kind {
            ExprKind::Number(e) => number_color() + integer_text(e.number as int),
            ExprKind::Binary(e) => printed_sub(ast, e.left, i, ind) + seq![' '] + text_color()
                + e.operator.token.span.literal@ + seq![' '] + printed_sub(ast, e.right, i, ind),
            ExprKind::Unary(e) => text_color() + e.operator.token.span.literal@ + printed_sub(
                ast,
                e.operand,
                i,
                ind,
            ),
            ExprKind::Parenthesized(e) => text_color() + "("@ + printed_sub(ast, e.expression, i, ind)
                + text_color() + ")"@,
            ExprKind::Variable(e) => variable_color() + e.identifier.span.literal@,
            ExprKind::Assignment(e) => variable_color() + e.identifier.span.literal@ + seq![' ']
                + text_color() + "="@ + seq![' '] + printed_sub(ast, e.expression, i, ind),
            ExprKind::Boolean(e) => boolean_color() + boolean_text(e.value),
            ExprKind::Call(e) => text_color() + e.identifier.span.literal@ + text_color() + "("@
                + printed_args(ast, e.arguments@, i, ind) + text_color() + ")"@,
            ExprKind::If(e) => keyword_color() + "if"@ + seq![' '] + printed_sub(ast, e.condition, i, ind)
                + seq![' '] + printed_sub(ast, e.then_branch, i, ind) + match e.else_branch {
                Some(b) => keyword_color() + "else"@ + seq![' '] + printed_sub(ast, b.expr, i, ind),
                None => Seq::empty(),
            },
            ExprKind::Block(e) => text_color() + "{"@ + seq!['\n'] + printed_stmts(
                ast,
                e.stmts@,
                i,
                ind + 1,
            ) + indent_text(ind) + text_color() + "}"@,
            ExprKind::Error(span) => text_color() + span.literal@,
        }
    } else {
        Seq::empty()
    }
}

/// The arguments of a call, all below `bound`, separated by `, `.
pub open spec fn printed_args(ast: Ast, args: Seq<ExprId>, bound: int, ind: nat) -> Seq<char>
    decreases bound, 2int, args.len(),
{
    if args.len() == 0 {
        Seq::empty()
    } else {
        printed_args(ast, args.drop_last(), bound, ind) + (if args.len() > 1 {
            text_color() + ","@ + seq![' ']
        } else {
            Seq::empty()
        }) + printed_sub(ast, args.last(), bound, ind)
    }
}

/// The separator printed between two arguments: a comma and a space.
pub open spec fn argument_separator() -> Seq<char> {
    text_color() + ","@ + seq![' ']
}

/// Arguments are printed joined by separators: no arguments print nothing,
/// one prints alone, and splitting the arguments anywhere into two non-empty
/// parts prints the first part, one separator, then the second part; so `n`
/// arguments print with exactly one separator before each but the first.
pub proof fn lemma_printed_args_join(ast: Ast, a: Seq<ExprId>, b: Seq<ExprId>, e: ExprId, bound: int, ind: nat)
    ensures
        printed_args(ast, Seq::empty(), bound, ind) == Seq::<char>::empty(),
        printed_args(ast, seq![e], bound, ind) == printed_sub(ast, e, bound, ind),
        a.len() > 0 && b.len() > 0 ==> printed_args(ast, a + b, bound, ind) == printed_args(ast, a, bound, ind)
            + argument_separator() + printed_args(ast, b, bound, ind),
    decreases b.len(),
{
    assert(printed_args(ast, Seq::empty(), bound, ind) == Seq::<char>::empty());
    let one = seq![e];
    assert(one.drop_last() =~= Seq::<ExprId>::empty());
    assert(printed_args(ast, one, bound, ind) =~= printed_sub(ast, e, bound, ind));
    if a.len() > 0 && b.len() > 0 {
        let last = seq![b.last()];
        assert(last.drop_last() =~= Seq::<ExprId>::empty());
        assert(printed_args(ast, last, bound, ind) =~= printed_sub(ast, b.last(), bound, ind));
        let ab = a + b;
        assert(ab.last() == b.last());
        if b.len() == 1 {
            assert(ab.drop_last() =~= a);
            assert(b =~= last);
            assert(printed_args(ast, ab, bound, ind) =~= printed_args(ast, a, bound, ind) + argument_separator()
                + printed_sub(ast, b.last(), bound, ind));
        } else {
            assert(ab.drop_last() =~= a + b.drop_last());
            lemma_printed_args_join(ast, a, b.drop_last(), e, bound, ind);
            assert(printed_args(ast, ab, bound, ind) =~= printed_args(ast, a, bound, ind) + argument_separator()
                + printed_args(ast, b, bound, ind));
        }
    }
}

/// The lines of the statements `stmts`, whose expressions lie below `bound`.
pub open spec fn printed_stmts(ast: Ast, stmts: Seq<StmtId>, bound: int, ind: nat) -> Seq<char>
    decreases bound, 2int, stmts.len(),
{
    if stmts.len() == 0 {
        Seq::empty()
    } else {
        printed_stmts(ast, stmts.drop_last(), bound, ind) + printed_stmt_line(
            ast,
            stmts.last().idx as int,
            bound,
            ind,
        )
    }
}

/// The text of the statement at position `s` of `ast`, whose expressions lie below `bound`.
pub open spec fn printed_stmt(ast: Ast, s: int, bound: int, ind: nat) -> Seq<char>
    decreases bound, 1int, 0int,
{
    if 0 <= s < ast.statements@.len() {
        match ast.statements@[s].kind {
            StmtKind::Expr(e) => printed_sub(ast, e, bound, ind),
            StmtKind::Let(l) => keyword_color() + "let"@ + seq![' '] + text_color()
                + l.identifier.span.literal@ + match l.type_annotation {
                Some(t) => annotation_text(t),
                None => Seq::empty(),
            } + seq![' '] + text_color() + "="@ + seq![' '] + printed_sub(ast, l.initializer, bound, ind),
            StmtKind::While(w) => keyword_color() + "while"@ + seq![' '] + printed_sub(
                ast,
                w.condition,
                bound,
                ind,
            ) + seq![' '] + printed_sub(ast, w.body, bound, ind),
            StmtKind::Return(r) => keyword_color() + "return"@ + match r.return_value {
                Some(v) => seq![' '] + printed_sub(ast, v, bound, ind),
                None => Seq::empty(),
            },
        }
    } else {
        Seq::empty()
    }
}

/// The line of the statement at position `s` of `ast`, whose expressions lie
/// below `bound`: indentation, the statement, a colour reset and a newline.
pub open spec fn printed_stmt_line(ast: Ast, s: int, bound: int, ind: nat) -> Seq<char>
    decreases bound, 1int, 1int,
{
    indent_text(ind) + printed_stmt(ast, s, bound, ind) + reset_sequence() + seq!['\n']
}

/// The text of a function declaration of `ast`, at indentation `ind`.
pub open spec fn printed_func(ast: Ast, f: FunctionDeclaration, ind: nat) -> Seq<char> {
    keyword_color() + "func"@ + seq![' '] + text_color() + f.identifier.span.literal@
        + text_color() + "("@ + params_text(f.parameters@) + text_color() + ")"@ + seq![' ']
        + match f.return_type {
        Some(t) => text_color() + "->"@ + seq![' '] + type_color() + t.type_ident.span.literal@
            + seq![' '],
        None => Seq::empty(),
    } + printed_stmt_line(ast, f.body.idx as int, ast.expressions@.len() as int, ind)
}

/// The text of the item at position `k` of `ast`, at indentation `ind`.
pub open spec fn printed_item(ast: Ast, k: int, ind: nat) -> Seq<char> {
    match ast.items@[k].kind {
        ItemKind::Func(f) => printed_func(ast, f, ind),
        ItemKind::Stmt(s) => printed_stmt_line(
            ast,
            s.idx as int,
            ast.expressions@.len() as int,
            ind,
        ),
    }
}

/// The text of the first `n` items of `ast`, one after the other.
pub open spec fn printed_items(ast: Ast, n: int) -> Seq<char>
    decreases n,
{
    if n <= 0 {
        Seq::empty()
    } else {
        printed_items(ast, n - 1) + printed_item(ast, n - 1, 0)
    }
}

// ---------------------------------------------------------------------------
// Writing numbers.

/// Appends `n` in decimal.
fn push_decimal(s: &mut String, n: u64)
    ensures
        final(s)@ == old(s)@ + decimal_text(n as nat),
    decreases n,
{
    if n >= 10 {
        push_decimal(s, n / 10);
    }
    let d = digit_char((n % 10) as usize);
    push_char(s, d);
    assert(final(s)@ == old(s)@ + decimal_text(n as nat)) by {
        if n < 10 {
            assert(decimal_text(n as nat) =~= seq![(('0' as nat) + n) as char]);
        }
    }
}

/// Appends `n` in decimal, with a leading `-` when it is negative.
fn push_integer(s: &mut String, n: i64)
    ensures
        final(s)@ == old(s)@ + integer_text(n as int),
{
    if n < 0 {
        push_char(s, '-');
        let magnitude = (-(n as i128)) as u64;
        push_decimal(s, magnitude);
    } else {
        push_decimal(s, n as u64);
    }
}

// ---------------------------------------------------------------------------
// The printer.

/// A visitor that writes a syntax tree back out as coloured source text.
pub struct Printer {
    indent: usize,
    pub result: String,
}

impl Printer {
    /// What has been written so far.
    pub closed spec fn text(&self) -> Seq<char> {
        self.result@
    }

    /// The current level of indentation.
    pub closed spec fn depth(&self) -> nat {
        self.indent as nat
    }

    fn add_whitespace(&mut self)
        ensures
            final(self).text() == old(self).text().push(' '),
            final(self).depth() == old(self).depth(),
    {
        push_char(&mut self.result, ' ');
    }

    fn add_newline(&mut self)
        ensures
            final(self).text() == old(self).text().push('\n'),
            final(self).depth() == old(self).depth(),
    {
        push_char(&mut self.result, '\n');
    }

    fn add_keyword(&mut self, keyword: &str)
        ensures
            final(self).text() == old(self).text() + keyword_color() + keyword@,
            final(self).depth() == old(self).depth(),
    {
        push_str(&mut self.result, blue_fg());
        push_str(&mut self.result, keyword);
    }

    fn add_text(&mut self, text: &str)
        ensures
            final(self).text() == old(self).text() + text_color() + text@,
            final(self).depth() == old(self).depth(),
    {
        push_str(&mut self.result, light_white_fg());
        push_str(&mut self.result, text);
    }

    fn add_variable(&mut self, variable: &str)
        ensures
            final(self).text() == old(self).text() + variable_color() + variable@,
            final(self).depth() == old(self).depth(),
    {
        push_str(&mut self.result, green_fg());
        push_str(&mut self.result, variable);
    }

    fn add_indent(&mut self)
        ensures
            final(self).text() == old(self).text() + indent_text(old(self).depth()),
            final(self).depth() == old(self).depth(),
    {
        let ghost start = self.result@;
        let n = self.indent;
        for i in 0..n
            invariant
                n == self.indent,
                self.result@ == start + indent_text(i as nat),
        {
            push_char(&mut self.result, ' ');
            push_char(&mut self.result, ' ');
            assert(self.result@ =~= start + indent_text((i + 1) as nat));
        }
    }

    fn add_boolean_literal(&mut self, boolean: bool)
        ensures
            final(self).text() == old(self).text() + boolean_color() + boolean_text(boolean),
            final(self).depth() == old(self).depth(),
    {
        push_str(&mut self.result, light_magenta_fg());
        if boolean {
            push_str(&mut self.result, "true");
        } else {
            push_str(&mut self.result, "false");
        }
    }

    fn add_type(&mut self, type_ident_text: &str)
        ensures
            final(self).text() == old(self).text() + type_color() + type_ident_text@,
            final(self).depth() == old(self).depth(),
    {
        push_str(&mut self.result, light_yellow_fg());
        push_str(&mut self.result, type_ident_text);
    }

    fn add_type_annotation(&mut self, type_annotation: &StaticTypeAnnotation)
        ensures
            final(self).text() == old(self).text() + annotation_text(*type_annotation),
            final(self).depth() == old(self).depth(),
    {
        let ghost start = self.result@;
        self.add_text(":");
        self.add_whitespace();
        self.add_type(type_annotation.type_ident.span.literal.as_str());
        assert(self.result@ =~= start + annotation_text(*type_annotation));
    }

    /// A printer with nothing written yet, at no indentation.
    pub fn new() -> (r: Self)
        ensures
            r.text() == Seq::<char>::empty(),
            r.depth() == 0,
    {
        Printer { indent: 0, result: String::new() }
    }
}

impl Printer {
    /// Writes the expression `id` of `ast`.
    pub fn visit_expr(&mut self, ast: &Ast, id: ExprId)
        requires
            ast.wf(),
            id.idx < ast.expressions@.len(),
            old(self).depth() + id.idx < usize::MAX,
        ensures
            final(self).text() == old(self).text() + printed_expr(*ast, id.idx as int, old(self).depth()),
            final(self).depth() == old(self).depth(),
        decreases id.idx, 4nat,
    {
        let expr = ast.query_expr(id);
        match &expr.kind {
            ExprKind::Number(number) => {
                push_str(&mut self.result, magenta_fg());
                push_integer(&mut self.result, number.number);
            },
            ExprKind::Binary(binary) => self.visit_binary_expression(ast, id, binary),
            ExprKind::Unary(unary) => self.visit_unary_expression(ast, id, unary),
            ExprKind::Parenthesized(parenthesized) => self.visit_parenthesized_expression(ast, id, parenthesized),
            ExprKind::Variable(variable) => {
                self.add_variable(variable.identifier.span.literal.as_str());
            },
            ExprKind::Assignment(assignment) => self.visit_assignment_expression(ast, id, assignment),
            ExprKind::Boolean(boolean) => self.add_boolean_literal(boolean.value),
            ExprKind::Call(call) => self.visit_call_expression(ast, id, call),
            ExprKind::If(if_expr) => self.visit_if_expr(ast, id, if_expr),
            ExprKind::Block(block) => self.visit_block_expr(ast, id, block),
            ExprKind::Error(span) => self.add_text(span.literal.as_str()),
        }
    }

    fn visit_binary_expression(&mut self, ast: &Ast, id: ExprId, binary_expression: &crate::ast::BinaryExpr)
        requires
            ast.wf(),
            id.idx < ast.expressions@.len(),
            ast.expressions@[id.idx as int].kind == ExprKind::Binary(*binary_expression),
            old(self).depth() + id.idx < usize::MAX,
        ensures
            final(self).text() == old(self).text() + printed_expr(*ast, id.idx as int, old(self).depth()),
            final(self).depth() == old(self).depth(),
        decreases id.idx, 3nat,
    {
        let ghost start = self.text();
        let ghost kind = ast.expressions@[id.idx as int].kind;
        assert(ast.expr_kind_ok(kind, id.idx as nat));
        assert(expr_children(kind)[0] == binary_expression.left);
        assert(expr_children(kind)[1] == binary_expression.right);
        self.visit_expr(ast, binary_expression.left);
        self.add_whitespace();
        self.add_text(binary_expression.operator.token.span.literal.as_str());
        self.add_whitespace();
        self.visit_expr(ast, binary_expression.right);
        assert(self.text() =~= start + printed_expr(*ast, id.idx as int, self.depth()));
    }

    fn visit_unary_expression(&mut self, ast: &Ast, id: ExprId, unary_expression: &crate::ast::UnaryExpr)
        requires
            ast.wf(),
            id.idx < ast.expressions@.len(),
            ast.expressions@[id.idx as int].kind == ExprKind::Unary(*unary_expression),
            old(self).depth() + id.idx < usize::MAX,
        ensures
            final(self).text() == old(self).text() + printed_expr(*ast, id.idx as int, old(self).depth()),
            final(self).depth() == old(self).depth(),
        decreases id.idx, 3nat,
    {
        let ghost start = self.text();
        let ghost kind = ast.expressions@[id.idx as int].kind;
        assert(ast.expr_kind_ok(kind, id.idx as nat));
        assert(expr_children(kind)[0] == unary_expression.operand);
        self.add_text(unary_expression.operator.token.span.literal.as_str());
        self.visit_expr(ast, unary_expression.operand);
        assert(self.text() =~= start + printed_expr(*ast, id.idx as int, self.depth()));
    }

    fn visit_parenthesized_expression(
        &mut self,
        ast: &Ast,
        id: ExprId,
        parenthesized_expression: &crate::ast::ParenthesizedExpr,
    )
        requires
            ast.wf(),
            id.idx < ast.expressions@.len(),
            ast.expressions@[id.idx as int].kind == ExprKind::Parenthesized(*parenthesized_expression),
            old(self).depth() + id.idx < usize::MAX,
        ensures
            final(self).text() == old(self).text() + printed_expr(*ast, id.idx as int, old(self).depth()),
            final(self).depth() == old(self).depth(),
        decreases id.idx, 3nat,
    {
        let ghost start = self.text();
        let ghost kind = ast.expressions@[id.idx as int].kind;
        assert(ast.expr_kind_ok(kind, id.idx as nat));
        assert(expr_children(kind)[0] == parenthesized_expression.expression);
        self.add_text("(");
        self.visit_expr(ast, parenthesized_expression.expression);
        self.add_text(")");
        assert(self.text() =~= start + printed_expr(*ast, id.idx as int, self.depth()));
    }

    fn visit_assignment_expression(
        &mut self,
        ast: &Ast,
        id: ExprId,
        assignment_expression: &crate::ast::AssignmentExpr,
    )
        requires
            ast.wf(),
            id.idx < ast.expressions@.len(),
            ast.expressions@[id.idx as int].kind == ExprKind::Assignment(*assignment_expression),
            old(self).depth() + id.idx < usize::MAX,
        ensures
            final(self).text() == old(self).text() + printed_expr(*ast, id.idx as int, old(self).depth()),
            final(self).depth() == old(self).depth(),
        decreases id.idx, 3nat,
    {
        let ghost start = self.text();
        let ghost kind = ast.expressions@[id.idx as int].kind;
        assert(ast.expr_kind_ok(kind, id.idx as nat));
        assert(expr_children(kind)[0] == assignment_expression.expression);
        self.add_variable(assignment_expression.identifier.span.literal.as_str());
        self.add_whitespace();
        self.add_text("=");
        self.add_whitespace();
        self.visit_expr(ast, assignment_expression.expression);
        assert(self.text() =~= start + printed_expr(*ast, id.idx as int, self.depth()));
    }

    fn visit_call_expression(&mut self, ast: &Ast, id: ExprId, call_expression: &crate::ast::CallExpr)
        requires
            ast.wf(),
            id.idx < ast.expressions@.len(),
            ast.expressions@[id.idx as int].kind == ExprKind::Call(*call_expression),
            old(self).depth() + id.idx < usize::MAX,
        ensures
            final(self).text() == old(self).text() + printed_expr(*ast, id.idx as int, old(self).depth()),
            final(self).depth() == old(self).depth(),
        decreases id.idx, 3nat,
    {
        let ghost start = self.text();
        let ghost i = id.idx as int;
        let ghost kind = ast.expressions@[i].kind;
        let ghost d = self.depth();
        assert(ast.expr_kind_ok(kind, i as nat));
        self.add_text(call_expression.identifier.span.literal.as_str());
        self.add_text("(");
        let ghost head = self.text();
        let n = call_expression.arguments.len();
        for k in 0..n
            invariant
                ast.wf(),
                0 <= i < ast.expressions@.len(),
                i == id.idx,
                kind == ast.expressions@[i].kind,
                kind == ExprKind::Call(*call_expression),
                ast.expr_kind_ok(kind, i as nat),
                n == call_expression.arguments@.len(),
                self.depth() == d,
                d + i < usize::MAX,
                self.text() == head + printed_args(*ast, call_expression.arguments@.subrange(0, k as int), i, d),
        {
            if k != 0 {
                self.add_text(",");
                self.add_whitespace();
            }
            let argument = call_expression.arguments[k];
            assert(expr_children(kind)[k as int] == argument);
            self.visit_expr(ast, argument);
            let ghost args = call_expression.arguments@.subrange(0, k + 1);
            assert(args.drop_last() =~= call_expression.arguments@.subrange(0, k as int));
            assert(args.last() == argument);
            assert(printed_sub(*ast, argument, i, d) == printed_expr(*ast, argument.idx as int, d));
            assert(printed_args(*ast, args, i, d) == printed_args(*ast, args.drop_last(), i, d) + (if args.len() > 1 {
                text_color() + ","@ + seq![' ']
            } else {
                Seq::empty()
            }) + printed_sub(*ast, args.last(), i, d));
            assert(self.text() =~= head + printed_args(*ast, args, i, d));
        }
        assert(call_expression.arguments@.subrange(0, n as int) =~= call_expression.arguments@);
        self.add_text(")");
        assert(self.text() =~= start + printed_expr(*ast, i, d));
    }

    fn visit_if_expr(&mut self, ast: &Ast, id: ExprId, if_expression: &crate::ast::IfExpr)
        requires
            ast.wf(),
            id.idx < ast.expressions@.len(),
            ast.expressions@[id.idx as int].kind == ExprKind::If(*if_expression),
            old(self).depth() + id.idx < usize::MAX,
        ensures
            final(self).text() == old(self).text() + printed_expr(*ast, id.idx as int, old(self).depth()),
            final(self).depth() == old(self).depth(),
        decreases id.idx, 3nat,
    {
        let ghost start = self.text();
        let ghost kind = ast.expressions@[id.idx as int].kind;
        assert(ast.expr_kind_ok(kind, id.idx as nat));
        assert(expr_children(kind)[0] == if_expression.condition);
        assert(expr_children(kind)[1] == if_expression.then_branch);
        self.add_keyword("if");
        self.add_whitespace();
        self.visit_expr(ast, if_expression.condition);
        self.add_whitespace();
        self.visit_expr(ast, if_expression.then_branch);
        if let Some(else_branch) = &if_expression.else_branch {
            assert(expr_children(kind)[2] == else_branch.expr);
            self.add_keyword("else");
            self.add_whitespace();
            self.visit_expr(ast, else_branch.expr);
        }
        assert(self.text() =~= start + printed_expr(*ast, id.idx as int, self.depth()));
    }

    fn visit_block_expr(&mut self, ast: &Ast, id: ExprId, block_statement: &crate::ast::BlockExpr)
        requires
            ast.wf(),
            id.idx < ast.expressions@.len(),
            ast.expressions@[id.idx as int].kind == ExprKind::Block(*block_statement),
            old(self).depth() + id.idx < usize::MAX,
        ensures
            final(self).text() == old(self).text() + printed_expr(*ast, id.idx as int, old(self).depth()),
            final(self).depth() == old(self).depth(),
        decreases id.idx, 3nat,
    {
        let ghost start = self.text();
        let ghost i = id.idx as int;
        let ghost kind = ast.expressions@[i].kind;
        let ghost d = self.depth();
        assert(ast.expr_kind_ok(kind, i as nat));
        self.add_text("{");
        self.add_newline();
        self.indent = self.indent + 1;
        let ghost head = self.text();
        let n = block_statement.stmts.len();
        for k in 0..n
            invariant
                ast.wf(),
                0 <= i < ast.expressions@.len(),
                i == id.idx,
                kind == ast.expressions@[i].kind,
                kind == ExprKind::Block(*block_statement),
                ast.expr_kind_ok(kind, i as nat),
                n == block_statement.stmts@.len(),
                self.depth() == d + 1,
                d + i < usize::MAX,
                self.text() == head + printed_stmts(*ast, block_statement.stmts@.subrange(0, k as int), i, d + 1),
        {
            let statement = block_statement.stmts[k];
            assert(expr_stmt_children(kind)[k as int] == statement);
            self.visit_stmt(ast, statement, Ghost(i as nat));
            let ghost stmts = block_statement.stmts@.subrange(0, k + 1);
            assert(stmts.drop_last() =~= block_statement.stmts@.subrange(0, k as int));
            assert(self.text() =~= head + printed_stmts(*ast, stmts, i, d + 1));
        }
        assert(block_statement.stmts@.subrange(0, n as int) =~= block_statement.stmts@);
        self.indent = self.indent - 1;
        self.add_indent();
        self.add_text("}");
        assert(self.text() =~= start + printed_expr(*ast, i, d));
    }

    /// Writes the statement `sid` of `ast` on a line of its own, indented;
    /// its expressions lie below `bound`.
    pub fn visit_stmt(&mut self, ast: &Ast, sid: StmtId, Ghost(bound): Ghost<nat>)
        requires
            ast.wf(),
            sid.idx < ast.statements@.len(),
            stmt_below(ast.statements@[sid.idx as int].kind, bound),
            bound <= ast.expressions@.len(),
            old(self).depth() + bound <= usize::MAX,
        ensures
            final(self).text() == old(self).text() + printed_stmt_line(
                *ast,
                sid.idx as int,
                bound as int,
                old(self).depth(),
            ),
            final(self).depth() == old(self).depth(),
        decreases bound, 2nat,
    {
        let ghost start = self.text();
        self.add_indent();
        self.do_visit_statement(ast, sid, Ghost(bound));
        push_str(&mut self.result, reset_fg());
        push_char(&mut self.result, '\n');
        assert(self.text() =~= start + printed_stmt_line(*ast, sid.idx as int, bound as int, self.depth()));
    }

    fn do_visit_statement(&mut self, ast: &Ast, sid: StmtId, Ghost(bound): Ghost<nat>)
        requires
            ast.wf(),
            sid.idx < ast.statements@.len(),
            stmt_below(ast.statements@[sid.idx as int].kind, bound),
            bound <= ast.expressions@.len(),
            old(self).depth() + bound <= usize::MAX,
        ensures
            final(self).text() == old(self).text() + printed_stmt(
                *ast,
                sid.idx as int,
                bound as int,
                old(self).depth(),
            ),
            final(self).depth() == old(self).depth(),
        decreases bound, 1nat,
    {
        let ghost start = self.text();
        let ghost kind = ast.statements@[sid.idx as int].kind;
        let statement = ast.query_stmt(sid);
        match &statement.kind {
            StmtKind::Expr(expr) => {
                assert(stmt_children(kind)[0] == *expr);
                self.visit_expr(ast, *expr);
            },
            StmtKind::Let(let_statement) => self.visit_let_statement(ast, sid, let_statement, Ghost(bound)),
            StmtKind::While(while_statement) => self.visit_while_statement(ast, sid, while_statement, Ghost(bound)),
            StmtKind::Return(return_statement) => self.visit_return_statement(ast, sid, return_statement, Ghost(bound)),
        }
        assert(self.text() =~= start + printed_stmt(*ast, sid.idx as int, bound as int, self.depth()));
    }

    fn visit_let_statement(&mut self, ast: &Ast, sid: StmtId, let_statement: &crate::ast::LetStmt, Ghost(bound): Ghost<nat>)
        requires
            ast.wf(),
            sid.idx < ast.statements@.len(),
            ast.statements@[sid.idx as int].kind == StmtKind::Let(*let_statement),
            stmt_below(ast.statements@[sid.idx as int].kind, bound),
            bound <= ast.expressions@.len(),
            old(self).depth() + bound <= usize::MAX,
        ensures
            final(self).text() == old(self).text() + printed_stmt(
                *ast,
                sid.idx as int,
                bound as int,
                old(self).depth(),
            ),
            final(self).depth() == old(self).depth(),
        decreases bound, 0nat,
    {
        let ghost start = self.text();
        let ghost kind = ast.statements@[sid.idx as int].kind;
        assert(stmt_children(kind)[0] == let_statement.initializer);
        self.add_keyword("let");
        self.add_whitespace();
        self.add_text(let_statement.identifier.span.literal.as_str());
        if let Some(type_annotation) = &let_statement.type_annotation {
            self.add_type_annotation(type_annotation);
        }
        self.add_whitespace();
        self.add_text("=");
        self.add_whitespace();
        self.visit_expr(ast, let_statement.initializer);
        assert(self.text() =~= start + printed_stmt(*ast, sid.idx as int, bound as int, self.depth()));
    }

    fn visit_while_statement(&mut self, ast: &Ast, sid: StmtId, while_statement: &crate::ast::WhileStmt, Ghost(bound): Ghost<nat>)
        requires
            ast.wf(),
            sid.idx < ast.statements@.len(),
            ast.statements@[sid.idx as int].kind == StmtKind::While(*while_statement),
            stmt_below(ast.statements@[sid.idx as int].kind, bound),
            bound <= ast.expressions@.len(),
            old(self).depth() + bound <= usize::MAX,
        ensures
            final(self).text() == old(self).text() + printed_stmt(
                *ast,
                sid.idx as int,
                bound as int,
                old(self).depth(),
            ),
            final(self).depth() == old(self).depth(),
        decreases bound, 0nat,
    {
        let ghost start = self.text();
        let ghost kind = ast.statements@[sid.idx as int].kind;
        assert(stmt_children(kind)[0] == while_statement.condition);
        assert(stmt_children(kind)[1] == while_statement.body);
        self.add_keyword("while");
        self.add_whitespace();
        self.visit_expr(ast, while_statement.condition);
        self.add_whitespace();
        self.visit_expr(ast, while_statement.body);
        assert(self.text() =~= start + printed_stmt(*ast, sid.idx as int, bound as int, self.depth()));
    }

    fn visit_return_statement(&mut self, ast: &Ast, sid: StmtId, return_statement: &crate::ast::ReturnStmt, Ghost(bound): Ghost<nat>)
        requires
            ast.wf(),
            sid.idx < ast.statements@.len(),
            ast.statements@[sid.idx as int].kind == StmtKind::Return(*return_statement),
            stmt_below(ast.statements@[sid.idx as int].kind, bound),
            bound <= ast.expressions@.len(),
            old(self).depth() + bound <= usize::MAX,
        ensures
            final(self).text() == old(self).text() + printed_stmt(
                *ast,
                sid.idx as int,
                bound as int,
                old(self).depth(),
            ),
            final(self).depth() == old(self).depth(),
        decreases bound, 0nat,
    {
        let ghost start = self.text();
        let ghost kind = ast.statements@[sid.idx as int].kind;
        self.add_keyword("return");
        if let Some(expr) = &return_statement.return_value {
            assert(stmt_children(kind)[0] == *expr);
            self.add_whitespace();
            self.visit_expr(ast, *expr);
        }
        assert(self.text() =~= start + printed_stmt(*ast, sid.idx as int, bound as int, self.depth()));
    }

    fn add_parameters(&mut self, parameters: &Vec<FuncDeclParameter>)
        ensures
            final(self).text() == old(self).text() + params_text(parameters@),
            final(self).depth() == old(self).depth(),
    {
        let ghost head = self.text();
        let ghost d = self.depth();
        let n = parameters.len();
        for k in 0..n
            invariant
                n == parameters@.len(),
                self.depth() == d,
                self.text() == head + params_text(parameters@.subrange(0, k as int)),
        {
            if k != 0 {
                self.add_text(",");
                self.add_whitespace();
            }
            let parameter = &parameters[k];
            self.add_text(parameter.identifier.span.literal.as_str());
            self.add_type_annotation(&parameter.type_annotation);
            let ghost ps = parameters@.subrange(0, k + 1);
            assert(ps.drop_last() =~= parameters@.subrange(0, k as int));
            assert(self.text() =~= head + params_text(ps));
        }
        assert(parameters@.subrange(0, n as int) =~= parameters@);
    }

    /// Writes the declaration of the function `func_decl_statement` of `ast`.
    #[verifier::spinoff_prover]
    #[verifier::rlimit(40)]
    pub fn visit_func_decl_statement(&mut self, ast: &Ast, func_decl_statement: &FunctionDeclaration)
        requires
            ast.wf(),
            func_decl_statement.body.idx < ast.statements@.len(),
            old(self).depth() + ast.expressions@.len() <= usize::MAX,
        ensures
            final(self).text() == old(self).text() + printed_func(*ast, *func_decl_statement, old(self).depth()),
            final(self).depth() == old(self).depth(),
    {
        let ghost start = self.text();
        let ghost d = self.depth();
        self.add_keyword("func");
        self.add_whitespace();
        self.add_text(func_decl_statement.identifier.span.literal.as_str());
        self.add_text("(");
        self.add_parameters(&func_decl_statement.parameters);
        self.add_text(")");
        self.add_whitespace();
        if let Some(return_type) = &func_decl_statement.return_type {
            self.add_text("->");
            self.add_whitespace();
            self.add_type(return_type.type_ident.span.literal.as_str());
            self.add_whitespace();
        }
        let body = func_decl_statement.body;
        self.visit_stmt(ast, body, Ghost(ast.expressions@.len()));
        assert(self.text() =~= start + printed_func(*ast, *func_decl_statement, d));
    }

    /// Writes the item `item_id` of `ast`.
    pub fn visit_item(&mut self, ast: &Ast, item_id: ItemId)
        requires
            ast.wf(),
            item_id.idx < ast.items@.len(),
            old(self).depth() + ast.expressions@.len() <= usize::MAX,
        ensures
            final(self).text() == old(self).text() + printed_item(*ast, item_id.idx as int, old(self).depth()),
            final(self).depth() == old(self).depth(),
    {
        let item = ast.query_item(item_id);
        assert(ast.item_kind_ok(item.kind));
        match &item.kind {
            ItemKind::Func(func) => self.visit_func_decl_statement(ast, func),
            ItemKind::Stmt(statement) => self.visit_stmt(ast, *statement, Ghost(ast.expressions@.len())),
        }
    }
}

impl Ast {
    /// The whole tree written back out as coloured source text, item after item.
    pub fn visualize(&self) -> (r: String)
        requires
            self.wf(),
        ensures
            r@ == printed_items(*self, self.items@.len() as int),
    {
        let mut printer = Printer::new();
        let n = self.items.len();
        let m = self.expressions.len();
        for k in 0..n
            invariant
                self.wf(),
                m == self.expressions@.len(),
                n == self.items@.len(),
                printer.depth() == 0,
                printer.text() == printed_items(*self, k as int),
        {
            printer.visit_item(self, ItemId { idx: k });
        }
        printer.result
    }
}

} // verus!
