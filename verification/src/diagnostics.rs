//! Error and warning messages about a program, with the spans they concern.

use vstd::prelude::*;

use crate::ast::lexer::{Token, TokenKind, token_kind_text};
use crate::text::TextSpan;
use crate::typings::{Type, type_text};

verus! {

#[derive(Debug, Clone, Copy, PartialEq, Eq, Structural)]
pub enum DiagnosticKind {
    Error,
    Warning,
}

/// A message about a span of the program.
#[derive(Debug)]
pub struct Diagnostic {
    pub message: String,
    pub span: TextSpan,
    pub kind: DiagnosticKind,
}

impl Diagnostic {
    pub fn new(message: String, span: TextSpan, kind: DiagnosticKind) -> (r: Self)
        ensures
            r.message == message,
            r.span == span,
            r.kind == kind,
    {
        Diagnostic { message, span, kind }
    }
}

/// The decimal digits of `n`.
pub open spec fn decimal_text(n: nat) -> Seq<char>
    decreases n,
{
    if n < 10 {
        seq![(('0' as nat) + n) as char]
    } else {
        decimal_text(n / 10).push((('0' as nat) + n % 10) as char)
    }
}

/// The decimal digit `d`.
pub(crate) fn digit_char(d: usize) -> (r: char)
    requires
        d < 10,
    ensures
        r == (('0' as nat) + d) as char,
{
    match d {
        0 => '0',
        1 => '1',
        2 => '2',
        3 => '3',
        4 => '4',
        5 => '5',
        6 => '6',
        7 => '7',
        8 => '8',
        _ => '9',
    }
}

/// `n` written in decimal, with no sign and no leading zeros.
fn format_usize(n: usize) -> (r: String)
    ensures
        r@ == decimal_text(n as nat),
    decreases n,
{
    if n < 10 {
        let mut s = String::new();
        crate::text::push_char(&mut s, digit_char(n));
        assert(s@ =~= decimal_text(n as nat));
        s
    } else {
        let mut s = format_usize(n / 10);
        crate::text::push_char(&mut s, digit_char(n % 10));
        s
    }
}

/// The text of a diagnostic: a message and what it concerns.
pub open spec fn message_model(d: Diagnostic) -> (DiagnosticKind, Seq<char>, crate::text::SpanModel) {
    (d.kind, d.message@, d.span.model())
}

/// What a report says: its kind, its message and the span it concerns.
pub type Report = (DiagnosticKind, Seq<char>, crate::text::SpanModel);

/// What each of the diagnostics `ds` says, in order.
pub open spec fn diagnostic_models(ds: Seq<Diagnostic>) -> Seq<Report> {
    ds.map_values(|d: Diagnostic| message_model(d))
}

/// Adding a diagnostic adds what it says.
pub proof fn lemma_diagnostic_models_push(ds: Seq<Diagnostic>, es: Seq<Diagnostic>)
    requires
        es.len() == ds.len() + 1,
        es.drop_last() == ds,
    ensures
        diagnostic_models(es) == diagnostic_models(ds).push(message_model(es.last())),
{
    assert(diagnostic_models(es) =~= diagnostic_models(ds).push(message_model(es.last())));
}

/// The report that a token of kind `expected` was wanted where `found` stands.
pub open spec fn unexpected_token_report(expected: TokenKind, found: Token) -> Report {
    (
        DiagnosticKind::Error,
        "Expected <"@ + token_kind_text(expected) + ">, found <"@ + token_kind_text(found.kind) + ">"@,
        found.span.model(),
    )
}

/// The report that `found` stands where an expression should.
pub open spec fn expected_expression_report(found: Token) -> Report {
    (DiagnosticKind::Error, "Expected expression, found <"@ + token_kind_text(found.kind) + ">"@, found.span.model())
}

/// The diagnostics reported about a program, in the order they were reported.
#[derive(Debug)]
pub struct DiagnosticsList {
    pub diagnostics: Vec<Diagnostic>,
}

impl DiagnosticsList {
    pub fn new() -> (r: Self)
        ensures
            r.diagnostics@.len() == 0,
    {
        DiagnosticsList { diagnostics: Vec::new() }
    }

    pub fn report_error(&mut self, message: String, span: TextSpan)
        ensures
            final(self).diagnostics@ == old(self).diagnostics@.push(
                Diagnostic { message, span, kind: DiagnosticKind::Error },
            ),
    {
        let error = Diagnostic::new(message, span, DiagnosticKind::Error);
        self.diagnostics.push(error);
    }

    pub fn report_warning(&mut self, message: String, span: TextSpan)
        ensures
            final(self).diagnostics@ == old(self).diagnostics@.push(
                Diagnostic { message, span, kind: DiagnosticKind::Warning },
            ),
    {
        let warning = Diagnostic::new(message, span, DiagnosticKind::Warning);
        self.diagnostics.push(warning);
    }

    /// Reports that `token` stands where a token of kind `expected` should.
    pub fn report_unexpected_token(&mut self, expected: &TokenKind, token: &Token)
        ensures
            final(self).diagnostics@.len() == old(self).diagnostics@.len() + 1,
            final(self).diagnostics@.drop_last() == old(self).diagnostics@,
            final(self).diagnostics@.last().kind == DiagnosticKind::Error,
            final(self).diagnostics@.last().span == token.span,
            final(self).diagnostics@.last().message@ == "Expected <"@ + token_kind_text(*expected)
                + ">, found <"@ + token_kind_text(token.kind) + ">"@,
    {
        let mut message = String::from_str("Expected <");
        message.append(expected.to_display_string().as_str());
        message.append(">, found <");
        message.append(token.kind.to_display_string().as_str());
        message.append(">");
        self.report_error(message, token.span.clone());
        assert(self.diagnostics@.drop_last() =~= old(self).diagnostics@);
    }

    /// Reports that `token` stands where an expression should.
    pub fn report_expected_expression(&mut self, token: &Token)
        ensures
            final(self).diagnostics@.len() == old(self).diagnostics@.len() + 1,
            final(self).diagnostics@.drop_last() == old(self).diagnostics@,
            final(self).diagnostics@.last().kind == DiagnosticKind::Error,
            final(self).diagnostics@.last().span == token.span,
            final(self).diagnostics@.last().message@ == "Expected expression, found <"@
                + token_kind_text(token.kind) + ">"@,
    {
        let mut message = String::from_str("Expected expression, found <");
        message.append(token.kind.to_display_string().as_str());
        message.append(">");
        self.report_error(message, token.span.clone());
        assert(self.diagnostics@.drop_last() =~= old(self).diagnostics@);
    }

    /// Reports a use of a variable that was not declared.
    pub fn report_undeclared_variable(&mut self, token: &Token)
        ensures
            final(self).diagnostics@.len() == old(self).diagnostics@.len() + 1,
            final(self).diagnostics@.drop_last() == old(self).diagnostics@,
            final(self).diagnostics@.last().kind == DiagnosticKind::Error,
            final(self).diagnostics@.last().span == token.span,
            final(self).diagnostics@.last().message@ == "Undeclared variable '"@
                + token.span.literal@ + "'"@,
    {
        let mut message = String::from_str("Undeclared variable '");
        message.append(token.span.literal.as_str());
        message.append("'");
        self.report_error(message, token.span.clone());
        assert(self.diagnostics@.drop_last() =~= old(self).diagnostics@);
    }

    /// Reports a call of a function that was not declared.
    pub fn report_undeclared_function(&mut self, token: &Token)
        ensures
            final(self).diagnostics@.len() == old(self).diagnostics@.len() + 1,
            final(self).diagnostics@.drop_last() == old(self).diagnostics@,
            final(self).diagnostics@.last().kind == DiagnosticKind::Error,
            final(self).diagnostics@.last().span == token.span,
            final(self).diagnostics@.last().message@ == "Undeclared function '"@
                + token.span.literal@ + "'"@,
    {
        let mut message = String::from_str("Undeclared function '");
        message.append(token.span.literal.as_str());
        message.append("'");
        self.report_error(message, token.span.clone());
        assert(self.diagnostics@.drop_last() =~= old(self).diagnostics@);
    }

    /// Reports a type name that denotes no type.
    pub fn report_undeclared_type(&mut self, token: &Token)
        ensures
            final(self).diagnostics@.len() == old(self).diagnostics@.len() + 1,
            final(self).diagnostics@.drop_last() == old(self).diagnostics@,
            final(self).diagnostics@.last().kind == DiagnosticKind::Error,
            final(self).diagnostics@.last().span == token.span,
            final(self).diagnostics@.last().message@ == "Undeclared type '"@ + token.span.literal@
                + "'"@,
    {
        let mut message = String::from_str("Undeclared type '");
        message.append(token.span.literal.as_str());
        message.append("'");
        self.report_error(message, token.span.clone());
        assert(self.diagnostics@.drop_last() =~= old(self).diagnostics@);
    }

    /// Reports a second declaration of a function's name.
    pub fn report_function_already_declared(&mut self, token: &Token)
        ensures
            final(self).diagnostics@.len() == old(self).diagnostics@.len() + 1,
            final(self).diagnostics@.drop_last() == old(self).diagnostics@,
            final(self).diagnostics@.last().kind == DiagnosticKind::Error,
            final(self).diagnostics@.last().span == token.span,
            final(self).diagnostics@.last().message@ == "Function '"@ + token.span.literal@
                + "' already declared"@,
    {
        let mut message = String::from_str("Function '");
        message.append(token.span.literal.as_str());
        message.append("' already declared");
        self.report_error(message, token.span.clone());
        assert(self.diagnostics@.drop_last() =~= old(self).diagnostics@);
    }

    /// Reports a `return` outside of any function.
    pub fn report_cannot_return_outside_function(&mut self, token: &Token)
        ensures
            final(self).diagnostics@.len() == old(self).diagnostics@.len() + 1,
            final(self).diagnostics@.drop_last() == old(self).diagnostics@,
            final(self).diagnostics@.last().kind == DiagnosticKind::Error,
            final(self).diagnostics@.last().span == token.span,
            final(self).diagnostics@.last().message@ == "Cannot use 'return' outside of function"@,
    {
        let message = String::from_str("Cannot use 'return' outside of function");
        self.report_error(message, token.span.clone());
        assert(self.diagnostics@.drop_last() =~= old(self).diagnostics@);
    }

    /// Reports a call with another number of arguments than the function has parameters.
    pub fn report_invalid_argument_count(&mut self, token: &Token, expected: usize, actual: usize)
        ensures
            final(self).diagnostics@.len() == old(self).diagnostics@.len() + 1,
            final(self).diagnostics@.drop_last() == old(self).diagnostics@,
            final(self).diagnostics@.last().kind == DiagnosticKind::Error,
            final(self).diagnostics@.last().span == token.span,
            final(self).diagnostics@.last().message@ == "Function '"@ + token.span.literal@
                + "' expects "@ + decimal_text(expected as nat) + " arguments, but was given "@
                + decimal_text(actual as nat),
    {
        let mut message = String::from_str("Function '");
        message.append(token.span.literal.as_str());
        message.append("' expects ");
        message.append(format_usize(expected).as_str());
        message.append(" arguments, but was given ");
        message.append(format_usize(actual).as_str());
        self.report_error(message, token.span.clone());
        assert(self.diagnostics@.drop_last() =~= old(self).diagnostics@);
    }

    /// Reports an expression of type `actual` where one of type `expected` is needed.
    pub fn report_type_mismatch(&mut self, span: &TextSpan, expected: Type, actual: Type)
        ensures
            final(self).diagnostics@.len() == old(self).diagnostics@.len() + 1,
            final(self).diagnostics@.drop_last() == old(self).diagnostics@,
            final(self).diagnostics@.last().kind == DiagnosticKind::Error,
            final(self).diagnostics@.last().span == *span,
            final(self).diagnostics@.last().message@ == "Type mismatch: expected '"@ + type_text(
                expected,
            ) + "', found '"@ + type_text(actual) + "'"@,
    {
        let mut message = String::from_str("Type mismatch: expected '");
        message.append(expected.to_display_string().as_str());
        message.append("', found '");
        message.append(actual.to_display_string().as_str());
        message.append("'");
        self.report_error(message, span.clone());
        assert(self.diagnostics@.drop_last() =~= old(self).diagnostics@);
    }
}

} // verus!
