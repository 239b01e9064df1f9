//! The syntax tree of the Rust-like surface language: operators, literals,
//! paths, visibilities and the small enumerations the parser records.

use vstd::prelude::*;

use crate::terebinth_span::span_encoding::{Span, SpanInterner, spans_joined};
use crate::terebinth_span::symbol::{Ident, Interner, Symbol};

verus! {

/// The id of a node of the tree.
#[derive(Clone, Copy, PartialEq, Eq, Hash, Debug, Structural)]
pub struct NodeId(pub u32);

/// The id given to nodes before ids are assigned.
pub const DUMMY_NODE_ID: u32 = 0xFFFF_FF00;

/// Proof that an error was reported.
#[derive(Clone, Copy, PartialEq, Eq, Hash, Debug, Structural)]
pub struct ErrorGuaranteed;

/// A label of a loop or block, `'outer`.
#[derive(Clone, Copy, Debug)]
pub struct Label {
    pub ident: Ident,
}

/// The generic arguments of a path segment, `<A, B>` or `(A) -> B`, by the
/// span they cover.
#[derive(Clone, Copy, Debug)]
pub struct GenericArgs {
    pub span: Span,
}

/// A segment of a path: an identifier and, maybe, generic arguments.
#[derive(Clone, Copy, Debug)]
pub struct PathSegment {
    pub ident: Ident,
    pub id: NodeId,
    pub args: Option<GenericArgs>,
}

impl PathSegment {
    /// The segment of `ident` alone, without arguments.
    pub fn from_ident(ident: Ident) -> (r: PathSegment)
        ensures
            r.ident == ident,
            r.id == NodeId(DUMMY_NODE_ID),
            r.args is None,
    {
        PathSegment { ident, id: NodeId(DUMMY_NODE_ID), args: None }
    }

    /// The span of the segment: its identifier's, joined to that of its
    /// arguments when it has any.
    pub fn span(&self, interner: &mut SpanInterner) -> (r: Span)
        requires
            old(interner).wf(),
            old(interner)@.len() < u32::MAX,
            self.ident.span.valid(old(interner)@),
            self.args matches Some(a) ==> a.span.valid(old(interner)@),
        ensures
            match self.args {
                Some(a) => spans_joined(self.ident.span, a.span, *old(interner), r, *final(interner)),
                None => r == self.ident.span && *final(interner) == *old(interner),
            },
    {
        match &self.args {
            Some(args) => self.ident.span.to(args.span, interner),
            None => self.ident.span,
        }
    }
}

/// A path: segments separated by `::`, and where it was written.
#[derive(Clone, Debug)]
pub struct Path {
    pub span: Span,
    pub segments: Vec<PathSegment>,
}

impl Path {
    /// The one-segment path of `ident`, at its span.
    pub fn from_ident(ident: Ident) -> (r: Path)
        ensures
            r.span == ident.span,
            r.segments@.len() == 1,
            r.segments@[0].ident == ident,
            r.segments@[0].id == NodeId(DUMMY_NODE_ID),
            r.segments@[0].args is None,
    {
        let mut segments: Vec<PathSegment> = Vec::new();
        segments.push(PathSegment::from_ident(ident));
        Path { span: ident.span, segments }
    }

    /// Whether the path may stand for a const argument without a block: always
    /// when `allow_mgca_arg`, else when it is one segment without arguments.
    pub fn is_potential_trivial_const_arg(&self, allow_mgca_arg: bool) -> (r: bool)
        ensures
            r == (allow_mgca_arg || (self.segments@.len() == 1 && self.segments@[0].args is None)),
    {
        if allow_mgca_arg {
            return true;
        }
        if self.segments.len() != 1 {
            return false;
        }
        self.segments[0].args.is_none()
    }
}

/// The end of a range pattern.
#[derive(Clone, Copy, PartialEq, Eq, Debug, Structural)]
pub enum RangeEnd {
    Included(RangeSyntax),
    Excluded,
}

/// How an inclusive range end is written.
#[derive(Clone, Copy, PartialEq, Eq, Debug, Structural)]
pub enum RangeSyntax {
    DotDotDot,
    DotDotEq,
}

/// Whether a struct pattern ends with `..`.
#[derive(Clone, Copy, PartialEq, Eq, Debug, Structural)]
pub enum PatFieldsRest {
    Rest,
    Recovered(ErrorGuaranteed),
    NoRest,
}

/// A reference borrow or a raw borrow.
#[derive(Clone, Copy, PartialEq, Eq, Debug, Structural)]
pub enum BorrowKind {
    Ref,
    Raw,
}

/// The precedence classes of expressions, loosest first.
#[derive(Clone, Copy, PartialEq, Eq, Debug, Structural)]
pub enum ExprPrecedence {
    Closure,
    Jump,
    Assign,
    Range,
    LOr,
    LAnd,
    Compare,
    BitOr,
    BitXor,
    BitAnd,
    Shift,
    Sum,
    Product,
    Cast,
    Prefix,
    Unambiguous,
}

/// How operators of equal precedence group.
#[derive(Clone, Copy, PartialEq, Eq, Debug, Structural)]
pub enum Fixity {
    Left,
    Right,
    NonAssociative,
}

/// Whether a place may be changed through a binding or a reference. The
/// immutable comes first in their order.
#[derive(Clone, Copy, PartialEq, Eq, Debug, Structural)]
pub enum Mutability {
    Not,
    Mut,
}

/// Whether a binding binds by reference (`ref`, `ref mut`) or by value.
#[derive(Clone, Copy, PartialEq, Eq, Debug, Structural)]
pub enum ByRef {
    Yes(Mutability),
    No,
}

/// The lesser of two mutabilities: mutable only when both are.
pub open spec fn min_mutability(a: Mutability, b: Mutability) -> Mutability {
    if a == Mutability::Mut && b == Mutability::Mut {
        Mutability::Mut
    } else {
        Mutability::Not
    }
}

impl ByRef {
    /// A by-reference binding no more mutable than `mutbl`; a by-value one
    /// is left as it is.
    pub fn cap_ref_mutability(self, mutbl: Mutability) -> (r: ByRef)
        ensures
            r == match self {
                ByRef::Yes(old_mutbl) => ByRef::Yes(min_mutability(old_mutbl, mutbl)),
                ByRef::No => ByRef::No,
            },
    {
        match self {
            ByRef::Yes(old_mutbl) => {
                let capped = match (old_mutbl, mutbl) {
                    (Mutability::Mut, Mutability::Mut) => Mutability::Mut,
                    _ => Mutability::Not,
                };
                ByRef::Yes(capped)
            },
            ByRef::No => ByRef::No,
        }
    }
}

/// The mode of a binding: whether it binds by reference, and whether the
/// binding itself is mutable.
#[derive(Clone, Copy, PartialEq, Eq, Debug, Structural)]
pub struct BindingMode(pub ByRef, pub Mutability);

/// How a binding mode is written before the name it binds.
pub open spec fn binding_prefix(mode: BindingMode) -> Seq<char> {
    match (mode.0, mode.1) {
        (ByRef::No, Mutability::Not) => ""@,
        (ByRef::Yes(Mutability::Not), Mutability::Not) => "ref "@,
        (ByRef::No, Mutability::Mut) => "mut "@,
        (ByRef::Yes(Mutability::Mut), Mutability::Not) => "ref mut "@,
        (ByRef::Yes(Mutability::Not), Mutability::Mut) => "mut ref "@,
        (ByRef::Yes(Mutability::Mut), Mutability::Mut) => "mut ref mut "@,
    }
}

impl BindingMode {
    /// How the mode is written before the name it binds.
    pub fn prefix_str(self) -> (r: &'static str)
        ensures
            r@ == binding_prefix(self),
    {
        match (self.0, self.1) {
            (ByRef::No, Mutability::Not) => "",
            (ByRef::Yes(Mutability::Not), Mutability::Not) => "ref ",
            (ByRef::No, Mutability::Mut) => "mut ",
            (ByRef::Yes(Mutability::Mut), Mutability::Not) => "ref mut ",
            (ByRef::Yes(Mutability::Not), Mutability::Mut) => "mut ref ",
            (ByRef::Yes(Mutability::Mut), Mutability::Mut) => "mut ref mut ",
        }
    }
}

/// The binary operators.
#[derive(Clone, Copy, PartialEq, Eq, Debug, Structural)]
pub enum BinaryOperatorKind {
    Add,
    Sub,
    Mul,
    Div,
    Rem,
    And,
    Or,
    BitXor,
    BitAnd,
    BitOr,
    Shl,
    Shr,
    Eq,
    Lt,
    Le,
    Ne,
    Ge,
    Gt,
}

/// How a binary operator is written.
pub open spec fn binop_text(op: BinaryOperatorKind) -> Seq<char> {
    match op {
        BinaryOperatorKind::Add => "+"@,
        BinaryOperatorKind::Sub => "-"@,
        BinaryOperatorKind::Mul => "*"@,
        BinaryOperatorKind::Div => "/"@,
        BinaryOperatorKind::Rem => "%"@,
        BinaryOperatorKind::And => "&&"@,
        BinaryOperatorKind::Or => "||"@,
        BinaryOperatorKind::BitXor => "^"@,
        BinaryOperatorKind::BitAnd => "&"@,
        BinaryOperatorKind::BitOr => "|"@,
        BinaryOperatorKind::Shl => "<<"@,
        BinaryOperatorKind::Shr => ">>"@,
        BinaryOperatorKind::Eq => "=="@,
        BinaryOperatorKind::Lt => "<"@,
        BinaryOperatorKind::Le => "<="@,
        BinaryOperatorKind::Ne => "!="@,
        BinaryOperatorKind::Ge => ">="@,
        BinaryOperatorKind::Gt => ">"@,
    }
}

/// The comparison operators.
pub open spec fn is_comparison_op(op: BinaryOperatorKind) -> bool {
    op == BinaryOperatorKind::Eq || op == BinaryOperatorKind::Ne || op == BinaryOperatorKind::Lt
        || op == BinaryOperatorKind::Le || op == BinaryOperatorKind::Gt || op == BinaryOperatorKind::Ge
}

/// The precedence class of a binary operator.
pub open spec fn binop_precedence(op: BinaryOperatorKind) -> ExprPrecedence {
    match op {
        BinaryOperatorKind::Mul | BinaryOperatorKind::Div | BinaryOperatorKind::Rem => ExprPrecedence::Product,
        BinaryOperatorKind::Add | BinaryOperatorKind::Sub => ExprPrecedence::Sum,
        BinaryOperatorKind::Shl | BinaryOperatorKind::Shr => ExprPrecedence::Shift,
        BinaryOperatorKind::BitAnd => ExprPrecedence::BitAnd,
        BinaryOperatorKind::BitXor => ExprPrecedence::BitXor,
        BinaryOperatorKind::BitOr => ExprPrecedence::BitOr,
        BinaryOperatorKind::And => ExprPrecedence::LAnd,
        BinaryOperatorKind::Or => ExprPrecedence::LOr,
        _ => ExprPrecedence::Compare,
    }
}

impl BinaryOperatorKind {
    /// How the operator is written.
    pub fn as_str(&self) -> (r: &'static str)
        ensures
            r@ == binop_text(*self),
    {
        match self {
            BinaryOperatorKind::Add => "+",
            BinaryOperatorKind::Sub => "-",
            BinaryOperatorKind::Mul => "*",
            BinaryOperatorKind::Div => "/",
            BinaryOperatorKind::Rem => "%",
            BinaryOperatorKind::And => "&&",
            BinaryOperatorKind::Or => "||",
            BinaryOperatorKind::BitXor => "^",
            BinaryOperatorKind::BitAnd => "&",
            BinaryOperatorKind::BitOr => "|",
            BinaryOperatorKind::Shl => "<<",
            BinaryOperatorKind::Shr => ">>",
            BinaryOperatorKind::Eq => "==",
            BinaryOperatorKind::Lt => "<",
            BinaryOperatorKind::Le => "<=",
            BinaryOperatorKind::Ne => "!=",
            BinaryOperatorKind::Ge => ">=",
            BinaryOperatorKind::Gt => ">",
        }
    }

    /// Whether the operator evaluates its right operand only when needed.
    pub fn is_lazy(&self) -> (r: bool)
        ensures
            r == (*self == BinaryOperatorKind::And || *self == BinaryOperatorKind::Or),
    {
        matches!(self, BinaryOperatorKind::And | BinaryOperatorKind::Or)
    }

    pub fn precedence(&self) -> (r: ExprPrecedence)
        ensures
            r == binop_precedence(*self),
    {
        match *self {
            BinaryOperatorKind::Mul | BinaryOperatorKind::Div | BinaryOperatorKind::Rem => ExprPrecedence::Product,
            BinaryOperatorKind::Add | BinaryOperatorKind::Sub => ExprPrecedence::Sum,
            BinaryOperatorKind::Shl | BinaryOperatorKind::Shr => ExprPrecedence::Shift,
            BinaryOperatorKind::BitAnd => ExprPrecedence::BitAnd,
            BinaryOperatorKind::BitXor => ExprPrecedence::BitXor,
            BinaryOperatorKind::BitOr => ExprPrecedence::BitOr,
            BinaryOperatorKind::Lt | BinaryOperatorKind::Gt | BinaryOperatorKind::Le | BinaryOperatorKind::Ge
            | BinaryOperatorKind::Eq | BinaryOperatorKind::Ne => ExprPrecedence::Compare,
            BinaryOperatorKind::And => ExprPrecedence::LAnd,
            BinaryOperatorKind::Or => ExprPrecedence::LOr,
        }
    }

    /// Comparisons do not chain; the other operators group to the left.
    pub fn fixity(&self) -> (r: Fixity)
        ensures
            r == if is_comparison_op(*self) { Fixity::NonAssociative } else { Fixity::Left },
    {
        if self.is_comparison() {
            Fixity::NonAssociative
        } else {
            Fixity::Left
        }
    }

    pub fn is_comparison(self) -> (r: bool)
        ensures
            r == is_comparison_op(self),
    {
        match self {
            BinaryOperatorKind::Eq | BinaryOperatorKind::Ne | BinaryOperatorKind::Lt | BinaryOperatorKind::Le
            | BinaryOperatorKind::Gt | BinaryOperatorKind::Ge => true,
            _ => false,
        }
    }

    /// Whether the operator takes its operands by value: all but the comparisons.
    pub fn is_by_value(self) -> (r: bool)
        ensures
            r == !is_comparison_op(self),
    {
        !self.is_comparison()
    }
}

/// The unary operators.
#[derive(Clone, Copy, PartialEq, Eq, Debug, Structural)]
pub enum UnaryOperator {
    Deref,
    Not,
    Neg,
}

impl UnaryOperator {
    /// How the operator is written.
    pub fn as_str(&self) -> (r: &'static str)
        ensures
            r@ == match *self {
                UnaryOperator::Deref => "*"@,
                UnaryOperator::Not => "!"@,
                UnaryOperator::Neg => "-"@,
            },
    {
        match self {
            UnaryOperator::Deref => "*",
            UnaryOperator::Not => "!",
            UnaryOperator::Neg => "-",
        }
    }

    /// Whether the operator takes its operand by value: negations do.
    pub fn is_by_value(self) -> (r: bool)
        ensures
            r == (self == UnaryOperator::Neg || self == UnaryOperator::Not),
    {
        matches!(self, UnaryOperator::Neg | UnaryOperator::Not)
    }
}

/// Whether a block is checked for unsafe operations.
#[derive(Clone, Copy, PartialEq, Eq, Debug, Structural)]
pub enum BlockCheckMode {
    Default,
    Unsafe(UnsafeSource),
}

/// Who wrote an `unsafe` block.
#[derive(Clone, Copy, PartialEq, Eq, Debug, Structural)]
pub enum UnsafeSource {
    CompilerGenerated,
    UserProvided,
}

/// Whether a range includes its end.
#[derive(Clone, Copy, PartialEq, Eq, Debug, Structural)]
pub enum RangeLimits {
    HalfOpen,
    Closed,
}

impl RangeLimits {
    /// How the range operator is written.
    pub fn as_str(&self) -> (r: &'static str)
        ensures
            r@ == match *self {
                RangeLimits::HalfOpen => ".."@,
                RangeLimits::Closed => "..="@,
            },
    {
        match self {
            RangeLimits::HalfOpen => "..",
            RangeLimits::Closed => "..=",
        }
    }
}

/// A `for` loop or a `for await` loop.
#[derive(Clone, Copy, PartialEq, Eq, Debug, Structural)]
pub enum ForLoopKind {
    For,
    ForAwait,
}

/// How a closure captures: by value (`move`), by reference, or by use.
#[derive(Clone, Copy, Debug)]
pub enum CaptureBy {
    Value { move_kw: Span },
    Ref,
    Use { use_kw: Span },
}

/// A `for<...>` binder of a closure, by its span.
#[derive(Clone, Copy, Debug)]
pub enum ClosureBinder {
    NotPresent,
    For { span: Span },
}

/// A cooked string or a raw one with its number of `#`.
#[derive(Clone, Copy, PartialEq, Eq, Hash, Debug, Structural)]
pub enum StrStyle {
    Cooked,
    Raw(u8),
}

/// A prefix `match` or a postfix `.match`.
#[derive(Clone, Copy, PartialEq, Eq, Debug, Structural)]
pub enum MatchKind {
    Prefix,
    Postfix,
}

/// The suffix of an integer literal.
#[derive(Clone, Copy, PartialEq, Eq, Hash, Debug, Structural)]
pub enum LitIntType {
    Signed(IntTy),
    Unsigned(UintTy),
    Unsuffixed,
}

/// The suffix of a float literal.
#[derive(Clone, Copy, PartialEq, Eq, Hash, Debug, Structural)]
pub enum LitFloatType {
    Suffixed(FloatTy),
    Unsuffixed,
}

/// The meaning of a literal.
#[derive(Clone, Debug)]
pub enum LitKind {
    Str(Symbol, StrStyle),
    ByteStr(Vec<u8>, StrStyle),
    CStr(Vec<u8>, StrStyle),
    Byte(u8),
    Char(char),
    Int(u128, LitIntType),
    Float(Symbol, LitFloatType),
    Bool(bool),
    Error(ErrorGuaranteed),
}

/// The literals that carry a suffix.
pub open spec fn lit_is_suffixed(kind: LitKind) -> bool {
    match kind {
        LitKind::Int(_, t) => !(t is Unsuffixed),
        LitKind::Float(_, t) => t is Suffixed,
        _ => false,
    }
}

impl LitKind {
    /// The symbol of a string literal.
    pub fn str(&self) -> (r: Option<Symbol>)
        ensures
            r == match *self {
                LitKind::Str(s, _) => Some(s),
                _ => None,
            },
    {
        match self {
            LitKind::Str(s, _) => Some(*s),
            _ => None,
        }
    }

    pub fn is_str(&self) -> (r: bool)
        ensures
            r == (*self is Str),
    {
        matches!(self, LitKind::Str(..))
    }

    pub fn is_bytestr(&self) -> (r: bool)
        ensures
            r == (*self is ByteStr),
    {
        matches!(self, LitKind::ByteStr(..))
    }

    pub fn is_numeric(&self) -> (r: bool)
        ensures
            r == (*self is Int || *self is Float),
    {
        matches!(self, LitKind::Int(..) | LitKind::Float(..))
    }

    /// Whether the literal has no suffix (raw and byte strings have none).
    pub fn is_unsuffixed(&self) -> (r: bool)
        ensures
            r == !lit_is_suffixed(*self),
    {
        !self.is_suffixed()
    }

    /// Whether the literal is a number with a type suffix.
    pub fn is_suffixed(&self) -> (r: bool)
        ensures
            r == lit_is_suffixed(*self),
    {
        match self {
            LitKind::Int(_, LitIntType::Signed(..) | LitIntType::Unsigned(..)) => true,
            LitKind::Float(_, LitFloatType::Suffixed(..)) => true,
            _ => false,
        }
    }
}

/// A literal in a meta item: as written, its suffix, its meaning and span.
#[derive(Clone, Debug)]
pub struct MetaItemLit {
    pub symbol: Symbol,
    pub suffix: Option<Symbol>,
    pub kind: LitKind,
    pub span: Span,
}

/// A string literal: as written, its suffix, its unescaped text, its style
/// and span.
#[derive(Clone, Copy, Debug)]
pub struct StrLit {
    pub symbol: Symbol,
    pub suffix: Option<Symbol>,
    pub symbol_unescaped: Symbol,
    pub style: StrStyle,
    pub span: Span,
}

/// The floating-point types.
#[derive(Clone, Copy, PartialEq, Eq, Hash, Debug, Structural)]
pub enum FloatTy {
    F16,
    F32,
    F64,
    F128,
}

/// The name of a floating-point type.
pub open spec fn float_ty_name(t: FloatTy) -> Seq<char> {
    match t {
        FloatTy::F16 => "f16"@,
        FloatTy::F32 => "f32"@,
        FloatTy::F64 => "f64"@,
        FloatTy::F128 => "f128"@,
    }
}

impl FloatTy {
    pub fn name_str(self) -> (r: &'static str)
        ensures
            r@ == float_ty_name(self),
    {
        match self {
            FloatTy::F16 => "f16",
            FloatTy::F32 => "f32",
            FloatTy::F64 => "f64",
            FloatTy::F128 => "f128",
        }
    }

    /// The symbol of the type's name.
    pub fn name(self, interner: &mut Interner) -> (r: Symbol)
        requires
            old(interner).wf(),
            old(interner)@.len() < u32::MAX,
        ensures
            final(interner).wf(),
            old(interner)@.is_prefix_of(final(interner)@),
            r.0 < final(interner)@.len(),
            final(interner)@[r.0 as int] == float_ty_name(self),
    {
        Symbol::intern(self.name_str(), interner)
    }
}

/// The signed integer types.
#[derive(Clone, Copy, PartialEq, Eq, Hash, Debug, Structural)]
pub enum IntTy {
    Isize,
    I8,
    I16,
    I32,
    I64,
    I128,
}

/// The name of a signed integer type.
pub open spec fn int_ty_name(t: IntTy) -> Seq<char> {
    match t {
        IntTy::Isize => "isize"@,
        IntTy::I8 => "i8"@,
        IntTy::I16 => "i16"@,
        IntTy::I32 => "i32"@,
        IntTy::I64 => "i64"@,
        IntTy::I128 => "i128"@,
    }
}

impl IntTy {
    pub fn name_str(&self) -> (r: &'static str)
        ensures
            r@ == int_ty_name(*self),
    {
        match *self {
            IntTy::Isize => "isize",
            IntTy::I8 => "i8",
            IntTy::I16 => "i16",
            IntTy::I32 => "i32",
            IntTy::I64 => "i64",
            IntTy::I128 => "i128",
        }
    }

    /// The symbol of the type's name.
    pub fn name(&self, interner: &mut Interner) -> (r: Symbol)
        requires
            old(interner).wf(),
            old(interner)@.len() < u32::MAX,
        ensures
            final(interner).wf(),
            old(interner)@.is_prefix_of(final(interner)@),
            r.0 < final(interner)@.len(),
            final(interner)@[r.0 as int] == int_ty_name(*self),
    {
        Symbol::intern(self.name_str(), interner)
    }
}

/// The unsigned integer types.
#[derive(Clone, Copy, PartialEq, Eq, Hash, Debug, Structural)]
pub enum UintTy {
    Usize,
    U8,
    U16,
    U32,
    U64,
    U128,
}

/// The name of a unsigned integer type.
pub open spec fn uint_ty_name(t: UintTy) -> Seq<char> {
    match t {
        UintTy::Usize => "usize"@,
        UintTy::U8 => "u8"@,
        UintTy::U16 => "u16"@,
        UintTy::U32 => "u32"@,
        UintTy::U64 => "u64"@,
        UintTy::U128 => "u128"@,
    }
}

impl UintTy {
    pub fn name_str(&self) -> (r: &'static str)
        ensures
            r@ == uint_ty_name(*self),
    {
        match *self {
            UintTy::Usize => "usize",
            UintTy::U8 => "u8",
            UintTy::U16 => "u16",
            UintTy::U32 => "u32",
            UintTy::U64 => "u64",
            UintTy::U128 => "u128",
        }
    }

    /// The symbol of the type's name.
    pub fn name(&self, interner: &mut Interner) -> (r: Symbol)
        requires
            old(interner).wf(),
            old(interner)@.len() < u32::MAX,
        ensures
            final(interner).wf(),
            old(interner)@.is_prefix_of(final(interner)@),
            r.0 < final(interner)@.len(),
            final(interner)@[r.0 as int] == uint_ty_name(*self),
    {
        Symbol::intern(self.name_str(), interner)
    }
}

/// A `const` keyword, by its span, or none.
#[derive(Clone, Copy, Debug)]
pub enum Const {
    Yes(Span),
    No,
}

/// A `default` item, by the span of the keyword, or a final one.
#[derive(Clone, Copy, Debug)]
pub enum Defaultness {
    Default(Span),
    Final,
}

/// Whether a module's body is written inline.
#[derive(Clone, Copy, PartialEq, Eq, Debug, Structural)]
pub enum Inline {
    Yes,
    No,
}

/// The spans of a module: its body, and where `use` items can be added.
#[derive(Clone, Copy, Debug)]
pub struct ModSpans {
    pub inner_span: Span,
    pub inject_use_span: Span,
}

/// What a `use` tree imports after its prefix.
#[derive(Debug)]
pub enum UseTreeKind {
    Simple(Option<Ident>),
    Nested { items: Vec<(UseTree, NodeId)>, span: Span },
    Glob,
}

/// A tree of paths that share prefixes, as in a `use` item.
#[derive(Debug)]
pub struct UseTree {
    pub prefix: Path,
    pub kind: UseTreeKind,
    pub span: Span,
}

impl UseTree {
    /// The name that a simple import brings in: its rename, or else the last
    /// segment of its prefix. Only simple imports with a prefix have one.
    pub fn ident(&self) -> (r: Ident)
        requires
            self.kind is Simple,
            self.kind matches UseTreeKind::Simple(None) ==> self.prefix.segments@.len() > 0,
        ensures
            r == match self.kind {
                UseTreeKind::Simple(Some(rename)) => rename,
                _ => self.prefix.segments@.last().ident,
            },
    {
        match &self.kind {
            UseTreeKind::Simple(Some(rename)) => *rename,
            _ => {
                let n = self.prefix.segments.len();
                self.prefix.segments[n - 1].ident
            },
        }
    }
}

/// A visibility: public, restricted to a path, or the default.
#[derive(Clone, Debug)]
pub struct Visibility {
    pub kind: VisibilityKind,
    pub span: Span,
}

#[derive(Clone, Debug)]
pub enum VisibilityKind {
    Public,
    Restricted { path: Box<Path>, id: NodeId, shorthand: bool },
    Inherited,
}

impl VisibilityKind {
    pub fn is_pub(&self) -> (r: bool)
        ensures
            r == (*self is Public),
    {
        matches!(self, VisibilityKind::Public)
    }
}

/// Whether the parser recovered from an error.
#[derive(Clone, Copy, Debug)]
pub enum Recovered {
    No,
    Yes(ErrorGuaranteed),
}

/// The qualifiers of a function: its `const` keyword, if any.
#[derive(Clone, Copy, Debug)]
pub struct FnHeader {
    pub constness: Const,
}

impl FnHeader {
    /// Whether the header has a qualifier.
    pub fn has_qualifiers(&self) -> (r: bool)
        ensures
            r == (self.constness is Yes),
    {
        matches!(self.constness, Const::Yes(_))
    }
}

impl Default for FnHeader {
    /// The header without qualifiers.
    fn default() -> (r: FnHeader)
        ensures
            r.constness is No,
    {
        FnHeader { constness: Const::No }
    }
}

} // verus!
