//! Tokens of the Rust-like surface language: comments and delimiters.

use vstd::prelude::*;

verus! {

/// A line comment or a block comment.
#[derive(Clone, Copy, PartialEq, Eq, Debug, Structural)]
pub enum CommentKind {
    Line,
    Block,
}

/// What a fragment of a macro pattern matches.
#[derive(Clone, Copy, PartialEq, Eq, Debug, Structural)]
pub enum MetaVarKind {
    Item,
    Block,
    Stmt,
    Pat,
    Expr { can_begin_literal_maybe_minus: bool, can_begin_string_literal: bool },
    Ty { is_path: bool },
    Ident,
    Literal,
    Meta { has_meta_form: bool },
    Path,
    Vis,
    TT,
}

/// Where invisible delimiters come from.
#[derive(Clone, Copy, Debug)]
pub enum InvisibleOrigin {
    MetaVar(MetaVarKind),
    ProcMacro,
    FlattenToken,
}

impl InvisibleOrigin {
    /// Invisible origins never compare equal.
    pub fn eq(&self, other: &InvisibleOrigin) -> (r: bool)
        ensures
            !r,
    {
        false
    }
}

/// The delimiters of a group of tokens.
#[derive(Clone, Copy, Debug)]
pub enum Delimiter {
    Parenthesis,
    Brace,
    Brackets,
    Invisible(InvisibleOrigin),
}

impl Delimiter {
    /// Whether the delimiters are skipped when the tokens are read: only the
    /// invisible ones that do not come from a macro fragment.
    pub fn skip(&self) -> (r: bool)
        ensures
            r == (self matches Delimiter::Invisible(o) && !(o is MetaVar)),
    {
        match self {
            Delimiter::Parenthesis | Delimiter::Brace | Delimiter::Brackets => false,
            Delimiter::Invisible(InvisibleOrigin::MetaVar(_)) => false,
            Delimiter::Invisible(InvisibleOrigin::FlattenToken | InvisibleOrigin::ProcMacro) => true,
        }
    }
}

/// Where a comment stands relative to code.
#[derive(Clone, Copy, PartialEq, Eq, Debug, Structural)]
pub enum CommentStyle {
    Isolated,
    Trailing,
    Mixed,
    BlankLine,
}

/// A comment: its style, its lines and where it starts.
#[derive(Clone)]
pub struct Comment {
    pub style: CommentStyle,
    pub lines: Vec<String>,
    pub pos: crate::terebinth_span::pos::BytePos,
}

} // verus!
