//! The types of Terebinth values.

use vstd::prelude::*;

verus! {

/// The type of a Terebinth expression or variable.
#[derive(Debug, Clone, Copy, PartialEq, Eq, Structural)]
pub enum Type {
    Int,
    Bool,
    Void,
    Unresolved,
    Error,
}

/// Whether a value of type `from` may stand where `to` is expected: equal
/// concrete types match, and an error type matches anything.
pub open spec fn assignable(from: Type, to: Type) -> bool {
    match (from, to) {
        (Type::Int, Type::Int) => true,
        (Type::Bool, Type::Bool) => true,
        (Type::Void, Type::Void) => true,
        (Type::Error, _) => true,
        (_, Type::Error) => true,
        _ => false,
    }
}

/// The type that a type name denotes, if any.
pub open spec fn type_of_name(name: Seq<char>) -> Option<Type> {
    if name == "int"@ {
        Some(Type::Int)
    } else if name == "bool"@ {
        Some(Type::Bool)
    } else if name == "void"@ {
        Some(Type::Void)
    } else {
        None
    }
}

/// How a type is shown in messages.
pub open spec fn type_text(t: Type) -> Seq<char> {
    match t {
        Type::Int => "int"@,
        Type::Bool => "bool"@,
        Type::Void => "void"@,
        Type::Unresolved => "unresolved"@,
        Type::Error => "?"@,
    }
}

impl Type {
    /// The text by which messages show this type.
    pub fn to_display_string(&self) -> (r: String)
        ensures
            r@ == type_text(*self),
    {
        match self {
            Type::Int => String::from_str("int"),
            Type::Bool => String::from_str("bool"),
            Type::Void => String::from_str("void"),
            Type::Unresolved => String::from_str("unresolved"),
            Type::Error => String::from_str("?"),
        }
    }

    pub fn is_assignable_to(&self, other: Type) -> (r: bool)
        ensures
            r == assignable(*self, other),
    {
        match (*self, other) {
            (Type::Int, Type::Int) => true,
            (Type::Bool, Type::Bool) => true,
            (Type::Void, Type::Void) => true,
            (Type::Error, _) => true,
            (_, Type::Error) => true,
            _ => false,
        }
    }

    /// The type named by the characters `name`.
    pub fn from_chars(name: &Vec<char>) -> (r: Option<Type>)
        ensures
            r == type_of_name(name@),
    {
        let n = name.len();
        proof { reveal_strlit("int"); reveal_strlit("bool"); reveal_strlit("void"); }
        if crate::text::chars_equal(name, 0, n, &['i', 'n', 't']) {
            assert(name@.subrange(0, n as int) =~= name@);
            assert(['i', 'n', 't']@ =~= "int"@);
            Some(Type::Int)
        } else if crate::text::chars_equal(name, 0, n, &['b', 'o', 'o', 'l']) {
            assert(name@.subrange(0, n as int) =~= name@);
            assert(['b', 'o', 'o', 'l']@ =~= "bool"@);
            Some(Type::Bool)
        } else if crate::text::chars_equal(name, 0, n, &['v', 'o', 'i', 'd']) {
            assert(name@.subrange(0, n as int) =~= name@);
            assert(['v', 'o', 'i', 'd']@ =~= "void"@);
            Some(Type::Void)
        } else {
            assert(name@.subrange(0, n as int) =~= name@);
            assert(['i', 'n', 't']@ =~= "int"@);
            assert(['b', 'o', 'o', 'l']@ =~= "bool"@);
            assert(['v', 'o', 'i', 'd']@ =~= "void"@);
            None
        }
    }

    /// The type named by `name`.
    pub fn from_str(name: &str) -> (r: Option<Type>)
        ensures
            r == type_of_name(name@),
    {
        let chars = crate::text::chars_of(name);
        Self::from_chars(&chars)
    }
}

} // verus!
