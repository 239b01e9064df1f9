use terebinth::terebinth_ast::ast::{
    BindingMode, ByRef, Mutability,
    BinaryOperatorKind, Const, ExprPrecedence, FnHeader, Fixity, FloatTy, IntTy, LitIntType, LitKind, Path,
    RangeLimits, StrStyle, UintTy, UnaryOperator, VisibilityKind,
};
use terebinth::terebinth_ast::expand::autodiff_attrs::{
    valid_input_activity, valid_ret_activity, valid_ty_for_activity, AutoDiffAttrs, DiffActivity,
    DiffMode, TyIndirection,
};
use terebinth::terebinth_ast::token::{Delimiter, InvisibleOrigin, MetaVarKind};
use terebinth::terebinth_span::span_encoding::Span;
use terebinth::terebinth_span::symbol::{Ident, Interner, Symbol};

#[test]
fn operators() {
    assert_eq!(BinaryOperatorKind::Shl.as_str(), "<<");
    assert_eq!(BinaryOperatorKind::Le.precedence(), ExprPrecedence::Compare);
    assert_eq!(BinaryOperatorKind::Rem.precedence(), ExprPrecedence::Product);
    assert_eq!(BinaryOperatorKind::Eq.fixity(), Fixity::NonAssociative);
    assert_eq!(BinaryOperatorKind::Sub.fixity(), Fixity::Left);
    assert!(BinaryOperatorKind::And.is_lazy());
    assert!(BinaryOperatorKind::Gt.is_comparison());
    assert!(!BinaryOperatorKind::Gt.is_by_value());
    assert_eq!(UnaryOperator::Not.as_str(), "!");
    assert!(!UnaryOperator::Deref.is_by_value());
    assert_eq!(RangeLimits::Closed.as_str(), "..=");
}

#[test]
fn literal_kinds() {
    let int = LitKind::Int(5, LitIntType::Signed(IntTy::I32));
    assert!(int.is_suffixed());
    assert!(int.is_numeric());
    let plain = LitKind::Int(5, LitIntType::Unsuffixed);
    assert!(plain.is_unsuffixed());
    let s = LitKind::Str(Symbol(3), StrStyle::Cooked);
    assert!(s.is_str());
    assert_eq!(s.str(), Some(Symbol(3)));
    assert!(LitKind::ByteStr(vec![1, 2], StrStyle::Raw(1)).is_bytestr());
    assert_eq!(IntTy::I128.name_str(), "i128");
    assert_eq!(UintTy::Usize.name_str(), "usize");
    assert_eq!(FloatTy::F16.name_str(), "f16");
}

#[test]
fn paths() {
    let ident = Ident::new(Symbol(40), Span::dummy());
    let path = Path::from_ident(ident);
    assert_eq!(path.segments.len(), 1);
    assert!(path.is_potential_trivial_const_arg(false));
    assert!(VisibilityKind::Public.is_pub());
    assert!(!VisibilityKind::Inherited.is_pub());
}

#[test]
fn delimiters() {
    assert!(!Delimiter::Brace.skip());
    assert!(Delimiter::Invisible(InvisibleOrigin::ProcMacro).skip());
    assert!(!Delimiter::Invisible(InvisibleOrigin::MetaVar(MetaVarKind::Item)).skip());
    assert!(!InvisibleOrigin::ProcMacro.eq(&InvisibleOrigin::ProcMacro));
}

#[test]
fn autodiff() {
    assert!(DiffMode::Reverse.is_rev());
    assert!(DiffMode::Forward.is_fwd());
    assert_eq!(DiffMode::from_str("Forward"), Ok(DiffMode::Forward));
    assert_eq!(DiffMode::from_str("forward"), Err(()));
    assert_eq!(DiffActivity::from_str("None"), Ok(DiffActivity::NoActivity));
    assert_eq!(DiffActivity::DualOnly.to_display_string(), "DualOnly");
    assert_eq!(DiffMode::Source.to_display_string(), "Source");
    assert!(valid_ret_activity(DiffMode::Error, DiffActivity::NoActivity));
    assert!(valid_ret_activity(DiffMode::Reverse, DiffActivity::ActiveOnly));
    assert!(!valid_ret_activity(DiffMode::Forward, DiffActivity::Active));
    assert!(valid_input_activity(DiffMode::Reverse, DiffActivity::Duplicated));
    assert!(!valid_input_activity(DiffMode::Source, DiffActivity::Const));
    let attrs = AutoDiffAttrs::source();
    assert!(attrs.is_source());
    assert!(attrs.is_active());
    assert!(!attrs.apply_autodiff());
    assert!(!AutoDiffAttrs::error().is_active());
    let item = AutoDiffAttrs::error().into_item("f".to_string(), "df".to_string());
    assert_eq!(item.to_display_string(), "Differentiating f -> df");
    assert!(!item.attrs.has_ret_activity());
}

#[test]
fn function_headers() {
    assert!(!FnHeader::default().has_qualifiers());
    let header = FnHeader { constness: Const::Yes(Span::dummy()) };
    assert!(header.has_qualifiers());
}

#[test]
fn type_names_as_symbols() {
    let mut interner = Interner::fresh();
    let i = IntTy::I64.name(&mut interner);
    let u = UintTy::U8.name(&mut interner);
    let f = FloatTy::F32.name(&mut interner);
    assert_eq!(i.as_str(&interner), "i64");
    assert_eq!(u.as_str(&interner), "u8");
    assert_eq!(f.as_str(&interner), "f32");
    assert_eq!(IntTy::I64.name(&mut interner), i);
}

#[test]
fn autodiff_names_read_back() {
    for mode in [DiffMode::Error, DiffMode::Source, DiffMode::Forward, DiffMode::Reverse] {
        assert_eq!(DiffMode::from_str(&mode.to_display_string()), Ok(mode));
    }
    for activity in [
        DiffActivity::NoActivity,
        DiffActivity::Const,
        DiffActivity::Active,
        DiffActivity::ActiveOnly,
        DiffActivity::Dual,
        DiffActivity::DualOnly,
        DiffActivity::Duplicated,
        DiffActivity::DuplicatedOnly,
    ] {
        assert_eq!(DiffActivity::from_str(&activity.to_display_string()), Ok(activity));
    }
    assert_eq!(DiffActivity::from_str("FakeActivitySize"), Err(()));
}

#[test]
fn activities_for_types() {
    assert!(valid_ty_for_activity(TyIndirection::Other, DiffActivity::Const));
    assert!(valid_ty_for_activity(TyIndirection::Other, DiffActivity::ActiveOnly));
    assert!(!valid_ty_for_activity(TyIndirection::Other, DiffActivity::Duplicated));
    assert!(valid_ty_for_activity(TyIndirection::Ref, DiffActivity::DuplicatedOnly));
    assert!(valid_ty_for_activity(TyIndirection::Ptr, DiffActivity::Duplicated));
    assert!(!valid_ty_for_activity(TyIndirection::Ptr, DiffActivity::NoActivity));
}

#[test]
fn binding_modes() {
    assert_eq!(BindingMode(ByRef::No, Mutability::Not).prefix_str(), "");
    assert_eq!(BindingMode(ByRef::Yes(Mutability::Not), Mutability::Not).prefix_str(), "ref ");
    assert_eq!(BindingMode(ByRef::No, Mutability::Mut).prefix_str(), "mut ");
    assert_eq!(BindingMode(ByRef::Yes(Mutability::Mut), Mutability::Not).prefix_str(), "ref mut ");
    assert_eq!(BindingMode(ByRef::Yes(Mutability::Not), Mutability::Mut).prefix_str(), "mut ref ");
    assert_eq!(BindingMode(ByRef::Yes(Mutability::Mut), Mutability::Mut).prefix_str(), "mut ref mut ");

    assert_eq!(ByRef::Yes(Mutability::Mut).cap_ref_mutability(Mutability::Not), ByRef::Yes(Mutability::Not));
    assert_eq!(ByRef::Yes(Mutability::Mut).cap_ref_mutability(Mutability::Mut), ByRef::Yes(Mutability::Mut));
    assert_eq!(ByRef::Yes(Mutability::Not).cap_ref_mutability(Mutability::Mut), ByRef::Yes(Mutability::Not));
    assert_eq!(ByRef::No.cap_ref_mutability(Mutability::Mut), ByRef::No);
}
