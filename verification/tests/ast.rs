//! Tests of the surface syntax tree.

use slg_solver::ast::{
    Identifier, Kind, Kinded, Parameter, ParameterKind, PolarizedTraitRef, Span, TraitRef, Ty,
};

fn ident(text: &str, lo: usize, hi: usize) -> Identifier {
    Identifier { str: lalrpop_intern::intern(text), span: Span::new(lo, hi) }
}

#[test]
fn span_new_keeps_bounds() {
    let s = Span::new(3, 9);
    assert_eq!(s.lo, 3);
    assert_eq!(s.hi, 9);
    assert_eq!(s, Span::new(3, 9));
}

#[test]
fn parameter_kinds() {
    let ty = ParameterKind::Ty(ident("T", 0, 1));
    let lt = ParameterKind::Lifetime(ident("'a", 2, 4));
    assert_eq!(ty.kind(), Kind::Ty);
    assert_eq!(lt.kind(), Kind::Lifetime);

    let p_ty = Parameter::Ty(Ty::Id { name: ident("i32", 0, 3) });
    assert_eq!(p_ty.kind(), Kind::Ty);
}

#[test]
fn kind_text() {
    assert_eq!(Kind::Ty.as_text(), "type");
    assert_eq!(Kind::Lifetime.as_text(), "lifetime");
}

#[test]
fn polarized_trait_ref_from_bool() {
    let tr = TraitRef { trait_name: ident("Clone", 0, 5), args: Vec::new() };
    match PolarizedTraitRef::from_bool(true, tr) {
        PolarizedTraitRef::Positive(_) => {},
        PolarizedTraitRef::Negative(_) => panic!("expected a positive reference"),
    }
    let tr2 = TraitRef { trait_name: ident("Copy", 0, 4), args: Vec::new() };
    match PolarizedTraitRef::from_bool(false, tr2) {
        PolarizedTraitRef::Negative(_) => {},
        PolarizedTraitRef::Positive(_) => panic!("expected a negative reference"),
    }
}

#[test]
fn interned_names_compare() {
    let a = ident("Foo", 0, 3);
    let b = ident("Foo", 10, 13);
    assert_eq!(a.str, b.str);
    assert_ne!(a.span, b.span);
}
