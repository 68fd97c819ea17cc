//! Surface syntax tree for programs and goals.
//!
//! These types describe programs as a user writes them: struct and trait
//! definitions, impls, free-standing clauses, and queries. Identifiers keep
//! the interned string produced by the `lalrpop_intern` crate together with
//! the source span they were parsed from. Lowering this tree into the
//! logical representation that the solver consumes is outside this crate's
//! verified core; the tree itself is plain data.

use vstd::prelude::*;

verus! {

/// A region of the input text, as byte offsets.
#[derive(Clone, Copy, Debug, PartialEq, Eq, Structural)]
pub struct Span {
    pub lo: usize,
    pub hi: usize,
}

impl Span {
    pub fn new(lo: usize, hi: usize) -> (r: Self)
        ensures
            r.lo == lo,
            r.hi == hi,
    {
        Span { lo: lo, hi: hi }
    }
}

/// An interned string from the `lalrpop_intern` crate. Values of this type
/// are indices into a process-wide interner; this crate only carries them
/// through, it never inspects them.
#[verifier::external_type_specification]
#[verifier::external_body]
pub struct ExInternedString(lalrpop_intern::InternedString);

/// A name appearing in the source, with the place it appeared.
pub struct Identifier {
    pub str: lalrpop_intern::InternedString,
    pub span: Span,
}

pub struct Program {
    pub items: Vec<Item>,
}

pub enum Item {
    StructDefn(StructDefn),
    TraitDefn(TraitDefn),
    Impl(Impl),
    Clause(Clause),
}

pub struct StructDefn {
    pub name: Identifier,
    pub parameter_kinds: Vec<ParameterKind>,
    pub where_clauses: Vec<QuantifiedWhereClause>,
    pub fields: Vec<Field>,
    pub flags: StructFlags,
}

pub struct StructFlags {
    pub external: bool,
    pub fundamental: bool,
}

pub struct TraitDefn {
    pub name: Identifier,
    pub parameter_kinds: Vec<ParameterKind>,
    pub where_clauses: Vec<QuantifiedWhereClause>,
    pub assoc_ty_defns: Vec<AssocTyDefn>,
    pub flags: TraitFlags,
}

pub struct TraitFlags {
    pub auto: bool,
    pub marker: bool,
    pub external: bool,
    pub deref: bool,
}

pub struct AssocTyDefn {
    pub name: Identifier,
    pub parameter_kinds: Vec<ParameterKind>,
    pub bounds: Vec<InlineBound>,
    pub where_clauses: Vec<QuantifiedWhereClause>,
}

pub enum ParameterKind {
    Ty(Identifier),
    Lifetime(Identifier),
}

pub enum Parameter {
    Ty(Ty),
    Lifetime(Lifetime),
}

/// An inline bound, e.g. `: Foo<K>` in `impl<K, T: Foo<K>> SomeType<T>`.
pub enum InlineBound {
    TraitBound(TraitBound),
    ProjectionEqBound(ProjectionEqBound),
}

/// Represents a trait bound on e.g. a type or type parameter.
/// Does not know anything about what it's binding.
pub struct TraitBound {
    pub trait_name: Identifier,
    pub args_no_self: Vec<Parameter>,
}

/// Represents a projection equality bound on e.g. a type or type parameter.
/// Does not know anything about what it's binding.
pub struct ProjectionEqBound {
    pub trait_bound: TraitBound,
    pub name: Identifier,
    pub args: Vec<Parameter>,
    pub value: Ty,
}

#[derive(Clone, Copy, Debug, PartialEq, Eq, Structural)]
pub enum Kind {
    Ty,
    Lifetime,
}

impl Kind {
    /// The word used for this kind in messages.
    pub fn as_text(&self) -> (r: &'static str)
        ensures
            *self is Ty ==> r@ == "type"@,
            *self is Lifetime ==> r@ == "lifetime"@,
    {
        match *self {
            Kind::Ty => "type",
            Kind::Lifetime => "lifetime",
        }
    }
}

pub trait Kinded {
    fn kind(&self) -> Kind;
}

impl Kinded for ParameterKind {
    fn kind(&self) -> (r: Kind)
        ensures
            r is Ty <==> *self is Ty,
    {
        match *self {
            ParameterKind::Ty(_) => Kind::Ty,
            ParameterKind::Lifetime(_) => Kind::Lifetime,
        }
    }
}

impl Kinded for Parameter {
    fn kind(&self) -> (r: Kind)
        ensures
            r is Ty <==> *self is Ty,
    {
        match *self {
            Parameter::Ty(_) => Kind::Ty,
            Parameter::Lifetime(_) => Kind::Lifetime,
        }
    }
}

pub struct Impl {
    pub parameter_kinds: Vec<ParameterKind>,
    pub trait_ref: PolarizedTraitRef,
    pub where_clauses: Vec<QuantifiedWhereClause>,
    pub assoc_ty_values: Vec<AssocTyValue>,
}

pub struct AssocTyValue {
    pub name: Identifier,
    pub parameter_kinds: Vec<ParameterKind>,
    pub value: Ty,
}

pub enum Ty {
    Id { name: Identifier },
    Apply { name: Identifier, args: Vec<Parameter> },
    Projection { proj: ProjectionTy },
    UnselectedProjection { proj: UnselectedProjectionTy },
    ForAll { lifetime_names: Vec<Identifier>, ty: Box<Ty> },
}

pub enum Lifetime {
    Id { name: Identifier },
}

pub struct ProjectionTy {
    pub trait_ref: TraitRef,
    pub name: Identifier,
    pub args: Vec<Parameter>,
}

pub struct UnselectedProjectionTy {
    pub name: Identifier,
    pub args: Vec<Parameter>,
}

pub struct TraitRef {
    pub trait_name: Identifier,
    pub args: Vec<Parameter>,
}

pub enum PolarizedTraitRef {
    Positive(TraitRef),
    Negative(TraitRef),
}

impl PolarizedTraitRef {
    pub fn from_bool(polarity: bool, trait_ref: TraitRef) -> (r: PolarizedTraitRef)
        ensures
            polarity ==> r == PolarizedTraitRef::Positive(trait_ref),
            !polarity ==> r == PolarizedTraitRef::Negative(trait_ref),
    {
        if polarity {
            PolarizedTraitRef::Positive(trait_ref)
        } else {
            PolarizedTraitRef::Negative(trait_ref)
        }
    }
}

pub enum WhereClause {
    Implemented { trait_ref: TraitRef },
    Normalize { projection: ProjectionTy, ty: Ty },
    ProjectionEq { projection: ProjectionTy, ty: Ty },
    TyWellFormed { ty: Ty },
    TraitRefWellFormed { trait_ref: TraitRef },
    TyFromEnv { ty: Ty },
    TraitRefFromEnv { trait_ref: TraitRef },
    UnifyTys { a: Ty, b: Ty },
    UnifyLifetimes { a: Lifetime, b: Lifetime },
    TraitInScope { trait_name: Identifier },
    Derefs { source: Ty, target: Ty },
    TyIsLocal { ty: Ty },
}

pub struct QuantifiedWhereClause {
    pub parameter_kinds: Vec<ParameterKind>,
    pub where_clause: WhereClause,
}

pub struct Field {
    pub name: Identifier,
    pub ty: Ty,
}

/// This allows users to add arbitrary `A :- B` clauses into the
/// logic; it has no equivalent in Rust, but it's useful for testing.
pub struct Clause {
    pub parameter_kinds: Vec<ParameterKind>,
    pub consequence: WhereClause,
    pub conditions: Vec<Box<Goal>>,
}

pub enum Goal {
    ForAll(Vec<ParameterKind>, Box<Goal>),
    Exists(Vec<ParameterKind>, Box<Goal>),
    Implies(Vec<Clause>, Box<Goal>),
    And(Box<Goal>, Box<Goal>),
    Not(Box<Goal>),
    // Additional kinds of goals:
    Leaf(WhereClause),
}

} // verus!
