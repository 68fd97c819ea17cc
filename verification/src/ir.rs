//! The logical representation the solver works on.
//!
//! Terms are first-order trees over numeric functor names. Free existential
//! (inference) variables, bound variables under quantifiers (as de Bruijn
//! indices, one variable per binder), and universal placeholders are kept
//! apart. Goals are hereditary-Harrop formulas over leaf (domain) goals;
//! program clauses have a domain-goal head and a conjunction of literals as
//! conditions.
//!
//! Equality of terms, goals and answers is defined here once, as `spec`
//! relations, and the executable comparisons are proved to decide exactly
//! those relations. The solver's deduplication and interning contracts are
//! all stated over these relations.

use vstd::prelude::*;

verus! {

broadcast use vstd::std_specs::vec::group_vec_axioms;

/// Identifies a table within the forest.
#[derive(Clone, Copy, Debug, PartialEq, Eq, Structural)]
pub struct TableIndex {
    pub value: usize,
}

/// Identifies an answer within a table. Answers are requested in order;
/// index `k` is the `k`-th answer the table produced.
#[derive(Clone, Copy, Debug, PartialEq, Eq, Structural)]
pub struct AnswerIndex {
    pub value: usize,
}

impl AnswerIndex {
    pub fn zero() -> (r: Self)
        ensures
            r.value == 0,
    {
        AnswerIndex { value: 0 }
    }
}

/// A depth-first number: a monotone identifier assigned when a table is
/// pushed onto the stack. The all-ones value is reserved as a sentinel
/// meaning "no dependency"; it is never assigned to a frame.
#[derive(Clone, Copy, Debug, PartialEq, Eq, Structural)]
pub struct DepthFirstNumber {
    pub value: u64,
}

impl DepthFirstNumber {
    /// The sentinel: larger than every assigned number.
    pub fn maximum() -> (r: Self)
        ensures
            r.value == u64::MAX,
    {
        DepthFirstNumber { value: u64::MAX }
    }
}

/// The highest-up positive and negative dependencies a strand encountered,
/// as a pair of depth-first numbers (smaller means higher up the stack).
#[derive(Clone, Copy, Debug, PartialEq, Eq, Structural)]
pub struct Minimums {
    pub positive: DepthFirstNumber,
    pub negative: DepthFirstNumber,
}

impl Minimums {
    /// The neutral element: no dependency in either polarity.
    pub fn maximum() -> (r: Self)
        ensures
            r.positive.value == u64::MAX,
            r.negative.value == u64::MAX,
    {
        Minimums { positive: DepthFirstNumber::maximum(), negative: DepthFirstNumber::maximum() }
    }

    /// Component-wise minimum with `other`.
    pub fn take_minimums(&mut self, other: &Minimums)
        ensures
            final(self).positive.value == if old(self).positive.value <= other.positive.value {
                old(self).positive.value
            } else {
                other.positive.value
            },
            final(self).negative.value == if old(self).negative.value <= other.negative.value {
                old(self).negative.value
            } else {
                other.negative.value
            },
    {
        if other.positive.value < self.positive.value {
            self.positive = other.positive;
        }
        if other.negative.value < self.negative.value {
            self.negative = other.negative;
        }
    }

    /// The smaller of the positive and negative components.
    pub fn minimum_of_pos_and_neg(&self) -> (r: DepthFirstNumber)
        ensures
            r.value == if self.positive.value <= self.negative.value {
                self.positive.value
            } else {
                self.negative.value
            },
    {
        if self.positive.value <= self.negative.value {
            self.positive
        } else {
            self.negative
        }
    }
}

/// A first-order term.
///
/// `Var` is a free existential (inference) variable, an index into an
/// inference table. `Bound` is a variable bound by an enclosing quantifier
/// or clause binder, as a de Bruijn index (each binder binds exactly one
/// variable). `Placeholder` is a universal placeholder introduced when a
/// universal quantifier is instantiated. `App` applies a functor name to
/// arguments; a nullary application is a constant.
#[derive(Debug)]
pub enum Term {
    Var(usize),
    Bound(usize),
    Placeholder(usize),
    App(u64, Vec<Term>),
}

/// A program clause: `binders` variables are bound in the consequence and
/// the conditions (`Bound(0)` .. `Bound(binders - 1)` at depth zero). The
/// clause means: the consequence holds whenever every condition does.
#[derive(Debug)]
pub struct ProgramClause {
    pub binders: usize,
    pub consequence: Term,
    pub conditions: Vec<Condition>,
}

/// One condition of a program clause: a goal to prove, or a goal whose
/// failure is required (negation as failure).
#[derive(Debug)]
pub enum Condition {
    Positive(Goal),
    Negative(Goal),
}

/// A hereditary-Harrop goal. `Exists` and `ForAll` each bind one variable.
/// `Implies` makes extra clauses available while proving its body.
#[derive(Debug)]
pub enum Goal {
    Leaf(Term),
    And(Box<Goal>, Box<Goal>),
    Not(Box<Goal>),
    Exists(Box<Goal>),
    ForAll(Box<Goal>),
    Implies(Vec<ProgramClause>, Box<Goal>),
}

/// A goal together with the clauses brought into scope by enclosing
/// implication goals.
#[derive(Debug)]
pub struct InEnvironment {
    pub environment: Vec<ProgramClause>,
    pub goal: Goal,
}

/// A literal in an ex-clause body: a subgoal to prove, or to refute.
#[derive(Debug)]
pub enum Literal {
    Positive(InEnvironment),
    Negative(InEnvironment),
}

/// A canonicalized goal: the table key. Free existential variables are
/// renumbered `0 .. num_vars` in order of first occurrence, and placeholders
/// are renumbered `0 .. num_universes` likewise.
#[derive(Debug)]
pub struct UCanonicalGoal {
    pub num_vars: usize,
    pub num_universes: usize,
    pub goal: InEnvironment,
}

/// Maps the placeholders of a canonicalized value back to the placeholders
/// of the inference table it was canonicalized from.
#[derive(Debug)]
pub struct UniverseMap {
    pub map: Vec<usize>,
}

/// A region constraint collected during proof search. The solver carries
/// constraints through unchanged; an answer with constraints is not
/// "trivial" for the purpose of the green cut.
#[derive(Debug)]
pub struct Constraint {
    pub a: Term,
    pub b: Term,
}

/// An answer substitution together with its collected constraints.
#[derive(Debug)]
pub struct ConstrainedSubst {
    pub subst: Vec<Term>,
    pub constraints: Vec<Constraint>,
}

/// A canonicalized constrained substitution, as stored in answers.
#[derive(Debug)]
pub struct CanonicalConstrainedSubst {
    pub num_vars: usize,
    pub value: ConstrainedSubst,
}

/// A literal whose truth was left unresolved when an answer was produced;
/// it conditions the answer.
#[derive(Debug)]
pub enum DelayedLiteral {
    /// A subgoal that floundered (negative literal with free existentials,
    /// or truncation overflow): the answer is ambiguous.
    CannotProve,
    /// The table's goal must (still) have no unconditional answer.
    Negative(TableIndex),
    /// The table must (still) have the given conditional answer.
    Positive(TableIndex, CanonicalConstrainedSubst),
}

/// A deduplicated collection of delayed literals attached to an answer.
#[derive(Debug)]
pub struct DelayedLiteralSet {
    pub literals: Vec<DelayedLiteral>,
}

/// One solution of a table's goal: a substitution for the goal's canonical
/// variables, conditioned on a set of delayed literals.
#[derive(Debug)]
pub struct Answer {
    pub subst: CanonicalConstrainedSubst,
    pub delayed_literals: DelayedLiteralSet,
}

/// An SLG ex-clause: the state of one proof in progress.
#[derive(Debug)]
pub struct ExClause {
    /// The answer substitution being built, one term per canonical variable
    /// of the table goal.
    pub subst: Vec<Term>,
    /// Region constraints collected so far.
    pub constraints: Vec<Constraint>,
    /// Literals still to be proved, selected from the back.
    pub subgoals: Vec<Literal>,
    /// Literals whose resolution was deferred.
    pub delayed_literals: Vec<DelayedLiteral>,
}

/// Whether a unification step produced a result.
pub enum Satisfiable {
    Yes(ExClause),
    No,
}

/// A logic program: its clauses, and the functor names of the predicates
/// declared coinductive.
#[derive(Debug)]
pub struct Program {
    pub clauses: Vec<ProgramClause>,
    pub coinductive_predicates: Vec<u64>,
}

// ---------------------------------------------------------------------------
// Structural equality, as spec relations.
// ---------------------------------------------------------------------------

pub open spec fn term_eq_spec(a: Term, b: Term) -> bool
    decreases a,
{
    match (a, b) {
        (Term::Var(x), Term::Var(y)) => x == y,
        (Term::Bound(x), Term::Bound(y)) => x == y,
        (Term::Placeholder(x), Term::Placeholder(y)) => x == y,
        (Term::App(f, xs), Term::App(g, ys)) => f == g && xs.len() == ys.len() && (forall|i: int|
            0 <= i < xs.len() ==> term_eq_spec(#[trigger] xs[i], ys[i])),
        _ => false,
    }
}

pub open spec fn goal_eq_spec(a: Goal, b: Goal) -> bool
    decreases a,
{
    match (a, b) {
        (Goal::Leaf(x), Goal::Leaf(y)) => term_eq_spec(x, y),
        (Goal::And(x1, x2), Goal::And(y1, y2)) => goal_eq_spec(*x1, *y1) && goal_eq_spec(
            *x2,
            *y2,
        ),
        (Goal::Not(x), Goal::Not(y)) => goal_eq_spec(*x, *y),
        (Goal::Exists(x), Goal::Exists(y)) => goal_eq_spec(*x, *y),
        (Goal::ForAll(x), Goal::ForAll(y)) => goal_eq_spec(*x, *y),
        (Goal::Implies(cs, x), Goal::Implies(ds, y)) => cs.len() == ds.len() && (forall|i: int|
            0 <= i < cs.len() ==> clause_eq_spec(#[trigger] cs[i], ds[i])) && goal_eq_spec(*x, *y),
        _ => false,
    }
}

pub open spec fn clause_eq_spec(a: ProgramClause, b: ProgramClause) -> bool
    decreases a,
{
    a.binders == b.binders && term_eq_spec(a.consequence, b.consequence) && a.conditions.len()
        == b.conditions.len() && (forall|i: int|
        0 <= i < a.conditions.len() ==> condition_eq_spec(
            #[trigger] a.conditions[i],
            b.conditions[i],
        ))
}

pub open spec fn condition_eq_spec(a: Condition, b: Condition) -> bool
    decreases a,
{
    match (a, b) {
        (Condition::Positive(x), Condition::Positive(y)) => goal_eq_spec(x, y),
        (Condition::Negative(x), Condition::Negative(y)) => goal_eq_spec(x, y),
        _ => false,
    }
}

pub open spec fn env_eq_spec(a: Seq<ProgramClause>, b: Seq<ProgramClause>) -> bool {
    a.len() == b.len() && (forall|i: int|
        0 <= i < a.len() ==> clause_eq_spec(#[trigger] a[i], b[i]))
}

pub open spec fn in_env_eq_spec(a: InEnvironment, b: InEnvironment) -> bool {
    env_eq_spec(a.environment@, b.environment@) && goal_eq_spec(a.goal, b.goal)
}

pub open spec fn ucgoal_eq_spec(a: UCanonicalGoal, b: UCanonicalGoal) -> bool {
    a.num_vars == b.num_vars && a.num_universes == b.num_universes && in_env_eq_spec(a.goal, b.goal)
}

/// Literal equality: same polarity, same goal in the same environment.
pub open spec fn literal_eq_spec(a: Literal, b: Literal) -> bool {
    match (a, b) {
        (Literal::Positive(x), Literal::Positive(y)) => in_env_eq_spec(x, y),
        (Literal::Negative(x), Literal::Negative(y)) => in_env_eq_spec(x, y),
        _ => false,
    }
}

pub open spec fn terms_eq_spec(a: Seq<Term>, b: Seq<Term>) -> bool {
    a.len() == b.len() && (forall|i: int| 0 <= i < a.len() ==> term_eq_spec(#[trigger] a[i], b[i]))
}

pub open spec fn constraint_eq_spec(a: Constraint, b: Constraint) -> bool {
    term_eq_spec(a.a, b.a) && term_eq_spec(a.b, b.b)
}

pub open spec fn constraints_eq_spec(a: Seq<Constraint>, b: Seq<Constraint>) -> bool {
    a.len() == b.len() && (forall|i: int|
        0 <= i < a.len() ==> constraint_eq_spec(#[trigger] a[i], b[i]))
}

pub open spec fn ccs_eq_spec(a: CanonicalConstrainedSubst, b: CanonicalConstrainedSubst) -> bool {
    a.num_vars == b.num_vars && terms_eq_spec(a.value.subst@, b.value.subst@)
        && constraints_eq_spec(a.value.constraints@, b.value.constraints@)
}

pub open spec fn dl_eq_spec(a: DelayedLiteral, b: DelayedLiteral) -> bool {
    match (a, b) {
        (DelayedLiteral::CannotProve, DelayedLiteral::CannotProve) => true,
        (DelayedLiteral::Negative(t), DelayedLiteral::Negative(u)) => t == u,
        (DelayedLiteral::Positive(t, s), DelayedLiteral::Positive(u, r)) => t == u && ccs_eq_spec(
            s,
            r,
        ),
        _ => false,
    }
}

/// Membership in a collection of delayed literals, up to `dl_eq_spec`.
pub open spec fn dl_in_spec(x: DelayedLiteral, s: Seq<DelayedLiteral>) -> bool {
    exists|i: int| 0 <= i < s.len() && dl_eq_spec(x, #[trigger] s[i])
}

/// Two delayed-literal collections denote the same set.
pub open spec fn dlset_eq_spec(a: Seq<DelayedLiteral>, b: Seq<DelayedLiteral>) -> bool {
    (forall|i: int| 0 <= i < a.len() ==> dl_in_spec(#[trigger] a[i], b)) && (forall|i: int|
        0 <= i < b.len() ==> dl_in_spec(#[trigger] b[i], a))
}

/// Answer equality: same substitution (with constraints) and the same set
/// of delayed literals.
pub open spec fn answer_eq_spec(a: Answer, b: Answer) -> bool {
    ccs_eq_spec(a.subst, b.subst) && dlset_eq_spec(
        a.delayed_literals.literals@,
        b.delayed_literals.literals@,
    )
}

/// An answer is unconditional when nothing delays it and no constraints
/// were collected.
pub open spec fn answer_unconditional_spec(a: Answer) -> bool {
    a.delayed_literals.literals@.len() == 0 && a.subst.value.constraints@.len() == 0
}

/// The identity substitution on a goal's canonical variables: the trivial
/// answer, carrying no information beyond "true".
pub open spec fn trivial_subst_spec(num_vars: int, s: CanonicalConstrainedSubst) -> bool {
    s.value.subst@.len() == num_vars && (forall|i: int|
        0 <= i < num_vars ==> (#[trigger] s.value.subst@[i] matches Term::Var(v) && v == i))
}

// ---------------------------------------------------------------------------
// The size measure used by the goal simplifier. Only goal-level structure
// counts: rewriting terms (as quantifier instantiation does) keeps the size.
// ---------------------------------------------------------------------------

pub open spec fn goal_size(g: Goal) -> nat
    decreases g,
{
    match g {
        Goal::Leaf(_) => 1,
        Goal::And(a, b) => 1 + goal_size(*a) + goal_size(*b),
        Goal::Not(_) => 1,
        Goal::Exists(a) => 1 + goal_size(*a),
        Goal::ForAll(a) => 1 + goal_size(*a),
        Goal::Implies(_, a) => 1 + goal_size(*a),
    }
}

} // verus!
