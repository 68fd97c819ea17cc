//! Executable operations on the logical representation: structural
//! comparison (proved to decide the `spec` equality relations of `ir`),
//! duplication, opening a binder by substituting for its bound variable,
//! and deduplication of delayed literals.

use vstd::prelude::*;
use crate::ir::{
    Term, ProgramClause, Condition, Goal, InEnvironment, Literal, UCanonicalGoal, Constraint,
    CanonicalConstrainedSubst, ConstrainedSubst, DelayedLiteral, DelayedLiteralSet, ExClause,
    term_eq_spec, terms_eq_spec, goal_eq_spec, clause_eq_spec, condition_eq_spec, env_eq_spec,
    in_env_eq_spec, ucgoal_eq_spec, constraint_eq_spec, constraints_eq_spec, ccs_eq_spec,
    dl_eq_spec, dl_in_spec, dlset_eq_spec, answer_eq_spec, trivial_subst_spec, goal_size, Answer,
    literal_eq_spec,
};

verus! {

broadcast use vstd::std_specs::vec::group_vec_axioms;

// ---------------------------------------------------------------------------
// Comparison
// ---------------------------------------------------------------------------

pub fn term_eq(a: &Term, b: &Term) -> (r: bool)
    ensures
        r == term_eq_spec(*a, *b),
    decreases *a,
{
    match (a, b) {
        (Term::Var(x), Term::Var(y)) => *x == *y,
        (Term::Bound(x), Term::Bound(y)) => *x == *y,
        (Term::Placeholder(x), Term::Placeholder(y)) => *x == *y,
        (Term::App(f, xs), Term::App(g, ys)) => {
            if *f != *g || xs.len() != ys.len() {
                return false;
            }
            let mut i: usize = 0;
            while i < xs.len()
                invariant
                    i <= xs@.len(),
                    xs@.len() == ys@.len(),
                    *a == Term::App(*f, *xs),
                    *b == Term::App(*g, *ys),
                    forall|j: int| 0 <= j < i ==> term_eq_spec(#[trigger] xs@[j], ys@[j]),
                decreases xs@.len() - i,
            {
                proof {
                    assert(decreases_to!(*a => a->App_1));
                    assert(decreases_to!(*xs => xs@[i as int]));
                }
                if !term_eq(&xs[i], &ys[i]) {
                    return false;
                }
                i = i + 1;
            }
            true
        },
        _ => false,
    }
}

pub fn terms_eq(a: &Vec<Term>, b: &Vec<Term>) -> (r: bool)
    ensures
        r == terms_eq_spec(a@, b@),
{
    if a.len() != b.len() {
        return false;
    }
    let mut i: usize = 0;
    while i < a.len()
        invariant
            i <= a@.len(),
            a@.len() == b@.len(),
            forall|j: int| 0 <= j < i ==> term_eq_spec(#[trigger] a@[j], b@[j]),
        decreases a@.len() - i,
    {
        if !term_eq(&a[i], &b[i]) {
            return false;
        }
        i = i + 1;
    }
    true
}

pub fn goal_eq(a: &Goal, b: &Goal) -> (r: bool)
    ensures
        r == goal_eq_spec(*a, *b),
    decreases *a,
{
    match (a, b) {
        (Goal::Leaf(x), Goal::Leaf(y)) => term_eq(x, y),
        (Goal::And(x1, x2), Goal::And(y1, y2)) => goal_eq(x1, y1) && goal_eq(x2, y2),
        (Goal::Not(x), Goal::Not(y)) => goal_eq(x, y),
        (Goal::Exists(x), Goal::Exists(y)) => goal_eq(x, y),
        (Goal::ForAll(x), Goal::ForAll(y)) => goal_eq(x, y),
        (Goal::Implies(cs, x), Goal::Implies(ds, y)) => {
            if cs.len() != ds.len() {
                return false;
            }
            let mut i: usize = 0;
            while i < cs.len()
                invariant
                    i <= cs@.len(),
                    cs@.len() == ds@.len(),
                    *a == Goal::Implies(*cs, *x),
                    *b == Goal::Implies(*ds, *y),
                    forall|j: int| 0 <= j < i ==> clause_eq_spec(#[trigger] cs@[j], ds@[j]),
                decreases cs@.len() - i,
            {
                proof {
                    assert(decreases_to!(*a => a->Implies_0));
                    assert(decreases_to!(*cs => cs@[i as int]));
                }
                if !clause_eq(&cs[i], &ds[i]) {
                    return false;
                }
                i = i + 1;
            }
            goal_eq(x, y)
        },
        _ => false,
    }
}

pub fn clause_eq(a: &ProgramClause, b: &ProgramClause) -> (r: bool)
    ensures
        r == clause_eq_spec(*a, *b),
    decreases *a,
{
    if a.binders != b.binders || a.conditions.len() != b.conditions.len() {
        return false;
    }
    if !term_eq(&a.consequence, &b.consequence) {
        return false;
    }
    let mut i: usize = 0;
    while i < a.conditions.len()
        invariant
            i <= a.conditions@.len(),
            a.conditions@.len() == b.conditions@.len(),
            forall|j: int|
                0 <= j < i ==> condition_eq_spec(#[trigger] a.conditions@[j], b.conditions@[j]),
        decreases a.conditions@.len() - i,
    {
        proof {
            assert(decreases_to!(*a => a.conditions));
            assert(decreases_to!(a.conditions => a.conditions@[i as int]));
        }
        if !condition_eq(&a.conditions[i], &b.conditions[i]) {
            return false;
        }
        i = i + 1;
    }
    true
}

pub fn condition_eq(a: &Condition, b: &Condition) -> (r: bool)
    ensures
        r == condition_eq_spec(*a, *b),
    decreases *a,
{
    match (a, b) {
        (Condition::Positive(x), Condition::Positive(y)) => goal_eq(x, y),
        (Condition::Negative(x), Condition::Negative(y)) => goal_eq(x, y),
        _ => false,
    }
}

pub fn env_eq(a: &Vec<ProgramClause>, b: &Vec<ProgramClause>) -> (r: bool)
    ensures
        r == env_eq_spec(a@, b@),
{
    if a.len() != b.len() {
        return false;
    }
    let mut i: usize = 0;
    while i < a.len()
        invariant
            i <= a@.len(),
            a@.len() == b@.len(),
            forall|j: int| 0 <= j < i ==> clause_eq_spec(#[trigger] a@[j], b@[j]),
        decreases a@.len() - i,
    {
        if !clause_eq(&a[i], &b[i]) {
            return false;
        }
        i = i + 1;
    }
    true
}

pub fn in_env_eq(a: &InEnvironment, b: &InEnvironment) -> (r: bool)
    ensures
        r == in_env_eq_spec(*a, *b),
{
    env_eq(&a.environment, &b.environment) && goal_eq(&a.goal, &b.goal)
}

pub fn ucgoal_eq(a: &UCanonicalGoal, b: &UCanonicalGoal) -> (r: bool)
    ensures
        r == ucgoal_eq_spec(*a, *b),
{
    a.num_vars == b.num_vars && a.num_universes == b.num_universes && in_env_eq(&a.goal, &b.goal)
}

pub fn constraints_eq(a: &Vec<Constraint>, b: &Vec<Constraint>) -> (r: bool)
    ensures
        r == constraints_eq_spec(a@, b@),
{
    if a.len() != b.len() {
        return false;
    }
    let mut i: usize = 0;
    while i < a.len()
        invariant
            i <= a@.len(),
            a@.len() == b@.len(),
            forall|j: int| 0 <= j < i ==> constraint_eq_spec(#[trigger] a@[j], b@[j]),
        decreases a@.len() - i,
    {
        if !term_eq(&a[i].a, &b[i].a) || !term_eq(&a[i].b, &b[i].b) {
            return false;
        }
        i = i + 1;
    }
    true
}

pub fn ccs_eq(a: &CanonicalConstrainedSubst, b: &CanonicalConstrainedSubst) -> (r: bool)
    ensures
        r == ccs_eq_spec(*a, *b),
{
    a.num_vars == b.num_vars && terms_eq(&a.value.subst, &b.value.subst) && constraints_eq(
        &a.value.constraints,
        &b.value.constraints,
    )
}

pub fn dl_eq(a: &DelayedLiteral, b: &DelayedLiteral) -> (r: bool)
    ensures
        r == dl_eq_spec(*a, *b),
{
    match (a, b) {
        (DelayedLiteral::CannotProve, DelayedLiteral::CannotProve) => true,
        (DelayedLiteral::Negative(t), DelayedLiteral::Negative(u)) => t.value == u.value,
        (DelayedLiteral::Positive(t, s), DelayedLiteral::Positive(u, r2)) => t.value == u.value
            && ccs_eq(s, r2),
        _ => false,
    }
}

pub fn dl_in(x: &DelayedLiteral, s: &Vec<DelayedLiteral>) -> (r: bool)
    ensures
        r == dl_in_spec(*x, s@),
{
    let mut i: usize = 0;
    while i < s.len()
        invariant
            i <= s@.len(),
            forall|j: int| 0 <= j < i ==> !dl_eq_spec(*x, #[trigger] s@[j]),
        decreases s@.len() - i,
    {
        if dl_eq(x, &s[i]) {
            return true;
        }
        i = i + 1;
    }
    false
}

pub fn dlset_eq(a: &DelayedLiteralSet, b: &DelayedLiteralSet) -> (r: bool)
    ensures
        r == dlset_eq_spec(a.literals@, b.literals@),
{
    let mut i: usize = 0;
    while i < a.literals.len()
        invariant
            i <= a.literals@.len(),
            forall|j: int| 0 <= j < i ==> dl_in_spec(#[trigger] a.literals@[j], b.literals@),
        decreases a.literals@.len() - i,
    {
        if !dl_in(&a.literals[i], &b.literals) {
            return false;
        }
        i = i + 1;
    }
    let mut k: usize = 0;
    while k < b.literals.len()
        invariant
            k <= b.literals@.len(),
            forall|j: int| 0 <= j < a.literals@.len() ==> dl_in_spec(#[trigger] a.literals@[j], b.literals@),
            forall|j: int| 0 <= j < k ==> dl_in_spec(#[trigger] b.literals@[j], a.literals@),
        decreases b.literals@.len() - k,
    {
        if !dl_in(&b.literals[k], &a.literals) {
            return false;
        }
        k = k + 1;
    }
    true
}

pub fn answer_eq(a: &Answer, b: &Answer) -> (r: bool)
    ensures
        r == answer_eq_spec(*a, *b),
{
    ccs_eq(&a.subst, &b.subst) && dlset_eq(&a.delayed_literals, &b.delayed_literals)
}

/// Does this substitution merely rename each canonical variable of the goal
/// to itself, with no constraints on terms?
pub fn is_trivial_subst(num_vars: usize, s: &CanonicalConstrainedSubst) -> (r: bool)
    ensures
        r == trivial_subst_spec(num_vars as int, *s),
{
    if s.value.subst.len() != num_vars {
        return false;
    }
    let mut i: usize = 0;
    while i < num_vars
        invariant
            i <= num_vars,
            s.value.subst@.len() == num_vars,
            forall|j: int|
                0 <= j < i ==> (#[trigger] s.value.subst@[j] matches Term::Var(v) && v == j),
        decreases num_vars - i,
    {
        match &s.value.subst[i] {
            Term::Var(v) => {
                if *v != i {
                    return false;
                }
            },
            _ => {
                return false;
            },
        }
        i = i + 1;
    }
    true
}

// ---------------------------------------------------------------------------
// Reflexivity of the equality relations
// ---------------------------------------------------------------------------

pub proof fn lemma_term_eq_refl(t: Term)
    ensures
        term_eq_spec(t, t),
    decreases t,
{
    match t {
        Term::App(f, args) => {
            assert forall|i: int| 0 <= i < args.len() implies term_eq_spec(
                #[trigger] args[i],
                args[i],
            ) by {
                lemma_term_eq_refl(args[i]);
            }
        },
        _ => {},
    }
}

pub proof fn lemma_ccs_eq_refl(c: CanonicalConstrainedSubst)
    ensures
        ccs_eq_spec(c, c),
{
    assert forall|i: int| 0 <= i < c.value.subst@.len() implies term_eq_spec(
        #[trigger] c.value.subst@[i],
        c.value.subst@[i],
    ) by {
        lemma_term_eq_refl(c.value.subst@[i]);
    }
    assert forall|i: int| 0 <= i < c.value.constraints@.len() implies constraint_eq_spec(
        #[trigger] c.value.constraints@[i],
        c.value.constraints@[i],
    ) by {
        lemma_term_eq_refl(c.value.constraints@[i].a);
        lemma_term_eq_refl(c.value.constraints@[i].b);
    }
}

pub proof fn lemma_dl_eq_refl(d: DelayedLiteral)
    ensures
        dl_eq_spec(d, d),
{
    match d {
        DelayedLiteral::Positive(_, s) => {
            lemma_ccs_eq_refl(s);
        },
        _ => {},
    }
}

pub proof fn lemma_term_eq_sym(a: Term, b: Term)
    ensures
        term_eq_spec(a, b) ==> term_eq_spec(b, a),
    decreases a,
{
    match (a, b) {
        (Term::App(f, xs), Term::App(g, ys)) => {
            if term_eq_spec(a, b) {
                assert forall|i: int| 0 <= i < ys.len() implies term_eq_spec(
                    #[trigger] ys[i],
                    xs[i],
                ) by {
                    lemma_term_eq_sym(xs[i], ys[i]);
                }
            }
        },
        _ => {},
    }
}

pub proof fn lemma_ccs_eq_sym(a: CanonicalConstrainedSubst, b: CanonicalConstrainedSubst)
    ensures
        ccs_eq_spec(a, b) ==> ccs_eq_spec(b, a),
{
    if ccs_eq_spec(a, b) {
        assert forall|i: int| 0 <= i < b.value.subst@.len() implies term_eq_spec(
            #[trigger] b.value.subst@[i],
            a.value.subst@[i],
        ) by {
            lemma_term_eq_sym(a.value.subst@[i], b.value.subst@[i]);
        }
        assert forall|i: int| 0 <= i < b.value.constraints@.len() implies constraint_eq_spec(
            #[trigger] b.value.constraints@[i],
            a.value.constraints@[i],
        ) by {
            lemma_term_eq_sym(a.value.constraints@[i].a, b.value.constraints@[i].a);
            lemma_term_eq_sym(a.value.constraints@[i].b, b.value.constraints@[i].b);
        }
    }
}

pub proof fn lemma_dl_eq_sym(a: DelayedLiteral, b: DelayedLiteral)
    ensures
        dl_eq_spec(a, b) ==> dl_eq_spec(b, a),
{
    match (a, b) {
        (DelayedLiteral::Positive(_, s), DelayedLiteral::Positive(_, r)) => {
            lemma_ccs_eq_sym(s, r);
        },
        _ => {},
    }
}

// ---------------------------------------------------------------------------
// Duplication
// ---------------------------------------------------------------------------

pub fn copy_term(t: &Term) -> (r: Term)
    ensures
        term_eq_spec(r, *t),
    decreases *t,
{
    match t {
        Term::Var(v) => Term::Var(*v),
        Term::Bound(b) => Term::Bound(*b),
        Term::Placeholder(p) => Term::Placeholder(*p),
        Term::App(f, args) => {
            let mut new_args: Vec<Term> = Vec::new();
            let mut i: usize = 0;
            while i < args.len()
                invariant
                    i <= args@.len(),
                    *t == Term::App(*f, *args),
                    new_args@.len() == i,
                    forall|j: int| 0 <= j < i ==> term_eq_spec(#[trigger] new_args@[j], args@[j]),
                decreases args@.len() - i,
            {
                proof {
                    assert(decreases_to!(*t => t->App_1));
                    assert(decreases_to!(*args => args@[i as int]));
                }
                let c = copy_term(&args[i]);
                new_args.push(c);
                i = i + 1;
            }
            Term::App(*f, new_args)
        },
    }
}

pub fn copy_terms(v: &Vec<Term>) -> (r: Vec<Term>)
    ensures
        terms_eq_spec(r@, v@),
        r@.len() == v@.len(),
{
    let mut out: Vec<Term> = Vec::new();
    let mut i: usize = 0;
    while i < v.len()
        invariant
            i <= v@.len(),
            out@.len() == i,
            forall|j: int| 0 <= j < i ==> term_eq_spec(#[trigger] out@[j], v@[j]),
        decreases v@.len() - i,
    {
        let c = copy_term(&v[i]);
        out.push(c);
        i = i + 1;
    }
    out
}

pub fn copy_goal(g: &Goal) -> (r: Goal)
    ensures
        goal_eq_spec(r, *g),
    decreases *g,
{
    match g {
        Goal::Leaf(t) => Goal::Leaf(copy_term(t)),
        Goal::And(a, b) => Goal::And(Box::new(copy_goal(a)), Box::new(copy_goal(b))),
        Goal::Not(a) => Goal::Not(Box::new(copy_goal(a))),
        Goal::Exists(a) => Goal::Exists(Box::new(copy_goal(a))),
        Goal::ForAll(a) => Goal::ForAll(Box::new(copy_goal(a))),
        Goal::Implies(cs, a) => {
            let mut new_cs: Vec<ProgramClause> = Vec::new();
            let mut i: usize = 0;
            while i < cs.len()
                invariant
                    i <= cs@.len(),
                    *g == Goal::Implies(*cs, *a),
                    new_cs@.len() == i,
                    forall|j: int| 0 <= j < i ==> clause_eq_spec(#[trigger] new_cs@[j], cs@[j]),
                decreases cs@.len() - i,
            {
                proof {
                    assert(decreases_to!(*g => g->Implies_0));
                    assert(decreases_to!(*cs => cs@[i as int]));
                }
                let c = copy_clause(&cs[i]);
                new_cs.push(c);
                i = i + 1;
            }
            Goal::Implies(new_cs, Box::new(copy_goal(a)))
        },
    }
}

pub fn copy_clause(c: &ProgramClause) -> (r: ProgramClause)
    ensures
        clause_eq_spec(r, *c),
    decreases *c,
{
    let consequence = copy_term(&c.consequence);
    let mut conditions: Vec<Condition> = Vec::new();
    let mut i: usize = 0;
    while i < c.conditions.len()
        invariant
            i <= c.conditions@.len(),
            conditions@.len() == i,
            forall|j: int|
                0 <= j < i ==> condition_eq_spec(#[trigger] conditions@[j], c.conditions@[j]),
        decreases c.conditions@.len() - i,
    {
        proof {
            assert(decreases_to!(*c => c.conditions));
            assert(decreases_to!(c.conditions => c.conditions@[i as int]));
        }
        let cc = copy_condition(&c.conditions[i]);
        conditions.push(cc);
        i = i + 1;
    }
    ProgramClause { binders: c.binders, consequence, conditions }
}

pub fn copy_condition(c: &Condition) -> (r: Condition)
    ensures
        condition_eq_spec(r, *c),
    decreases *c,
{
    match c {
        Condition::Positive(g) => Condition::Positive(copy_goal(g)),
        Condition::Negative(g) => Condition::Negative(copy_goal(g)),
    }
}

pub fn copy_env(v: &Vec<ProgramClause>) -> (r: Vec<ProgramClause>)
    ensures
        env_eq_spec(r@, v@),
        r@.len() == v@.len(),
{
    let mut out: Vec<ProgramClause> = Vec::new();
    let mut i: usize = 0;
    while i < v.len()
        invariant
            i <= v@.len(),
            out@.len() == i,
            forall|j: int| 0 <= j < i ==> clause_eq_spec(#[trigger] out@[j], v@[j]),
        decreases v@.len() - i,
    {
        let c = copy_clause(&v[i]);
        out.push(c);
        i = i + 1;
    }
    out
}

pub fn copy_in_env(e: &InEnvironment) -> (r: InEnvironment)
    ensures
        in_env_eq_spec(r, *e),
{
    InEnvironment { environment: copy_env(&e.environment), goal: copy_goal(&e.goal) }
}

pub fn copy_literal(l: &Literal) -> (r: Literal)
    ensures
        r is Positive <==> *l is Positive,
        literal_eq_spec(r, *l),
{
    match l {
        Literal::Positive(e) => Literal::Positive(copy_in_env(e)),
        Literal::Negative(e) => Literal::Negative(copy_in_env(e)),
    }
}

pub fn copy_literals(v: &Vec<Literal>) -> (r: Vec<Literal>)
    ensures
        r@.len() == v@.len(),
        forall|j: int| 0 <= j < v@.len() ==> literal_eq_spec(#[trigger] r@[j], v@[j]),
{
    let mut out: Vec<Literal> = Vec::new();
    let mut i: usize = 0;
    while i < v.len()
        invariant
            i <= v@.len(),
            out@.len() == i,
            forall|j: int| 0 <= j < i ==> literal_eq_spec(#[trigger] out@[j], v@[j]),
        decreases v@.len() - i,
    {
        let c = copy_literal(&v[i]);
        out.push(c);
        i = i + 1;
    }
    out
}

pub fn copy_constraints(v: &Vec<Constraint>) -> (r: Vec<Constraint>)
    ensures
        constraints_eq_spec(r@, v@),
        r@.len() == v@.len(),
{
    let mut out: Vec<Constraint> = Vec::new();
    let mut i: usize = 0;
    while i < v.len()
        invariant
            i <= v@.len(),
            out@.len() == i,
            forall|j: int| 0 <= j < i ==> constraint_eq_spec(#[trigger] out@[j], v@[j]),
        decreases v@.len() - i,
    {
        let c = Constraint { a: copy_term(&v[i].a), b: copy_term(&v[i].b) };
        out.push(c);
        i = i + 1;
    }
    out
}

pub fn copy_ccs(c: &CanonicalConstrainedSubst) -> (r: CanonicalConstrainedSubst)
    ensures
        ccs_eq_spec(r, *c),
{
    CanonicalConstrainedSubst {
        num_vars: c.num_vars,
        value: ConstrainedSubst {
            subst: copy_terms(&c.value.subst),
            constraints: copy_constraints(&c.value.constraints),
        },
    }
}

pub fn copy_dl(d: &DelayedLiteral) -> (r: DelayedLiteral)
    ensures
        dl_eq_spec(r, *d),
{
    match d {
        DelayedLiteral::CannotProve => DelayedLiteral::CannotProve,
        DelayedLiteral::Negative(t) => DelayedLiteral::Negative(*t),
        DelayedLiteral::Positive(t, s) => DelayedLiteral::Positive(*t, copy_ccs(s)),
    }
}

pub fn copy_dls(v: &Vec<DelayedLiteral>) -> (r: Vec<DelayedLiteral>)
    ensures
        r@.len() == v@.len(),
        forall|j: int| 0 <= j < v@.len() ==> dl_eq_spec(#[trigger] r@[j], v@[j]),
{
    let mut out: Vec<DelayedLiteral> = Vec::new();
    let mut i: usize = 0;
    while i < v.len()
        invariant
            i <= v@.len(),
            out@.len() == i,
            forall|j: int| 0 <= j < i ==> dl_eq_spec(#[trigger] out@[j], v@[j]),
        decreases v@.len() - i,
    {
        let c = copy_dl(&v[i]);
        out.push(c);
        i = i + 1;
    }
    out
}

pub fn copy_ex_clause(x: &ExClause) -> (r: ExClause)
    ensures
        r.subgoals@.len() == x.subgoals@.len(),
        terms_eq_spec(r.subst@, x.subst@),
        constraints_eq_spec(r.constraints@, x.constraints@),
        forall|j: int|
            0 <= j < x.subgoals@.len() ==> literal_eq_spec(#[trigger] r.subgoals@[j], x.subgoals@[j]),
        r.delayed_literals@.len() == x.delayed_literals@.len(),
        forall|j: int|
            0 <= j < x.delayed_literals@.len() ==> dl_eq_spec(
                #[trigger] r.delayed_literals@[j],
                x.delayed_literals@[j],
            ),
{
    ExClause {
        subst: copy_terms(&x.subst),
        constraints: copy_constraints(&x.constraints),
        subgoals: copy_literals(&x.subgoals),
        delayed_literals: copy_dls(&x.delayed_literals),
    }
}

// ---------------------------------------------------------------------------
// Opening binders
// ---------------------------------------------------------------------------

/// Replaces `Bound(depth + i)` by `args[i]` throughout. The replacement
/// terms never contain bound variables (they are fresh variables or
/// placeholders), so no shifting is required.
pub fn open_term(t: &Term, depth: usize, args: &Vec<Term>) -> (r: Term)
    decreases *t,
{
    match t {
        Term::Var(v) => Term::Var(*v),
        Term::Bound(b) => {
            if *b >= depth && *b - depth < args.len() {
                copy_term(&args[*b - depth])
            } else {
                Term::Bound(*b)
            }
        },
        Term::Placeholder(p) => Term::Placeholder(*p),
        Term::App(f, ts) => {
            let mut new_args: Vec<Term> = Vec::new();
            let mut i: usize = 0;
            while i < ts.len()
                invariant
                    i <= ts@.len(),
                    *t == Term::App(*f, *ts),
                decreases ts@.len() - i,
            {
                proof {
                    assert(decreases_to!(*t => t->App_1));
                    assert(decreases_to!(*ts => ts@[i as int]));
                }
                let c = open_term(&ts[i], depth, args);
                new_args.push(c);
                i = i + 1;
            }
            Term::App(*f, new_args)
        },
    }
}

/// `depth + extra`, saturating; a binder nesting this deep cannot occur in
/// practice, and a saturated depth merely leaves deeper indices untouched.
pub fn deepen(depth: usize, extra: usize) -> (r: usize)
    ensures
        r >= depth,
{
    if depth <= usize::MAX - extra {
        depth + extra
    } else {
        usize::MAX
    }
}

pub fn open_goal(g: &Goal, depth: usize, args: &Vec<Term>) -> (r: Goal)
    ensures
        goal_size(r) == goal_size(*g),
    decreases *g,
{
    match g {
        Goal::Leaf(t) => Goal::Leaf(open_term(t, depth, args)),
        Goal::And(a, b) => Goal::And(
            Box::new(open_goal(a, depth, args)),
            Box::new(open_goal(b, depth, args)),
        ),
        Goal::Not(a) => Goal::Not(Box::new(open_goal(a, depth, args))),
        Goal::Exists(a) => Goal::Exists(Box::new(open_goal(a, deepen(depth, 1), args))),
        Goal::ForAll(a) => Goal::ForAll(Box::new(open_goal(a, deepen(depth, 1), args))),
        Goal::Implies(cs, a) => {
            let mut new_cs: Vec<ProgramClause> = Vec::new();
            let mut i: usize = 0;
            while i < cs.len()
                invariant
                    i <= cs@.len(),
                    *g == Goal::Implies(*cs, *a),
                decreases cs@.len() - i,
            {
                proof {
                    assert(decreases_to!(*g => g->Implies_0));
                    assert(decreases_to!(*cs => cs@[i as int]));
                }
                let c = open_clause(&cs[i], depth, args);
                new_cs.push(c);
                i = i + 1;
            }
            Goal::Implies(new_cs, Box::new(open_goal(a, depth, args)))
        },
    }
}

pub fn open_clause(c: &ProgramClause, depth: usize, args: &Vec<Term>) -> (r: ProgramClause)
    decreases *c,
{
    let inner = deepen(depth, c.binders);
    let consequence = open_term(&c.consequence, inner, args);
    let mut conditions: Vec<Condition> = Vec::new();
    let mut i: usize = 0;
    while i < c.conditions.len()
        invariant
            i <= c.conditions@.len(),
        decreases c.conditions@.len() - i,
    {
        proof {
            assert(decreases_to!(*c => c.conditions));
            assert(decreases_to!(c.conditions => c.conditions@[i as int]));
        }
        let cc = open_condition(&c.conditions[i], inner, args);
        conditions.push(cc);
        i = i + 1;
    }
    ProgramClause { binders: c.binders, consequence, conditions }
}

pub fn open_condition(c: &Condition, depth: usize, args: &Vec<Term>) -> (r: Condition)
    decreases *c,
{
    match c {
        Condition::Positive(g) => Condition::Positive(open_goal(g, depth, args)),
        Condition::Negative(g) => Condition::Negative(open_goal(g, depth, args)),
    }
}

// ---------------------------------------------------------------------------
// Ordering of delayed literals
// ---------------------------------------------------------------------------

/// Variants are ordered as declared: an ambiguity marker first, then
/// negative conditions, then positive ones.
pub open spec fn dl_rank(d: DelayedLiteral) -> int {
    match d {
        DelayedLiteral::CannotProve => 0,
        DelayedLiteral::Negative(_) => 1,
        DelayedLiteral::Positive(_, _) => 2,
    }
}

/// Within a variant, literals are ordered by the table they name.
pub open spec fn dl_pos(d: DelayedLiteral) -> int {
    match d {
        DelayedLiteral::CannotProve => 0,
        DelayedLiteral::Negative(t) => t.value as int,
        DelayedLiteral::Positive(t, _) => t.value as int,
    }
}

pub open spec fn dl_le(a: DelayedLiteral, b: DelayedLiteral) -> bool {
    dl_rank(a) < dl_rank(b) || (dl_rank(a) == dl_rank(b) && dl_pos(a) <= dl_pos(b))
}

/// Sorted by variant rank and table index.
pub open spec fn dls_sorted(s: Seq<DelayedLiteral>) -> bool {
    forall|i: int, j: int| 0 <= i < j < s.len() ==> dl_le(s[i], s[j])
}

pub fn dl_le_exec(a: &DelayedLiteral, b: &DelayedLiteral) -> (r: bool)
    ensures
        r == dl_le(*a, *b),
{
    let ra: u64 = match a {
        DelayedLiteral::CannotProve => 0,
        DelayedLiteral::Negative(_) => 1,
        DelayedLiteral::Positive(_, _) => 2,
    };
    let rb: u64 = match b {
        DelayedLiteral::CannotProve => 0,
        DelayedLiteral::Negative(_) => 1,
        DelayedLiteral::Positive(_, _) => 2,
    };
    if ra != rb {
        return ra < rb;
    }
    let pa: usize = match a {
        DelayedLiteral::CannotProve => 0,
        DelayedLiteral::Negative(t) => t.value,
        DelayedLiteral::Positive(t, _) => t.value,
    };
    let pb: usize = match b {
        DelayedLiteral::CannotProve => 0,
        DelayedLiteral::Negative(t) => t.value,
        DelayedLiteral::Positive(t, _) => t.value,
    };
    pa <= pb
}

/// Does this exact value occur in the sequence?
pub open spec fn appears(x: DelayedLiteral, s: Seq<DelayedLiteral>) -> bool {
    exists|j: int| 0 <= j < s.len() && x == s[j]
}

/// Arranges delayed literals by variant rank and table index, moving the
/// given literals into the new order.
#[verifier::spinoff_prover]
#[verifier::rlimit(100)]
pub fn sort_delayed(v: Vec<DelayedLiteral>) -> (r: Vec<DelayedLiteral>)
    ensures
        r@.len() == v@.len(),
        dls_sorted(r@),
        forall|i: int| 0 <= i < r@.len() ==> appears(#[trigger] r@[i], v@),
        forall|j: int| 0 <= j < v@.len() ==> appears(#[trigger] v@[j], r@),
{
    let ghost orig = v@;
    let mut rest = v;
    let mut out: Vec<DelayedLiteral> = Vec::new();
    while rest.len() > 0
        invariant
            out@.len() + rest@.len() == orig.len(),
            dls_sorted(out@),
            forall|i: int, j: int|
                0 <= i < out@.len() && 0 <= j < rest@.len() ==> dl_le(
                    #[trigger] out@[i],
                    #[trigger] rest@[j],
                ),
            forall|i: int| 0 <= i < out@.len() ==> appears(#[trigger] out@[i], orig),
            forall|i: int| 0 <= i < rest@.len() ==> appears(#[trigger] rest@[i], orig),
            forall|j: int|
                0 <= j < orig.len() ==> appears(#[trigger] orig[j], out@) || appears(
                    orig[j],
                    rest@,
                ),
        decreases rest@.len(),
    {
        // index of a minimal remaining literal
        let mut m: usize = 0;
        let mut i: usize = 1;
        while i < rest.len()
            invariant
                m < rest@.len(),
                1 <= i <= rest@.len(),
                forall|k: int| 0 <= k < i ==> dl_le(rest@[m as int], #[trigger] rest@[k]),
            decreases rest@.len() - i,
        {
            if dl_le_exec(&rest[i], &rest[m]) {
                m = i;
            }
            i = i + 1;
        }
        let ghost pre_rest = rest@;
        let ghost pre_out = out@;
        let x = rest.remove(m);
        proof {
            pre_rest.remove_ensures(m as int);
            assert(x == pre_rest[m as int]);
        }
        out.push(x);
        proof {
            assert(out@ == pre_out.push(x));
            assert(appears(x, orig)) by {
                assert(appears(pre_rest[m as int], orig));
            }
            assert forall|i2: int| 0 <= i2 < out@.len() implies appears(
                #[trigger] out@[i2],
                orig,
            ) by {
                if i2 < pre_out.len() {
                    assert(out@[i2] == pre_out[i2]);
                }
            }
            assert forall|i2: int, j2: int|
                0 <= i2 < out@.len() && 0 <= j2 < rest@.len() implies dl_le(
                #[trigger] out@[i2],
                #[trigger] rest@[j2],
            ) by {
                if j2 < m {
                    assert(rest@[j2] == pre_rest[j2]);
                } else {
                    assert(rest@[j2] == pre_rest[j2 + 1]);
                }
                if i2 < pre_out.len() {
                    assert(out@[i2] == pre_out[i2]);
                } else {
                    assert(out@[i2] == x);
                }
            }
            assert forall|i2: int| 0 <= i2 < rest@.len() implies appears(
                #[trigger] rest@[i2],
                orig,
            ) by {
                if i2 < m {
                    assert(rest@[i2] == pre_rest[i2]);
                } else {
                    assert(rest@[i2] == pre_rest[i2 + 1]);
                }
            }
            assert forall|j2: int|
                0 <= j2 < orig.len() implies appears(#[trigger] orig[j2], out@) || appears(
                orig[j2],
                rest@,
            ) by {
                if !appears(orig[j2], pre_out) {
                    let w = choose|w: int| 0 <= w < pre_rest.len() && orig[j2] == pre_rest[w];
                    if w == m {
                        assert(out@[out@.len() - 1] == orig[j2]);
                    } else if w < m {
                        assert(rest@[w] == pre_rest[w]);
                    } else {
                        assert(rest@[w - 1] == pre_rest[w]);
                    }
                } else {
                    let w = choose|w: int| 0 <= w < pre_out.len() && orig[j2] == pre_out[w];
                    assert(out@[w] == pre_out[w]);
                }
            }
        }
    }
    out
}

// ---------------------------------------------------------------------------
// Delayed-literal deduplication
// ---------------------------------------------------------------------------

/// Collapses a list of delayed literals into a set representation: the same
/// literals, each kept once.
pub fn dedup_delayed(v: Vec<DelayedLiteral>) -> (r: DelayedLiteralSet)
    ensures
        dlset_eq_spec(r.literals@, v@),
        forall|i: int, j: int|
            0 <= i < j < r.literals@.len() ==> !dl_eq_spec(
                #[trigger] r.literals@[i],
                #[trigger] r.literals@[j],
            ),
        r.literals@.len() == 0 <==> v@.len() == 0,
        dls_sorted(v@) ==> dls_sorted(r.literals@),
{
    let ghost orig = v@;
    let mut rest = v;
    let mut out: Vec<DelayedLiteral> = Vec::new();
    while rest.len() > 0
        invariant
            rest@.len() <= orig.len(),
            rest@ =~= orig.subrange(orig.len() - rest@.len(), orig.len() as int),
            forall|i: int, j: int|
                0 <= i < j < out@.len() ==> !dl_eq_spec(#[trigger] out@[i], #[trigger] out@[j]),
            forall|i: int|
                0 <= i < orig.len() - rest@.len() ==> dl_in_spec(#[trigger] orig[i], out@),
            forall|i: int| 0 <= i < out@.len() ==> dl_in_spec(#[trigger] out@[i], orig),
            forall|k: int|
                0 <= k < out@.len() ==> exists|i: int|
                    0 <= i < orig.len() - rest@.len() && #[trigger] out@[k] == orig[i],
            dls_sorted(orig) ==> dls_sorted(out@),
            orig.len() > rest@.len() ==> out@.len() > 0,
        decreases rest@.len(),
    {
        let ghost processed = orig.len() - rest@.len();
        let x = rest.remove(0);
        proof {
            assert(orig[processed as int] == x);
            lemma_dl_eq_refl(x);
        }
        let ghost pre_out = out@;
        if !dl_in(&x, &out) {
            proof {
                assert forall|k: int| 0 <= k < out@.len() implies !dl_eq_spec(
                    #[trigger] out@[k],
                    x,
                ) by {
                    lemma_dl_eq_sym(out@[k], x);
                }
                if dls_sorted(orig) {
                    assert forall|k: int| 0 <= k < out@.len() implies dl_le(
                        #[trigger] out@[k],
                        x,
                    ) by {
                        let i = choose|i: int|
                            0 <= i < orig.len() - rest@.len() && out@[k] == orig[i];
                        assert(dl_le(orig[i], orig[processed as int]));
                    }
                }
            }
            out.push(x);
            proof {
                assert(out@ == pre_out.push(x));
                assert(dl_eq_spec(x, out@[pre_out.len() as int]));
                assert(dl_in_spec(x, out@));
                assert(dl_in_spec(x, orig));
                assert forall|i: int| 0 <= i < processed implies dl_in_spec(
                    #[trigger] orig[i],
                    out@,
                ) by {
                    let k = choose|k: int|
                        0 <= k < pre_out.len() && dl_eq_spec(orig[i], pre_out[k]);
                    assert(out@[k] == pre_out[k]);
                    assert(dl_eq_spec(orig[i], out@[k]));
                }
            }
        } else {
            proof {
                assert(dl_in_spec(orig[processed as int], out@));
            }
        }
    }
    proof {
        if out@.len() > 0 {
            assert(dl_in_spec(out@[0], orig));
        }
    }
    DelayedLiteralSet { literals: out }
}

} // verus!
