//! Resolution steps: unifying a program clause's head with a table's
//! domain goal to start a strand, unifying a selected subgoal with a cached
//! answer, and breaking a hereditary-Harrop goal into literals.

use vstd::prelude::*;
use crate::infer::{InferenceTable, RewriteMode, RESOLVE_FUEL};
use crate::ir::{
    CanonicalConstrainedSubst, Condition, Constraint, ExClause, Goal, InEnvironment, Literal,
    Program, ProgramClause, Satisfiable, Term, goal_size,
};
use crate::ops::{copy_clause, copy_env, copy_terms, open_goal, open_term};

verus! {

broadcast use vstd::std_specs::vec::group_vec_axioms;

/// The clauses that could resolve against `domain_goal`: those of the
/// program followed by those of the environment whose head applies the same
/// functor. A non-application goal has no applicable clauses.
pub fn applicable_clauses(
    program: &Program,
    environment: &Vec<ProgramClause>,
    domain_goal: &Term,
) -> (r: Vec<ProgramClause>)
    ensures
        r@.len() <= program.clauses@.len() + environment@.len(),
{
    let mut out: Vec<ProgramClause> = Vec::new();
    let name: u64 = match domain_goal {
        Term::App(n, _) => *n,
        _ => {
            return out;
        },
    };
    let mut i: usize = 0;
    while i < program.clauses.len()
        invariant
            i <= program.clauses@.len(),
            out@.len() <= i,
        decreases program.clauses@.len() - i,
    {
        match &program.clauses[i].consequence {
            Term::App(n, _) => {
                if *n == name {
                    let c = copy_clause(&program.clauses[i]);
                    out.push(c);
                }
            },
            _ => {},
        }
        i = i + 1;
    }
    let mut k: usize = 0;
    while k < environment.len()
        invariant
            k <= environment@.len(),
            out@.len() <= program.clauses@.len() + k,
        decreases environment@.len() - k,
    {
        match &environment[k].consequence {
            Term::App(n, _) => {
                if *n == name {
                    let c = copy_clause(&environment[k]);
                    out.push(c);
                }
            },
            _ => {},
        }
        k = k + 1;
    }
    out
}

/// Unifies `clause`'s head (its binders instantiated with fresh variables)
/// against the table's domain goal, producing the initial ex-clause of one
/// strand: the clause's conditions become the subgoals.
pub fn resolvent_clause(
    infer: &mut InferenceTable,
    environment: &Vec<ProgramClause>,
    domain_goal: &Term,
    subst: &Vec<Term>,
    clause: &ProgramClause,
) -> (r: Satisfiable)
    ensures
        r matches Satisfiable::Yes(ex) ==> ex.subgoals@.len() == clause.conditions@.len(),
{
    let fresh = infer.fresh_subst(clause.binders);
    let head = open_term(&clause.consequence, 0, &fresh);
    if !infer.unify_term(&head, domain_goal, RESOLVE_FUEL) {
        return Satisfiable::No;
    }
    let mut subgoals: Vec<Literal> = Vec::new();
    let mut i: usize = 0;
    while i < clause.conditions.len()
        invariant
            i <= clause.conditions@.len(),
            subgoals@.len() == i,
        decreases clause.conditions@.len() - i,
    {
        let lit = match &clause.conditions[i] {
            Condition::Positive(g) => Literal::Positive(
                InEnvironment { environment: copy_env(environment), goal: open_goal(g, 0, &fresh) },
            ),
            Condition::Negative(g) => Literal::Negative(
                InEnvironment { environment: copy_env(environment), goal: open_goal(g, 0, &fresh) },
            ),
        };
        subgoals.push(lit);
        i = i + 1;
    }
    Satisfiable::Yes(
        ExClause {
            subst: copy_terms(subst),
            constraints: Vec::new(),
            subgoals,
            delayed_literals: Vec::new(),
        },
    )
}

/// Unifies a selected positive subgoal against a cached answer of its
/// table: the answer's canonical variables are instantiated fresh, its
/// substitution is applied to the table goal, the result is unified with
/// the subgoal, and the answer's constraints are carried into the
/// ex-clause.
pub fn apply_answer_subst(
    infer: &mut InferenceTable,
    ex_clause: ExClause,
    subgoal: &InEnvironment,
    table_goal: &InEnvironment,
    answer_subst: &CanonicalConstrainedSubst,
) -> (r: Satisfiable)
    ensures
        r matches Satisfiable::Yes(ex) ==> ex.subgoals@ == ex_clause.subgoals@
            && ex.delayed_literals@ == ex_clause.delayed_literals@ && ex.subst@
            == ex_clause.subst@,
{
    let fresh = infer.fresh_subst(answer_subst.num_vars);
    let mut seen: Vec<usize> = Vec::new();
    let empty_us: Vec<usize> = Vec::new();

    // The answer's terms, its canonical variables replaced by fresh ones.
    let mut ans_terms: Vec<Term> = Vec::new();
    let mut i: usize = 0;
    while i < answer_subst.value.subst.len()
        invariant
            i <= answer_subst.value.subst@.len(),
        decreases answer_subst.value.subst@.len() - i,
    {
        let t = InferenceTable::rewrite_term(
            &answer_subst.value.subst[i],
            RewriteMode::ApplyVars,
            &mut seen,
            &empty_us,
            &fresh,
        );
        ans_terms.push(t);
        i = i + 1;
    }

    // The table goal, its canonical variables replaced by the answer terms.
    let instantiated = InferenceTable::rewrite_in_env(
        table_goal,
        RewriteMode::ApplyVars,
        &mut seen,
        &empty_us,
        &ans_terms,
    );

    if !infer.unify_in_env(subgoal, &instantiated, RESOLVE_FUEL) {
        return Satisfiable::No;
    }

    let mut ex = ex_clause;
    let mut k: usize = 0;
    while k < answer_subst.value.constraints.len()
        invariant
            k <= answer_subst.value.constraints@.len(),
            ex.subgoals@ == ex_clause.subgoals@,
            ex.delayed_literals@ == ex_clause.delayed_literals@,
            ex.subst@ == ex_clause.subst@,
        decreases answer_subst.value.constraints@.len() - k,
    {
        let a = InferenceTable::rewrite_term(
            &answer_subst.value.constraints[k].a,
            RewriteMode::ApplyVars,
            &mut seen,
            &empty_us,
            &fresh,
        );
        let b = InferenceTable::rewrite_term(
            &answer_subst.value.constraints[k].b,
            RewriteMode::ApplyVars,
            &mut seen,
            &empty_us,
            &fresh,
        );
        ex.constraints.push(Constraint { a, b });
        k = k + 1;
    }
    Satisfiable::Yes(ex)
}

/// Breaks a hereditary-Harrop goal into literals, instantiating
/// existential binders with fresh variables and universal binders with
/// fresh placeholders, and collecting implication clauses into the
/// environment. The literals land in `out` in the order the goal mentions
/// them; the evaluator selects from the back.
pub fn simplify_into(
    infer: &mut InferenceTable,
    env: &Vec<ProgramClause>,
    goal: Goal,
    out: &mut Vec<Literal>,
)
    decreases goal_size(goal),
{
    match goal {
        Goal::Leaf(t) => {
            out.push(
                Literal::Positive(InEnvironment { environment: copy_env(env), goal: Goal::Leaf(t) }),
            );
        },
        Goal::And(a, b) => {
            simplify_into(infer, env, *a, out);
            simplify_into(infer, env, *b, out);
        },
        Goal::Not(g) => {
            out.push(
                Literal::Negative(InEnvironment { environment: copy_env(env), goal: *g }),
            );
        },
        Goal::Exists(g) => {
            let v = infer.new_variable();
            let mut args: Vec<Term> = Vec::new();
            args.push(Term::Var(v));
            let opened = open_goal(&g, 0, &args);
            simplify_into(infer, env, opened, out);
        },
        Goal::ForAll(g) => {
            let p = infer.new_placeholder();
            let mut args: Vec<Term> = Vec::new();
            args.push(Term::Placeholder(p));
            let opened = open_goal(&g, 0, &args);
            simplify_into(infer, env, opened, out);
        },
        Goal::Implies(cs, g) => {
            let mut env2 = copy_env(env);
            let mut i: usize = 0;
            while i < cs.len()
                invariant
                    i <= cs@.len(),
                decreases cs@.len() - i,
            {
                let c = copy_clause(&cs[i]);
                env2.push(c);
                i = i + 1;
            }
            simplify_into(infer, &env2, *g, out);
        },
    }
}

/// Reduces an HH goal to a single ex-clause whose subgoals are the goal's
/// literals: the built-in "meta clause" for non-leaf goals.
pub fn simplify_hh_goal(
    infer: &mut InferenceTable,
    subst: Vec<Term>,
    environment: &Vec<ProgramClause>,
    goal: Goal,
) -> (r: Satisfiable)
    ensures
        r is Yes,
{
    let mut subgoals: Vec<Literal> = Vec::new();
    simplify_into(infer, environment, goal, &mut subgoals);
    Satisfiable::Yes(
        ExClause { subst, constraints: Vec::new(), subgoals, delayed_literals: Vec::new() },
    )
}

} // verus!
