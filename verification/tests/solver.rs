//! End-to-end tests of the on-demand SLG evaluator: facts, recursion with
//! the green cut, coinduction, negation as failure, delayed (conditional)
//! answers, and floundering.

use slg_solver::forest::{Forest, RootSearchFail};
use slg_solver::ir::{
    AnswerIndex, Condition, DelayedLiteral, Goal, InEnvironment, Program, ProgramClause,
    TableIndex, Term, UCanonicalGoal,
};
use slg_solver::ops::answer_eq;

const SIZED: u64 = 1;
const WF: u64 = 2;
const Q: u64 = 3;
const R: u64 = 4;
const A: u64 = 5;
const B: u64 = 6;
const COPY: u64 = 7;
const VEC: u64 = 10;
const I32: u64 = 11;
const S: u64 = 12;

fn app(name: u64, args: Vec<Term>) -> Term {
    Term::App(name, args)
}

fn atom(name: u64) -> Term {
    Term::App(name, Vec::new())
}

fn fact(name: u64) -> ProgramClause {
    ProgramClause { binders: 0, consequence: atom(name), conditions: Vec::new() }
}

fn query(goal: Goal) -> UCanonicalGoal {
    UCanonicalGoal {
        num_vars: 0,
        num_universes: 0,
        goal: InEnvironment { environment: Vec::new(), goal },
    }
}

fn leaf(t: Term) -> Goal {
    Goal::Leaf(t)
}

fn not(g: Goal) -> Goal {
    Goal::Not(Box::new(g))
}

fn new_forest(program: Program) -> Forest {
    Forest::new(program, 30, 1_000_000)
}

/// Re-invokes through cooperative yields, as a driver would.
fn drive(f: &mut Forest, t: TableIndex, i: usize) -> Result<(), RootSearchFail> {
    for _ in 0..10_000 {
        match f.ensure_root_answer(t, AnswerIndex { value: i }) {
            Err(RootSearchFail::QuantumExceeded) => continue,
            r => return r,
        }
    }
    panic!("no quiescent outcome within the re-invocation bound");
}

fn is_unconditional(f: &Forest, t: TableIndex, i: usize) -> bool {
    let a = f.answer(t, AnswerIndex { value: i });
    a.delayed_literals.literals.len() == 0 && a.subst.value.constraints.len() == 0
}

#[test]
fn unit_fact() {
    // program { P. }, query P: answer 0 unconditional, answer 1 impossible.
    let program = Program { clauses: vec![fact(Q)], coinductive_predicates: Vec::new() };
    let mut f = new_forest(program);
    let t = f.get_or_create_table_for_ucanonical_goal(query(leaf(atom(Q))));
    assert_eq!(drive(&mut f, t, 0), Ok(()));
    assert!(is_unconditional(&f, t, 0));
    assert_eq!(drive(&mut f, t, 1), Err(RootSearchFail::NoMoreSolutions));
    assert_eq!(f.stack.len(), 0);
}

fn sized_program() -> Program {
    // forall<T> Vec<T>: Sized :- T: Sized.   i32: Sized.
    let rec = ProgramClause {
        binders: 1,
        consequence: app(SIZED, vec![app(VEC, vec![Term::Bound(0)])]),
        conditions: vec![Condition::Positive(leaf(app(SIZED, vec![Term::Bound(0)])))],
    };
    let base = ProgramClause {
        binders: 0,
        consequence: app(SIZED, vec![atom(I32)]),
        conditions: Vec::new(),
    };
    Program { clauses: vec![rec, base], coinductive_predicates: Vec::new() }
}

#[test]
fn simple_recursion_with_trivial_cut() {
    // query Vec<i32>: Sized: exactly one trivial answer, and the green cut
    // empties the strand pool of the root table.
    let mut f = new_forest(sized_program());
    let goal = query(leaf(app(SIZED, vec![app(VEC, vec![atom(I32)])])));
    let t = f.get_or_create_table_for_ucanonical_goal(goal);
    assert_eq!(drive(&mut f, t, 0), Ok(()));
    assert!(is_unconditional(&f, t, 0));
    assert_eq!(f.tables[t.value].strands.len(), 0);
    assert_eq!(drive(&mut f, t, 1), Err(RootSearchFail::NoMoreSolutions));
}

fn wf_loop_program(coinductive: bool) -> Program {
    // WF(S) :- WF(S).
    let clause = ProgramClause {
        binders: 0,
        consequence: app(WF, vec![atom(S)]),
        conditions: vec![Condition::Positive(leaf(app(WF, vec![atom(S)])))],
    };
    let coinductive_predicates = if coinductive { vec![WF] } else { Vec::new() };
    Program { clauses: vec![clause], coinductive_predicates }
}

#[test]
fn coinductive_loop_succeeds() {
    // with WF declared coinductive, the self-referential goal holds.
    let mut f = new_forest(wf_loop_program(true));
    let t = f.get_or_create_table_for_ucanonical_goal(query(leaf(app(WF, vec![atom(S)]))));
    assert_eq!(drive(&mut f, t, 0), Ok(()));
    assert!(is_unconditional(&f, t, 0));
    assert_eq!(drive(&mut f, t, 1), Err(RootSearchFail::NoMoreSolutions));
}

#[test]
fn inductive_loop_fails() {
    // the same program without the coinductive flag has no answers.
    let mut f = new_forest(wf_loop_program(false));
    let t = f.get_or_create_table_for_ucanonical_goal(query(leaf(app(WF, vec![atom(S)]))));
    assert_eq!(drive(&mut f, t, 0), Err(RootSearchFail::NoMoreSolutions));
    assert_eq!(f.stack.len(), 0);
}

#[test]
fn negation_as_failure_succeeds() {
    // program { Q. }, query not(R): R has no clauses, so the negation holds.
    let program = Program { clauses: vec![fact(Q)], coinductive_predicates: Vec::new() };
    let mut f = new_forest(program);
    let t = f.get_or_create_table_for_ucanonical_goal(query(not(leaf(atom(R)))));
    assert_eq!(drive(&mut f, t, 0), Ok(()));
    assert!(is_unconditional(&f, t, 0));
}

#[test]
fn negation_of_provable_goal_fails() {
    // query not(Q) where Q is a fact: no answers.
    let program = Program { clauses: vec![fact(Q)], coinductive_predicates: Vec::new() };
    let mut f = new_forest(program);
    let t = f.get_or_create_table_for_ucanonical_goal(query(not(leaf(atom(Q)))));
    assert_eq!(drive(&mut f, t, 0), Err(RootSearchFail::NoMoreSolutions));
}

fn mutual_negation_program() -> Program {
    // A :- not(B).   B :- not(A).
    let a_clause = ProgramClause {
        binders: 0,
        consequence: atom(A),
        conditions: vec![Condition::Negative(leaf(atom(B)))],
    };
    let b_clause = ProgramClause {
        binders: 0,
        consequence: atom(B),
        conditions: vec![Condition::Negative(leaf(atom(A)))],
    };
    Program { clauses: vec![a_clause, b_clause], coinductive_predicates: Vec::new() }
}

#[test]
fn conditional_delayed_answer() {
    // query A: one conditional answer, delayed on "B has no unconditional
    // answer"; nothing unconditional for either side.
    let mut f = new_forest(mutual_negation_program());
    let t = f.get_or_create_table_for_ucanonical_goal(query(leaf(atom(A))));
    assert_eq!(drive(&mut f, t, 0), Ok(()));
    let tb = f.get_or_create_table_for_ucanonical_goal(query(leaf(atom(B))));
    {
        let ans = f.answer(t, AnswerIndex { value: 0 });
        assert_eq!(ans.delayed_literals.literals.len(), 1);
        match &ans.delayed_literals.literals[0] {
            DelayedLiteral::Negative(dt) => assert_eq!(dt.value, tb.value),
            other => panic!("unexpected delayed literal: {:?}", other),
        }
    }
    assert_eq!(drive(&mut f, t, 1), Err(RootSearchFail::NoMoreSolutions));

    // query B on a fresh forest: symmetric.
    let mut g = new_forest(mutual_negation_program());
    let tb2 = g.get_or_create_table_for_ucanonical_goal(query(leaf(atom(B))));
    assert_eq!(drive(&mut g, tb2, 0), Ok(()));
    let ta2 = g.get_or_create_table_for_ucanonical_goal(query(leaf(atom(A))));
    let ans = g.answer(tb2, AnswerIndex { value: 0 });
    assert_eq!(ans.delayed_literals.literals.len(), 1);
    match &ans.delayed_literals.literals[0] {
        DelayedLiteral::Negative(dt) => assert_eq!(dt.value, ta2.value),
        other => panic!("unexpected delayed literal: {:?}", other),
    }
}

#[test]
fn floundering_negative() {
    // query exists<T> not(T: Copy): the negative literal has a free
    // existential, so it flounders into a CannotProve condition.
    let program = Program { clauses: Vec::new(), coinductive_predicates: Vec::new() };
    let mut f = new_forest(program);
    let goal = query(Goal::Exists(Box::new(not(leaf(app(COPY, vec![Term::Bound(0)]))))));
    let t = f.get_or_create_table_for_ucanonical_goal(goal);
    assert_eq!(drive(&mut f, t, 0), Ok(()));
    let ans = f.answer(t, AnswerIndex { value: 0 });
    assert_eq!(ans.delayed_literals.literals.len(), 1);
    assert!(matches!(ans.delayed_literals.literals[0], DelayedLiteral::CannotProve));
}

#[test]
fn answers_are_stable_and_monotone() {
    // counts never shrink across calls, and a present answer is idempotent.
    let mut f = new_forest(sized_program());
    let goal = query(leaf(app(SIZED, vec![app(VEC, vec![atom(I32)])])));
    let t = f.get_or_create_table_for_ucanonical_goal(goal);
    assert_eq!(drive(&mut f, t, 0), Ok(()));
    let count_after_first = f.num_answers(t);
    let tables_before = f.table_count();
    // idempotent re-request
    assert_eq!(f.ensure_root_answer(t, AnswerIndex { value: 0 }), Ok(()));
    assert_eq!(f.num_answers(t), count_after_first);
    assert_eq!(f.table_count(), tables_before);
    // further requests never lose answers
    let _ = drive(&mut f, t, 1);
    assert!(f.num_answers(t) >= count_after_first);
    assert_eq!(f.stack.len(), 0);
}

#[test]
fn same_program_same_answers() {
    // two forests from the same program produce the same answers in the
    // same order.
    let mut f1 = new_forest(mutual_negation_program());
    let mut f2 = new_forest(mutual_negation_program());
    let t1 = f1.get_or_create_table_for_ucanonical_goal(query(leaf(atom(A))));
    let t2 = f2.get_or_create_table_for_ucanonical_goal(query(leaf(atom(A))));
    let r1 = drive(&mut f1, t1, 0);
    let r2 = drive(&mut f2, t2, 0);
    assert_eq!(r1, r2);
    assert_eq!(f1.num_answers(t1), f2.num_answers(t2));
    for i in 0..f1.num_answers(t1) {
        let a1 = f1.answer(t1, AnswerIndex { value: i });
        let a2 = f2.answer(t2, AnswerIndex { value: i });
        assert!(answer_eq(a1, a2));
    }
    assert_eq!(drive(&mut f1, t1, 1), drive(&mut f2, t2, 1));
}

#[test]
fn quantum_liveness_under_tiny_budget() {
    // with the smallest budget every call still returns, and each yield
    // reflects consumed work.
    let mut f = Forest::new(sized_program(), 30, 2);
    let goal = query(leaf(app(SIZED, vec![app(VEC, vec![atom(I32)])])));
    let t = f.get_or_create_table_for_ucanonical_goal(goal);
    let mut consumed = f.strands_consumed;
    for _ in 0..3 {
        let r = f.ensure_root_answer(t, AnswerIndex { value: 0 });
        assert_eq!(r, Err(RootSearchFail::QuantumExceeded));
        assert!(f.strands_consumed > consumed);
        consumed = f.strands_consumed;
        assert_eq!(f.stack.len(), 0);
    }
}

#[test]
fn tables_are_interned() {
    // the same canonical goal always maps to the same table.
    let mut f = new_forest(sized_program());
    let g1 = query(leaf(app(SIZED, vec![atom(I32)])));
    let g2 = query(leaf(app(SIZED, vec![atom(I32)])));
    let t1 = f.get_or_create_table_for_ucanonical_goal(g1);
    let t2 = f.get_or_create_table_for_ucanonical_goal(g2);
    assert_eq!(t1.value, t2.value);
}

#[test]
fn conjunction_of_facts() {
    // query Q and R with both as facts: one unconditional answer.
    let program = Program { clauses: vec![fact(Q), fact(R)], coinductive_predicates: Vec::new() };
    let mut f = new_forest(program);
    let goal = query(Goal::And(Box::new(leaf(atom(Q))), Box::new(leaf(atom(R)))));
    let t = f.get_or_create_table_for_ucanonical_goal(goal);
    assert_eq!(drive(&mut f, t, 0), Ok(()));
    assert!(is_unconditional(&f, t, 0));
}

#[test]
fn implication_goal_uses_hypothesis() {
    // query (R :- true) => R with no program clauses: the hypothesis
    // supplies the proof.
    let program = Program { clauses: Vec::new(), coinductive_predicates: Vec::new() };
    let mut f = new_forest(program);
    let hyp = fact(R);
    let goal = query(Goal::Implies(vec![hyp], Box::new(leaf(atom(R)))));
    let t = f.get_or_create_table_for_ucanonical_goal(goal);
    assert_eq!(drive(&mut f, t, 0), Ok(()));
    assert!(is_unconditional(&f, t, 0));
}

#[test]
fn existential_query_binds_answer() {
    // query exists<T> T: Sized against { i32: Sized }: an answer exists and
    // records a substitution for the existential.
    let base = ProgramClause {
        binders: 0,
        consequence: app(SIZED, vec![atom(I32)]),
        conditions: Vec::new(),
    };
    let program = Program { clauses: vec![base], coinductive_predicates: Vec::new() };
    let mut f = new_forest(program);
    let goal = UCanonicalGoal {
        num_vars: 0,
        num_universes: 0,
        goal: InEnvironment {
            environment: Vec::new(),
            goal: Goal::Exists(Box::new(leaf(app(SIZED, vec![Term::Bound(0)])))),
        },
    };
    let t = f.get_or_create_table_for_ucanonical_goal(goal);
    assert_eq!(drive(&mut f, t, 0), Ok(()));
    assert_eq!(drive(&mut f, t, 1), Err(RootSearchFail::NoMoreSolutions));
}

#[test]
fn enumerates_several_answers_in_order() {
    // P(a). P(b). — query P(?x): two distinct answers, then no more.
    const P: u64 = 20;
    const CA: u64 = 21;
    const CB: u64 = 22;
    let program = Program {
        clauses: vec![
            ProgramClause {
                binders: 0,
                consequence: app(P, vec![atom(CA)]),
                conditions: Vec::new(),
            },
            ProgramClause {
                binders: 0,
                consequence: app(P, vec![atom(CB)]),
                conditions: Vec::new(),
            },
        ],
        coinductive_predicates: Vec::new(),
    };
    let mut f = new_forest(program);
    let goal = UCanonicalGoal {
        num_vars: 1,
        num_universes: 0,
        goal: InEnvironment {
            environment: Vec::new(),
            goal: leaf(app(P, vec![Term::Var(0)])),
        },
    };
    let t = f.get_or_create_table_for_ucanonical_goal(goal);
    assert_eq!(drive(&mut f, t, 0), Ok(()));
    assert_eq!(drive(&mut f, t, 1), Ok(()));
    assert_eq!(drive(&mut f, t, 2), Err(RootSearchFail::NoMoreSolutions));
    let a0 = f.answer(t, AnswerIndex { value: 0 });
    let a1 = f.answer(t, AnswerIndex { value: 1 });
    assert!(!answer_eq(a0, a1));
    assert_eq!(a0.subst.value.subst.len(), 1);
    assert_eq!(a1.subst.value.subst.len(), 1);
}

#[test]
fn deep_recursion_terminates() {
    // query Vec<Vec<i32>>: Sized through two unfoldings of the clause.
    let mut f = new_forest(sized_program());
    let goal = query(leaf(app(SIZED, vec![app(VEC, vec![app(VEC, vec![atom(I32)])])])));
    let t = f.get_or_create_table_for_ucanonical_goal(goal);
    assert_eq!(drive(&mut f, t, 0), Ok(()));
    assert!(is_unconditional(&f, t, 0));
    assert_eq!(drive(&mut f, t, 1), Err(RootSearchFail::NoMoreSolutions));
}

#[test]
fn truncated_positive_subgoal_still_answers() {
    // with a tiny size bound the recursive subgoal is abstracted to a more
    // general table; irrelevant answers fail to unify and the query still
    // holds.
    let mut f = Forest::new(sized_program(), 2, 1_000_000);
    let goal = query(leaf(app(SIZED, vec![app(VEC, vec![atom(I32)])])));
    let t = f.get_or_create_table_for_ucanonical_goal(goal);
    assert_eq!(drive(&mut f, t, 0), Ok(()));
    assert!(is_unconditional(&f, t, 0));
}

#[test]
fn truncated_negative_flounders() {
    // a negative literal whose goal exceeds the size bound is never
    // truncated: it flounders into a CannotProve condition instead.
    let mut f = Forest::new(sized_program(), 2, 1_000_000);
    let goal = query(not(leaf(app(SIZED, vec![app(VEC, vec![app(VEC, vec![atom(I32)])])]))));
    let t = f.get_or_create_table_for_ucanonical_goal(goal);
    assert_eq!(drive(&mut f, t, 0), Ok(()));
    let ans = f.answer(t, AnswerIndex { value: 0 });
    assert_eq!(ans.delayed_literals.literals.len(), 1);
    assert!(matches!(ans.delayed_literals.literals[0], DelayedLiteral::CannotProve));
}
