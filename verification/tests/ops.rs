//! Tests of the structural operations: comparison, duplication,
//! binder opening, deduplication, and the minimums algebra.

use slg_solver::infer::InferenceTable;
use slg_solver::ir::{
    CanonicalConstrainedSubst, ConstrainedSubst, DelayedLiteral, DepthFirstNumber, Minimums,
    TableIndex, Term,
};
use slg_solver::ops::{copy_term, dedup_delayed, is_trivial_subst, open_term, term_eq};

fn app(name: u64, args: Vec<Term>) -> Term {
    Term::App(name, args)
}

#[test]
fn term_equality_is_structural() {
    let a = app(1, vec![Term::Var(0), app(2, vec![])]);
    let b = app(1, vec![Term::Var(0), app(2, vec![])]);
    let c = app(1, vec![Term::Var(1), app(2, vec![])]);
    assert!(term_eq(&a, &b));
    assert!(!term_eq(&a, &c));
    assert!(!term_eq(&a, &app(1, vec![Term::Var(0)])));
    assert!(!term_eq(&Term::Var(3), &Term::Bound(3)));
}

#[test]
fn copies_compare_equal() {
    let a = app(4, vec![Term::Placeholder(1), app(5, vec![Term::Bound(0)])]);
    let b = copy_term(&a);
    assert!(term_eq(&a, &b));
}

#[test]
fn opening_replaces_the_bound_variable() {
    // Bound(0) -> i32 inside Vec<Bound(0)>
    let t = app(10, vec![Term::Bound(0)]);
    let opened = open_term(&t, 0, &vec![app(11, vec![])]);
    assert!(term_eq(&opened, &app(10, vec![app(11, vec![])])));
    // an index pointing past the binder stays untouched
    let deep = open_term(&Term::Bound(3), 0, &vec![app(11, vec![])]);
    assert!(term_eq(&deep, &Term::Bound(3)));
}

#[test]
fn delayed_literal_dedup_keeps_one_of_each() {
    let t0 = TableIndex { value: 0 };
    let t1 = TableIndex { value: 1 };
    let v = vec![
        DelayedLiteral::Negative(t0),
        DelayedLiteral::CannotProve,
        DelayedLiteral::Negative(t0),
        DelayedLiteral::Negative(t1),
        DelayedLiteral::CannotProve,
    ];
    let set = dedup_delayed(v);
    assert_eq!(set.literals.len(), 3);
}

#[test]
fn trivial_substitution_is_the_identity() {
    let ident = CanonicalConstrainedSubst {
        num_vars: 2,
        value: ConstrainedSubst {
            subst: vec![Term::Var(0), Term::Var(1)],
            constraints: Vec::new(),
        },
    };
    assert!(is_trivial_subst(2, &ident));
    let swapped = CanonicalConstrainedSubst {
        num_vars: 2,
        value: ConstrainedSubst {
            subst: vec![Term::Var(1), Term::Var(0)],
            constraints: Vec::new(),
        },
    };
    assert!(!is_trivial_subst(2, &swapped));
    let ground = CanonicalConstrainedSubst {
        num_vars: 1,
        value: ConstrainedSubst { subst: vec![app(11, vec![])], constraints: Vec::new() },
    };
    assert!(!is_trivial_subst(1, &ground));
}

#[test]
fn minimums_take_componentwise() {
    let mut m = Minimums {
        positive: DepthFirstNumber { value: 7 },
        negative: DepthFirstNumber { value: u64::MAX },
    };
    let other = Minimums {
        positive: DepthFirstNumber { value: 9 },
        negative: DepthFirstNumber { value: 3 },
    };
    m.take_minimums(&other);
    assert_eq!(m.positive.value, 7);
    assert_eq!(m.negative.value, 3);
    assert_eq!(m.minimum_of_pos_and_neg().value, 3);
}

#[test]
fn unification_binds_and_rejects() {
    let mut infer = InferenceTable::new();
    let v0 = infer.new_variable();
    let v1 = infer.new_variable();
    // Vec<?0> = Vec<i32> succeeds and resolves ?0 to i32
    let lhs = app(10, vec![Term::Var(v0)]);
    let rhs = app(10, vec![app(11, vec![])]);
    assert!(infer.unify_term(&lhs, &rhs, 1000));
    let resolved = infer.resolve_term(&Term::Var(v0), 1000);
    assert!(term_eq(&resolved, &app(11, vec![])));
    // clashing functors fail
    assert!(!infer.unify_term(&app(1, vec![]), &app(2, vec![]), 1000));
    // the occurs check rejects cyclic bindings
    let cyclic = app(10, vec![Term::Var(v1)]);
    assert!(!infer.unify_term(&Term::Var(v1), &cyclic, 1000));
}

#[test]
fn canonicalization_renumbers_by_first_occurrence() {
    let mut infer = InferenceTable::new();
    let _ = infer.new_variable();
    let _ = infer.new_variable();
    let v2 = infer.new_variable();
    let v0 = 0usize;
    // App(1, ?2, ?0, ?2) canonicalizes to App(1, ?0, ?1, ?0)
    let subst = vec![app(1, vec![Term::Var(v2), Term::Var(v0), Term::Var(v2)])];
    let canonical = infer.canonicalize_answer(&subst, &Vec::new());
    assert_eq!(canonical.num_vars, 2);
    let expected = app(1, vec![Term::Var(0), Term::Var(1), Term::Var(0)]);
    assert!(term_eq(&canonical.value.subst[0], &expected));
}

#[test]
fn delayed_literals_sort_and_dedup() {
    let t0 = TableIndex { value: 0 };
    let t1 = TableIndex { value: 1 };
    let t2 = TableIndex { value: 2 };
    let pos = |t: TableIndex| {
        DelayedLiteral::Positive(
            t,
            CanonicalConstrainedSubst {
                num_vars: 0,
                value: ConstrainedSubst { subst: Vec::new(), constraints: Vec::new() },
            },
        )
    };
    let v = vec![
        DelayedLiteral::Negative(t2),
        DelayedLiteral::CannotProve,
        pos(t1),
        DelayedLiteral::Negative(t0),
        DelayedLiteral::CannotProve,
    ];
    let sorted = slg_solver::ops::sort_delayed(v);
    assert!(matches!(sorted[0], DelayedLiteral::CannotProve));
    assert!(matches!(sorted[1], DelayedLiteral::CannotProve));
    assert!(matches!(sorted[2], DelayedLiteral::Negative(t) if t.value == 0));
    assert!(matches!(sorted[3], DelayedLiteral::Negative(t) if t.value == 2));
    assert!(matches!(sorted[4], DelayedLiteral::Positive(t, _) if t.value == 1));
    let set = slg_solver::ops::dedup_delayed(sorted);
    assert_eq!(set.literals.len(), 4);
    assert!(matches!(set.literals[0], DelayedLiteral::CannotProve));
    assert!(matches!(set.literals[1], DelayedLiteral::Negative(t) if t.value == 0));
    assert!(matches!(set.literals[2], DelayedLiteral::Negative(t) if t.value == 2));
    assert!(matches!(set.literals[3], DelayedLiteral::Positive(t, _) if t.value == 1));
}
