//! The inference table: existential variables, unification, resolution,
//! canonicalization, universe handling, inversion of negative goals, and
//! truncation.
//!
//! Bindings are triangular: binding a variable never rewrites earlier
//! bindings, so resolving a term follows chains. The occurs check keeps the
//! binding graph acyclic, which bounds every chain in practice; the
//! recursion here is nevertheless metered by an explicit budget far beyond
//! the depth of any representable term, so that every operation provably
//! terminates. An exhausted budget makes unification report failure and
//! resolution return its input unchanged.
//!
//! The solver's correctness arguments do not rest on contracts of this
//! module: it is the engine room the evaluator drives, and the evaluator's
//! own bookkeeping contracts are stated independently of what unification
//! produces.

use vstd::prelude::*;
use crate::ir::{
    Term, ProgramClause, Condition, Goal, InEnvironment, Constraint, ConstrainedSubst,
    CanonicalConstrainedSubst, UCanonicalGoal, UniverseMap,
};
use crate::ops::{copy_term, copy_goal, copy_clause, copy_env};

verus! {

broadcast use vstd::std_specs::vec::group_vec_axioms;

/// Recursion budget for operations that follow binding chains. Chains are
/// bounded by the number of variables, and terms by available memory; this
/// budget exceeds both by orders of magnitude.
pub const RESOLVE_FUEL: u64 = 0xFFFF_FFFF;

/// How leaves are rewritten by the shared structural walk.
#[derive(Clone, Copy, Debug, PartialEq, Eq, Structural)]
pub enum RewriteMode {
    /// Renumber free variables in order of first occurrence.
    CanonVars,
    /// Renumber placeholders in order of first occurrence, recording the
    /// original numbers.
    CanonUniverses,
    /// Replace placeholders by fresh canonical variables (inversion of a
    /// ground negative goal).
    InvertUniverses,
    /// Map canonical placeholders back through a recorded universe map.
    ApplyUniverses,
    /// Substitute terms for canonical variables.
    ApplyVars,
}

/// Finds `id` in `seen`, appending it if absent; returns its position.
pub fn find_or_push(seen: &mut Vec<usize>, id: usize) -> (r: usize)
    ensures
        old(seen)@.len() <= final(seen)@.len(),
{
    let mut i: usize = 0;
    while i < seen.len()
        invariant
            i <= seen@.len(),
        decreases seen@.len() - i,
    {
        if seen[i] == id {
            return i;
        }
        i = i + 1;
    }
    let r = seen.len();
    seen.push(id);
    r
}

/// An inference context: the values of existential variables found so far,
/// and a source of fresh placeholders.
#[derive(Debug)]
pub struct InferenceTable {
    pub bindings: Vec<Option<Term>>,
    pub next_placeholder: usize,
}

impl InferenceTable {
    pub fn new() -> (r: Self)
        ensures
            r.bindings@.len() == 0,
            r.next_placeholder == 0,
    {
        InferenceTable { bindings: Vec::new(), next_placeholder: 0 }
    }

    /// An independent copy: mutating one table does not affect the other.
    pub fn clone_table(&self) -> (r: Self) {
        let mut bindings: Vec<Option<Term>> = Vec::new();
        let mut i: usize = 0;
        while i < self.bindings.len()
            invariant
                i <= self.bindings@.len(),
            decreases self.bindings@.len() - i,
        {
            match &self.bindings[i] {
                Some(t) => bindings.push(Some(copy_term(t))),
                None => bindings.push(None),
            }
            i = i + 1;
        }
        InferenceTable { bindings, next_placeholder: self.next_placeholder }
    }

    /// Creates a fresh unbound existential variable.
    pub fn new_variable(&mut self) -> (r: usize)
        ensures
            r == old(self).bindings@.len(),
            final(self).bindings@.len() == old(self).bindings@.len() + 1,
    {
        let r = self.bindings.len();
        self.bindings.push(None);
        r
    }

    /// Creates `n` fresh variables, as terms: the identity substitution on
    /// a goal with `n` canonical variables.
    pub fn fresh_subst(&mut self, n: usize) -> (r: Vec<Term>)
        ensures
            r@.len() == n,
    {
        let mut out: Vec<Term> = Vec::new();
        let mut i: usize = 0;
        while i < n
            invariant
                i <= n,
                out@.len() == i,
            decreases n - i,
        {
            let v = self.new_variable();
            out.push(Term::Var(v));
            i = i + 1;
        }
        out
    }

    /// Creates a fresh universal placeholder.
    pub fn new_placeholder(&mut self) -> (r: usize) {
        let r = self.next_placeholder;
        if self.next_placeholder < usize::MAX {
            self.next_placeholder = self.next_placeholder + 1;
        }
        r
    }

    /// Readies this table to host the placeholders of a canonicalized goal.
    pub fn instantiate_universes(&mut self, goal: &UCanonicalGoal) {
        if goal.num_universes > self.next_placeholder {
            self.next_placeholder = goal.num_universes;
        }
    }

    /// Follows binding chains at the head of `t` until an unbound variable
    /// or a non-variable term appears.
    fn shallow_resolve(&self, t: &Term, fuel: u64) -> (r: Term)
        decreases fuel,
    {
        if fuel == 0 {
            return copy_term(t);
        }
        match t {
            Term::Var(v) => {
                if *v < self.bindings.len() {
                    match &self.bindings[*v] {
                        Some(bound) => self.shallow_resolve(bound, fuel - 1),
                        None => Term::Var(*v),
                    }
                } else {
                    Term::Var(*v)
                }
            },
            _ => copy_term(t),
        }
    }

    /// Does variable `v` occur in `t`, looking through bindings?
    fn occurs(&self, v: usize, t: &Term, fuel: u64) -> (r: bool)
        decreases fuel, *t,
    {
        if fuel == 0 {
            return true;  // conservative: refuse the binding
        }
        match t {
            Term::Var(w) => {
                if *w == v {
                    true
                } else if *w < self.bindings.len() {
                    match &self.bindings[*w] {
                        Some(bound) => self.occurs(v, bound, fuel - 1),
                        None => false,
                    }
                } else {
                    false
                }
            },
            Term::App(f, args) => {
                let mut i: usize = 0;
                while i < args.len()
                    invariant
                        i <= args@.len(),
                        *t == Term::App(*f, *args),
                    decreases args@.len() - i,
                {
                    proof {
                        assert(decreases_to!(*t => t->App_1));
                        assert(decreases_to!(*args => args@[i as int]));
                    }
                    if self.occurs(v, &args[i], fuel) {
                        return true;
                    }
                    i = i + 1;
                }
                false
            },
            _ => false,
        }
    }

    /// Binds an unbound variable.
    fn bind(&mut self, v: usize, t: Term) -> (r: bool) {
        if v < self.bindings.len() {
            match &self.bindings[v] {
                Some(_) => false,
                None => {
                    self.bindings[v] = Some(t);
                    true
                },
            }
        } else {
            false
        }
    }

    /// First-order unification with occurs check. Returns whether the two
    /// terms were made equal; on success the bindings extend accordingly.
    pub fn unify_term(&mut self, a: &Term, b: &Term, fuel: u64) -> (r: bool)
        decreases fuel,
    {
        if fuel == 0 {
            return false;
        }
        let ra = self.shallow_resolve(a, RESOLVE_FUEL);
        let rb = self.shallow_resolve(b, RESOLVE_FUEL);
        match (ra, rb) {
            (Term::Var(v), Term::Var(w)) => {
                if v == w {
                    true
                } else {
                    self.bind(v, Term::Var(w))
                }
            },
            (Term::Var(v), t) => {
                if self.occurs(v, &t, RESOLVE_FUEL) {
                    false
                } else {
                    self.bind(v, t)
                }
            },
            (t, Term::Var(v)) => {
                if self.occurs(v, &t, RESOLVE_FUEL) {
                    false
                } else {
                    self.bind(v, t)
                }
            },
            (Term::Placeholder(p), Term::Placeholder(q)) => p == q,
            (Term::Bound(i), Term::Bound(j)) => i == j,
            (Term::App(f, xs), Term::App(g, ys)) => {
                if f != g || xs.len() != ys.len() {
                    return false;
                }
                let mut i: usize = 0;
                while i < xs.len()
                    invariant
                        i <= xs@.len(),
                        xs@.len() == ys@.len(),
                        fuel >= 1,
                    decreases xs@.len() - i,
                {
                    if !self.unify_term(&xs[i], &ys[i], fuel - 1) {
                        return false;
                    }
                    i = i + 1;
                }
                true
            },
            _ => false,
        }
    }

    /// Structural unification of goals: shapes must match, leaf terms are
    /// unified, binders stay rigid.
    pub fn unify_goal(&mut self, a: &Goal, b: &Goal, fuel: u64) -> (r: bool)
        decreases fuel,
    {
        if fuel == 0 {
            return false;
        }
        match (a, b) {
            (Goal::Leaf(x), Goal::Leaf(y)) => self.unify_term(x, y, fuel),
            (Goal::And(x1, x2), Goal::And(y1, y2)) => self.unify_goal(x1, y1, fuel - 1)
                && self.unify_goal(x2, y2, fuel - 1),
            (Goal::Not(x), Goal::Not(y)) => self.unify_goal(x, y, fuel - 1),
            (Goal::Exists(x), Goal::Exists(y)) => self.unify_goal(x, y, fuel - 1),
            (Goal::ForAll(x), Goal::ForAll(y)) => self.unify_goal(x, y, fuel - 1),
            (Goal::Implies(cs, x), Goal::Implies(ds, y)) => self.unify_env(cs, ds, fuel - 1)
                && self.unify_goal(x, y, fuel - 1),
            _ => false,
        }
    }

    pub fn unify_clause(&mut self, a: &ProgramClause, b: &ProgramClause, fuel: u64) -> (r: bool)
        decreases fuel,
    {
        if fuel == 0 {
            return false;
        }
        if a.binders != b.binders || a.conditions.len() != b.conditions.len() {
            return false;
        }
        if !self.unify_term(&a.consequence, &b.consequence, fuel) {
            return false;
        }
        let mut i: usize = 0;
        while i < a.conditions.len()
            invariant
                i <= a.conditions@.len(),
                a.conditions@.len() == b.conditions@.len(),
                fuel >= 1,
            decreases a.conditions@.len() - i,
        {
            let ok = match (&a.conditions[i], &b.conditions[i]) {
                (Condition::Positive(x), Condition::Positive(y)) => self.unify_goal(
                    x,
                    y,
                    fuel - 1,
                ),
                (Condition::Negative(x), Condition::Negative(y)) => self.unify_goal(
                    x,
                    y,
                    fuel - 1,
                ),
                _ => false,
            };
            if !ok {
                return false;
            }
            i = i + 1;
        }
        true
    }

    pub fn unify_env(&mut self, a: &Vec<ProgramClause>, b: &Vec<ProgramClause>, fuel: u64) -> (r:
        bool)
        decreases fuel,
    {
        if fuel == 0 {
            return false;
        }
        if a.len() != b.len() {
            return false;
        }
        let mut i: usize = 0;
        while i < a.len()
            invariant
                i <= a@.len(),
                a@.len() == b@.len(),
                fuel >= 1,
            decreases a@.len() - i,
        {
            if !self.unify_clause(&a[i], &b[i], fuel - 1) {
                return false;
            }
            i = i + 1;
        }
        true
    }

    pub fn unify_in_env(&mut self, a: &InEnvironment, b: &InEnvironment, fuel: u64) -> (r: bool)
        decreases fuel,
    {
        if fuel == 0 {
            return false;
        }
        self.unify_env(&a.environment, &b.environment, fuel - 1) && self.unify_goal(
            &a.goal,
            &b.goal,
            fuel - 1,
        )
    }

    // -----------------------------------------------------------------------
    // Deep resolution
    // -----------------------------------------------------------------------

    /// Replaces every bound variable in `t` by its (recursively resolved)
    /// value.
    pub fn resolve_term(&self, t: &Term, fuel: u64) -> (r: Term)
        decreases fuel, *t,
    {
        if fuel == 0 {
            return copy_term(t);
        }
        match t {
            Term::Var(v) => {
                if *v < self.bindings.len() {
                    match &self.bindings[*v] {
                        Some(bound) => self.resolve_term(bound, fuel - 1),
                        None => Term::Var(*v),
                    }
                } else {
                    Term::Var(*v)
                }
            },
            Term::Bound(b) => Term::Bound(*b),
            Term::Placeholder(p) => Term::Placeholder(*p),
            Term::App(f, args) => {
                let mut new_args: Vec<Term> = Vec::new();
                let mut i: usize = 0;
                while i < args.len()
                    invariant
                        i <= args@.len(),
                        *t == Term::App(*f, *args),
                    decreases args@.len() - i,
                {
                    proof {
                        assert(decreases_to!(*t => t->App_1));
                        assert(decreases_to!(*args => args@[i as int]));
                    }
                    let c = self.resolve_term(&args[i], fuel);
                    new_args.push(c);
                    i = i + 1;
                }
                Term::App(*f, new_args)
            },
        }
    }

    pub fn resolve_goal(&self, g: &Goal, fuel: u64) -> (r: Goal)
        decreases fuel, *g,
    {
        if fuel == 0 {
            return copy_goal(g);
        }
        match g {
            Goal::Leaf(t) => Goal::Leaf(self.resolve_term(t, fuel)),
            Goal::And(a, b) => Goal::And(
                Box::new(self.resolve_goal(a, fuel)),
                Box::new(self.resolve_goal(b, fuel)),
            ),
            Goal::Not(a) => Goal::Not(Box::new(self.resolve_goal(a, fuel))),
            Goal::Exists(a) => Goal::Exists(Box::new(self.resolve_goal(a, fuel))),
            Goal::ForAll(a) => Goal::ForAll(Box::new(self.resolve_goal(a, fuel))),
            Goal::Implies(cs, a) => {
                let mut new_cs: Vec<ProgramClause> = Vec::new();
                let mut i: usize = 0;
                while i < cs.len()
                    invariant
                        i <= cs@.len(),
                        *g == Goal::Implies(*cs, *a),
                    decreases cs@.len() - i,
                {
                    proof {
                        assert(decreases_to!(*g => g->Implies_0));
                        assert(decreases_to!(*cs => cs@[i as int]));
                    }
                    let c = self.resolve_clause(&cs[i], fuel);
                    new_cs.push(c);
                    i = i + 1;
                }
                Goal::Implies(new_cs, Box::new(self.resolve_goal(a, fuel)))
            },
        }
    }

    pub fn resolve_clause(&self, c: &ProgramClause, fuel: u64) -> (r: ProgramClause)
        decreases fuel, *c,
    {
        if fuel == 0 {
            return copy_clause(c);
        }
        let consequence = self.resolve_term(&c.consequence, fuel);
        let mut conditions: Vec<Condition> = Vec::new();
        let mut i: usize = 0;
        while i < c.conditions.len()
            invariant
                i <= c.conditions@.len(),
            decreases c.conditions@.len() - i,
        {
            proof {
                assert(decreases_to!(*c => c.conditions));
                assert(decreases_to!(c.conditions => c.conditions@[i as int]));
            }
            let cc = match &c.conditions[i] {
                Condition::Positive(g) => Condition::Positive(self.resolve_goal(g, fuel)),
                Condition::Negative(g) => Condition::Negative(self.resolve_goal(g, fuel)),
            };
            conditions.push(cc);
            i = i + 1;
        }
        ProgramClause { binders: c.binders, consequence, conditions }
    }

    pub fn resolve_env(&self, v: &Vec<ProgramClause>, fuel: u64) -> (r: Vec<ProgramClause>) {
        let mut out: Vec<ProgramClause> = Vec::new();
        let mut i: usize = 0;
        while i < v.len()
            invariant
                i <= v@.len(),
            decreases v@.len() - i,
        {
            let c = self.resolve_clause(&v[i], fuel);
            out.push(c);
            i = i + 1;
        }
        out
    }

    pub fn resolve_in_env(&self, e: &InEnvironment, fuel: u64) -> (r: InEnvironment) {
        InEnvironment {
            environment: self.resolve_env(&e.environment, fuel),
            goal: self.resolve_goal(&e.goal, fuel),
        }
    }

    // -----------------------------------------------------------------------
    // Truncation (subgoal abstraction)
    // -----------------------------------------------------------------------

    /// Copies `t`, spending one unit of `budget` per term node; when the
    /// budget runs out, the remaining subtree is generalized to a fresh
    /// existential variable and `overflow` is set.
    pub fn truncate_term(
        &mut self,
        t: &Term,
        budget: &mut usize,
        overflow: &mut bool,
    ) -> (r: Term)
        decreases *t,
    {
        if *budget == 0 {
            *overflow = true;
            let v = self.new_variable();
            return Term::Var(v);
        }
        *budget = *budget - 1;
        match t {
            Term::Var(v) => Term::Var(*v),
            Term::Bound(b) => Term::Bound(*b),
            Term::Placeholder(p) => Term::Placeholder(*p),
            Term::App(f, args) => {
                let mut new_args: Vec<Term> = Vec::new();
                let mut i: usize = 0;
                while i < args.len()
                    invariant
                        i <= args@.len(),
                        *t == Term::App(*f, *args),
                    decreases args@.len() - i,
                {
                    proof {
                        assert(decreases_to!(*t => t->App_1));
                        assert(decreases_to!(*args => args@[i as int]));
                    }
                    let c = self.truncate_term(&args[i], budget, overflow);
                    new_args.push(c);
                    i = i + 1;
                }
                Term::App(*f, new_args)
            },
        }
    }

    pub fn truncate_goal(&mut self, g: &Goal, budget: &mut usize, overflow: &mut bool) -> (r: Goal)
        decreases *g,
    {
        match g {
            Goal::Leaf(t) => Goal::Leaf(self.truncate_term(t, budget, overflow)),
            Goal::And(a, b) => {
                let na = self.truncate_goal(a, budget, overflow);
                let nb = self.truncate_goal(b, budget, overflow);
                Goal::And(Box::new(na), Box::new(nb))
            },
            Goal::Not(a) => Goal::Not(Box::new(self.truncate_goal(a, budget, overflow))),
            Goal::Exists(a) => Goal::Exists(Box::new(self.truncate_goal(a, budget, overflow))),
            Goal::ForAll(a) => Goal::ForAll(Box::new(self.truncate_goal(a, budget, overflow))),
            Goal::Implies(cs, a) => {
                // Clauses brought in by implication goals are left as they
                // are: only the terms of the goal being abstracted count
                // toward the size bound.
                let new_cs = copy_env(cs);
                let na = self.truncate_goal(a, budget, overflow);
                Goal::Implies(new_cs, Box::new(na))
            },
        }
    }

    pub fn truncate_in_env(
        &mut self,
        e: &InEnvironment,
        max_size: usize,
        overflow: &mut bool,
    ) -> (r: InEnvironment) {
        let mut budget: usize = max_size;
        InEnvironment {
            environment: copy_env(&e.environment),
            goal: self.truncate_goal(&e.goal, &mut budget, overflow),
        }
    }

    // -----------------------------------------------------------------------
    // The shared leaf-rewriting walk
    // -----------------------------------------------------------------------

    pub fn rewrite_term(
        t: &Term,
        mode: RewriteMode,
        seen: &mut Vec<usize>,
        fixed_us: &Vec<usize>,
        fixed_terms: &Vec<Term>,
    ) -> (r: Term)
        decreases *t,
    {
        match t {
            Term::Var(v) => {
                match mode {
                    RewriteMode::CanonVars => Term::Var(find_or_push(seen, *v)),
                    RewriteMode::ApplyVars => {
                        if *v < fixed_terms.len() {
                            copy_term(&fixed_terms[*v])
                        } else {
                            Term::Var(*v)
                        }
                    },
                    _ => Term::Var(*v),
                }
            },
            Term::Bound(b) => Term::Bound(*b),
            Term::Placeholder(p) => {
                match mode {
                    RewriteMode::CanonUniverses => Term::Placeholder(find_or_push(seen, *p)),
                    RewriteMode::InvertUniverses => Term::Var(find_or_push(seen, *p)),
                    RewriteMode::ApplyUniverses => {
                        if *p < fixed_us.len() {
                            Term::Placeholder(fixed_us[*p])
                        } else {
                            Term::Placeholder(*p)
                        }
                    },
                    _ => Term::Placeholder(*p),
                }
            },
            Term::App(f, args) => {
                let mut new_args: Vec<Term> = Vec::new();
                let mut i: usize = 0;
                while i < args.len()
                    invariant
                        i <= args@.len(),
                        *t == Term::App(*f, *args),
                    decreases args@.len() - i,
                {
                    proof {
                        assert(decreases_to!(*t => t->App_1));
                        assert(decreases_to!(*args => args@[i as int]));
                    }
                    let c = Self::rewrite_term(&args[i], mode, seen, fixed_us, fixed_terms);
                    new_args.push(c);
                    i = i + 1;
                }
                Term::App(*f, new_args)
            },
        }
    }

    pub fn rewrite_goal(
        g: &Goal,
        mode: RewriteMode,
        seen: &mut Vec<usize>,
        fixed_us: &Vec<usize>,
        fixed_terms: &Vec<Term>,
    ) -> (r: Goal)
        decreases *g,
    {
        match g {
            Goal::Leaf(t) => Goal::Leaf(Self::rewrite_term(t, mode, seen, fixed_us, fixed_terms)),
            Goal::And(a, b) => {
                let na = Self::rewrite_goal(a, mode, seen, fixed_us, fixed_terms);
                let nb = Self::rewrite_goal(b, mode, seen, fixed_us, fixed_terms);
                Goal::And(Box::new(na), Box::new(nb))
            },
            Goal::Not(a) => Goal::Not(
                Box::new(Self::rewrite_goal(a, mode, seen, fixed_us, fixed_terms)),
            ),
            Goal::Exists(a) => Goal::Exists(
                Box::new(Self::rewrite_goal(a, mode, seen, fixed_us, fixed_terms)),
            ),
            Goal::ForAll(a) => Goal::ForAll(
                Box::new(Self::rewrite_goal(a, mode, seen, fixed_us, fixed_terms)),
            ),
            Goal::Implies(cs, a) => {
                let mut new_cs: Vec<ProgramClause> = Vec::new();
                let mut i: usize = 0;
                while i < cs.len()
                    invariant
                        i <= cs@.len(),
                        *g == Goal::Implies(*cs, *a),
                    decreases cs@.len() - i,
                {
                    proof {
                        assert(decreases_to!(*g => g->Implies_0));
                        assert(decreases_to!(*cs => cs@[i as int]));
                    }
                    let c = Self::rewrite_clause(&cs[i], mode, seen, fixed_us, fixed_terms);
                    new_cs.push(c);
                    i = i + 1;
                }
                let na = Self::rewrite_goal(a, mode, seen, fixed_us, fixed_terms);
                Goal::Implies(new_cs, Box::new(na))
            },
        }
    }

    pub fn rewrite_clause(
        c: &ProgramClause,
        mode: RewriteMode,
        seen: &mut Vec<usize>,
        fixed_us: &Vec<usize>,
        fixed_terms: &Vec<Term>,
    ) -> (r: ProgramClause)
        decreases *c,
    {
        let consequence = Self::rewrite_term(&c.consequence, mode, seen, fixed_us, fixed_terms);
        let mut conditions: Vec<Condition> = Vec::new();
        let mut i: usize = 0;
        while i < c.conditions.len()
            invariant
                i <= c.conditions@.len(),
            decreases c.conditions@.len() - i,
        {
            proof {
                assert(decreases_to!(*c => c.conditions));
                assert(decreases_to!(c.conditions => c.conditions@[i as int]));
            }
            let cc = match &c.conditions[i] {
                Condition::Positive(g) => Condition::Positive(
                    Self::rewrite_goal(g, mode, seen, fixed_us, fixed_terms),
                ),
                Condition::Negative(g) => Condition::Negative(
                    Self::rewrite_goal(g, mode, seen, fixed_us, fixed_terms),
                ),
            };
            conditions.push(cc);
            i = i + 1;
        }
        ProgramClause { binders: c.binders, consequence, conditions }
    }

    pub fn rewrite_env(
        v: &Vec<ProgramClause>,
        mode: RewriteMode,
        seen: &mut Vec<usize>,
        fixed_us: &Vec<usize>,
        fixed_terms: &Vec<Term>,
    ) -> (r: Vec<ProgramClause>) {
        let mut out: Vec<ProgramClause> = Vec::new();
        let mut i: usize = 0;
        while i < v.len()
            invariant
                i <= v@.len(),
            decreases v@.len() - i,
        {
            let c = Self::rewrite_clause(&v[i], mode, seen, fixed_us, fixed_terms);
            out.push(c);
            i = i + 1;
        }
        out
    }

    pub fn rewrite_in_env(
        e: &InEnvironment,
        mode: RewriteMode,
        seen: &mut Vec<usize>,
        fixed_us: &Vec<usize>,
        fixed_terms: &Vec<Term>,
    ) -> (r: InEnvironment) {
        InEnvironment {
            environment: Self::rewrite_env(&e.environment, mode, seen, fixed_us, fixed_terms),
            goal: Self::rewrite_goal(&e.goal, mode, seen, fixed_us, fixed_terms),
        }
    }

    // -----------------------------------------------------------------------
    // Canonicalization, universes, inversion
    // -----------------------------------------------------------------------

    /// Resolves `e` deeply and renumbers its free variables in order of
    /// first occurrence. Returns the canonical value and how many distinct
    /// free variables it has.
    pub fn canonicalize_in_env(&self, e: &InEnvironment) -> (r: (InEnvironment, usize)) {
        let resolved = self.resolve_in_env(e, RESOLVE_FUEL);
        let mut seen: Vec<usize> = Vec::new();
        let empty_us: Vec<usize> = Vec::new();
        let empty_terms: Vec<Term> = Vec::new();
        let value = Self::rewrite_in_env(
            &resolved,
            RewriteMode::CanonVars,
            &mut seen,
            &empty_us,
            &empty_terms,
        );
        let n = seen.len();
        (value, n)
    }

    /// Canonicalizes the answer substitution of an ex-clause, together with
    /// its constraints.
    pub fn canonicalize_answer(
        &self,
        subst: &Vec<Term>,
        constraints: &Vec<Constraint>,
    ) -> (r: CanonicalConstrainedSubst)
        ensures
            r.value.subst@.len() == subst@.len(),
            r.value.constraints@.len() == constraints@.len(),
    {
        let mut seen: Vec<usize> = Vec::new();
        let empty_us: Vec<usize> = Vec::new();
        let empty_terms: Vec<Term> = Vec::new();
        let mut new_subst: Vec<Term> = Vec::new();
        let mut i: usize = 0;
        while i < subst.len()
            invariant
                i <= subst@.len(),
                new_subst@.len() == i,
            decreases subst@.len() - i,
        {
            let resolved = self.resolve_term(&subst[i], RESOLVE_FUEL);
            let c = Self::rewrite_term(
                &resolved,
                RewriteMode::CanonVars,
                &mut seen,
                &empty_us,
                &empty_terms,
            );
            new_subst.push(c);
            i = i + 1;
        }
        let mut new_constraints: Vec<Constraint> = Vec::new();
        let mut k: usize = 0;
        while k < constraints.len()
            invariant
                k <= constraints@.len(),
                new_constraints@.len() == k,
            decreases constraints@.len() - k,
        {
            let ra = self.resolve_term(&constraints[k].a, RESOLVE_FUEL);
            let rb = self.resolve_term(&constraints[k].b, RESOLVE_FUEL);
            let ca = Self::rewrite_term(
                &ra,
                RewriteMode::CanonVars,
                &mut seen,
                &empty_us,
                &empty_terms,
            );
            let cb = Self::rewrite_term(
                &rb,
                RewriteMode::CanonVars,
                &mut seen,
                &empty_us,
                &empty_terms,
            );
            new_constraints.push(Constraint { a: ca, b: cb });
            k = k + 1;
        }
        CanonicalConstrainedSubst {
            num_vars: seen.len(),
            value: ConstrainedSubst { subst: new_subst, constraints: new_constraints },
        }
    }

    /// Renumbers the placeholders of an already var-canonical value in
    /// order of first occurrence. Returns the goal as a table key and the
    /// map back to this table's placeholders.
    pub fn u_canonicalize(value: &InEnvironment, num_vars: usize) -> (r: (
        UCanonicalGoal,
        UniverseMap,
    )) {
        let mut seen: Vec<usize> = Vec::new();
        let empty_us: Vec<usize> = Vec::new();
        let empty_terms: Vec<Term> = Vec::new();
        let goal = Self::rewrite_in_env(
            value,
            RewriteMode::CanonUniverses,
            &mut seen,
            &empty_us,
            &empty_terms,
        );
        let num_universes = seen.len();
        (UCanonicalGoal { num_vars, num_universes, goal }, UniverseMap { map: seen })
    }

    /// Maps the placeholders of a canonical value back into this table's
    /// frame of reference.
    pub fn map_in_env_from_canonical(um: &UniverseMap, e: &InEnvironment) -> (r: InEnvironment) {
        let mut seen: Vec<usize> = Vec::new();
        let empty_terms: Vec<Term> = Vec::new();
        Self::rewrite_in_env(e, RewriteMode::ApplyUniverses, &mut seen, &um.map, &empty_terms)
    }

    /// Maps an answer substitution back through a universe map.
    pub fn map_subst_from_canonical(
        um: &UniverseMap,
        s: &CanonicalConstrainedSubst,
    ) -> (r: CanonicalConstrainedSubst)
        ensures
            r.value.subst@.len() == s.value.subst@.len(),
    {
        let mut seen: Vec<usize> = Vec::new();
        let empty_terms: Vec<Term> = Vec::new();
        let mut new_subst: Vec<Term> = Vec::new();
        let mut i: usize = 0;
        while i < s.value.subst.len()
            invariant
                i <= s.value.subst@.len(),
                new_subst@.len() == i,
            decreases s.value.subst@.len() - i,
        {
            let c = Self::rewrite_term(
                &s.value.subst[i],
                RewriteMode::ApplyUniverses,
                &mut seen,
                &um.map,
                &empty_terms,
            );
            new_subst.push(c);
            i = i + 1;
        }
        let mut new_constraints: Vec<Constraint> = Vec::new();
        let mut k: usize = 0;
        while k < s.value.constraints.len()
            invariant
                k <= s.value.constraints@.len(),
            decreases s.value.constraints@.len() - k,
        {
            let ca = Self::rewrite_term(
                &s.value.constraints[k].a,
                RewriteMode::ApplyUniverses,
                &mut seen,
                &um.map,
                &empty_terms,
            );
            let cb = Self::rewrite_term(
                &s.value.constraints[k].b,
                RewriteMode::ApplyUniverses,
                &mut seen,
                &um.map,
                &empty_terms,
            );
            new_constraints.push(Constraint { a: ca, b: cb });
            k = k + 1;
        }
        CanonicalConstrainedSubst {
            num_vars: s.num_vars,
            value: ConstrainedSubst { subst: new_subst, constraints: new_constraints },
        }
    }

    /// Inverts a negative goal: the goal must be ground (no free
    /// existential variables remain after resolution); its universal
    /// placeholders become existential variables. Returns the inverted
    /// canonical value with its variable count, or nothing if the goal is
    /// not ground — the caller then records a floundered execution.
    pub fn invert(&self, e: &InEnvironment) -> (r: Option<(InEnvironment, usize)>) {
        let (canonical, num_vars) = self.canonicalize_in_env(e);
        if num_vars > 0 {
            return None;
        }
        let mut seen: Vec<usize> = Vec::new();
        let empty_us: Vec<usize> = Vec::new();
        let empty_terms: Vec<Term> = Vec::new();
        let inverted = Self::rewrite_in_env(
            &canonical,
            RewriteMode::InvertUniverses,
            &mut seen,
            &empty_us,
            &empty_terms,
        );
        Some((inverted, seen.len()))
    }
}

} // verus!
