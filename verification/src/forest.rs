//! The forest: all mutable state of one query evaluation, and the
//! on-demand SLG evaluator that drives it.
//!
//! `ensure_root_answer` asks a table for the answer at a given index; if it
//! is not cached yet, the evaluator activates strands, creating sub-tables
//! on demand, detecting cycles against the stack, treating cyclic requests
//! of coinductive goals as true, and delaying negative literals caught in
//! negative cycles.
//!
//! This evaluator is naturally mutually recursive: requesting an answer
//! pursues a strand, which requests answers of sub-tables. Here that
//! recursion runs as an explicit machine instead: a stack of
//! activation frames mirrors the table stack one-to-one, and a control
//! value says what happens next. Each machine step spends one unit of a
//! step budget (the quantum); when the budget is exhausted, in-flight
//! strands are re-enqueued and the call yields `QuantumExceeded`, exactly
//! the evaluator's ordinary cooperative yield. Every call therefore
//! provably terminates, and all progress survives in the forest.
//!
//! What the contracts force, and what they leave to execution: all
//! bookkeeping is exact (append-only unique answers, stack and number
//! discipline, interning, strand accounting per operation, the shape of
//! every scheduling outcome), and several outcomes are forced outright — a
//! request against a table with no pending strands is refused, a completed
//! strand on a table with no stored answers yields its first answer, and a
//! refusal pins the answer count. Which answers a concrete program yields
//! would take a derivation relation over `Program` tying substitutions to
//! clauses through unification; that semantic layer is not modelled here,
//! and the seed scenarios exercise it through the test suite instead.

use vstd::prelude::*;
use crate::infer::{InferenceTable, RESOLVE_FUEL};
use crate::ir::{
    Answer, AnswerIndex, DelayedLiteral, DepthFirstNumber, Goal, InEnvironment, Literal, Minimums,
    Program, Satisfiable, TableIndex, Term, UCanonicalGoal, UniverseMap, answer_eq_spec,
    answer_unconditional_spec, dl_eq_spec, dl_in_spec, dlset_eq_spec, trivial_subst_spec,
    ucgoal_eq_spec,
};
use crate::ops::dls_sorted;
use crate::ops::{copy_ccs, copy_env, copy_ex_clause, copy_goal, dedup_delayed, is_trivial_subst,
    sort_delayed, ucgoal_eq};
use crate::resolvent::{applicable_clauses, apply_answer_subst, resolvent_clause, simplify_hh_goal};
use crate::table::{
    SelectedSubgoal, Strand, Table, answers_prefix, lemma_strand_wf_monotone,
    lemma_tables_extend_trans, strand_wf, tables_extend,
};

verus! {

broadcast use vstd::std_specs::vec::group_vec_axioms;

/// One frame of the table stack: the table being solved and the
/// depth-first number assigned when it was pushed.
#[derive(Clone, Copy, Debug, PartialEq, Eq, Structural)]
pub struct StackFrame {
    pub table: TableIndex,
    pub dfn: DepthFirstNumber,
}

/// How a root search (one that begins and ends with an empty stack) fails.
#[derive(Clone, Copy, Debug, PartialEq, Eq, Structural)]
pub enum RootSearchFail {
    /// The requested answer cannot exist; asking again is futile.
    NoMoreSolutions,
    /// No answer was produced yet, but work remains: ask again.
    QuantumExceeded,
}

/// The outcome of one (possibly recursive) request for an answer.
enum EnsureOutcome {
    /// The answer is cached in the table.
    AnswerAvailable,
    /// A cyclic request of a goal on an all-coinductive stack segment:
    /// treated as true, not cached.
    Coinductive,
    NoMoreSolutions,
    QuantumExceeded,
    /// All ways forward hit a cycle on something higher up the stack.
    CycleFail(Minimums),
}

/// The outcome of pursuing one strand.
enum StrandOutcome {
    /// A new answer was pushed into the table at the current depth.
    Success,
    NoSolution,
    QuantumExceeded,
    /// The strand hit a cycle; it is handed back with the minimal
    /// dependencies it saw.
    CycleHit(Strand, Minimums),
}

/// What the machine does next.
enum Control {
    /// Descend: ensure the given answer of the given table.
    Request(TableIndex, AnswerIndex),
    /// Pop and pursue the next strand of the table on top of the stack.
    PursueNext,
    /// Pursue this strand at the top of the stack.
    RunStrand(Strand),
    /// A strand finished; account for it in the top frame.
    StrandDone(StrandOutcome),
    /// Ascend: deliver this outcome to the frame below (or the caller).
    Respond(EnsureOutcome),
}

/// The machine-side mirror of one stack frame: strands that hit cycles
/// (with the running minimum of their dependencies), and the strand that
/// is waiting for a sub-table's answer, if any.
struct MachineFrame {
    cyclic_strands: Vec<Strand>,
    cyclic_minimums: Minimums,
    pending: Option<Strand>,
}

/// What running a strand's selection phase produced.
enum RunResult {
    /// The strand finished with this outcome.
    Done(StrandOutcome),
    /// The strand selected a subgoal and awaits its answer.
    Await(Strand),
}

/// What resuming a waiting strand produced.
enum ResumeResult {
    /// The strand goes on, with no subgoal selected.
    Run(Strand),
    /// The strand finished with this outcome.
    Done(StrandOutcome),
}

/// The entire mutable state of one query evaluation.
#[derive(Debug)]
pub struct Forest {
    /// The program; immutable for the forest's lifetime.
    pub program: Program,
    /// The truncation threshold for subgoal abstraction.
    pub max_size: usize,
    /// All tables created so far, keyed by their canonical goal.
    pub tables: Vec<Table>,
    /// The tables currently being solved, outermost first.
    pub stack: Vec<StackFrame>,
    /// The next depth-first number to assign: strictly increasing for the
    /// forest's whole life, so numbers are never reused within a query.
    pub dfn_next: u64,
    /// The step budget of one `ensure_root_answer` call.
    pub quantum: u64,
    /// How many strands have been taken up for pursuit, in total.
    pub strands_consumed: u64,
}

/// Does this canonical goal get the coinductive interpretation? Only leaf
/// goals whose predicate is declared coinductive do.
pub open spec fn coinductive_spec(program: Program, goal: UCanonicalGoal) -> bool {
    match goal.goal.goal {
        Goal::Leaf(t) => match t {
            Term::App(n, _) => program.coinductive_predicates@.contains(n),
            _ => false,
        },
        _ => false,
    }
}

impl Forest {
    /// The stack is sound: every frame names an existing table, no table
    /// appears twice, and depth-first numbers strictly increase with depth
    /// and stay below both the counter and its sentinel.
    pub open spec fn stack_wf(self) -> bool {
        &&& forall|i: int|
            0 <= i < self.stack@.len() ==> (#[trigger] self.stack@[i]).table.value
                < self.tables@.len()
        &&& forall|i: int, j: int|
            0 <= i < j < self.stack@.len() ==> self.stack@[i].dfn.value < self.stack@[j].dfn.value
        &&& forall|i: int|
            0 <= i < self.stack@.len() ==> (#[trigger] self.stack@[i]).dfn.value < self.dfn_next
        &&& forall|i: int, j: int|
            0 <= i < j < self.stack@.len() ==> self.stack@[i].table.value
                != self.stack@[j].table.value
    }

    /// Each table's answers are pairwise distinct and each queued strand's
    /// selection data is in bounds.
    pub open spec fn tables_wf(self) -> bool {
        forall|t: int|
            0 <= t < self.tables@.len() ==> {
                &&& forall|i: int, j: int|
                    0 <= i < j < (#[trigger] self.tables@[t]).answers@.len() ==> !answer_eq_spec(
                        self.tables@[t].answers@[i],
                        self.tables@[t].answers@[j],
                    )
                &&& forall|k: int|
                    0 <= k < self.tables@[t].strands@.len() ==> strand_wf(
                        #[trigger] self.tables@[t].strands@[k],
                        self.tables@,
                    )
            }
    }

    /// The forest invariant: sound stack, sound tables, the depth-first
    /// sentinel unassigned, and a usable step budget.
    pub open spec fn wf(self) -> bool {
        &&& self.stack_wf()
        &&& self.tables_wf()
        &&& self.dfn_next < u64::MAX
        &&& 2 <= self.quantum < u64::MAX
    }

    /// A fresh forest for one query evaluation. The quantum is the number
    /// of machine steps one `ensure_root_answer` call may spend; a budget
    /// of two cannot even inspect a table, so smaller values are refused.
    pub fn new(program: Program, max_size: usize, quantum: u64) -> (r: Forest)
        requires
            2 <= quantum < u64::MAX,
        ensures
            r.wf(),
            r.stack@.len() == 0,
            r.tables@.len() == 0,
            r.strands_consumed == 0,
            r.program == program,
            r.max_size == max_size,
            r.quantum == quantum,
    {
        Forest {
            program,
            max_size,
            tables: Vec::new(),
            stack: Vec::new(),
            dfn_next: 0,
            quantum,
            strands_consumed: 0,
        }
    }

    pub fn table_count(&self) -> (r: usize)
        ensures
            r == self.tables@.len(),
    {
        self.tables.len()
    }

    pub fn num_answers(&self, table: TableIndex) -> (r: usize)
        requires
            table.value < self.tables@.len(),
        ensures
            r == self.tables@[table.value as int].answers@.len(),
    {
        self.tables[table.value].answers.len()
    }

    /// The cached answer at the given index.
    pub fn answer(&self, table: TableIndex, answer: AnswerIndex) -> (r: &Answer)
        requires
            table.value < self.tables@.len(),
            answer.value < self.tables@[table.value as int].answers@.len(),
        ensures
            *r == self.tables@[table.value as int].answers@[answer.value as int],
    {
        &self.tables[table.value].answers[answer.value]
    }

    /// The depth of `t` on the stack, if it is currently being solved.
    fn stack_index_of(&self, t: TableIndex) -> (r: Option<usize>)
        ensures
            match r {
                Some(d) => d < self.stack@.len() && self.stack@[d as int].table.value == t.value,
                None => forall|i: int|
                    0 <= i < self.stack@.len() ==> (#[trigger] self.stack@[i]).table.value
                        != t.value,
            },
    {
        let mut i: usize = 0;
        while i < self.stack.len()
            invariant
                i <= self.stack@.len(),
                forall|j: int|
                    0 <= j < i ==> (#[trigger] self.stack@[j]).table.value != t.value,
            decreases self.stack@.len() - i,
        {
            if self.stack[i].table.value == t.value {
                return Some(i);
            }
            i = i + 1;
        }
        None
    }

    /// Is every frame from `depth` to the top of the stack solving a
    /// coinductive goal? A cyclic request is interpreted as true exactly
    /// when this holds.
    pub fn stack_coinductive_from(&self, depth: usize) -> (r: bool)
        requires
            self.stack_wf(),
            depth < self.stack@.len(),
        ensures
            r == forall|i: int|
                depth <= i < self.stack@.len() ==> self.tables@[(#[trigger] self.stack@[i]).table.value as int].coinductive_goal,
    {
        let mut i: usize = depth;
        while i < self.stack.len()
            invariant
                depth <= i <= self.stack@.len(),
                self.stack_wf(),
                forall|j: int|
                    depth <= j < i ==> self.tables@[(#[trigger] self.stack@[j]).table.value as int].coinductive_goal,
            decreases self.stack@.len() - i,
        {
            if !self.tables[self.stack[i].table.value].coinductive_goal {
                return false;
            }
            i = i + 1;
        }
        true
    }

    /// Does the program declare this canonical goal's predicate
    /// coinductive?
    fn goal_is_coinductive(&self, goal: &UCanonicalGoal) -> (r: bool)
        ensures
            r == coinductive_spec(self.program, *goal),
    {
        let name: u64 = match &goal.goal.goal {
            Goal::Leaf(t) => match t {
                Term::App(n, _) => *n,
                _ => {
                    return false;
                },
            },
            _ => {
                return false;
            },
        };
        let mut i: usize = 0;
        while i < self.program.coinductive_predicates.len()
            invariant
                i <= self.program.coinductive_predicates@.len(),
                goal.goal.goal matches Goal::Leaf(t) && (t matches Term::App(nn, a) && nn
                    == name),
                forall|j: int|
                    0 <= j < i ==> self.program.coinductive_predicates@[j] != name,
            decreases self.program.coinductive_predicates@.len() - i,
        {
            if self.program.coinductive_predicates[i] == name {
                proof {
                    assert(self.program.coinductive_predicates@.contains(name)) by {
                        assert(self.program.coinductive_predicates@[i as int] == name);
                    }
                }
                return true;
            }
            i = i + 1;
        }
        false
    }

    /// Looks up the table answering `goal`, creating it (and its initial
    /// strands) if it does not exist yet. Existing tables are never
    /// modified by the lookup.
    pub fn get_or_create_table_for_ucanonical_goal(&mut self, goal: UCanonicalGoal) -> (r:
        TableIndex)
        requires
            old(self).wf(),
        ensures
            final(self).wf(),
            r.value < final(self).tables@.len(),
            tables_extend(old(self).tables@, final(self).tables@),
            final(self).stack@ == old(self).stack@,
            final(self).dfn_next == old(self).dfn_next,
            final(self).program == old(self).program,
            final(self).max_size == old(self).max_size,
            final(self).quantum == old(self).quantum,
            final(self).strands_consumed == old(self).strands_consumed,
            (exists|i: int|
                0 <= i < old(self).tables@.len() && ucgoal_eq_spec(
                    (#[trigger] old(self).tables@[i]).table_goal,
                    goal,
                )) ==> r.value < old(self).tables@.len() && ucgoal_eq_spec(
                final(self).tables@[r.value as int].table_goal,
                goal,
            ) && *final(self) == *old(self),
            forall|j: int|
                0 <= j < r.value ==> !ucgoal_eq_spec(
                    (#[trigger] final(self).tables@[j]).table_goal,
                    goal,
                ),
            forall|t: int|
                0 <= t < old(self).tables@.len() ==> (#[trigger] final(self).tables@[t]).answers@
                    == old(self).tables@[t].answers@,
            !(exists|i: int|
                0 <= i < old(self).tables@.len() && ucgoal_eq_spec(
                    (#[trigger] old(self).tables@[i]).table_goal,
                    goal,
                )) ==> r.value == old(self).tables@.len()
                && final(self).tables@[r.value as int].table_goal == goal
                && final(self).tables@[r.value as int].coinductive_goal == coinductive_spec(
                old(self).program,
                goal,
            ) && final(self).tables@[r.value as int].answers@.len() == 0 && (forall|k: int|
                0 <= k < final(self).tables@[r.value as int].strands@.len() ==> final(self).tables@[r.value as int].strands@[k].selected_subgoal
                    is None) && (!(goal.goal.goal is Leaf) ==> final(self).tables@[r.value as int].strands@.len()
                == 1) && ((goal.goal.goal is Leaf) ==> final(self).tables@[r.value as int].strands@.len()
                <= old(self).program.clauses@.len() + goal.goal.environment@.len()),
    {
        let mut i: usize = 0;
        while i < self.tables.len()
            invariant
                i <= self.tables@.len(),
                self.wf(),
                *self == *old(self),
                forall|j: int|
                    0 <= j < i ==> !ucgoal_eq_spec((#[trigger] self.tables@[j]).table_goal, goal),
            decreases self.tables@.len() - i,
        {
            if ucgoal_eq(&self.tables[i].table_goal, &goal) {
                proof {
                    crate::table::lemma_tables_extend_refl(self.tables@);
                }
                return TableIndex { value: i };
            }
            i = i + 1;
        }
        let coinductive = self.goal_is_coinductive(&goal);
        let idx = self.tables.len();
        let t = Table::new(goal, coinductive);
        self.tables.push(t);
        proof {
            assert(tables_extend(old(self).tables@, self.tables@));
            assert forall|tt: int, k: int|
                0 <= tt < self.tables@.len() && 0 <= k < self.tables@[tt].strands@.len() implies strand_wf(
                self.tables@[tt].strands@[k],
                self.tables@,
            ) by {
                if tt < old(self).tables@.len() {
                    lemma_strand_wf_monotone(
                        self.tables@[tt].strands@[k],
                        old(self).tables@,
                        self.tables@,
                    );
                }
            }
        }
        self.push_initial_strands(idx);
        TableIndex { value: idx }
    }

    /// Populates a fresh table with its initial strands: program-clause
    /// resolution for a leaf (domain) goal, the simplification meta-clause
    /// for any other hereditary-Harrop goal.
    fn push_initial_strands(&mut self, idx: usize)
        requires
            old(self).wf(),
            idx < old(self).tables@.len(),
            old(self).tables@[idx as int].strands@.len() == 0,
        ensures
            final(self).wf(),
            final(self).tables@.len() == old(self).tables@.len(),
            tables_extend(old(self).tables@, final(self).tables@),
            forall|t: int|
                0 <= t < old(self).tables@.len() ==> (#[trigger] final(self).tables@[t]).answers@
                    == old(self).tables@[t].answers@ && final(self).tables@[t].table_goal == old(self).tables@[t].table_goal && final(self).tables@[t].coinductive_goal == old(self).tables@[t].coinductive_goal,
            forall|t: int|
                0 <= t < old(self).tables@.len() && t != idx ==> (#[trigger] final(self).tables@[t])
                    == old(self).tables@[t],
            // Every strand this call creates starts with no selection.
            forall|k: int|
                0 <= k < final(self).tables@[idx as int].strands@.len() ==> final(self).tables@[idx as int].strands@[k].selected_subgoal
                    is None,
            // A non-leaf goal reduces to exactly one strand; a leaf gets at
            // most one per clause of the program and the environment.
            !(old(self).tables@[idx as int].table_goal.goal.goal is Leaf) ==> final(self).tables@[idx as int].strands@.len()
                == 1,
            (old(self).tables@[idx as int].table_goal.goal.goal is Leaf) ==> final(self).tables@[idx as int].strands@.len()
                <= old(self).program.clauses@.len() + old(self).tables@[idx as int].table_goal.goal.environment@.len(),
            final(self).stack@ == old(self).stack@,
            final(self).dfn_next == old(self).dfn_next,
            final(self).program == old(self).program,
            final(self).max_size == old(self).max_size,
            final(self).quantum == old(self).quantum,
            final(self).strands_consumed == old(self).strands_consumed,
    {
        let mut infer = InferenceTable::new();
        infer.instantiate_universes(&self.tables[idx].table_goal);
        let num_vars = self.tables[idx].table_goal.num_vars;
        // Instantiating the canonical goal with a fresh substitution is the
        // identity here: its canonical variables are numbered exactly like
        // the fresh ones a new table allocates.
        let subst = infer.fresh_subst(num_vars);
        let env = copy_env(&self.tables[idx].table_goal.goal.environment);
        let g = copy_goal(&self.tables[idx].table_goal.goal.goal);
        match g {
            Goal::Leaf(domain) => {
                let clauses = applicable_clauses(&self.program, &env, &domain);
                let mut i: usize = 0;
                while i < clauses.len()
                    invariant
                        i <= clauses@.len(),
                        self.wf(),
                        idx < self.tables@.len(),
                        self.tables@.len() == old(self).tables@.len(),
                        forall|t: int|
                            0 <= t < old(self).tables@.len() ==> (#[trigger] self.tables@[t]).answers@
                                == old(self).tables@[t].answers@ && self.tables@[t].table_goal
                                == old(self).tables@[t].table_goal
                                && self.tables@[t].coinductive_goal == old(self).tables@[t].coinductive_goal,
                        forall|t: int|
                            0 <= t < old(self).tables@.len() && t != idx ==> (#[trigger] self.tables@[t])
                                == old(self).tables@[t],
                        clauses@.len() <= old(self).program.clauses@.len() + old(self).tables@[idx as int].table_goal.goal.environment@.len(),
                        self.tables@[idx as int].strands@.len() <= i,
                        forall|k: int|
                            0 <= k < self.tables@[idx as int].strands@.len() ==> self.tables@[idx as int].strands@[k].selected_subgoal
                                is None,
                        self.stack@ == old(self).stack@,
                        self.dfn_next == old(self).dfn_next,
                        self.program == old(self).program,
                        self.max_size == old(self).max_size,
                        self.quantum == old(self).quantum,
                        self.strands_consumed == old(self).strands_consumed,
                    decreases clauses@.len() - i,
                {
                    let mut clause_infer = infer.clone_table();
                    match resolvent_clause(&mut clause_infer, &env, &domain, &subst, &clauses[i]) {
                        Satisfiable::Yes(resolvent) => {
                            let strand = Strand {
                                infer: clause_infer,
                                ex_clause: resolvent,
                                selected_subgoal: None,
                            };
                            let tref = &mut self.tables[idx];
                            tref.push_strand(strand);
                        },
                        Satisfiable::No => {},
                    }
                    i = i + 1;
                }
            },
            other => {
                match simplify_hh_goal(&mut infer, subst, &env, other) {
                    Satisfiable::Yes(ex_clause) => {
                        let strand = Strand { infer, ex_clause, selected_subgoal: None };
                        let tref = &mut self.tables[idx];
                        tref.push_strand(strand);
                    },
                    Satisfiable::No => {},
                }
            },
        }
    }

    /// Canonicalizes a subgoal literal and finds or creates its table.
    /// Positive literals are truncated to the size bound first (the
    /// original selected goal stays in the strand, so over-general answers
    /// simply fail to unify later). Negative literals must invert to a
    /// ground goal and must not need truncation; otherwise the execution
    /// flounders and `None` is returned.
    fn get_or_create_table_for_subgoal(&mut self, infer: &mut InferenceTable, subgoal: &Literal)
        -> (r: Option<(TableIndex, UniverseMap)>)
        requires
            old(self).wf(),
        ensures
            final(self).wf(),
            tables_extend(old(self).tables@, final(self).tables@),
            final(self).stack@ == old(self).stack@,
            final(self).dfn_next == old(self).dfn_next,
            final(self).program == old(self).program,
            final(self).max_size == old(self).max_size,
            final(self).quantum == old(self).quantum,
            final(self).strands_consumed == old(self).strands_consumed,
            r matches Some(p) ==> p.0.value < final(self).tables@.len(),
            r is None ==> *final(self) == *old(self),
            forall|t: int|
                0 <= t < old(self).tables@.len() ==> (#[trigger] final(self).tables@[t]).answers@
                    == old(self).tables@[t].answers@,
    {
        let canonical: InEnvironment;
        let num_vars: usize;
        match subgoal {
            Literal::Positive(e) => {
                // Subgoal abstraction: truncate, then canonicalize.
                let resolved = infer.resolve_in_env(e, RESOLVE_FUEL);
                let mut overflow = false;
                let truncated = infer.truncate_in_env(&resolved, self.max_size, &mut overflow);
                let (c, nv) = infer.canonicalize_in_env(&truncated);
                canonical = c;
                num_vars = nv;
            },
            Literal::Negative(e) => {
                // The goal must be ground; a truncated negative table would
                // be over-general, so an oversized goal flounders too.
                match infer.invert(e) {
                    None => {
                        return None;
                    },
                    Some((inverted, nv)) => {
                        let mut overflow = false;
                        let mut probe = infer.clone_table();
                        let _ = probe.truncate_in_env(&inverted, self.max_size, &mut overflow);
                        if overflow {
                            return None;
                        }
                        canonical = inverted;
                        num_vars = nv;
                    },
                }
            },
        }
        let (ucgoal, universe_map) = InferenceTable::u_canonicalize(&canonical, num_vars);
        let table = self.get_or_create_table_for_ucanonical_goal(ucgoal);
        Some((table, universe_map))
    }

    /// Turns a completed strand (no subgoals left) into an answer of the
    /// table at `table_idx`. Returns whether the answer is new. When a new
    /// answer is trivial — no delayed literals, the identity substitution,
    /// no constraints — every pending strand of the table is dropped: no
    /// later answer could add information (the green cut).
    pub fn pursue_answer(&mut self, table_idx: usize, strand: Strand) -> (r: bool)
        requires
            old(self).wf(),
            table_idx < old(self).tables@.len(),
        ensures
            final(self).wf(),
            tables_extend(old(self).tables@, final(self).tables@),
            final(self).tables@.len() == old(self).tables@.len(),
            final(self).stack@ == old(self).stack@,
            final(self).dfn_next == old(self).dfn_next,
            final(self).program == old(self).program,
            final(self).max_size == old(self).max_size,
            final(self).quantum == old(self).quantum,
            final(self).strands_consumed == old(self).strands_consumed,
            forall|t: int|
                0 <= t < old(self).tables@.len() && t != table_idx ==> final(self).tables@[t]
                    == old(self).tables@[t],
            r ==> final(self).tables@[table_idx as int].answers@.len() == old(self).tables@[table_idx as int].answers@.len() + 1,
            !r ==> final(self).tables@ == old(self).tables@,
            // With nothing stored yet there is nothing to collide with: the
            // first completed strand always yields the table's first answer.
            old(self).tables@[table_idx as int].answers@.len() == 0 ==> r,
            r ==> dlset_eq_spec(
                final(self).tables@[table_idx as int].answers@.last().delayed_literals.literals@,
                strand.ex_clause.delayed_literals@,
            ),
            r ==> dls_sorted(
                final(self).tables@[table_idx as int].answers@.last().delayed_literals.literals@,
            ),
            r ==> (forall|i: int, j: int|
                0 <= i < j < final(self).tables@[table_idx as int].answers@.last().delayed_literals.literals@.len()
                    ==> !dl_eq_spec(
                    final(self).tables@[table_idx as int].answers@.last().delayed_literals.literals@[i],
                    final(self).tables@[table_idx as int].answers@.last().delayed_literals.literals@[j],
                )),
            r ==> final(self).tables@[table_idx as int].answers@.last().subst.value.subst@.len()
                == strand.ex_clause.subst@.len(),
            r ==> final(self).tables@[table_idx as int].answers@.last().subst.value.constraints@.len()
                == strand.ex_clause.constraints@.len(),
            r ==> (answer_unconditional_spec(
                final(self).tables@[table_idx as int].answers@.last(),
            ) && trivial_subst_spec(
                final(self).tables@[table_idx as int].table_goal.num_vars as int,
                final(self).tables@[table_idx as int].answers@.last().subst,
            ) ==> final(self).tables@[table_idx as int].strands@.len() == 0),
    {
        let Strand { infer, ex_clause, selected_subgoal: _ } = strand;
        let ghost orig_delayed = ex_clause.delayed_literals@;
        let answer_subst = infer.canonicalize_answer(&ex_clause.subst, &ex_clause.constraints);
        let sorted = sort_delayed(ex_clause.delayed_literals);
        let dl_set = dedup_delayed(sorted);
        proof {
            // The set equality survives the reordering: sorted elements are
            // the original values themselves.
            let ghost sv = dl_set.literals@;
            assert forall|i: int| 0 <= i < sv.len() implies dl_in_spec(
                #[trigger] sv[i],
                orig_delayed,
            ) by {
                let k = choose|k: int|
                    0 <= k < orig_delayed.len() && dl_eq_spec(sv[i], orig_delayed[k]);
            }
            assert forall|i: int| 0 <= i < orig_delayed.len() implies dl_in_spec(
                #[trigger] orig_delayed[i],
                sv,
            ) by {
                assert(dl_in_spec(orig_delayed[i], sv));
            }
        }
        let answer = Answer { subst: answer_subst, delayed_literals: dl_set };
        let is_trivial = answer.delayed_literals.literals.len() == 0 && is_trivial_subst(
            self.tables[table_idx].table_goal.num_vars,
            &answer.subst,
        ) && answer.subst.value.constraints.len() == 0;
        let tref = &mut self.tables[table_idx];
        let pushed = tref.push_answer(answer);
        if pushed && is_trivial {
            let tref2 = &mut self.tables[table_idx];
            let _ = tref2.take_strands();
        }
        proof {
            if !pushed {
                assert(self.tables@ =~= old(self).tables@);
            }
            assert(tables_extend(old(self).tables@, self.tables@));
            assert forall|tt: int, k: int|
                0 <= tt < self.tables@.len() && 0 <= k < self.tables@[tt].strands@.len() implies strand_wf(
                self.tables@[tt].strands@[k],
                self.tables@,
            ) by {
                lemma_strand_wf_monotone(
                    self.tables@[tt].strands@[k],
                    old(self).tables@,
                    self.tables@,
                );
            }
        }
        pushed
    }

    /// Every strand of every table reachable through the stashed strands'
    /// selected subgoals also hits the cycle being closed: drop them all.
    fn clear_strands_after_cycle(&mut self, strands: Vec<Strand>)
        requires
            old(self).wf(),
        ensures
            final(self).wf(),
            final(self).tables@.len() == old(self).tables@.len(),
            tables_extend(old(self).tables@, final(self).tables@),
            // Each table one of the given strands was waiting on ends with
            // no pending strands (and so do the tables reached onward: their
            // strands joined the worklist and were cleared the same way).
            forall|k: int|
                0 <= k < strands@.len() ==> ((#[trigger] strands@[k]).selected_subgoal
                    matches Some(sel) ==> (sel.subgoal_table.value < old(self).tables@.len()
                    ==> final(self).tables@[sel.subgoal_table.value as int].strands@.len() == 0)),
            forall|t: int|
                0 <= t < old(self).tables@.len() ==> (#[trigger] final(self).tables@[t]).answers@
                    == old(self).tables@[t].answers@,
            forall|t: int|
                0 <= t < old(self).tables@.len() ==> (#[trigger] final(self).tables@[t]).strands@.len()
                    <= old(self).tables@[t].strands@.len(),
            final(self).stack@ == old(self).stack@,
            final(self).dfn_next == old(self).dfn_next,
            final(self).program == old(self).program,
            final(self).max_size == old(self).max_size,
            final(self).quantum == old(self).quantum,
            final(self).strands_consumed == old(self).strands_consumed,
    {
        let ghost v0 = strands@;
        let mut worklist = strands;
        while worklist.len() > 0
            invariant
                self.wf(),
                self.tables@.len() == old(self).tables@.len(),
                tables_extend(old(self).tables@, self.tables@),
                forall|k: int|
                    0 <= k < v0.len() ==> ((#[trigger] v0[k]).selected_subgoal matches Some(sel)
                        ==> (sel.subgoal_table.value < old(self).tables@.len() ==> (
                    self.tables@[sel.subgoal_table.value as int].strands@.len() == 0 || (exists|
                        w: int,
                    |
                        0 <= w < worklist@.len() && worklist@[w] == v0[k])))),
                forall|t: int|
                    0 <= t < old(self).tables@.len() ==> (#[trigger] self.tables@[t]).answers@
                        == old(self).tables@[t].answers@,
                forall|t: int|
                    0 <= t < old(self).tables@.len() ==> (#[trigger] self.tables@[t]).strands@.len()
                        <= old(self).tables@[t].strands@.len(),
                self.stack@ == old(self).stack@,
                self.dfn_next == old(self).dfn_next,
                self.program == old(self).program,
                self.max_size == old(self).max_size,
                self.quantum == old(self).quantum,
                self.strands_consumed == old(self).strands_consumed,
            decreases total_strands(self.tables@) + worklist@.len(),
        {
            let ghost pre_work = worklist@;
            let s = match worklist.pop() {
                Some(s) => s,
                None => {
                    proof {
                        assert(false);
                    }
                    return ;
                },
            };
            match s.selected_subgoal {
                None => {
                    // A strand interrupted before it selected a subgoal:
                    // nothing hangs off it.
                },
                Some(sel) => {
                    let ti = sel.subgoal_table.value;
                    if ti < self.tables.len() {
                        let ghost pre_tables = self.tables@;
                        let tref = &mut self.tables[ti];
                        let mut taken = tref.take_strands();
                        proof {
                            assert(self.tables@ =~= pre_tables.update(
                                ti as int,
                                self.tables@[ti as int],
                            ));
                            lemma_total_strands_update(
                                pre_tables,
                                ti as int,
                                self.tables@[ti as int],
                            );
                        }
                        worklist.append(&mut taken);
                    }
                },
            }
            proof {
                assert forall|k: int|
                    0 <= k < v0.len() implies ((#[trigger] v0[k]).selected_subgoal
                        matches Some(sel2) ==> (sel2.subgoal_table.value < old(self).tables@.len()
                        ==> (self.tables@[sel2.subgoal_table.value as int].strands@.len() == 0
                        || (exists|w: int|
                        0 <= w < worklist@.len() && worklist@[w] == v0[k])))) by {
                    match v0[k].selected_subgoal {
                        Some(sel2) => {
                            if sel2.subgoal_table.value < old(self).tables@.len() {
                                if pre_tables_cleared(self.tables@, sel2) {
                                } else {
                                    let w = choose|w: int|
                                        0 <= w < pre_work.len() && pre_work[w] == v0[k];
                                    if w < pre_work.len() - 1 {
                                        assert(worklist@[w] == v0[k]);
                                    }
                                }
                            }
                        },
                        None => {},
                    }
                }
            }
        }
    }

    /// Every strand of every table reachable from `start` hits the cycle,
    /// and some of the edges are negative: convert each currently selected
    /// negative literal into a delayed literal and deselect it.
    fn delay_strands_after_cycle(&mut self, start: usize)
        requires
            old(self).wf(),
            start < old(self).tables@.len(),
        ensures
            final(self).wf(),
            no_selected_negatives(final(self).tables@[start as int]),
            final(self).tables@.len() == old(self).tables@.len(),
            tables_extend(old(self).tables@, final(self).tables@),
            forall|t: int|
                0 <= t < old(self).tables@.len() ==> (#[trigger] final(self).tables@[t]).answers@
                    == old(self).tables@[t].answers@,
            forall|t: int|
                0 <= t < old(self).tables@.len() ==> (#[trigger] final(self).tables@[t]).strands@.len()
                    == old(self).tables@[t].strands@.len(),
            final(self).stack@ == old(self).stack@,
            final(self).dfn_next == old(self).dfn_next,
            final(self).program == old(self).program,
            final(self).max_size == old(self).max_size,
            final(self).quantum == old(self).quantum,
            final(self).strands_consumed == old(self).strands_consumed,
    {
        let n = self.tables.len();
        let mut visited: Vec<bool> = Vec::new();
        while visited.len() < n
            invariant
                visited@.len() <= n,
            decreases n - visited@.len(),
        {
            visited.push(false);
        }
        visited[start] = true;
        let mut worklist: Vec<usize> = Vec::new();
        worklist.push(start);
        while worklist.len() > 0
            invariant
                self.wf(),
                visited@.len() == n,
                n == self.tables@.len(),
                start < n,
                visited@[start as int],
                (no_selected_negatives(self.tables@[start as int]) && (forall|w: int|
                    0 <= w < worklist@.len() ==> worklist@[w] != start)) || (worklist@.len() > 0
                    && worklist@[worklist@.len() - 1] == start && (forall|w: int|
                    0 <= w < worklist@.len() - 1 ==> worklist@[w] != start)),
                self.tables@.len() == old(self).tables@.len(),
                tables_extend(old(self).tables@, self.tables@),
                forall|t: int|
                    0 <= t < old(self).tables@.len() ==> (#[trigger] self.tables@[t]).answers@
                        == old(self).tables@[t].answers@,
                forall|t: int|
                    0 <= t < old(self).tables@.len() ==> (#[trigger] self.tables@[t]).strands@.len()
                        == old(self).tables@[t].strands@.len(),
                self.stack@ == old(self).stack@,
                self.dfn_next == old(self).dfn_next,
                self.program == old(self).program,
                self.max_size == old(self).max_size,
                self.quantum == old(self).quantum,
                self.strands_consumed == old(self).strands_consumed,
            decreases count_false(visited@), worklist@.len(),
        {
            let ghost start_count = count_false(visited@);
            let t = match worklist.pop() {
                Some(t) => t,
                None => {
                    proof {
                        assert(false);
                    }
                    return ;
                },
            };
            if t < n {
                let ghost pre_tables = self.tables@;
                let tref = &mut self.tables[t];
                let mut strands = tref.take_strands();
                proof {
                    assert(tables_extend(pre_tables, self.tables@));
                    assert forall|tt: int, k: int|
                        0 <= tt < self.tables@.len() && 0 <= k
                            < self.tables@[tt].strands@.len() implies strand_wf(
                        self.tables@[tt].strands@[k],
                        self.tables@,
                    ) by {
                        lemma_strand_wf_monotone(
                            self.tables@[tt].strands@[k],
                            pre_tables,
                            self.tables@,
                        );
                    }
                    assert forall|k: int| 0 <= k < strands@.len() implies strand_wf(
                        #[trigger] strands@[k],
                        self.tables@,
                    ) by {
                        lemma_strand_wf_monotone(strands@[k], pre_tables, self.tables@);
                    }
                }
                let ghost taken_len = strands@.len();
                let ghost after_take = self.tables@;
                let mut new_strands: Vec<Strand> = Vec::new();
                let mut to_visit: Vec<usize> = Vec::new();
                while strands.len() > 0
                    invariant
                        new_strands@.len() + strands@.len() == taken_len,
                        self.tables@ == after_take,
                        self.wf(),
                        visited@.len() == n,
                        n == self.tables@.len(),
                        t < n,
                        start < n,
                        visited@[start as int],
                        forall|w: int| 0 <= w < to_visit@.len() ==> to_visit@[w] != start,
                        forall|k: int|
                            0 <= k < strands@.len() ==> strand_wf(
                                #[trigger] strands@[k],
                                self.tables@,
                            ),
                        forall|k: int|
                            0 <= k < new_strands@.len() ==> strand_wf(
                                #[trigger] new_strands@[k],
                                self.tables@,
                            ),
                        forall|k: int|
                            0 <= k < new_strands@.len() ==> ((#[trigger] new_strands@[k]).selected_subgoal
                                matches Some(sel) ==> (sel.subgoal_index
                                < new_strands@[k].ex_clause.subgoals@.len()
                                && new_strands@[k].ex_clause.subgoals@[sel.subgoal_index as int]
                                is Positive)),
                        count_false(visited@) <= start_count,
                        to_visit@.len() > 0 ==> count_false(visited@) < start_count,
                        to_visit@.len() == 0 ==> count_false(visited@) == start_count,
                        self.tables@.len() == old(self).tables@.len(),
                        tables_extend(old(self).tables@, self.tables@),
                        forall|tt: int|
                            0 <= tt < old(self).tables@.len() ==> (#[trigger] self.tables@[tt]).answers@
                                == old(self).tables@[tt].answers@,
                        self.stack@ == old(self).stack@,
                        self.dfn_next == old(self).dfn_next,
                        self.program == old(self).program,
                        self.max_size == old(self).max_size,
                        self.quantum == old(self).quantum,
                        self.strands_consumed == old(self).strands_consumed,
                    decreases strands@.len(),
                {
                    let s = strands.remove(0);
                    match s.selected_subgoal {
                        None => {
                            new_strands.push(s);
                        },
                        Some(sel) => {
                            let nxt = sel.subgoal_table.value;
                            let negative = match &s.ex_clause.subgoals[sel.subgoal_index] {
                                Literal::Negative(_) => true,
                                Literal::Positive(_) => false,
                            };
                            let Strand { infer, ex_clause, selected_subgoal: _ } = s;
                            if negative {
                                let mut ex = ex_clause;
                                let _removed = ex.subgoals.remove(sel.subgoal_index);
                                ex.delayed_literals.push(
                                    DelayedLiteral::Negative(sel.subgoal_table),
                                );
                                new_strands.push(
                                    Strand { infer, ex_clause: ex, selected_subgoal: None },
                                );
                            } else {
                                new_strands.push(
                                    Strand { infer, ex_clause, selected_subgoal: Some(sel) },
                                );
                            }
                            if nxt < n && !visited[nxt] {
                                proof {
                                    lemma_count_false_update(visited@, nxt as int);
                                }
                                visited[nxt] = true;
                                to_visit.push(nxt);
                            }
                        },
                    }
                }
                let tref2 = &mut self.tables[t];
                tref2.extend_strands(new_strands);
                worklist.append(&mut to_visit);
            }
        }
    }

    /// Either the strand finished (it produced an answer into the table at
    /// `table_idx`, or died), or it selected a subgoal and now awaits that
    /// table's answer. Floundering subgoals (a negative literal that cannot
    /// be grounded, or an oversized one) are dropped with a `CannotProve`
    /// delayed literal and selection continues.
    fn run_strand(&mut self, table_idx: usize, s: Strand) -> (r: RunResult)
        requires
            old(self).wf(),
            table_idx < old(self).tables@.len(),
            strand_wf(s, old(self).tables@),
        ensures
            final(self).wf(),
            tables_extend(old(self).tables@, final(self).tables@),
            final(self).stack@ == old(self).stack@,
            final(self).dfn_next == old(self).dfn_next,
            final(self).program == old(self).program,
            final(self).max_size == old(self).max_size,
            final(self).quantum == old(self).quantum,
            final(self).strands_consumed == old(self).strands_consumed,
            r matches RunResult::Await(s2) ==> strand_wf(s2, final(self).tables@)
                && s2.selected_subgoal is Some,
            // A strand re-enqueued while waiting resumes as it was.
            s.selected_subgoal is Some ==> (r matches RunResult::Await(s2) && s2 == s),
            // The fixed selection policy: the last subgoal, starting at the
            // first answer.
            s.selected_subgoal is None ==> (r matches RunResult::Await(s2) ==> (
            s2.selected_subgoal matches Some(sel) && sel.answer_index.value == 0
                && sel.subgoal_index + 1 == s2.ex_clause.subgoals@.len())),
            // Selection only drops floundered subgoals, one CannotProve per
            // drop; everything else of the ex-clause is untouched.
            r matches RunResult::Await(s2) ==> s2.ex_clause.subgoals@.len()
                + s2.ex_clause.delayed_literals@.len() == s.ex_clause.subgoals@.len()
                + s.ex_clause.delayed_literals@.len() && s2.ex_clause.delayed_literals@.len()
                >= s.ex_clause.delayed_literals@.len() && (forall|k: int|
                0 <= k < s.ex_clause.delayed_literals@.len()
                    ==> s2.ex_clause.delayed_literals@[k] == s.ex_clause.delayed_literals@[k])
                && (forall|k: int|
                s.ex_clause.delayed_literals@.len() <= k < s2.ex_clause.delayed_literals@.len()
                    ==> s2.ex_clause.delayed_literals@[k] is CannotProve)
                && s2.ex_clause.subst@ == s.ex_clause.subst@ && s2.ex_clause.constraints@
                == s.ex_clause.constraints@,
            r matches RunResult::Done(o) ==> !(o matches StrandOutcome::CycleHit(_, _))
                && !(o matches StrandOutcome::QuantumExceeded),
            // Only a successful strand writes an answer, exactly one, into
            // exactly this table.
            forall|t: int|
                0 <= t < old(self).tables@.len() && t != table_idx ==> (#[trigger] final(self).tables@[t]).answers@ == old(self).tables@[t].answers@,
            r matches RunResult::Await(_) ==> final(self).tables@[table_idx as int].answers@
                == old(self).tables@[table_idx as int].answers@,
            r matches RunResult::Done(o) ==> (!(o matches StrandOutcome::Success) ==> final(self).tables@[table_idx as int].answers@ == old(self).tables@[table_idx as int].answers@),
            r matches RunResult::Done(o) ==> (o matches StrandOutcome::Success ==> final(self).tables@[table_idx as int].answers@.len() == old(self).tables@[table_idx as int].answers@.len() + 1 && final(self).tables@[table_idx as int].answers@.last().subst.value.subst@.len()
                == s.ex_clause.subst@.len() && (answer_unconditional_spec(
                final(self).tables@[table_idx as int].answers@.last(),
            ) && trivial_subst_spec(
                final(self).tables@[table_idx as int].table_goal.num_vars as int,
                final(self).tables@[table_idx as int].answers@.last().subst,
            ) ==> final(self).tables@[table_idx as int].strands@.len() == 0)),
    {
        let mut strand = s;
        // A strand that already carries a selection (it was re-enqueued
        // while waiting) resumes exactly where it left off.
        match &strand.selected_subgoal {
            Some(_) => {
                return RunResult::Await(strand);
            },
            None => {},
        }
        loop
            invariant
                self.wf(),
                table_idx < old(self).tables@.len(),
                table_idx < self.tables@.len(),
                tables_extend(old(self).tables@, self.tables@),
                self.stack@ == old(self).stack@,
                self.dfn_next == old(self).dfn_next,
                self.program == old(self).program,
                self.max_size == old(self).max_size,
                self.quantum == old(self).quantum,
                self.strands_consumed == old(self).strands_consumed,
                strand.ex_clause.subgoals@.len() + strand.ex_clause.delayed_literals@.len()
                    == s.ex_clause.subgoals@.len() + s.ex_clause.delayed_literals@.len(),
                strand.ex_clause.delayed_literals@.len() >= s.ex_clause.delayed_literals@.len(),
                forall|k: int|
                    0 <= k < s.ex_clause.delayed_literals@.len()
                        ==> strand.ex_clause.delayed_literals@[k]
                        == s.ex_clause.delayed_literals@[k],
                forall|k: int|
                    s.ex_clause.delayed_literals@.len() <= k
                        < strand.ex_clause.delayed_literals@.len()
                        ==> strand.ex_clause.delayed_literals@[k] is CannotProve,
                strand.ex_clause.subst@ == s.ex_clause.subst@,
                strand.ex_clause.constraints@ == s.ex_clause.constraints@,
                strand.selected_subgoal is None,
                s.selected_subgoal is None,
                forall|t: int|
                    0 <= t < old(self).tables@.len() ==> (#[trigger] self.tables@[t]).answers@
                        == old(self).tables@[t].answers@,
            decreases strand.ex_clause.subgoals@.len(),
        {
            if strand.ex_clause.subgoals.len() == 0 {
                let ghost pre = *self;
                let ok = self.pursue_answer(table_idx, strand);
                proof {
                    lemma_tables_extend_trans(old(self).tables@, pre.tables@, self.tables@);
                    assert(pre.tables@[table_idx as int].table_goal == old(self).tables@[table_idx as int].table_goal);
                    assert(answers_prefix(
                        old(self).tables@[table_idx as int].answers@,
                        pre.tables@[table_idx as int].answers@,
                    ));
                }
                if ok {
                    return RunResult::Done(StrandOutcome::Success);
                } else {
                    return RunResult::Done(StrandOutcome::NoSolution);
                }
            }
            let idx = strand.ex_clause.subgoals.len() - 1;
            let ghost pre = *self;
            let created = self.get_or_create_table_for_subgoal(
                &mut strand.infer,
                &strand.ex_clause.subgoals[idx],
            );
            proof {
                lemma_tables_extend_trans(old(self).tables@, pre.tables@, self.tables@);
            }
            match created {
                Some(p) => {
                    let (tbl, umap) = p;
                    strand.selected_subgoal = Some(
                        SelectedSubgoal {
                            subgoal_index: idx,
                            subgoal_table: tbl,
                            answer_index: AnswerIndex::zero(),
                            universe_map: umap,
                        },
                    );
                    return RunResult::Await(strand);
                },
                None => {
                    // Floundered: record the ambiguity and go on without
                    // this subgoal.
                    let _ = strand.ex_clause.subgoals.remove(idx);
                    strand.ex_clause.delayed_literals.push(DelayedLiteral::CannotProve);
                },
            }
        }
    }

    /// Resumes the strand that was waiting for `out`, the outcome of its
    /// selected subgoal's answer request. Either the strand continues (with
    /// no selection), or it finishes with an outcome for the frame at
    /// `table_idx`.
    fn resume_strand(
        &mut self,
        table_idx: usize,
        top_dfn: DepthFirstNumber,
        s: Strand,
        out: EnsureOutcome,
    ) -> (r: ResumeResult)
        requires
            old(self).wf(),
            table_idx < old(self).tables@.len(),
            strand_wf(s, old(self).tables@),
            s.selected_subgoal is Some,
            out matches EnsureOutcome::AnswerAvailable ==> (s.selected_subgoal matches Some(sel)
                && sel.answer_index.value < old(self).tables@[sel.subgoal_table.value as int].answers@.len()),
            old(self).stack@.len() > 0,
            top_dfn.value >= old(self).stack@[0].dfn.value,
            out matches EnsureOutcome::CycleFail(m) ==> m.positive.value >= old(self).stack@[0].dfn.value && m.negative.value >= old(self).stack@[0].dfn.value,
            out matches EnsureOutcome::Coinductive ==> old(self).tables@[table_idx as int].coinductive_goal
                && (s.selected_subgoal matches Some(sel)
                && old(self).tables@[sel.subgoal_table.value as int].coinductive_goal),
        ensures
            final(self).wf(),
            tables_extend(old(self).tables@, final(self).tables@),
            final(self).tables@.len() == old(self).tables@.len(),
            forall|t: int|
                0 <= t < old(self).tables@.len() ==> (#[trigger] final(self).tables@[t]).answers@
                    == old(self).tables@[t].answers@,
            final(self).stack@ == old(self).stack@,
            final(self).dfn_next == old(self).dfn_next,
            final(self).program == old(self).program,
            final(self).max_size == old(self).max_size,
            final(self).quantum == old(self).quantum,
            final(self).strands_consumed == old(self).strands_consumed,
            r matches ResumeResult::Run(s2) ==> s2.selected_subgoal is None,
            r matches ResumeResult::Done(o) ==> !(o matches StrandOutcome::Success),
            // A budget yield passes through, re-enqueueing the strand as is.
            out matches EnsureOutcome::QuantumExceeded ==> (r matches ResumeResult::Done(o)
                && o is QuantumExceeded) && final(self).tables@[table_idx as int].strands@ == old(self).tables@[table_idx as int].strands@.push(s),
            // A cycle hands the strand back: a positive selection keeps the
            // minimums, a negative one depends negatively on the subgoal's
            // minimal link.
            out matches EnsureOutcome::CycleFail(m) ==> (r matches ResumeResult::Done(o) && (o
                matches StrandOutcome::CycleHit(s2, m2) && s2 == s && (s.selected_subgoal
                matches Some(sel) && m2 == (if s.ex_clause.subgoals@[sel.subgoal_index as int]
                    is Positive {
                    m
                } else {
                    (Minimums {
                        positive: top_dfn,
                        negative: if m.positive.value <= m.negative.value {
                            m.positive
                        } else {
                            m.negative
                        },
                    })
                })))),
            // A refuted subgoal kills a positive selection and discharges a
            // negative one: the literal is removed, nothing else changes.
            out matches EnsureOutcome::NoMoreSolutions ==> (s.selected_subgoal matches Some(sel)
                && ((s.ex_clause.subgoals@[sel.subgoal_index as int] is Positive ==> (r
                matches ResumeResult::Done(o) && o is NoSolution))
                && (s.ex_clause.subgoals@[sel.subgoal_index as int] is Negative ==> (r
                matches ResumeResult::Run(s2) && s2.ex_clause.subgoals@
                == s.ex_clause.subgoals@.remove(sel.subgoal_index as int)
                && s2.ex_clause.delayed_literals@ == s.ex_clause.delayed_literals@
                && s2.ex_clause.subst@ == s.ex_clause.subst@ && s2.ex_clause.constraints@
                == s.ex_clause.constraints@)))),
            // A coinductive cycle discharges a positive selection and
            // refutes a negative one.
            out matches EnsureOutcome::Coinductive ==> (s.selected_subgoal matches Some(sel) && ((
            s.ex_clause.subgoals@[sel.subgoal_index as int] is Positive ==> (r
                matches ResumeResult::Run(s2) && s2.ex_clause.subgoals@
                == s.ex_clause.subgoals@.remove(sel.subgoal_index as int)
                && s2.ex_clause.delayed_literals@ == s.ex_clause.delayed_literals@
                && s2.ex_clause.subst@ == s.ex_clause.subst@ && s2.ex_clause.constraints@
                == s.ex_clause.constraints@)) && (s.ex_clause.subgoals@[sel.subgoal_index as int]
                is Negative ==> (r matches ResumeResult::Done(o) && o is NoSolution)))),
            // A cached answer against a negative selection: an unconditional
            // answer refutes the negation; a conditional one delays it.
            out matches EnsureOutcome::AnswerAvailable ==> (s.selected_subgoal matches Some(sel)
                && (s.ex_clause.subgoals@[sel.subgoal_index as int] is Negative ==> ((
                answer_unconditional_spec(
                    old(self).tables@[sel.subgoal_table.value as int].answers@[sel.answer_index.value as int],
                ) ==> (r matches ResumeResult::Done(o) && o is NoSolution))
                && (!answer_unconditional_spec(
                    old(self).tables@[sel.subgoal_table.value as int].answers@[sel.answer_index.value as int],
                ) ==> (r matches ResumeResult::Run(s2) && s2.ex_clause.subgoals@
                == s.ex_clause.subgoals@.remove(sel.subgoal_index as int)
                && s2.ex_clause.delayed_literals@ == s.ex_clause.delayed_literals@.push(
                    DelayedLiteral::Negative(sel.subgoal_table),
                )))))),
            // On the positive path that goes on, the selected literal is
            // consumed, and a conditional answer leaves its mark: the factor
            // literal naming the answer is appended, everything else kept.
            out matches EnsureOutcome::AnswerAvailable ==> (s.selected_subgoal matches Some(sel)
                && (s.ex_clause.subgoals@[sel.subgoal_index as int] is Positive ==> (r
                matches ResumeResult::Run(s2) ==> factor_step_ok(
                s,
                s2,
                sel,
                old(self).tables@,
            )))),
            // A cached answer against a positive selection queues the
            // sibling strand that pursues the next answer, then either
            // unifies (the strand goes on) or fails this branch.
            out matches EnsureOutcome::AnswerAvailable ==> (s.selected_subgoal matches Some(sel)
                && (s.ex_clause.subgoals@[sel.subgoal_index as int] is Positive ==> final(self).tables@[table_idx as int].strands@.len() == old(self).tables@[table_idx as int].strands@.len() + 1 && (final(self).tables@[table_idx as int].strands@.last().selected_subgoal matches Some(sib)
                && sib.subgoal_table == sel.subgoal_table && sib.subgoal_index
                == sel.subgoal_index && sib.answer_index.value == sel.answer_index.value + 1)
                && sibling_carries(final(self).tables@[table_idx as int].strands@.last(), s)
                && (r is Run || (r matches ResumeResult::Done(o) && o is NoSolution)))),
            r matches ResumeResult::Done(o) ==> (o matches StrandOutcome::CycleHit(s2, m)
                ==> strand_wf(s2, final(self).tables@) && m.positive.value >= final(self).stack@[0].dfn.value && m.negative.value >= final(self).stack@[0].dfn.value),
    {
        let Strand { infer, ex_clause, selected_subgoal } = s;
        let sel = match selected_subgoal {
            Some(sel) => sel,
            None => {
                proof {
                    assert(false);
                }
                return ResumeResult::Done(StrandOutcome::NoSolution);
            },
        };
        let is_positive = match &ex_clause.subgoals[sel.subgoal_index] {
            Literal::Positive(_) => true,
            Literal::Negative(_) => false,
        };
        match out {
            EnsureOutcome::AnswerAvailable => {
                let sub = sel.subgoal_table.value;
                let ai = sel.answer_index.value;
                if is_positive {
                    let cnt = self.tables[sub].answers.len();
                    proof {
                        assert(sel.answer_index.value < cnt);
                    }
                    // There may be further answers: queue a sibling strand
                    // for the next index before consuming this one.
                    let mut map_copy: Vec<usize> = Vec::new();
                    let mut mi: usize = 0;
                    while mi < sel.universe_map.map.len()
                        invariant
                            mi <= sel.universe_map.map@.len(),
                        decreases sel.universe_map.map@.len() - mi,
                    {
                        map_copy.push(sel.universe_map.map[mi]);
                        mi = mi + 1;
                    }
                    let sibling = Strand {
                        infer: infer.clone_table(),
                        ex_clause: copy_ex_clause(&ex_clause),
                        selected_subgoal: Some(
                            SelectedSubgoal {
                                subgoal_index: sel.subgoal_index,
                                subgoal_table: sel.subgoal_table,
                                answer_index: AnswerIndex { value: sel.answer_index.value + 1 },
                                universe_map: UniverseMap { map: map_copy },
                            },
                        ),
                    };
                    let tref = &mut self.tables[table_idx];
                    tref.push_strand(sibling);
                    proof {
                        assert(tables_extend(old(self).tables@, self.tables@));
                        assert forall|tt: int, k: int|
                            0 <= tt < self.tables@.len() && 0 <= k
                                < self.tables@[tt].strands@.len() implies strand_wf(
                            self.tables@[tt].strands@[k],
                            self.tables@,
                        ) by {
                            lemma_strand_wf_monotone(
                                self.tables@[tt].strands@[k],
                                old(self).tables@,
                                self.tables@,
                            );
                        }
                    }
                    // Follow this answer: unify it with the selected goal.
                    let mut ex = ex_clause;
                    let lit = ex.subgoals.remove(sel.subgoal_index);
                    let subgoal_env = match lit {
                        Literal::Positive(e) => e,
                        Literal::Negative(_) => {
                            return ResumeResult::Done(StrandOutcome::NoSolution);
                        },
                    };
                    let answer_has_delays = self.tables[sub].answers[ai].delayed_literals.literals.len() > 0;
                    let table_goal_mapped = InferenceTable::map_in_env_from_canonical(
                        &sel.universe_map,
                        &self.tables[sub].table_goal.goal,
                    );
                    let answer_subst_mapped = InferenceTable::map_subst_from_canonical(
                        &sel.universe_map,
                        &self.tables[sub].answers[ai].subst,
                    );
                    let mut infer = infer;
                    match apply_answer_subst(
                        &mut infer,
                        ex,
                        &subgoal_env,
                        &table_goal_mapped,
                        &answer_subst_mapped,
                    ) {
                        Satisfiable::Yes(ex2) => {
                            let mut ex2 = ex2;
                            if answer_has_delays {
                                // The answer is conditional: so are we now
                                // (the SLG factor step).
                                let dl = DelayedLiteral::Positive(
                                    sel.subgoal_table,
                                    copy_ccs(&self.tables[sub].answers[ai].subst),
                                );
                                ex2.delayed_literals.push(dl);
                            }
                            // Answer abstraction: bound what is carried
                            // on, spending one size budget across the whole
                            // substitution.
                            let mut new_subst: Vec<Term> = Vec::new();
                            let mut budget: usize = self.max_size;
                            let mut ovf = false;
                            let mut si: usize = 0;
                            while si < ex2.subst.len()
                                invariant
                                    si <= ex2.subst@.len(),
                                decreases ex2.subst@.len() - si,
                            {
                                let t2 = infer.truncate_term(
                                    &ex2.subst[si],
                                    &mut budget,
                                    &mut ovf,
                                );
                                new_subst.push(t2);
                                si = si + 1;
                            }
                            ex2.subst = new_subst;
                            ResumeResult::Run(
                                Strand { infer, ex_clause: ex2, selected_subgoal: None },
                            )
                        },
                        Satisfiable::No => ResumeResult::Done(StrandOutcome::NoSolution),
                    }
                } else {
                    let uncond = self.tables[sub].answers[ai].delayed_literals.literals.len() == 0
                        && self.tables[sub].answers[ai].subst.value.constraints.len() == 0;
                    if uncond {
                        // An unconditional answer refutes the negation.
                        ResumeResult::Done(StrandOutcome::NoSolution)
                    } else {
                        // Only a conditional answer: delay the negation and
                        // keep going.
                        let mut ex = ex_clause;
                        let _ = ex.subgoals.remove(sel.subgoal_index);
                        ex.delayed_literals.push(DelayedLiteral::Negative(sel.subgoal_table));
                        ResumeResult::Run(Strand { infer, ex_clause: ex, selected_subgoal: None })
                    }
                }
            },
            EnsureOutcome::Coinductive => {
                if is_positive {
                    // A cyclic request resolves coinductively only between
                    // coinductive tables: ours and the subgoal's both are.
                    proof {
                        assert(self.tables@[table_idx as int].coinductive_goal);
                        assert(self.tables@[sel.subgoal_table.value as int].coinductive_goal);
                    }
                    // The cyclic subgoal holds: drop it and continue.
                    let mut ex = ex_clause;
                    let _ = ex.subgoals.remove(sel.subgoal_index);
                    ResumeResult::Run(Strand { infer, ex_clause: ex, selected_subgoal: None })
                } else {
                    // The positive side holds, so the negation fails.
                    ResumeResult::Done(StrandOutcome::NoSolution)
                }
            },
            EnsureOutcome::NoMoreSolutions => {
                if is_positive {
                    ResumeResult::Done(StrandOutcome::NoSolution)
                } else {
                    // The subgoal is refuted: the negation holds outright.
                    let mut ex = ex_clause;
                    let _ = ex.subgoals.remove(sel.subgoal_index);
                    ResumeResult::Run(Strand { infer, ex_clause: ex, selected_subgoal: None })
                }
            },
            EnsureOutcome::QuantumExceeded => {
                // Try again some other time, with the same selection.
                let tref = &mut self.tables[table_idx];
                tref.push_strand(Strand { infer, ex_clause, selected_subgoal: Some(sel) });
                proof {
                    assert(tables_extend(old(self).tables@, self.tables@));
                    assert forall|tt: int, k: int|
                        0 <= tt < self.tables@.len() && 0 <= k
                            < self.tables@[tt].strands@.len() implies strand_wf(
                        self.tables@[tt].strands@[k],
                        self.tables@,
                    ) by {
                        lemma_strand_wf_monotone(
                            self.tables@[tt].strands@[k],
                            old(self).tables@,
                            self.tables@,
                        );
                    }
                }
                ResumeResult::Done(StrandOutcome::QuantumExceeded)
            },
            EnsureOutcome::CycleFail(m) => {
                if is_positive {
                    ResumeResult::Done(
                        StrandOutcome::CycleHit(
                            Strand { infer, ex_clause, selected_subgoal: Some(sel) },
                            m,
                        ),
                    )
                } else {
                    // For the negation to proceed, the subgoal must be fully
                    // evaluated: depend negatively on its minimal link.
                    let min = m.minimum_of_pos_and_neg();
                    ResumeResult::Done(
                        StrandOutcome::CycleHit(
                            Strand { infer, ex_clause, selected_subgoal: Some(sel) },
                            Minimums { positive: top_dfn, negative: min },
                        ),
                    )
                }
            },
        }
    }

    /// Re-enqueues one well-formed strand into the table at `ti`, keeping
    /// the forest invariant.
    fn requeue_strand(&mut self, ti: usize, s: Strand)
        requires
            old(self).wf(),
            ti < old(self).tables@.len(),
            strand_wf(s, old(self).tables@),
        ensures
            final(self).wf(),
            tables_extend(old(self).tables@, final(self).tables@),
            final(self).tables@.len() == old(self).tables@.len(),
            forall|t: int|
                0 <= t < old(self).tables@.len() ==> (#[trigger] final(self).tables@[t]).answers@
                    == old(self).tables@[t].answers@ && final(self).tables@[t].table_goal == old(self).tables@[t].table_goal && final(self).tables@[t].coinductive_goal == old(self).tables@[t].coinductive_goal,
            final(self).stack@ == old(self).stack@,
            final(self).dfn_next == old(self).dfn_next,
            final(self).program == old(self).program,
            final(self).max_size == old(self).max_size,
            final(self).quantum == old(self).quantum,
            final(self).strands_consumed == old(self).strands_consumed,
    {
        let tref = &mut self.tables[ti];
        tref.push_strand(s);
        proof {
            assert(tables_extend(old(self).tables@, self.tables@));
            assert forall|tt: int, k: int|
                0 <= tt < self.tables@.len() && 0 <= k
                    < self.tables@[tt].strands@.len() implies strand_wf(
                self.tables@[tt].strands@[k],
                self.tables@,
            ) by {
                lemma_strand_wf_monotone(
                    self.tables@[tt].strands@[k],
                    old(self).tables@,
                    self.tables@,
                );
            }
        }
    }

    /// Re-enqueues a batch of well-formed strands into the table at `ti`.
    fn requeue_strands(&mut self, ti: usize, v: Vec<Strand>)
        requires
            old(self).wf(),
            ti < old(self).tables@.len(),
            forall|k: int| 0 <= k < v@.len() ==> strand_wf(#[trigger] v@[k], old(self).tables@),
        ensures
            final(self).wf(),
            tables_extend(old(self).tables@, final(self).tables@),
            final(self).tables@.len() == old(self).tables@.len(),
            forall|t: int|
                0 <= t < old(self).tables@.len() ==> (#[trigger] final(self).tables@[t]).answers@
                    == old(self).tables@[t].answers@ && final(self).tables@[t].table_goal == old(self).tables@[t].table_goal && final(self).tables@[t].coinductive_goal == old(self).tables@[t].coinductive_goal,
            final(self).stack@ == old(self).stack@,
            final(self).dfn_next == old(self).dfn_next,
            final(self).program == old(self).program,
            final(self).max_size == old(self).max_size,
            final(self).quantum == old(self).quantum,
            final(self).strands_consumed == old(self).strands_consumed,
    {
        let tref = &mut self.tables[ti];
        tref.extend_strands(v);
        proof {
            assert(tables_extend(old(self).tables@, self.tables@));
            assert forall|tt: int, k: int|
                0 <= tt < self.tables@.len() && 0 <= k
                    < self.tables@[tt].strands@.len() implies strand_wf(
                self.tables@[tt].strands@[k],
                self.tables@,
            ) by {
                lemma_strand_wf_monotone(
                    self.tables@[tt].strands@[k],
                    old(self).tables@,
                    self.tables@,
                );
            }
        }
    }

    /// Ensures that the answer with the given index is available from the
    /// given table, activating strands as needed. `Ok` means the answer can
    /// be read with `answer` and will never change. `NoMoreSolutions` is
    /// terminal for this table and index. `QuantumExceeded` means the step
    /// budget ran out first: all progress is kept, and calling again
    /// continues the work.
    ///
    /// Contracts carried by this operation: previously produced answers
    /// are never changed or removed and tables keep their goals; the stack
    /// is empty again on return; requesting an already-present answer
    /// changes nothing; `NoMoreSolutions` leaves the table with no pending
    /// strands, so (answers being append-only) every later request for a
    /// missing answer of it fails the same way; depth-first numbers only
    /// grow, so none is reused within a query; and a yield for budget
    /// reasons is only reported after at least one strand was actually
    /// taken up (or a counter is saturated) — each call either finishes or
    /// does work.
    #[verifier::rlimit(100)]
    pub fn ensure_root_answer(&mut self, table: TableIndex, answer: AnswerIndex) -> (r: Result<
        (),
        RootSearchFail,
    >)
        requires
            old(self).wf(),
            old(self).stack@.len() == 0,
            table.value < old(self).tables@.len(),
            answer.value <= old(self).tables@[table.value as int].answers@.len(),
        ensures
            final(self).wf(),
            final(self).stack@.len() == 0,
            tables_extend(old(self).tables@, final(self).tables@),
            final(self).program == old(self).program,
            final(self).max_size == old(self).max_size,
            final(self).quantum == old(self).quantum,
            final(self).strands_consumed >= old(self).strands_consumed,
            r is Ok ==> table.value < final(self).tables@.len() && answer.value < final(self).tables@[table.value as int].answers@.len(),
            answer.value < old(self).tables@[table.value as int].answers@.len() ==> r is Ok
                && *final(self) == *old(self),
            final(self).dfn_next >= old(self).dfn_next,
            (r matches Err(e) && e == RootSearchFail::NoMoreSolutions) ==> final(self).tables@[table.value as int].strands@.len() == 0,
            // Per-outcome answer accounting for the requested table: success
            // on an absent index appends exactly that answer, a refusal
            // appends nothing, and a yield appends at most the one answer it
            // ran out of budget reporting.
            (r is Ok && answer.value == old(self).tables@[table.value as int].answers@.len())
                ==> final(self).tables@[table.value as int].answers@.len() == answer.value + 1,
            (r matches Err(e) && e == RootSearchFail::NoMoreSolutions) ==> final(self).tables@[table.value as int].answers@.len() == answer.value,
            (r matches Err(e) && e == RootSearchFail::QuantumExceeded) ==> final(self).tables@[table.value as int].answers@.len() == answer.value || final(self).tables@[table.value as int].answers@.len() == answer.value + 1,
            (answer.value == old(self).tables@[table.value as int].answers@.len() && old(self).tables@[table.value as int].strands@.len() == 0 && old(self).dfn_next < u64::MAX
                - 1) ==> (r matches Err(e) && e == RootSearchFail::NoMoreSolutions)
                && tables_observed_eq(old(self).tables@, final(self).tables@),
            (r matches Err(e) && e == RootSearchFail::QuantumExceeded) ==> final(self).strands_consumed > old(self).strands_consumed || old(self).strands_consumed
                == u64::MAX || final(self).dfn_next >= u64::MAX - 1,
    {
        // An answer that is already present is simply confirmed.
        if answer.value < self.tables[table.value].answers.len() {
            return Ok(());
        }
        let mut frames: Vec<MachineFrame> = Vec::new();
        let mut control: Control = Control::Request(table, answer);
        let mut fuel: u64 = self.quantum;

        loop
            invariant
                self.wf(),
                tables_extend(old(self).tables@, self.tables@),
                self.program == old(self).program,
                self.max_size == old(self).max_size,
                self.quantum == old(self).quantum,
                self.strands_consumed >= old(self).strands_consumed,
                table.value < old(self).tables@.len(),
                table.value < self.tables@.len(),
                answer.value == old(self).tables@[table.value as int].answers@.len(),
                frames@.len() == self.stack@.len(),
                fuel <= self.quantum,
                self.dfn_next >= old(self).dfn_next,
                forall|i: int|
                    0 <= i < frames@.len() ==> frame_wf(#[trigger] frames@[i], self.tables@),
                frames_linked(frames@, self.stack@),
                forall|i: int|
                    0 <= i < frames@.len() ==> mins_ok(
                        (#[trigger] frames@[i]).cyclic_minimums,
                        self.stack@,
                    ),
                frames@.len() > 0 ==> self.stack@[0].table.value == table.value,
                control matches Control::Request(t, a) ==> t.value < self.tables@.len()
                    && a.value <= self.tables@[t.value as int].answers@.len() && request_ok(
                    frames@,
                    t,
                    a,
                ) && (frames@.len() == 0 ==> t == table && a == answer),
                (control matches Control::PursueNext || control matches Control::RunStrand(_)
                    || control matches Control::StrandDone(_)) ==> frames@.len() > 0,
                control matches Control::RunStrand(s) ==> strand_wf(s, self.tables@),
                control matches Control::StrandDone(o) ==> (o matches StrandOutcome::CycleHit(
                    s,
                    m,
                ) ==> strand_wf(s, self.tables@) && mins_ok(m, self.stack@)),
                control matches Control::StrandDone(o) ==> (o matches StrandOutcome::Success
                    ==> success_ok(frames@, self.stack@, self.tables@, answer)),
                control matches Control::Respond(o) ==> (frames@.len() > 0 ==> (frames@.last().pending matches Some(s)
                    && s.selected_subgoal is Some)),
                control matches Control::Respond(o) ==> (o matches EnsureOutcome::AnswerAvailable
                    ==> avail_ok(frames@, self.tables@, table, answer)),
                control matches Control::Respond(o) ==> (o matches EnsureOutcome::NoMoreSolutions
                    ==> (frames@.len() == 0
                    ==> self.tables@[table.value as int].strands@.len() == 0)),
                // The requested table gains its answer exactly once, at the
                // final success.
                self.tables@[table.value as int].answers@.len() == answer.value || (
                self.tables@[table.value as int].answers@.len() == answer.value + 1 && ((control
                    matches Control::StrandDone(o) && (o is Success && frames@.len() == 1)) || (
                control matches Control::Respond(o) && (o is AnswerAvailable && frames@.len()
                    == 0)))),
                // A request against an exhausted table runs straight to its
                // refusal: nothing else is reachable.
                (old(self).tables@[table.value as int].strands@.len() == 0 && old(self).dfn_next
                    < u64::MAX - 1) ==> (tables_observed_eq(old(self).tables@, self.tables@) && ((
                control matches Control::Request(t, a) && (frames@.len() == 0 && fuel
                    == self.quantum && self.dfn_next == old(self).dfn_next)) || (control
                    matches Control::PursueNext && (frames@.len() == 1 && fuel + 1 == self.quantum
                    && frames@[0].cyclic_strands@.len() == 0)) || (control
                    matches Control::Respond(o) && (o is NoMoreSolutions && frames@.len()
                    == 0)))),
                control matches Control::Respond(o) ==> (o matches EnsureOutcome::Coinductive
                    ==> frames@.len() > 0 && self.tables@[self.stack@.last().table.value as int].coinductive_goal
                    && (pending_sel(frames@.last()) matches Some(sel)
                    && self.tables@[sel.subgoal_table.value as int].coinductive_goal)),
                control matches Control::Respond(o) ==> (o matches EnsureOutcome::CycleFail(m)
                    ==> frames@.len() > 0 && mins_ok(m, self.stack@)),
                (self.strands_consumed == old(self).strands_consumed && old(self).strands_consumed < u64::MAX) ==> ((control matches Control::Request(t, a)
                    && (frames@.len() == 0 && fuel == self.quantum && self.tables@ == old(self).tables@)) || (control
                    matches Control::PursueNext && (fuel + 1 == self.quantum && frames@.len() == 1
                    && frames@[0].cyclic_strands@.len() == 0 && frames@[0].pending is None)) || (
                control matches Control::Respond(o) && (o matches EnsureOutcome::NoMoreSolutions
                    && frames@.len() == 0)) || (control matches Control::Respond(o) && (o
                    matches EnsureOutcome::QuantumExceeded && frames@.len() == 0
                    && self.dfn_next >= u64::MAX - 1))),
            ensures
                self.wf(),
                tables_extend(old(self).tables@, self.tables@),
                self.program == old(self).program,
                self.max_size == old(self).max_size,
                self.quantum == old(self).quantum,
                self.strands_consumed >= old(self).strands_consumed,
                self.strands_consumed > old(self).strands_consumed || old(self).strands_consumed
                    == u64::MAX || self.dfn_next >= u64::MAX - 1,
                self.dfn_next >= old(self).dfn_next,
                answer.value == old(self).tables@[table.value as int].answers@.len(),
                old(self).tables@[table.value as int].strands@.len() > 0 || old(self).dfn_next
                    >= u64::MAX - 1,
                self.tables@[table.value as int].answers@.len() == answer.value
                    || self.tables@[table.value as int].answers@.len() == answer.value + 1,
                frames@.len() == self.stack@.len(),
                forall|i: int|
                    0 <= i < frames@.len() ==> frame_wf(#[trigger] frames@[i], self.tables@),
                control matches Control::RunStrand(s) ==> frames@.len() > 0 && strand_wf(
                    s,
                    self.tables@,
                ),
                control matches Control::StrandDone(o) ==> frames@.len() > 0 && (o
                    matches StrandOutcome::CycleHit(s, m) ==> strand_wf(s, self.tables@)),
            decreases fuel,
        {
            // A root-level outcome leaves the machine at once, whatever the
            // remaining budget.
            if frames.len() == 0 {
                match control {
                    Control::Respond(out) => {
                        match out {
                            EnsureOutcome::AnswerAvailable => {
                                return Ok(());
                            },
                            EnsureOutcome::NoMoreSolutions => {
                                return Err(RootSearchFail::NoMoreSolutions);
                            },
                            EnsureOutcome::QuantumExceeded => {
                                return Err(RootSearchFail::QuantumExceeded);
                            },
                            EnsureOutcome::Coinductive => {
                                proof {
                                    assert(false);
                                }
                                return Err(RootSearchFail::QuantumExceeded);
                            },
                            EnsureOutcome::CycleFail(_) => {
                                proof {
                                    assert(false);
                                }
                                return Err(RootSearchFail::QuantumExceeded);
                            },
                        }
                    },
                    c => {
                        control = c;
                    },
                }
            }
            if fuel == 0 {
                break ;
            }
            fuel = fuel - 1;
            match control {
                Control::Request(t, a) => {
                    if a.value < self.tables[t.value].answers.len() {
                        control = Control::Respond(EnsureOutcome::AnswerAvailable);
                    } else {
                        match self.stack_index_of(t) {
                            Some(depth) => {
                                // A recursive request: a cycle. On an
                                // all-coinductive stack segment it counts as
                                // true; otherwise it is reported upward.
                                if self.stack_coinductive_from(depth) {
                                    proof {
                                        assert(self.tables@[self.stack@[depth as int].table.value as int].coinductive_goal);
                                        assert(self.tables@[self.stack@[self.stack@.len() - 1].table.value as int].coinductive_goal);
                                    }
                                    control = Control::Respond(EnsureOutcome::Coinductive);
                                } else {
                                    proof {
                                        if depth > 0 {
                                            assert(self.stack@[0].dfn.value < self.stack@[depth as int].dfn.value);
                                        }
                                    }
                                    control = Control::Respond(
                                        EnsureOutcome::CycleFail(
                                            Minimums {
                                                positive: self.stack[depth].dfn,
                                                negative: DepthFirstNumber::maximum(),
                                            },
                                        ),
                                    );
                                }
                            },
                            None => {
                                if self.dfn_next >= u64::MAX - 1 {
                                    // The depth-first number space is spent
                                    // (its sentinel must stay unassigned):
                                    // yield; no fresh frame can be numbered.
                                    control = Control::Respond(EnsureOutcome::QuantumExceeded);
                                } else {
                                    // Activate the table: assign the next
                                    // depth-first number and push a frame.
                                    let dfn = self.dfn_next;
                                    self.dfn_next = self.dfn_next + 1;
                                    self.stack.push(
                                        StackFrame {
                                            table: t,
                                            dfn: DepthFirstNumber { value: dfn },
                                        },
                                    );
                                    frames.push(
                                        MachineFrame {
                                            cyclic_strands: Vec::new(),
                                            cyclic_minimums: Minimums::maximum(),
                                            pending: None,
                                        },
                                    );
                                    control = Control::PursueNext;
                                }
                            },
                        }
                    }
                },
                Control::PursueNext => {
                    let top = self.stack.len() - 1;
                    let table_idx = self.stack[top].table.value;
                    let ghost pre = *self;
                    let tref = &mut self.tables[table_idx];
                    match tref.pop_next_strand() {
                        Some(strand) => {
                            if self.strands_consumed < u64::MAX {
                                self.strands_consumed = self.strands_consumed + 1;
                            }
                            proof {
                                assert(tables_extend(pre.tables@, self.tables@));
                                lemma_tables_extend_trans(
                                    old(self).tables@,
                                    pre.tables@,
                                    self.tables@,
                                );
                                lemma_strand_wf_monotone(strand, pre.tables@, self.tables@);
                                assert forall|tt: int, k: int|
                                    0 <= tt < self.tables@.len() && 0 <= k
                                        < self.tables@[tt].strands@.len() implies strand_wf(
                                    self.tables@[tt].strands@[k],
                                    self.tables@,
                                ) by {
                                    lemma_strand_wf_monotone(
                                        self.tables@[tt].strands@[k],
                                        pre.tables@,
                                        self.tables@,
                                    );
                                }
                                lemma_frames_wf_monotone(frames@, pre.tables@, self.tables@);
                            }
                            control = Control::RunStrand(strand);
                        },
                        None => {
                            let fi = frames.len() - 1;
                            if frames[fi].cyclic_strands.len() == 0 {
                                // No strand was ever stashed: the table is
                                // out of moves.
                                self.stack.pop();
                                frames.pop();
                            proof {
                                if frames@.len() > 0 {
                                    assert(pending_sel(frames@[frames@.len() - 1]) is Some);
                                }
                            }
                                control = Control::Respond(EnsureOutcome::NoMoreSolutions);
                            } else {
                                let dfn = self.stack[top].dfn;
                                let mins = frames[fi].cyclic_minimums;
                                let mut taken: Vec<Strand> = Vec::new();
                                let fref = &mut frames[fi];
                                std::mem::swap(&mut taken, &mut fref.cyclic_strands);
                                if mins.positive.value == dfn.value && mins.negative.value
                                    == u64::MAX {
                                    // Everything below depends only
                                    // positively on this subtree: it is
                                    // closed, no further answers can come.
                                    self.clear_strands_after_cycle(taken);
                                    self.stack.pop();
                                    frames.pop();
                                    proof {
                                        if frames@.len() > 0 {
                                            assert(pending_sel(frames@[frames@.len() - 1]) is Some);
                                        }
                                    }
                                    control = Control::Respond(EnsureOutcome::NoMoreSolutions);
                                } else if mins.positive.value >= dfn.value && mins.negative.value
                                    >= dfn.value {
                                    // A self-contained cycle with negative
                                    // edges: delay them and try again.
                                    self.requeue_strands(table_idx, taken);
                                    self.delay_strands_after_cycle(table_idx);
                                    control = Control::PursueNext;
                                } else {
                                    // Some dependency lies above us on the
                                    // stack: report the cycle upward.
                                    proof {
                                        assert(frames@.len() >= 2);
                                    }
                                    self.requeue_strands(table_idx, taken);
                                    self.stack.pop();
                                    frames.pop();
                                    proof {
                                        if frames@.len() > 0 {
                                            assert(pending_sel(frames@[frames@.len() - 1]) is Some);
                                        }
                                    }
                                    control = Control::Respond(EnsureOutcome::CycleFail(mins));
                                }
                            }
                        },
                    }
                },
                Control::RunStrand(s) => {
                    let top = self.stack.len() - 1;
                    let table_idx = self.stack[top].table.value;
                    proof {
                        if top > 0 {
                            assert(self.stack@[0].table.value != self.stack@[top as int].table.value);
                        }
                    }
                    let ghost pre = *self;
                    match self.run_strand(table_idx, s) {
                        RunResult::Done(o) => {
                            proof {
                                lemma_tables_extend_trans(
                                    old(self).tables@,
                                    pre.tables@,
                                    self.tables@,
                                );
                                lemma_frames_wf_monotone(frames@, pre.tables@, self.tables@);
                                if o is Success {
                                    assert(pre.tables@[table_idx as int].table_goal
                                        == old(self).tables@[table_idx as int].table_goal
                                        || table_idx >= old(self).tables@.len());
                                    assert(pre.tables@[table.value as int].table_goal == old(self).tables@[table.value as int].table_goal);
                                    assert(answers_prefix(
                                        old(self).tables@[table.value as int].answers@,
                                        pre.tables@[table.value as int].answers@,
                                    ));
                                    if frames@.len() >= 2 {
                                        assert(frame_wf(frames@[frames@.len() - 2], pre.tables@));
                                        assert(pending_sel(frames@[frames@.len() - 2]) is Some);
                                    }
                                    assert(success_ok(frames@, self.stack@, self.tables@, answer));
                                }
                            }
                            control = Control::StrandDone(o);
                        },
                        RunResult::Await(s2) => {
                            proof {
                                lemma_tables_extend_trans(
                                    old(self).tables@,
                                    pre.tables@,
                                    self.tables@,
                                );
                                lemma_frames_wf_monotone(frames@, pre.tables@, self.tables@);
                            }
                            let (t2, a2) = match &s2.selected_subgoal {
                                Some(sel) => (sel.subgoal_table, sel.answer_index),
                                None => {
                                    proof {
                                        assert(false);
                                    }
                                    (TableIndex { value: 0 }, AnswerIndex { value: 0 })
                                },
                            };
                            let fi = frames.len() - 1;
                            let fref = &mut frames[fi];
                            fref.pending = Some(s2);
                            control = Control::Request(t2, a2);
                        },
                    }
                },
                Control::StrandDone(o) => {
                    let fi = frames.len() - 1;
                    match o {
                        StrandOutcome::Success => {
                            let mut taken: Vec<Strand> = Vec::new();
                            {
                                let fref = &mut frames[fi];
                                std::mem::swap(&mut taken, &mut fref.cyclic_strands);
                            }
                            let ti = self.stack[self.stack.len() - 1].table.value;
                            self.requeue_strands(ti, taken);
                            self.stack.pop();
                            frames.pop();
                            proof {
                                if frames@.len() > 0 {
                                    assert(pending_sel(frames@[frames@.len() - 1]) is Some);
                                }
                            }
                            control = Control::Respond(EnsureOutcome::AnswerAvailable);
                        },
                        StrandOutcome::NoSolution => {
                            let mut taken: Vec<Strand> = Vec::new();
                            {
                                let fref = &mut frames[fi];
                                std::mem::swap(&mut taken, &mut fref.cyclic_strands);
                            }
                            let ti = self.stack[self.stack.len() - 1].table.value;
                            self.requeue_strands(ti, taken);
                            self.stack.pop();
                            frames.pop();
                            proof {
                                if frames@.len() > 0 {
                                    assert(pending_sel(frames@[frames@.len() - 1]) is Some);
                                }
                            }
                            control = Control::Respond(EnsureOutcome::QuantumExceeded);
                        },
                        StrandOutcome::QuantumExceeded => {
                            let mut taken: Vec<Strand> = Vec::new();
                            {
                                let fref = &mut frames[fi];
                                std::mem::swap(&mut taken, &mut fref.cyclic_strands);
                            }
                            let ti = self.stack[self.stack.len() - 1].table.value;
                            self.requeue_strands(ti, taken);
                            self.stack.pop();
                            frames.pop();
                            proof {
                                if frames@.len() > 0 {
                                    assert(pending_sel(frames@[frames@.len() - 1]) is Some);
                                }
                            }
                            control = Control::Respond(EnsureOutcome::QuantumExceeded);
                        },
                        StrandOutcome::CycleHit(s2, m) => {
                            let fref = &mut frames[fi];
                            fref.cyclic_strands.push(s2);
                            fref.cyclic_minimums.take_minimums(&m);
                            control = Control::PursueNext;
                        },
                    }
                },
                Control::Respond(out) => {
                    // The root case was handled at the top of the loop, so a
                    // frame is waiting for this outcome.
                    let fi = frames.len() - 1;
                    let mut pend: Option<Strand> = None;
                    {
                        let fref = &mut frames[fi];
                        std::mem::swap(&mut pend, &mut fref.pending);
                    }
                    let s = match pend {
                        Some(s) => s,
                        None => {
                            proof {
                                assert(false);
                            }
                            return Err(RootSearchFail::QuantumExceeded);
                        },
                    };
                    let top = self.stack.len() - 1;
                    let ti = self.stack[top].table.value;
                    let top_dfn = self.stack[top].dfn;
                    proof {
                        if top > 0 {
                            assert(self.stack@[0].dfn.value < self.stack@[top as int].dfn.value);
                        }
                    }
                    let ghost pre = *self;
                    let res = self.resume_strand(ti, top_dfn, s, out);
                    proof {
                        lemma_tables_extend_trans(old(self).tables@, pre.tables@, self.tables@);
                        lemma_frames_wf_monotone(frames@, pre.tables@, self.tables@);
                    }
                    match res {
                        ResumeResult::Run(s2) => {
                            control = Control::RunStrand(s2);
                        },
                        ResumeResult::Done(o2) => {
                            control = Control::StrandDone(o2);
                        },
                    }
                },
            }
        }
        // The step budget is exhausted. Save whatever strand is in flight,
        // then unwind the stack, re-enqueueing suspended strands; the
        // caller may re-invoke to continue exactly here.
        match control {
            Control::RunStrand(s) => {
                let ti = self.stack[self.stack.len() - 1].table.value;
                self.requeue_strand(ti, s);
            },
            Control::StrandDone(o) => {
                match o {
                    StrandOutcome::CycleHit(s, _) => {
                        let ti = self.stack[self.stack.len() - 1].table.value;
                        self.requeue_strand(ti, s);
                    },
                    _ => {},
                }
            },
            _ => {},
        }
        while frames.len() > 0
            invariant
                self.wf(),
                tables_extend(old(self).tables@, self.tables@),
                self.program == old(self).program,
                self.max_size == old(self).max_size,
                self.quantum == old(self).quantum,
                self.strands_consumed >= old(self).strands_consumed,
                self.strands_consumed > old(self).strands_consumed || old(self).strands_consumed
                    == u64::MAX || self.dfn_next >= u64::MAX - 1,
                self.dfn_next >= old(self).dfn_next,
                self.tables@[table.value as int].answers@.len() == answer.value
                    || self.tables@[table.value as int].answers@.len() == answer.value + 1,
                table.value < self.tables@.len(),
                frames@.len() == self.stack@.len(),
                forall|i: int|
                    0 <= i < frames@.len() ==> frame_wf(#[trigger] frames@[i], self.tables@),
            decreases frames@.len(),
        {
            let fr = match frames.pop() {
                Some(f) => f,
                None => {
                    proof {
                        assert(false);
                    }
                    return Err(RootSearchFail::QuantumExceeded);
                },
            };
            let ti = self.stack[self.stack.len() - 1].table.value;
            let MachineFrame { cyclic_strands, cyclic_minimums: _, pending } = fr;
            match pending {
                Some(s) => {
                    self.requeue_strand(ti, s);
                },
                None => {},
            }
            self.requeue_strands(ti, cyclic_strands);
            self.stack.pop();
        }
        Err(RootSearchFail::QuantumExceeded)
    }

    /// Law: no table ever holds two equal answers (equality being "same
    /// substitution with constraints, same set of delayed literals"). This
    /// holds of every well-formed forest, hence before and after every
    /// operation of this module.
    pub proof fn lemma_answers_unique(self, t: int, i: int, j: int)
        requires
            self.wf(),
            0 <= t < self.tables@.len(),
            0 <= i < j < self.tables@[t].answers@.len(),
        ensures
            !answer_eq_spec(self.tables@[t].answers@[i], self.tables@[t].answers@[j]),
    {
    }

    /// Law: depth-first numbers strictly increase with push order — a
    /// frame deeper on the stack always carries a larger number, and every
    /// assigned number is below the allocator's next value.
    pub proof fn lemma_dfn_monotone(self, i: int, j: int)
        requires
            self.wf(),
            0 <= i < j < self.stack@.len(),
        ensures
            self.stack@[i].dfn.value < self.stack@[j].dfn.value,
            self.stack@[j].dfn.value < self.dfn_next,
    {
    }
}

/// The tables look the same: same count, and each with the same answers,
/// queued strands, goal, and coinductive flag.
pub open spec fn tables_observed_eq(pre: Seq<Table>, post: Seq<Table>) -> bool {
    post.len() == pre.len() && (forall|t: int|
        0 <= t < pre.len() ==> (#[trigger] post[t]).answers@ == pre[t].answers@ && post[t].strands@
            == pre[t].strands@ && post[t].table_goal == pre[t].table_goal
            && post[t].coinductive_goal == pre[t].coinductive_goal)
}

/// Component-wise lower bound against the depth-first number of the
/// outermost frame: cycle minimums never point below the root of the
/// current request.
spec fn mins_ok(m: Minimums, stack: Seq<StackFrame>) -> bool {
    stack.len() > 0 ==> m.positive.value >= stack[0].dfn.value && m.negative.value
        >= stack[0].dfn.value
}

/// What a machine frame's strands must satisfy.
spec fn frame_wf(f: MachineFrame, tables: Seq<Table>) -> bool {
    &&& (f.pending matches Some(s) ==> strand_wf(s, tables) && s.selected_subgoal is Some)
    &&& forall|k: int|
        0 <= k < f.cyclic_strands@.len() ==> strand_wf(#[trigger] f.cyclic_strands@[k], tables)
}

/// No pending strand of this table has a negative literal selected: after
/// a delaying walk they were all turned into delayed literals.
pub open spec fn no_selected_negatives(t: Table) -> bool {
    forall|k: int|
        0 <= k < t.strands@.len() ==> ((#[trigger] t.strands@[k]).selected_subgoal
            matches Some(sel) ==> (sel.subgoal_index < t.strands@[k].ex_clause.subgoals@.len()
            && t.strands@[k].ex_clause.subgoals@[sel.subgoal_index as int] is Positive))
}

/// The sibling strand carries an equal copy of the waiting strand's
/// ex-clause: same substitution, constraints, subgoals and delayed
/// literals, up to the structural equality relations.
pub open spec fn sibling_carries(sib: Strand, s: Strand) -> bool {
    &&& crate::ir::terms_eq_spec(sib.ex_clause.subst@, s.ex_clause.subst@)
    &&& crate::ir::constraints_eq_spec(sib.ex_clause.constraints@, s.ex_clause.constraints@)
    &&& sib.ex_clause.subgoals@.len() == s.ex_clause.subgoals@.len()
    &&& forall|k: int|
        0 <= k < s.ex_clause.subgoals@.len() ==> crate::ir::literal_eq_spec(
            #[trigger] sib.ex_clause.subgoals@[k],
            s.ex_clause.subgoals@[k],
        )
    &&& sib.ex_clause.delayed_literals@.len() == s.ex_clause.delayed_literals@.len()
    &&& forall|k: int|
        0 <= k < s.ex_clause.delayed_literals@.len() ==> dl_eq_spec(
            #[trigger] sib.ex_clause.delayed_literals@[k],
            s.ex_clause.delayed_literals@[k],
        )
}

/// Is the table a selection points at out of pending strands?
pub open spec fn pre_tables_cleared(tables: Seq<Table>, sel: SelectedSubgoal) -> bool {
    tables[sel.subgoal_table.value as int].strands@.len() == 0
}

/// Does the cached answer a selection points at carry delayed literals?
pub open spec fn answer_is_conditional(tables: Seq<Table>, sel: SelectedSubgoal) -> bool {
    tables[sel.subgoal_table.value as int].answers@[sel.answer_index.value as int].delayed_literals.literals@.len()
        > 0
}

/// The factor step: following an answer consumes the selected literal and,
/// when the answer is conditional, appends the delayed literal naming it;
/// the earlier delayed literals stay.
pub open spec fn factor_step_ok(
    s: Strand,
    s2: Strand,
    sel: SelectedSubgoal,
    tables: Seq<Table>,
) -> bool {
    &&& s2.ex_clause.subgoals@ == s.ex_clause.subgoals@.remove(sel.subgoal_index as int)
    &&& s2.ex_clause.delayed_literals@.len() == s.ex_clause.delayed_literals@.len() + (
    if answer_is_conditional(tables, sel) {
        1int
    } else {
        0int
    })
    &&& forall|k: int|
        0 <= k < s.ex_clause.delayed_literals@.len() ==> s2.ex_clause.delayed_literals@[k]
            == s.ex_clause.delayed_literals@[k]
    &&& answer_is_conditional(tables, sel) ==> dl_eq_spec(
        s2.ex_clause.delayed_literals@.last(),
        DelayedLiteral::Positive(
            sel.subgoal_table,
            tables[sel.subgoal_table.value as int].answers@[sel.answer_index.value as int].subst,
        ),
    )
}

/// Frames stay well-formed as the forest grows.
proof fn lemma_frames_wf_monotone(
    frames: Seq<MachineFrame>,
    pre: Seq<Table>,
    post: Seq<Table>,
)
    requires
        forall|i: int| 0 <= i < frames.len() ==> frame_wf(#[trigger] frames[i], pre),
        tables_extend(pre, post),
    ensures
        forall|i: int| 0 <= i < frames.len() ==> frame_wf(#[trigger] frames[i], post),
{
    assert forall|i: int| 0 <= i < frames.len() implies frame_wf(#[trigger] frames[i], post) by {
        match frames[i].pending {
            Some(ps) => {
                lemma_strand_wf_monotone(ps, pre, post);
            },
            None => {},
        }
        assert forall|k: int| 0 <= k < frames[i].cyclic_strands@.len() implies strand_wf(
            #[trigger] frames[i].cyclic_strands@[k],
            post,
        ) by {
            lemma_strand_wf_monotone(frames[i].cyclic_strands@[k], pre, post);
        }
    }
}

/// The selection data of a frame's waiting strand, if any.
spec fn pending_sel(f: MachineFrame) -> Option<SelectedSubgoal> {
    match f.pending {
        Some(s) => s.selected_subgoal,
        None => None,
    }
}

/// Every frame below the top waits on exactly the table pushed above it.
spec fn frames_linked(frames: Seq<MachineFrame>, stack: Seq<StackFrame>) -> bool {
    forall|i: int|
        0 <= i < frames.len() - 1 ==> ((#[trigger] pending_sel(frames[i])) matches Some(sel)
            && sel.subgoal_table.value == stack[i + 1].table.value)
}

/// An in-flight request matches what the frame issuing it waits on.
spec fn request_ok(frames: Seq<MachineFrame>, t: TableIndex, a: AnswerIndex) -> bool {
    frames.len() > 0 ==> (pending_sel(frames.last()) matches Some(sel) && (sel.subgoal_table == t
        && sel.answer_index == a))
}

/// When `AnswerAvailable` travels up, the receiver's wanted answer exists.
spec fn avail_ok(
    frames: Seq<MachineFrame>,
    tables: Seq<Table>,
    root_table: TableIndex,
    root_answer: AnswerIndex,
) -> bool {
    if frames.len() == 0 {
        root_table.value < tables.len() && root_answer.value < tables[root_table.value as int].answers@.len()
    } else {
        pending_sel(frames.last()) matches Some(sel) && sel.subgoal_table.value < tables.len()
            && sel.answer_index.value < tables[sel.subgoal_table.value as int].answers@.len()
    }
}

/// After a strand produced an answer, the requester below already finds the
/// answer it asked for.
spec fn success_ok(
    frames: Seq<MachineFrame>,
    stack: Seq<StackFrame>,
    tables: Seq<Table>,
    root_answer: AnswerIndex,
) -> bool {
    stack.len() > 0 && stack.last().table.value < tables.len() && {
        let cnt = tables[stack.last().table.value as int].answers@.len() as int;
        if frames.len() >= 2 {
            pending_sel(frames[frames.len() - 2]) matches Some(sel) && sel.subgoal_table.value
                == stack.last().table.value && sel.answer_index.value < cnt
        } else {
            root_answer.value < cnt
        }
    }
}

/// The total number of queued strands across all tables: the measure that
/// shrinks as a cycle's strands are cleared.
pub open spec fn total_strands(tables: Seq<Table>) -> nat
    decreases tables.len(),
{
    if tables.len() == 0 {
        0
    } else {
        tables[0].strands@.len() + total_strands(tables.drop_first())
    }
}

proof fn lemma_total_strands_update(tables: Seq<Table>, i: int, t: Table)
    requires
        0 <= i < tables.len(),
    ensures
        total_strands(tables.update(i, t)) + tables[i].strands@.len() == total_strands(tables)
            + t.strands@.len(),
    decreases tables.len(),
{
    if i == 0 {
        assert(tables.update(0, t).drop_first() =~= tables.drop_first());
    } else {
        assert(tables.update(i, t).drop_first() =~= tables.drop_first().update(i - 1, t));
        lemma_total_strands_update(tables.drop_first(), i - 1, t);
    }
}

/// How many tables a breadth-first walk has not visited yet.
pub open spec fn count_false(s: Seq<bool>) -> nat
    decreases s.len(),
{
    if s.len() == 0 {
        0
    } else {
        (if s[0] {
            0nat
        } else {
            1nat
        }) + count_false(s.drop_first())
    }
}

proof fn lemma_count_false_update(s: Seq<bool>, i: int)
    requires
        0 <= i < s.len(),
        !s[i],
    ensures
        count_false(s.update(i, true)) + 1 == count_false(s),
    decreases s.len(),
{
    if i == 0 {
        assert(s.update(0, true).drop_first() =~= s.drop_first());
    } else {
        assert(s.update(i, true).drop_first() =~= s.drop_first().update(i - 1, true));
        lemma_count_false_update(s.drop_first(), i - 1);
    }
}

} // verus!
