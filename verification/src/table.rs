//! Tables and strands: the memoization records of the forest.
//!
//! A table stands for one canonicalized goal. It accumulates answers —
//! deduplicated, in the order they were produced, never removed or changed
//! — and holds a queue of pending strands. Strands are pushed in first-in
//! order and popped from the back.

use vstd::prelude::*;
use crate::infer::InferenceTable;
use crate::ir::{
    Answer, AnswerIndex, ExClause, TableIndex, UCanonicalGoal, UniverseMap, answer_eq_spec,
};
use crate::ops::answer_eq;

verus! {

broadcast use vstd::std_specs::vec::group_vec_axioms;

/// The subgoal a strand is currently waiting on: which literal of the
/// ex-clause was selected, the table answering it, which answer is wanted
/// next, and how to map that table's placeholders back.
#[derive(Debug)]
pub struct SelectedSubgoal {
    pub subgoal_index: usize,
    pub subgoal_table: TableIndex,
    pub answer_index: AnswerIndex,
    pub universe_map: UniverseMap,
}

/// One branch of the search for a table's answers: an inference context,
/// the ex-clause under construction, and the subgoal being pursued, if one
/// has been selected.
#[derive(Debug)]
pub struct Strand {
    pub infer: InferenceTable,
    pub ex_clause: ExClause,
    pub selected_subgoal: Option<SelectedSubgoal>,
}

/// The memoization record for one canonicalized goal.
#[derive(Debug)]
pub struct Table {
    /// The goal this table answers; never mutated after creation.
    pub table_goal: UCanonicalGoal,
    /// Whether that goal's predicate is declared coinductive; computed once
    /// at creation.
    pub coinductive_goal: bool,
    /// The answers produced so far: unique, append-only.
    pub answers: Vec<Answer>,
    /// Pending strands.
    pub strands: Vec<Strand>,
}

/// A strand's selection data stays within bounds: the selected literal is
/// inside its ex-clause, the subgoal table exists, and the wanted answer
/// index is at most that table's answer count (equality means "the next
/// answer to be produced").
pub open spec fn strand_wf(s: Strand, tables: Seq<Table>) -> bool {
    match s.selected_subgoal {
        Some(sel) => sel.subgoal_table.value < tables.len() && sel.answer_index.value <= tables[
            sel.subgoal_table.value as int
        ].answers@.len() && sel.subgoal_index < s.ex_clause.subgoals@.len(),
        None => true,
    }
}

/// Previously produced answers never change and none is removed.
pub open spec fn answers_prefix(pre: Seq<Answer>, post: Seq<Answer>) -> bool {
    pre.len() <= post.len() && (forall|i: int| 0 <= i < pre.len() ==> post[i] == pre[i])
}

/// The forest only ever grows: existing tables keep their goal and
/// coinductive flag, and their answers are extended, never rewritten.
/// Strand queues are deliberately outside this order — they shrink and grow
/// as strands move — and are pinned by each operation's own contract.
pub open spec fn tables_extend(pre: Seq<Table>, post: Seq<Table>) -> bool {
    pre.len() <= post.len() && (forall|i: int|
        0 <= i < pre.len() ==> (#[trigger] post[i].table_goal == pre[i].table_goal
            && post[i].coinductive_goal == pre[i].coinductive_goal && answers_prefix(
            pre[i].answers@,
            post[i].answers@,
        )))
}

pub proof fn lemma_tables_extend_refl(tables: Seq<Table>)
    ensures
        tables_extend(tables, tables),
{
}

pub proof fn lemma_tables_extend_trans(a: Seq<Table>, b: Seq<Table>, c: Seq<Table>)
    requires
        tables_extend(a, b),
        tables_extend(b, c),
    ensures
        tables_extend(a, c),
{
}

/// A well-formed strand stays well-formed as the forest grows.
pub proof fn lemma_strand_wf_monotone(s: Strand, pre: Seq<Table>, post: Seq<Table>)
    requires
        strand_wf(s, pre),
        tables_extend(pre, post),
    ensures
        strand_wf(s, post),
{
    match s.selected_subgoal {
        Some(sel) => {
            let t = sel.subgoal_table.value as int;
            assert(post[t].table_goal == pre[t].table_goal);
            assert(answers_prefix(pre[t].answers@, post[t].answers@));
        },
        None => {},
    }
}

impl Table {
    /// A fresh table for `goal`, with no answers and no strands yet.
    pub fn new(goal: UCanonicalGoal, coinductive_goal: bool) -> (r: Table)
        ensures
            r.table_goal == goal,
            r.coinductive_goal == coinductive_goal,
            r.answers@.len() == 0,
            r.strands@.len() == 0,
    {
        Table { table_goal: goal, coinductive_goal, answers: Vec::new(), strands: Vec::new() }
    }

    pub fn next_answer_index(&self) -> (r: usize)
        ensures
            r == self.answers@.len(),
    {
        self.answers.len()
    }

    /// Enqueues one strand.
    pub fn push_strand(&mut self, s: Strand)
        ensures
            final(self).strands@ == old(self).strands@.push(s),
            final(self).answers@ == old(self).answers@,
            final(self).table_goal == old(self).table_goal,
            final(self).coinductive_goal == old(self).coinductive_goal,
    {
        self.strands.push(s);
    }

    /// Enqueues a batch of strands, in order.
    pub fn extend_strands(&mut self, v: Vec<Strand>)
        ensures
            final(self).strands@ == old(self).strands@ + v@,
            final(self).answers@ == old(self).answers@,
            final(self).table_goal == old(self).table_goal,
            final(self).coinductive_goal == old(self).coinductive_goal,
    {
        let ghost pre = self.strands@;
        let ghost extra = v@;
        let mut v = v;
        while v.len() > 0
            invariant
                v@.len() <= extra.len(),
                v@ =~= extra.skip(extra.len() - v@.len()),
                self.strands@ =~= pre + extra.take(extra.len() - v@.len()),
                self.answers@ == old(self).answers@,
                self.table_goal == old(self).table_goal,
                self.coinductive_goal == old(self).coinductive_goal,
            decreases v@.len(),
        {
            let ghost k = extra.len() - v@.len();
            let s = v.remove(0);
            proof {
                assert(s == extra[k]);
                assert(v@ =~= extra.skip(k + 1));
            }
            self.strands.push(s);
            proof {
                assert(extra.take(k + 1) =~= extra.take(k).push(extra[k]));
                assert(self.strands@ =~= pre + extra.take(k + 1));
            }
        }
        proof {
            assert(extra.take(extra.len() as int) =~= extra);
            assert(self.strands@ =~= pre + extra);
        }
    }

    /// Takes the most recently pushed strand, if any.
    pub fn pop_next_strand(&mut self) -> (r: Option<Strand>)
        ensures
            final(self).answers@ == old(self).answers@,
            final(self).table_goal == old(self).table_goal,
            final(self).coinductive_goal == old(self).coinductive_goal,
            match r {
                Some(s) => old(self).strands@.len() > 0 && s == old(self).strands@.last()
                    && final(self).strands@ == old(self).strands@.drop_last(),
                None => old(self).strands@.len() == 0 && final(self).strands@ == old(
                    self,
                ).strands@,
            },
    {
        self.strands.pop()
    }

    /// Removes every pending strand, returning them.
    pub fn take_strands(&mut self) -> (r: Vec<Strand>)
        ensures
            final(self).strands@.len() == 0,
            r@ == old(self).strands@,
            final(self).answers@ == old(self).answers@,
            final(self).table_goal == old(self).table_goal,
            final(self).coinductive_goal == old(self).coinductive_goal,
    {
        let mut out: Vec<Strand> = Vec::new();
        std::mem::swap(&mut out, &mut self.strands);
        out
    }

    /// Adds `answer` unless an equal one is already present. Returns
    /// whether it was added. Answers already stored are untouched either
    /// way.
    pub fn push_answer(&mut self, answer: Answer) -> (r: bool)
        ensures
            final(self).strands@ == old(self).strands@,
            final(self).table_goal == old(self).table_goal,
            final(self).coinductive_goal == old(self).coinductive_goal,
            r ==> final(self).answers@ == old(self).answers@.push(answer) && (forall|j: int|
                0 <= j < old(self).answers@.len() ==> !answer_eq_spec(
                    #[trigger] old(self).answers@[j],
                    answer,
                )),
            !r ==> *final(self) == *old(self) && (exists|j: int|
                0 <= j < old(self).answers@.len() && answer_eq_spec(
                    #[trigger] old(self).answers@[j],
                    answer,
                )),
    {
        let mut i: usize = 0;
        while i < self.answers.len()
            invariant
                i <= self.answers@.len(),
                forall|j: int|
                    0 <= j < i ==> !answer_eq_spec(#[trigger] self.answers@[j], answer),
            decreases self.answers@.len() - i,
        {
            if answer_eq(&self.answers[i], &answer) {
                return false;
            }
            i = i + 1;
        }
        self.answers.push(answer);
        true
    }
}

} // verus!
