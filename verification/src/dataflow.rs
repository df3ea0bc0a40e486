//! The intraprocedural dataflow engine: a forward, monotone, must-style
//! fixpoint over one function's control-flow graph. The single fact is the
//! boolean "initialization certainly happened by this program point"; the
//! lattice is `false < true` with bottom `false`, and the join at a block with
//! several predecessors is logical AND, so a point counts as initialized only
//! when it is initialized along every incoming path.
//!
//! The engine is phrased over a per-block gen vector: `gens[q]` says whether
//! the terminator of block `q` establishes initialization (the call-graph
//! walker computes it, once, before the fixpoint runs). The engine's result is
//! the incoming fact of every block, which is also the fact immediately before
//! the block's terminator, since ordinary statements transfer the fact
//! unchanged. There is no kill: once true, a fact never reverts.

use vstd::prelude::*;

use crate::program::{is_succ, is_succ_exec, BasicBlock};

verus! {

/// The incoming fact the equations assign to block `b`, given the incoming
/// facts `facts` of the previous round: the entry block starts at bottom;
/// every other block joins, with AND, the outgoing facts of its predecessors.
/// A block without predecessors is vacuously initialized: it cannot be
/// reached, so it never produces a false positive.
pub open spec fn pass_fact(blocks: Seq<BasicBlock>, gens: Seq<bool>, facts: Seq<bool>, b: int) -> bool {
    if b == 0 {
        false
    } else {
        forall|q: int| #[trigger] is_succ(blocks, q, b) ==> facts[q] || gens[q]
    }
}

/// One full round of the equations, applied to every block at once.
pub open spec fn spec_pass(blocks: Seq<BasicBlock>, gens: Seq<bool>, facts: Seq<bool>) -> Seq<bool> {
    Seq::new(blocks.len(), |b: int| pass_fact(blocks, gens, facts, b))
}

/// `facts` solves the dataflow equations exactly.
pub open spec fn df_fixpoint(blocks: Seq<BasicBlock>, gens: Seq<bool>, facts: Seq<bool>) -> bool {
    &&& facts.len() == blocks.len()
    &&& forall|b: int| 0 <= b < blocks.len() ==> facts[b] == #[trigger] pass_fact(blocks, gens, facts, b)
}

/// `a` is, pointwise, at most `b` in the lattice `false < true`.
pub open spec fn pointwise_le(a: Seq<bool>, b: Seq<bool>) -> bool {
    a.len() == b.len() && forall|i: int| 0 <= i < a.len() ==> (#[trigger] a[i] ==> b[i])
}

/// `facts` is the greatest solution of the equations: it solves them, and it
/// dominates every solution. This is the meaning-over-all-paths answer of a
/// must analysis, and it is unique (`lemma_df_solution_unique`).
pub open spec fn df_solution(blocks: Seq<BasicBlock>, gens: Seq<bool>, facts: Seq<bool>) -> bool {
    &&& df_fixpoint(blocks, gens, facts)
    &&& forall|g: Seq<bool>| #[trigger] df_fixpoint(blocks, gens, g) ==> pointwise_le(g, facts)
}

/// Law: the dataflow answer is unique — any two greatest solutions of the
/// same equations are equal, so the engine's result is a function of the
/// control-flow graph and the gen vector alone.
pub proof fn lemma_df_solution_unique(
    blocks: Seq<BasicBlock>,
    gens: Seq<bool>,
    f1: Seq<bool>,
    f2: Seq<bool>,
)
    requires
        df_solution(blocks, gens, f1),
        df_solution(blocks, gens, f2),
    ensures
        f1 == f2,
{
    assert(pointwise_le(f1, f2));
    assert(pointwise_le(f2, f1));
    assert(f1 =~= f2);
}

/// Law: must-join — if any single predecessor of a block neither carries the
/// fact nor generates it, the block's incoming fact is false, whatever the
/// other predecessors do. This is what makes an initializer called on only
/// one branch of a conditional insufficient for a gated call after the join.
pub proof fn lemma_join_needs_all_paths(
    blocks: Seq<BasicBlock>,
    gens: Seq<bool>,
    facts: Seq<bool>,
    q: int,
    b: int,
)
    requires
        df_solution(blocks, gens, facts),
        is_succ(blocks, q, b),
        !facts[q],
        !gens[q],
    ensures
        !facts[b],
{
    assert(facts[b] == pass_fact(blocks, gens, facts, b));
}

/// Law: straight-line propagation — once some block's terminator generates
/// the fact, the fact is certain at every later block of a fall-through chain
/// in which each block's only incoming edge is the one from its predecessor
/// in the chain. This is the case of a gated call after the initializer with
/// no intervening branch that could skip it.
pub proof fn lemma_straight_line_initialized(
    blocks: Seq<BasicBlock>,
    gens: Seq<bool>,
    facts: Seq<bool>,
    j: int,
    b: int,
)
    requires
        df_solution(blocks, gens, facts),
        0 <= j < b < blocks.len(),
        gens[j],
        forall|i: int, q: int|
            j < i <= b && #[trigger] is_succ(blocks, q, i) ==> q == i - 1,
    ensures
        facts[b],
    decreases b - j,
{
    if b - 1 > j {
        lemma_straight_line_initialized(blocks, gens, facts, j, b - 1);
    }
    assert forall|q: int| #[trigger] is_succ(blocks, q, b) implies facts[q] || gens[q] by {}
    assert(facts[b] == pass_fact(blocks, gens, facts, b));
}

/// The equations are monotone: raising the input facts can only raise the
/// output facts.
pub proof fn lemma_pass_monotone(
    blocks: Seq<BasicBlock>,
    gens: Seq<bool>,
    a: Seq<bool>,
    b: Seq<bool>,
)
    requires
        pointwise_le(a, b),
        a.len() == blocks.len(),
    ensures
        pointwise_le(spec_pass(blocks, gens, a), spec_pass(blocks, gens, b)),
{
    assert forall|i: int|
        0 <= i < blocks.len() && #[trigger] spec_pass(blocks, gens, a)[i] implies spec_pass(
        blocks,
        gens,
        b,
    )[i] by {
        if i != 0 {
            assert(pass_fact(blocks, gens, a, i));
            assert forall|q: int| #[trigger] is_succ(blocks, q, i) implies b[q] || gens[q] by {
                assert(a[q] || gens[q]);
            }
            assert(pass_fact(blocks, gens, b, i));
        }
    }
}

/// A solution of the equations reproduces itself under one more round.
pub proof fn lemma_fixpoint_eq_pass(blocks: Seq<BasicBlock>, gens: Seq<bool>, facts: Seq<bool>)
    requires
        df_fixpoint(blocks, gens, facts),
    ensures
        facts == spec_pass(blocks, gens, facts),
{
    assert(facts =~= spec_pass(blocks, gens, facts));
}

/// How many facts of a round are true; the termination measure of the
/// fixpoint iteration.
pub open spec fn count_true(s: Seq<bool>) -> int
    decreases s.len(),
{
    if s.len() == 0 {
        0
    } else {
        count_true(s.drop_last()) + if s.last() {
            1int
        } else {
            0int
        }
    }
}

pub proof fn lemma_count_bounds(s: Seq<bool>)
    ensures
        0 <= count_true(s) <= s.len(),
    decreases s.len(),
{
    if s.len() > 0 {
        lemma_count_bounds(s.drop_last());
    }
}

pub proof fn lemma_count_le(a: Seq<bool>, b: Seq<bool>)
    requires
        pointwise_le(a, b),
    ensures
        count_true(a) <= count_true(b),
    decreases a.len(),
{
    if a.len() > 0 {
        assert(pointwise_le(a.drop_last(), b.drop_last()));
        lemma_count_le(a.drop_last(), b.drop_last());
    }
}

/// A strict drop anywhere, under a pointwise bound, strictly lowers the count.
pub proof fn lemma_count_strict_at(a: Seq<bool>, b: Seq<bool>, i: int)
    requires
        pointwise_le(a, b),
        0 <= i < a.len(),
        !a[i],
        b[i],
    ensures
        count_true(a) < count_true(b),
    decreases a.len(),
{
    assert(pointwise_le(a.drop_last(), b.drop_last()));
    if i == a.len() - 1 {
        lemma_count_le(a.drop_last(), b.drop_last());
    } else {
        lemma_count_strict_at(a.drop_last(), b.drop_last(), i);
    }
}

/// One executable round of the equations over every block.
fn df_pass(blocks: &Vec<BasicBlock>, gens: &Vec<bool>, facts: &Vec<bool>) -> (out: Vec<bool>)
    requires
        gens@.len() == blocks@.len(),
        facts@.len() == blocks@.len(),
    ensures
        out@ == spec_pass(blocks@, gens@, facts@),
{
    let n = blocks.len();
    let mut out: Vec<bool> = Vec::new();
    let mut b: usize = 0;
    while b < n
        invariant
            b <= n,
            n == blocks@.len(),
            gens@.len() == n,
            facts@.len() == n,
            out@.len() == b,
            forall|i: int| 0 <= i < b ==> out@[i] == pass_fact(blocks@, gens@, facts@, i),
        decreases n - b,
    {
        let val: bool;
        if b == 0 {
            val = false;
        } else {
            let mut v: bool = true;
            let mut q: usize = 0;
            while q < n
                invariant
                    q <= n,
                    b < n,
                    n == blocks@.len(),
                    gens@.len() == n,
                    facts@.len() == n,
                    v == (forall|j: int|
                        0 <= j < q && #[trigger] is_succ(blocks@, j, b as int) ==> facts@[j]
                            || gens@[j]),
                decreases n - q,
            {
                if is_succ_exec(blocks, q, b) && !(facts[q] || gens[q]) {
                    v = false;
                }
                q += 1;
            }
            proof {
                assert(v == pass_fact(blocks@, gens@, facts@, b as int)) by {
                    if v {
                        assert forall|j: int| #[trigger]
                            is_succ(blocks@, j, b as int) implies facts@[j] || gens@[j] by {
                            assert(0 <= j < n);
                        }
                    }
                }
            }
            val = v;
        }
        out.push(val);
        b += 1;
    }
    proof {
        assert(out@ =~= spec_pass(blocks@, gens@, facts@));
    }
    out
}

fn facts_eq(a: &Vec<bool>, b: &Vec<bool>) -> (r: bool)
    requires
        a@.len() == b@.len(),
    ensures
        r <==> a@ == b@,
{
    let n = a.len();
    let mut i: usize = 0;
    while i < n
        invariant
            i <= n,
            n == a@.len(),
            a@.len() == b@.len(),
            forall|j: int| 0 <= j < i ==> a@[j] == b@[j],
        decreases n - i,
    {
        if a[i] != b[i] {
            proof {
                assert(a@[i as int] != b@[i as int]);
            }
            return false;
        }
        i += 1;
    }
    proof {
        assert(a@ =~= b@);
    }
    true
}

/// The dataflow engine: computes, for every block, the incoming fact
/// "initialization certainly preceded this point". The result is the unique
/// greatest solution of the must-equations — it solves them, and no solution
/// claims a fact this one denies. The iteration starts from the top of the
/// lattice (everything initialized except the entry block) and descends until
/// nothing changes; it terminates because each round below the top loses at
/// least one true fact.
pub fn seen_init(blocks: &Vec<BasicBlock>, gens: &Vec<bool>) -> (facts: Vec<bool>)
    requires
        gens@.len() == blocks@.len(),
    ensures
        df_solution(blocks@, gens@, facts@),
{
    let n = blocks.len();
    let mut facts: Vec<bool> = Vec::new();
    let mut b: usize = 0;
    while b < n
        invariant
            b <= n,
            n == blocks@.len(),
            facts@.len() == b,
            forall|i: int| 0 <= i < b ==> facts@[i] == (i != 0),
        decreases n - b,
    {
        facts.push(b != 0);
        b += 1;
    }
    proof {
        assert(pointwise_le(spec_pass(blocks@, gens@, facts@), facts@));
        assert forall|g: Seq<bool>| #[trigger]
            df_fixpoint(blocks@, gens@, g) implies pointwise_le(g, facts@) by {
            assert forall|i: int| 0 <= i < g.len() && #[trigger] g[i] implies facts@[i] by {
                assert(g[i] == pass_fact(blocks@, gens@, g, i));
            }
        }
    }
    loop
        invariant
            n == blocks@.len(),
            gens@.len() == n,
            facts@.len() == n,
            pointwise_le(spec_pass(blocks@, gens@, facts@), facts@),
            forall|g: Seq<bool>| #[trigger] df_fixpoint(blocks@, gens@, g) ==> pointwise_le(
                g,
                facts@,
            ),
        decreases count_true(facts@),
    {
        proof {
            lemma_count_bounds(facts@);
        }
        let next = df_pass(blocks, gens, &facts);
        if facts_eq(&next, &facts) {
            proof {
                assert forall|b0: int| 0 <= b0 < n implies facts@[b0] == pass_fact(
                    blocks@,
                    gens@,
                    facts@,
                    b0,
                ) by {
                    assert(facts@[b0] == spec_pass(blocks@, gens@, facts@)[b0]);
                }
            }
            return facts;
        }
        proof {
            // The rounds descend: one more round applied to a descending
            // point keeps descending, by monotonicity.
            lemma_pass_monotone(blocks@, gens@, spec_pass(blocks@, gens@, facts@), facts@);
            // Every solution stays below the new round.
            assert forall|g: Seq<bool>| #[trigger]
                df_fixpoint(blocks@, gens@, g) implies pointwise_le(g, next@) by {
                lemma_fixpoint_eq_pass(blocks@, gens@, g);
                lemma_pass_monotone(blocks@, gens@, g, facts@);
            }
            // Termination: the count of true facts strictly drops.
            assert(exists|i: int| 0 <= i < n && next@[i] != facts@[i]) by {
                if forall|i: int| 0 <= i < n ==> next@[i] == facts@[i] {
                    assert(next@ =~= facts@);
                }
            }
            let i = choose|i: int| 0 <= i < n && next@[i] != facts@[i];
            lemma_count_strict_at(next@, facts@, i);
            lemma_count_bounds(next@);
        }
        facts = next;
    }
}

} // verus!
