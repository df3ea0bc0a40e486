//! The laws of the analysis: properties of the walker and the driver that
//! hold for every Program Model, proved once and for all against the
//! specification-level definitions that the executable functions are verified
//! to compute.

use vstd::prelude::*;

use crate::program::{CalleeRef, Program, Terminator};
use crate::walker::{
    lemma_stack_push, spec_check_init, spec_diags, spec_facts, spec_scan, stack_ok, Verdict,
};

verus! {

/// Law: the cycle guard — a function already on the current recursive path is
/// answered `NoInformation` immediately, never `EstablishesInit`, so
/// recursive and mutually recursive call graphs are cut off rather than
/// followed forever. (Termination itself is part of the definitions: every
/// function of the analysis carries a decreasing measure.)
pub proof fn lemma_cycle_gives_no_information(p: Program, id: usize, stack: Seq<usize>)
    requires
        stack_ok(p, stack),
        (id as int) < p.functions@.len(),
        stack.contains(id),
    ensures
        spec_check_init(p, id, stack) == Verdict::NoInformation,
{
}

proof fn lemma_scan_not_establishes(
    p: Program,
    id: usize,
    stack: Seq<usize>,
    facts: Seq<bool>,
    b: int,
)
    requires
        crate::program::prog_wf(p),
        stack_ok(p, stack),
        (id as int) < p.functions@.len(),
        0 <= b,
    ensures
        !(spec_scan(p, id, stack, facts, b) is EstablishesInit),
    decreases p.functions@[id as int].blocks@.len() - b,
{
    let blocks = p.functions@[id as int].blocks@;
    if b < blocks.len() {
        assert(crate::program::terminator_wf(
            p,
            p.functions@[id as int],
            blocks[b].terminator,
        ));
        match blocks[b].terminator {
            Terminator::Call { callee, .. } => match callee {
                CalleeRef::Unknown => {},
                CalleeRef::Known(c) => {
                    if !(spec_check_init(p, c, stack) is Violates) {
                        lemma_scan_not_establishes(p, id, stack, facts, b + 1);
                    }
                },
            },
            _ => {
                lemma_scan_not_establishes(p, id, stack, facts, b + 1);
            },
        }
    }
}

/// Law: only the designated initializer establishes the fact. Analyzing a
/// callee returns `EstablishesInit` exactly when the callee is tagged as the
/// initializer and is not already on the recursive path; in particular the
/// fact is never established through a back edge of the call graph.
pub proof fn lemma_establishes_only_initializer(p: Program, id: usize, stack: Seq<usize>)
    requires
        crate::program::prog_wf(p),
        stack_ok(p, stack),
        (id as int) < p.functions@.len(),
    ensures
        spec_check_init(p, id, stack) == Verdict::EstablishesInit <==> (!stack.contains(id)
            && p.functions@[id as int].is_initializer),
{
    if !stack.contains(id) {
        lemma_stack_push(p, stack, id);
        let f = p.functions@[id as int];
        if !f.is_initializer && f.available {
            lemma_scan_not_establishes(
                p,
                id,
                stack.push(id),
                spec_facts(p, id, stack.push(id)),
                0,
            );
        }
    }
}

/// A call terminator is harmless with respect to the set `s`: it calls a
/// statically known, non-gated function that again belongs to `s`.
pub open spec fn calls_safely(p: Program, t: Terminator, s: Set<usize>) -> bool {
    match t {
        Terminator::Call { callee, .. } => match callee {
            CalleeRef::Unknown => false,
            CalleeRef::Known(c) => {
                &&& (c as int) < p.functions@.len()
                &&& !p.functions@[c as int].is_gated
                &&& s.contains(c)
            },
        },
        _ => true,
    }
}

/// `s` over-approximates the functions reachable from its members and none of
/// them can reach the gated operation in one step: every available
/// non-initializer member only makes calls that are harmless with respect to
/// `s`. Initializers and opaque functions are exempt because the walker never
/// scans their bodies.
pub open spec fn closed_gated_free(p: Program, s: Set<usize>) -> bool {
    forall|id: usize| #[trigger] s.contains(id) ==> (id as int) < p.functions@.len() && {
        let f = p.functions@[id as int];
        (f.available && !f.is_initializer) ==> forall|b: int|
            0 <= b < f.blocks@.len() ==> calls_safely(p, #[trigger] f.blocks@[b].terminator, s)
    }
}

proof fn lemma_gated_free_scan(
    p: Program,
    id: usize,
    stack: Seq<usize>,
    s: Set<usize>,
    facts: Seq<bool>,
    b: int,
)
    requires
        stack_ok(p, stack),
        (id as int) < p.functions@.len(),
        closed_gated_free(p, s),
        s.contains(id),
        p.functions@[id as int].available,
        !p.functions@[id as int].is_initializer,
        0 <= b,
    ensures
        !(spec_scan(p, id, stack, facts, b) is Violates),
    decreases p.functions@.len() - stack.len(), 1int, p.functions@[id as int].blocks@.len() - b,
{
    let blocks = p.functions@[id as int].blocks@;
    if b < blocks.len() {
        assert(calls_safely(p, blocks[b].terminator, s));
        match blocks[b].terminator {
            Terminator::Call { callee, .. } => match callee {
                CalleeRef::Unknown => {},
                CalleeRef::Known(c) => {
                    lemma_gated_free_no_violation(p, c, stack, s);
                    lemma_gated_free_scan(p, id, stack, s, facts, b + 1);
                },
            },
            _ => {
                lemma_gated_free_scan(p, id, stack, s, facts, b + 1);
            },
        }
    }
}

/// Law: if no indirect call and no call of the gated operation is reachable
/// from a function — witnessed by a call-closed, gated-free set `s` that
/// contains it — then analyzing that function can never end in a violation,
/// whatever the call stack.
pub proof fn lemma_gated_free_no_violation(
    p: Program,
    id: usize,
    stack: Seq<usize>,
    s: Set<usize>,
)
    requires
        stack_ok(p, stack),
        (id as int) < p.functions@.len(),
        closed_gated_free(p, s),
        s.contains(id),
    ensures
        !(spec_check_init(p, id, stack) is Violates),
    decreases p.functions@.len() - stack.len(), 0int, 0int,
{
    if !stack.contains(id) {
        lemma_stack_push(p, stack, id);
        let f = p.functions@[id as int];
        if !f.is_initializer && f.available {
            lemma_gated_free_scan(
                p,
                id,
                stack.push(id),
                s,
                spec_facts(p, id, stack.push(id)),
                0,
            );
        }
    }
}

proof fn lemma_diags_empty_upto(p: Program, k: int)
    requires
        0 <= k <= p.functions@.len(),
        forall|i: int|
            0 <= i < k && (#[trigger] p.functions@[i]).is_entry_point ==> !(spec_check_init(
                p,
                i as usize,
                Seq::empty(),
            ) is Violates),
    ensures
        spec_diags(p, k).len() == 0,
    decreases k,
{
    if k > 0 {
        lemma_diags_empty_upto(p, k - 1);
    }
}

/// Law: a program in which no call of the gated operation and no indirect
/// call is reachable from any entry point — witnessed by a call-closed,
/// gated-free set `s` containing every entry point — produces no diagnostic.
pub proof fn lemma_gated_free_program_no_diagnostics(p: Program, s: Set<usize>)
    requires
        closed_gated_free(p, s),
        forall|i: int|
            0 <= i < p.functions@.len() && (#[trigger] p.functions@[i]).is_entry_point
                ==> s.contains(i as usize),
    ensures
        spec_diags(p, p.functions@.len() as int).len() == 0,
{
    assert forall|i: int|
        0 <= i < p.functions@.len() && (#[trigger] p.functions@[i]).is_entry_point implies !(
    spec_check_init(p, i as usize, Seq::empty()) is Violates) by {
        lemma_gated_free_no_violation(p, i as usize, Seq::empty(), s);
    }
    lemma_diags_empty_upto(p, p.functions@.len() as int);
}

/// Law: a program without entry points produces no diagnostics at all.
pub proof fn lemma_no_entry_point_no_diagnostics(p: Program)
    requires
        forall|i: int| 0 <= i < p.functions@.len() ==> !(#[trigger] p.functions@[i]).is_entry_point,
    ensures
        spec_diags(p, p.functions@.len() as int).len() == 0,
{
    lemma_diags_empty_upto(p, p.functions@.len() as int);
}

proof fn lemma_indirect_scan(
    p: Program,
    id: usize,
    stack: Seq<usize>,
    facts: Seq<bool>,
    b: int,
    b0: int,
)
    requires
        crate::program::prog_wf(p),
        stack_ok(p, stack),
        (id as int) < p.functions@.len(),
        0 <= b <= b0 < p.functions@[id as int].blocks@.len(),
        p.functions@[id as int].blocks@[b0].terminator matches Terminator::Call {
            callee: CalleeRef::Unknown,
            ..
        },
    ensures
        spec_scan(p, id, stack, facts, b) is Violates,
    decreases b0 - b,
{
    let blocks = p.functions@[id as int].blocks@;
    if b < b0 {
        assert(crate::program::terminator_wf(
            p,
            p.functions@[id as int],
            blocks[b].terminator,
        ));
        match blocks[b].terminator {
            Terminator::Call { callee, .. } => match callee {
                CalleeRef::Unknown => {},
                CalleeRef::Known(c) => {
                    if !(spec_check_init(p, c, stack) is Violates) && !(!facts[b]
                        && p.functions@[c as int].is_gated) {
                        lemma_indirect_scan(p, id, stack, facts, b + 1, b0);
                    }
                },
            },
            _ => {
                lemma_indirect_scan(p, id, stack, facts, b + 1, b0);
            },
        }
    }
}

/// Law: an indirect call is flagged regardless of its true target. A function
/// whose body contains a call with an unresolved callee is analyzed to a
/// violation whenever its body is scanned at all (it is not on the recursive
/// path, not the initializer, and its body is available).
pub proof fn lemma_indirect_call_violates(p: Program, id: usize, stack: Seq<usize>)
    requires
        crate::program::prog_wf(p),
        stack_ok(p, stack),
        (id as int) < p.functions@.len(),
        !stack.contains(id),
        !p.functions@[id as int].is_initializer,
        p.functions@[id as int].available,
        exists|b: int|
            0 <= b < p.functions@[id as int].blocks@.len()
                && (#[trigger] p.functions@[id as int].blocks@[b]).terminator matches Terminator::Call {
                callee: CalleeRef::Unknown,
                ..
            },
    ensures
        spec_check_init(p, id, stack) is Violates,
{
    lemma_stack_push(p, stack, id);
    let b0 = choose|b: int|
        0 <= b < p.functions@[id as int].blocks@.len()
            && (#[trigger] p.functions@[id as int].blocks@[b]).terminator matches Terminator::Call {
            callee: CalleeRef::Unknown,
            ..
        };
    lemma_indirect_scan(p, id, stack.push(id), spec_facts(p, id, stack.push(id)), 0, b0);
}

/// Law: determinism — the diagnostics are a function of the immutable Program
/// Model alone, so two runs over an unchanged program yield identical lists,
/// location ordering included.
pub proof fn lemma_deterministic(p: Program, d1: Seq<Seq<u64>>, d2: Seq<Seq<u64>>)
    requires
        d1 == spec_diags(p, p.functions@.len() as int),
        d2 == spec_diags(p, p.functions@.len() as int),
    ensures
        d1 == d2,
{
}

} // verus!
