//! The call-graph walker: decides, for any function of the program, whether a
//! call to it establishes initialization, yields no information, or violates
//! the ordering rule. It drives the dataflow engine over the function's
//! control-flow graph and interprets the per-point facts at each call site;
//! the engine in turn asks the walker about every callee, so the two are
//! mutually recursive. A call stack of function ids — the functions on the
//! current recursive path, extended for the duration of each descent and
//! untouched for sibling branches — cuts cycles: a function already on the
//! path answers `NoInformation`, never `EstablishesInit`, which guarantees
//! termination on recursive and mutually recursive call graphs.

use vstd::prelude::*;
use vstd::relations::injective;
use vstd::set_lib::{lemma_int_range, lemma_len_subset, set_int_range};

use crate::dataflow::{df_solution, lemma_df_solution_unique, seen_init};
use crate::program::{prog_wf, CalleeRef, Program, Terminator};

verus! {

/// The three-way outcome of analyzing a function as a callee, at the
/// specification level: calling it guarantees initialization has happened;
/// it neither establishes nor violates anything by itself; or it violates the
/// ordering, carrying the call chain's locations, innermost first.
#[verifier::ext_equal]
pub enum Verdict {
    EstablishesInit,
    NoInformation,
    Violates(Seq<u64>),
}

/// The executable verdict. `NeedsInit` carries the locations of the call
/// chain that leads to the violation, innermost first.
pub enum InitState {
    Init,
    NotInit,
    NeedsInit(Vec<u64>),
}

/// What an executable result means as a `Verdict`.
pub open spec fn verdict_of(s: InitState) -> Verdict {
    match s {
        InitState::Init => Verdict::EstablishesInit,
        InitState::NotInit => Verdict::NoInformation,
        InitState::NeedsInit(locs) => Verdict::Violates(locs@),
    }
}

/// A valid call stack: function ids of the program, none of them twice.
pub open spec fn stack_ok(p: Program, stack: Seq<usize>) -> bool {
    &&& stack.no_duplicates()
    &&& forall|i: int| 0 <= i < stack.len() ==> (#[trigger] stack[i] as int) < p.functions@.len()
}

/// A valid call stack cannot outgrow the program, which bounds the depth of
/// the walker's recursion.
pub proof fn lemma_stack_len(p: Program, stack: Seq<usize>)
    requires
        stack_ok(p, stack),
    ensures
        stack.len() <= p.functions@.len(),
{
    let n = p.functions@.len() as int;
    let f = |x: usize| x as int;
    assert(injective(f)) by {
        assert forall|x1: usize, x2: usize| #[trigger] f(x1) == #[trigger] f(x2) implies x1
            == x2 by {}
    }
    stack.lemma_no_duplicates_injective(f);
    let si = stack.map_values(f);
    si.unique_seq_to_set();
    assert(si.to_set().subset_of(set_int_range(0, n))) by {
        assert forall|x: int| si.to_set().contains(x) implies set_int_range(0, n).contains(x) by {
            let i = choose|i: int| 0 <= i < si.len() && si[i] == x;
            assert(si[i] == f(stack[i]));
        }
    }
    lemma_int_range(0, n);
    lemma_len_subset(si.to_set(), set_int_range(0, n));
}

/// Pushing a fresh id keeps a call stack valid.
pub proof fn lemma_stack_push(p: Program, stack: Seq<usize>, id: usize)
    requires
        stack_ok(p, stack),
        !stack.contains(id),
        (id as int) < p.functions@.len(),
    ensures
        stack_ok(p, stack.push(id)),
        stack.push(id).len() <= p.functions@.len(),
{
    let s2 = stack.push(id);
    assert forall|i: int, j: int|
        0 <= i < s2.len() && 0 <= j < s2.len() && i != j implies s2[i] != s2[j] by {
        if i < stack.len() && j == stack.len() {
            assert(stack.contains(stack[i]));
        }
        if j < stack.len() && i == stack.len() {
            assert(stack.contains(stack[j]));
        }
    }
    lemma_stack_len(p, s2);
}

/// Analyzing `id` as a callee (specification): a function already on the
/// current recursive path is cut off with `NoInformation`; otherwise it is
/// analyzed with itself pushed onto the path.
pub open spec fn spec_check_init(p: Program, id: usize, stack: Seq<usize>) -> Verdict
    decreases p.functions@.len() - stack.len(), 0int, 0int,
        when stack_ok(p, stack) && (id as int) < p.functions@.len()
{
    if stack.contains(id) {
        Verdict::NoInformation
    } else {
        proof {
            lemma_stack_push(p, stack, id);
        }
        spec_check_init_inner(p, id, stack.push(id))
    }
}

/// Whether the terminator of block `b` of function `id` establishes
/// initialization: only a statically known callee whose analysis returns
/// `EstablishesInit` does.
pub open spec fn gen_of(p: Program, id: usize, stack: Seq<usize>, b: int) -> bool
    decreases p.functions@.len() - stack.len(), 1int, 0int,
        when stack_ok(p, stack) && (id as int) < p.functions@.len()
{
    match p.functions@[id as int].blocks@[b].terminator {
        Terminator::Call { callee: CalleeRef::Known(c), .. } => (c as int)
            < p.functions@.len() && spec_check_init(p, c, stack) == Verdict::EstablishesInit,
        _ => false,
    }
}

/// The gen vector of the first `k` blocks of function `id`.
pub open spec fn gen_seq(p: Program, id: usize, stack: Seq<usize>, k: int) -> Seq<bool>
    decreases p.functions@.len() - stack.len(), 2int, k,
        when stack_ok(p, stack) && (id as int) < p.functions@.len() && 0 <= k
{
    if k <= 0 {
        Seq::empty()
    } else {
        gen_seq(p, id, stack, k - 1).push(gen_of(p, id, stack, k - 1))
    }
}

pub proof fn lemma_gen_seq(p: Program, id: usize, stack: Seq<usize>, k: int)
    requires
        stack_ok(p, stack),
        (id as int) < p.functions@.len(),
        0 <= k,
    ensures
        gen_seq(p, id, stack, k).len() == k,
        forall|b: int| 0 <= b < k ==> gen_seq(p, id, stack, k)[b] == gen_of(p, id, stack, b),
    decreases k,
{
    if k > 0 {
        lemma_gen_seq(p, id, stack, k - 1);
    }
}

/// The dataflow facts of function `id` under call stack `stack`: the unique
/// greatest solution of the must-equations over its control-flow graph.
pub open spec fn spec_facts(p: Program, id: usize, stack: Seq<usize>) -> Seq<bool>
    decreases p.functions@.len() - stack.len(), 3int, 0int,
        when stack_ok(p, stack) && (id as int) < p.functions@.len()
{
    let blocks = p.functions@[id as int].blocks@;
    choose|facts: Seq<bool>|
        df_solution(blocks, gen_seq(p, id, stack, blocks.len() as int), facts)
}

/// The walker's scan of one function's blocks, in their declared order, from
/// block `b` on. `facts` is the incoming dataflow fact of every block. An
/// indirect call violates immediately; a statically known call of a gated
/// function violates when initialization is not certain at that point; any
/// other known callee is analyzed recursively, and a violation inside it is
/// extended with this call's location, so the chain reads innermost first.
pub open spec fn spec_scan(p: Program, id: usize, stack: Seq<usize>, facts: Seq<bool>, b: int) -> Verdict
    decreases p.functions@.len() - stack.len(), 4int, p.functions@[id as int].blocks@.len() - b,
        when stack_ok(p, stack) && (id as int) < p.functions@.len() && 0 <= b
{
    let blocks = p.functions@[id as int].blocks@;
    if b >= blocks.len() {
        Verdict::NoInformation
    } else {
        match blocks[b].terminator {
            Terminator::Call { callee, location } => match callee {
                CalleeRef::Unknown => Verdict::Violates(seq![location]),
                CalleeRef::Known(c) => if !facts[b] && p.functions@[c as int].is_gated {
                    Verdict::Violates(seq![location])
                } else {
                    match spec_check_init(p, c, stack) {
                        Verdict::Violates(locs) => Verdict::Violates(locs.push(location)),
                        _ => spec_scan(p, id, stack, facts, b + 1),
                    }
                },
            },
            _ => spec_scan(p, id, stack, facts, b + 1),
        }
    }
}

/// Analyzing `id` once it is on the path: the initializer establishes the
/// fact by definition, without its body being inspected; an opaque function
/// yields no information; otherwise the dataflow facts are computed and the
/// blocks are scanned in order.
pub open spec fn spec_check_init_inner(p: Program, id: usize, stack: Seq<usize>) -> Verdict
    decreases p.functions@.len() - stack.len(), 5int, 0int,
        when stack_ok(p, stack) && (id as int) < p.functions@.len()
{
    let f = p.functions@[id as int];
    if f.is_initializer {
        Verdict::EstablishesInit
    } else if !f.available {
        Verdict::NoInformation
    } else {
        spec_scan(p, id, stack, spec_facts(p, id, stack), 0)
    }
}

fn stack_contains(stack: &Vec<usize>, id: usize) -> (r: bool)
    ensures
        r == stack@.contains(id),
{
    let mut i: usize = 0;
    while i < stack.len()
        invariant
            i <= stack@.len(),
            forall|j: int| 0 <= j < i ==> stack@[j] != id,
        decreases stack@.len() - i,
    {
        if stack[i] == id {
            proof {
                assert(stack@.contains(id));
            }
            return true;
        }
        i += 1;
    }
    false
}

/// Analyzes `id` as a callee: the cycle guard around the real work. A
/// function already on the current recursive path answers `NoInformation`
/// without being analyzed further; otherwise the path is extended by `id` for
/// the duration of the inner analysis, so sibling branches of the search are
/// unaffected by this visit.
pub fn check_init(p: &Program, id: usize, stack: &Vec<usize>) -> (r: InitState)
    requires
        prog_wf(*p),
        stack_ok(*p, stack@),
        (id as int) < p.functions@.len(),
    ensures
        verdict_of(r) == spec_check_init(*p, id, stack@),
    decreases p.functions@.len() - stack@.len(), 0int, 0int,
{
    if stack_contains(stack, id) {
        return InitState::NotInit;
    }
    let mut extended = stack.clone();
    extended.push(id);
    proof {
        lemma_stack_push(*p, stack@, id);
        assert(extended@ == stack@.push(id));
    }
    check_init_inner(p, id, &extended)
}

/// Computes, for every block of function `id`, whether its terminator
/// establishes initialization: true exactly for calls of a statically known
/// callee whose own analysis returns `EstablishesInit`.
fn compute_gens(p: &Program, id: usize, stack: &Vec<usize>) -> (gens: Vec<bool>)
    requires
        prog_wf(*p),
        stack_ok(*p, stack@),
        (id as int) < p.functions@.len(),
    ensures
        gens@ == gen_seq(*p, id, stack@, p.functions@[id as int].blocks@.len() as int),
    decreases p.functions@.len() - stack@.len(), 1int, 0int,
{
    let nb = p.functions[id].blocks.len();
    let mut gens: Vec<bool> = Vec::new();
    let mut b: usize = 0;
    while b < nb
        invariant
            prog_wf(*p),
            stack_ok(*p, stack@),
            (id as int) < p.functions@.len(),
            nb == p.functions@[id as int].blocks@.len(),
            b <= nb,
            gens@.len() == b,
            forall|i: int| 0 <= i < b ==> gens@[i] == gen_of(*p, id, stack@, i),
        decreases nb - b,
    {
        let g: bool = match &p.functions[id].blocks[b].terminator {
            Terminator::Call { callee: CalleeRef::Known(c), .. } => {
                proof {
                    assert(crate::program::terminator_wf(
                        *p,
                        p.functions@[id as int],
                        p.functions@[id as int].blocks@[b as int].terminator,
                    ));
                }
                let r = check_init(p, *c, stack);
                matches!(r, InitState::Init)
            },
            _ => false,
        };
        proof {
            assert(g == gen_of(*p, id, stack@, b as int));
        }
        gens.push(g);
        b += 1;
    }
    proof {
        lemma_gen_seq(*p, id, stack@, nb as int);
        assert(gens@ =~= gen_seq(*p, id, stack@, nb as int));
    }
    gens
}

/// Analyzes a function that is not on the recursive path below its entry:
/// the initializer establishes the fact by definition; an opaque function
/// yields no information; any other function has its dataflow facts computed
/// and its blocks scanned, in their declared order, for the first violation.
pub fn check_init_inner(p: &Program, id: usize, stack: &Vec<usize>) -> (r: InitState)
    requires
        prog_wf(*p),
        stack_ok(*p, stack@),
        (id as int) < p.functions@.len(),
    ensures
        verdict_of(r) == spec_check_init_inner(*p, id, stack@),
    decreases p.functions@.len() - stack@.len(), 2int, 0int,
{
    if p.functions[id].is_initializer {
        return InitState::Init;
    }
    if !p.functions[id].available {
        return InitState::NotInit;
    }
    let gens = compute_gens(p, id, stack);
    let ghost blocks = p.functions@[id as int].blocks@;
    proof {
        lemma_gen_seq(*p, id, stack@, blocks.len() as int);
    }
    let facts = seen_init(&p.functions[id].blocks, &gens);
    proof {
        // The engine returned the unique greatest solution, which is exactly
        // what `spec_facts` denotes.
        let sf = spec_facts(*p, id, stack@);
        assert(df_solution(blocks, gen_seq(*p, id, stack@, blocks.len() as int), sf)) by {
            assert(exists|g: Seq<bool>|
                df_solution(blocks, gen_seq(*p, id, stack@, blocks.len() as int), g)) by {
                assert(df_solution(blocks, gen_seq(*p, id, stack@, blocks.len() as int), facts@));
            }
        }
        lemma_df_solution_unique(
            blocks,
            gen_seq(*p, id, stack@, blocks.len() as int),
            facts@,
            sf,
        );
        assert(spec_check_init_inner(*p, id, stack@) == spec_scan(*p, id, stack@, facts@, 0));
    }
    let nb = p.functions[id].blocks.len();
    let mut b: usize = 0;
    while b < nb
        invariant
            prog_wf(*p),
            stack_ok(*p, stack@),
            (id as int) < p.functions@.len(),
            blocks == p.functions@[id as int].blocks@,
            nb == blocks.len(),
            b <= nb,
            facts@.len() == nb,
            spec_check_init_inner(*p, id, stack@) == spec_scan(
                *p,
                id,
                stack@,
                facts@,
                b as int,
            ),
        decreases nb - b,
    {
        let ghost scan_here = spec_scan(*p, id, stack@, facts@, b as int);
        match &p.functions[id].blocks[b].terminator {
            Terminator::Call { callee, location } => {
                match callee {
                    CalleeRef::Unknown => {
                        let mut locs: Vec<u64> = Vec::new();
                        locs.push(*location);
                        proof {
                            assert(locs@ =~= seq![*location]);
                            assert(scan_here == Verdict::Violates(seq![*location]));
                        }
                        return InitState::NeedsInit(locs);
                    },
                    CalleeRef::Known(c) => {
                        proof {
                            assert(crate::program::terminator_wf(
                                *p,
                                p.functions@[id as int],
                                blocks[b as int].terminator,
                            ));
                        }
                        if !facts[b] && p.functions[*c].is_gated {
                            let mut locs: Vec<u64> = Vec::new();
                            locs.push(*location);
                            proof {
                                assert(locs@ =~= seq![*location]);
                                assert(scan_here == Verdict::Violates(seq![*location]));
                            }
                            return InitState::NeedsInit(locs);
                        }
                        let r = check_init(p, *c, stack);
                        if let InitState::NeedsInit(mut locs) = r {
                            let ghost inner_locs = locs@;
                            locs.push(*location);
                            proof {
                                assert(scan_here == Verdict::Violates(
                                    inner_locs.push(*location),
                                ));
                                assert(locs@ == inner_locs.push(*location));
                            }
                            return InitState::NeedsInit(locs);
                        }
                        proof {
                            assert(scan_here == spec_scan(
                                *p,
                                id,
                                stack@,
                                facts@,
                                b as int + 1,
                            ));
                        }
                    },
                }
            },
            _ => {},
        }
        b += 1;
    }
    InitState::NotInit
}

/// The diagnostics the analysis owes for the entry points among the first `k`
/// functions: for each function tagged as an entry point whose analysis, from
/// a fresh empty call stack, ends in a violation, one diagnostic — the
/// violation's location chain — in the order the functions are declared.
pub open spec fn spec_diags(p: Program, k: int) -> Seq<Seq<u64>>
    decreases k,
        when 0 <= k <= p.functions@.len()
{
    if k <= 0 {
        Seq::empty()
    } else {
        let rest = spec_diags(p, k - 1);
        if p.functions@[k - 1].is_entry_point {
            match spec_check_init(p, (k - 1) as usize, Seq::empty()) {
                Verdict::Violates(locs) => rest.push(locs),
                _ => rest,
            }
        } else {
            rest
        }
    }
}

/// The whole-program run: analyzes every entry point of the program with a
/// fresh empty call stack and collects one diagnostic per entry point whose
/// analysis ends in a violation. A program without entry points yields no
/// diagnostics and performs no analysis at all.
pub fn check_crate(p: &Program) -> (diags: Vec<Vec<u64>>)
    requires
        prog_wf(*p),
    ensures
        diags@.map_values(|d: Vec<u64>| d@) == spec_diags(*p, p.functions@.len() as int),
{
    let n = p.functions.len();
    let empty_stack: Vec<usize> = Vec::new();
    let mut diags: Vec<Vec<u64>> = Vec::new();
    let mut i: usize = 0;
    while i < n
        invariant
            prog_wf(*p),
            n == p.functions@.len(),
            i <= n,
            empty_stack@ == Seq::<usize>::empty(),
            diags@.map_values(|d: Vec<u64>| d@) == spec_diags(*p, i as int),
        decreases n - i,
    {
        let ghost before = diags@.map_values(|d: Vec<u64>| d@);
        if p.functions[i].is_entry_point {
            let r = check_init(p, i, &empty_stack);
            if let InitState::NeedsInit(locs) = r {
                let ghost locs_view = locs@;
                diags.push(locs);
                proof {
                    assert(diags@.map_values(|d: Vec<u64>| d@) =~= before.push(locs_view));
                }
            }
        }
        i += 1;
    }
    diags
}

} // verus!
