//! The Program Model: an immutable whole-program representation of functions,
//! each an ordered sequence of basic blocks ending in a terminator. A front
//! end constructs one of these; the analysis only reads it.

use vstd::prelude::*;

verus! {

/// A reference to the callee of a call terminator: either a statically known
/// function of the program (an index into `Program::functions`) or an
/// indirect/dynamic call whose target cannot be determined statically.
pub enum CalleeRef {
    Known(usize),
    Unknown,
}

/// The terminator of a basic block. A call falls through to the next block in
/// the function's order; a branch may jump to any of its targets; a goto jumps
/// to its one target; a return leaves the function.
pub enum Terminator {
    Call { callee: CalleeRef, location: u64 },
    Branch { targets: Vec<usize> },
    Goto { target: usize },
    Return,
}

/// A basic block. Ordinary statements are irrelevant to this analysis (they
/// can neither call nor establish anything), so a block is just its terminator.
pub struct BasicBlock {
    pub terminator: Terminator,
}

/// One function of the program: whether its body is available (false for
/// opaque/external functions), its three independent tags, and its blocks.
/// Block 0 is the function's entry block.
pub struct Function {
    pub available: bool,
    pub is_initializer: bool,
    pub is_gated: bool,
    pub is_entry_point: bool,
    pub blocks: Vec<BasicBlock>,
}

/// The whole program. A function's identity is its index in `functions`.
pub struct Program {
    pub functions: Vec<Function>,
}

/// A terminator is well formed when every edge it mentions stays inside the
/// program: block targets inside the owning function, known callees inside
/// the program.
pub open spec fn terminator_wf(p: Program, f: Function, t: Terminator) -> bool {
    match t {
        Terminator::Call { callee, .. } => match callee {
            CalleeRef::Known(id) => (id as int) < p.functions@.len(),
            CalleeRef::Unknown => true,
        },
        Terminator::Branch { targets } => forall|i: int|
            0 <= i < targets@.len() ==> (#[trigger] targets@[i] as int) < f.blocks@.len(),
        Terminator::Goto { target } => (target as int) < f.blocks@.len(),
        Terminator::Return => true,
    }
}

pub open spec fn function_wf(p: Program, f: Function) -> bool {
    forall|b: int|
        0 <= b < f.blocks@.len() ==> terminator_wf(p, f, #[trigger] f.blocks@[b].terminator)
}

/// Well-formedness of the whole Program Model: every edge of every control
/// flow graph stays inside the model.
pub open spec fn prog_wf(p: Program) -> bool {
    forall|i: int| 0 <= i < p.functions@.len() ==> function_wf(p, #[trigger] p.functions@[i])
}

fn terminator_wf_exec(p: &Program, id: usize, b: usize) -> (r: bool)
    requires
        (id as int) < p.functions@.len(),
        (b as int) < p.functions@[id as int].blocks@.len(),
    ensures
        r == terminator_wf(*p, p.functions@[id as int], p.functions@[id as int].blocks@[b as int].terminator),
{
    let nb = p.functions[id].blocks.len();
    match &p.functions[id].blocks[b].terminator {
        Terminator::Call { callee, .. } => match callee {
            CalleeRef::Known(c) => *c < p.functions.len(),
            CalleeRef::Unknown => true,
        },
        Terminator::Branch { targets } => {
            let mut i: usize = 0;
            while i < targets.len()
                invariant
                    i <= targets@.len(),
                    nb == p.functions@[id as int].blocks@.len(),
                    forall|j: int| 0 <= j < i ==> (#[trigger] targets@[j] as int) < nb,
                    terminator_wf(
                        *p,
                        p.functions@[id as int],
                        p.functions@[id as int].blocks@[b as int].terminator,
                    ) == (forall|j: int|
                        0 <= j < targets@.len() ==> (#[trigger] targets@[j] as int) < nb),
                decreases targets@.len() - i,
            {
                if targets[i] >= nb {
                    proof {
                        assert(!((targets@[i as int] as int) < nb));
                    }
                    return false;
                }
                i += 1;
            }
            true
        },
        Terminator::Goto { target } => *target < nb,
        Terminator::Return => true,
    }
}

fn function_wf_exec(p: &Program, id: usize) -> (r: bool)
    requires
        (id as int) < p.functions@.len(),
    ensures
        r == function_wf(*p, p.functions@[id as int]),
{
    let nb = p.functions[id].blocks.len();
    let mut b: usize = 0;
    while b < nb
        invariant
            b <= nb,
            (id as int) < p.functions@.len(),
            nb == p.functions@[id as int].blocks@.len(),
            forall|k: int|
                0 <= k < b ==> terminator_wf(
                    *p,
                    p.functions@[id as int],
                    #[trigger] p.functions@[id as int].blocks@[k].terminator,
                ),
        decreases nb - b,
    {
        if !terminator_wf_exec(p, id, b) {
            return false;
        }
        b += 1;
    }
    true
}

/// Decides whether a Program Model is well formed (`prog_wf`), so that an
/// unverified host can test the analysis' precondition before running it.
pub fn prog_wf_exec(p: &Program) -> (r: bool)
    ensures
        r == prog_wf(*p),
{
    let n = p.functions.len();
    let mut i: usize = 0;
    while i < n
        invariant
            i <= n,
            n == p.functions@.len(),
            forall|k: int| 0 <= k < i ==> function_wf(*p, #[trigger] p.functions@[k]),
        decreases n - i,
    {
        if !function_wf_exec(p, i) {
            return false;
        }
        i += 1;
    }
    true
}

/// `q` has an edge to `b` in the control-flow graph given by `blocks`:
/// a call falls through to the next block, a branch reaches each of its
/// targets, a goto reaches its target, a return reaches nothing.
pub open spec fn is_succ(blocks: Seq<BasicBlock>, q: int, b: int) -> bool {
    &&& 0 <= q < blocks.len()
    &&& 0 <= b < blocks.len()
    &&& match blocks[q].terminator {
        Terminator::Call { .. } => b == q + 1,
        Terminator::Branch { targets } => targets@.contains(b as usize),
        Terminator::Goto { target } => b == target as int,
        Terminator::Return => false,
    }
}

/// Decides `is_succ` on the blocks of one function.
pub fn is_succ_exec(blocks: &Vec<BasicBlock>, q: usize, b: usize) -> (r: bool)
    requires
        q < blocks@.len(),
        b < blocks@.len(),
    ensures
        r == is_succ(blocks@, q as int, b as int),
{
    match &blocks[q].terminator {
        Terminator::Call { .. } => b >= 1 && q == b - 1,
        Terminator::Branch { targets } => {
            let mut i: usize = 0;
            while i < targets.len()
                invariant
                    i <= targets@.len(),
                    forall|j: int| 0 <= j < i ==> targets@[j] != b,
                    is_succ(blocks@, q as int, b as int) == targets@.contains(b),
                decreases targets@.len() - i,
            {
                if targets[i] == b {
                    proof {
                        assert(targets@[i as int] == b);
                        assert(targets@.contains(b));
                    }
                    return true;
                }
                i += 1;
            }
            proof {
                assert(!targets@.contains(b));
            }
            false
        },
        Terminator::Goto { target } => b == *target,
        Terminator::Return => false,
    }
}

} // verus!
