use init_before_foo::dataflow::seen_init;
use init_before_foo::program::{prog_wf_exec, BasicBlock, CalleeRef, Function, Program, Terminator};
use init_before_foo::walker::{check_crate, check_init, InitState};

fn call(callee: usize, loc: u64) -> BasicBlock {
    BasicBlock { terminator: Terminator::Call { callee: CalleeRef::Known(callee), location: loc } }
}

fn call_unknown(loc: u64) -> BasicBlock {
    BasicBlock { terminator: Terminator::Call { callee: CalleeRef::Unknown, location: loc } }
}

fn branch(targets: Vec<usize>) -> BasicBlock {
    BasicBlock { terminator: Terminator::Branch { targets } }
}

fn goto(target: usize) -> BasicBlock {
    BasicBlock { terminator: Terminator::Goto { target } }
}

fn ret() -> BasicBlock {
    BasicBlock { terminator: Terminator::Return }
}

fn plain(blocks: Vec<BasicBlock>) -> Function {
    Function {
        available: true,
        is_initializer: false,
        is_gated: false,
        is_entry_point: false,
        blocks,
    }
}

fn entry(blocks: Vec<BasicBlock>) -> Function {
    Function {
        available: true,
        is_initializer: false,
        is_gated: false,
        is_entry_point: true,
        blocks,
    }
}

fn initializer() -> Function {
    Function {
        available: true,
        is_initializer: true,
        is_gated: false,
        is_entry_point: false,
        blocks: vec![ret()],
    }
}

fn gated() -> Function {
    Function {
        available: true,
        is_initializer: false,
        is_gated: true,
        is_entry_point: false,
        blocks: vec![ret()],
    }
}

fn opaque() -> Function {
    Function {
        available: false,
        is_initializer: false,
        is_gated: false,
        is_entry_point: false,
        blocks: vec![],
    }
}

#[test]
fn no_gated_call_no_diagnostic() {
    // Entry calls a helper, the helper only returns: nothing gated is
    // reachable, so nothing is reported.
    let p = Program {
        functions: vec![entry(vec![call(1, 10), ret()]), plain(vec![ret()])],
    };
    let diags = check_crate(&p);
    assert!(diags.is_empty());
}

#[test]
fn init_then_gated_is_clean() {
    // Initializer called first, gated operation only afterward, straight
    // line: no diagnostic.
    let p = Program {
        functions: vec![
            entry(vec![call(1, 10), call(2, 11), ret()]),
            initializer(),
            gated(),
        ],
    };
    let diags = check_crate(&p);
    assert!(diags.is_empty());
}

#[test]
fn violation_through_intermediate() {
    // Entry calls an intermediate which calls the gated operation; the
    // initializer runs only after the chain returns. One diagnostic, the
    // chain innermost first: the gated call site, then the intermediate call.
    let p = Program {
        functions: vec![
            entry(vec![call(1, 20), call(2, 21), ret()]),
            plain(vec![call(3, 30), ret()]),
            initializer(),
            gated(),
        ],
    };
    let diags = check_crate(&p);
    assert_eq!(diags, vec![vec![30, 20]]);
}

#[test]
fn conditional_init_is_flagged() {
    // The initializer runs on only one branch of a conditional; the gated
    // operation runs unconditionally afterward. The AND-join over the two
    // predecessor paths yields "not certainly initialized" at the gated call.
    let p = Program {
        functions: vec![
            entry(vec![
                branch(vec![1, 2]),
                call(1, 40), // block 1: the initializing branch, falls to block 2
                call(2, 41), // block 2: the join, calls the gated operation
                ret(),
            ]),
            initializer(),
            gated(),
        ],
    };
    let diags = check_crate(&p);
    assert_eq!(diags, vec![vec![41]]);
}

#[test]
fn init_on_both_branches_is_clean() {
    // Both branches call the initializer before the join; the gated call at
    // the join is certainly initialized on every path.
    let p = Program {
        functions: vec![
            entry(vec![
                branch(vec![1, 3]),
                call(1, 70), // block 1, falls to block 2
                goto(4),     // block 2
                call(1, 71), // block 3, falls to block 4
                call(2, 72), // block 4: the join, calls the gated operation
                ret(),       // block 5
            ]),
            initializer(),
            gated(),
        ],
    };
    let diags = check_crate(&p);
    assert!(diags.is_empty());
}

#[test]
fn indirect_call_is_flagged() {
    // An indirect call could be the gated operation: flagged regardless of
    // its true target.
    let p = Program {
        functions: vec![entry(vec![call_unknown(50), ret()])],
    };
    let diags = check_crate(&p);
    assert_eq!(diags, vec![vec![50]]);
}

#[test]
fn indirect_call_after_init_is_still_flagged() {
    // The indirect-call policy is unconditional: it does not depend on the
    // dataflow fact at the call site.
    let p = Program {
        functions: vec![
            entry(vec![call(1, 110), call_unknown(111), ret()]),
            initializer(),
        ],
    };
    let diags = check_crate(&p);
    assert_eq!(diags, vec![vec![111]]);
}

#[test]
fn indirect_call_behind_intermediate_is_flagged() {
    // The indirect call sits inside a helper; the diagnostic cites the
    // indirect call first, then the call of the helper.
    let p = Program {
        functions: vec![
            entry(vec![call(1, 55), ret()]),
            plain(vec![call_unknown(56), ret()]),
        ],
    };
    let diags = check_crate(&p);
    assert_eq!(diags, vec![vec![56, 55]]);
}

#[test]
fn recursion_terminates() {
    // A mutually recursive pair sits between the entry point and the gated
    // call; the analysis terminates and still finds the uninitialized gated
    // call in the entry.
    let p = Program {
        functions: vec![
            entry(vec![call(1, 60), call(3, 61), ret()]),
            plain(vec![call(2, 62), ret()]),
            plain(vec![call(1, 63), ret()]),
            gated(),
        ],
    };
    let diags = check_crate(&p);
    assert_eq!(diags, vec![vec![61]]);
}

#[test]
fn recursive_initializer_not_recognized() {
    // A helper that calls the initializer only through itself never counts as
    // establishing initialization: the cycle is cut conservatively, so the
    // gated call is flagged.
    let p = Program {
        functions: vec![
            entry(vec![call(1, 64), call(3, 65), ret()]),
            plain(vec![call(1, 66), call(2, 67), ret()]),
            initializer(),
            gated(),
        ],
    };
    let diags = check_crate(&p);
    assert_eq!(diags, vec![vec![65]]);
}

#[test]
fn determinism_two_runs_agree() {
    let p = Program {
        functions: vec![
            entry(vec![call(1, 20), call(2, 21), ret()]),
            plain(vec![call(3, 30), ret()]),
            initializer(),
            gated(),
        ],
    };
    let first = check_crate(&p);
    let second = check_crate(&p);
    assert_eq!(first, second);
    assert_eq!(first, vec![vec![30, 20]]);
}

#[test]
fn no_entry_point_no_diagnostic() {
    // Nothing is tagged as an entry point: no work, no diagnostics, even
    // though a bare gated call exists in the program.
    let p = Program {
        functions: vec![plain(vec![call(2, 90), ret()]), initializer(), gated()],
    };
    let diags = check_crate(&p);
    assert!(diags.is_empty());
}

#[test]
fn opaque_callee_gives_no_information() {
    // An opaque function might call the initializer, but nothing is known of
    // it, so the later gated call is still flagged.
    let p = Program {
        functions: vec![
            entry(vec![call(1, 80), call(2, 81), ret()]),
            opaque(),
            gated(),
        ],
    };
    let diags = check_crate(&p);
    assert_eq!(diags, vec![vec![81]]);
}

#[test]
fn gated_before_init_is_flagged() {
    let p = Program {
        functions: vec![
            entry(vec![call(2, 90), call(1, 91), ret()]),
            initializer(),
            gated(),
        ],
    };
    let diags = check_crate(&p);
    assert_eq!(diags, vec![vec![90]]);
}

#[test]
fn initializer_body_is_not_inspected() {
    // The initializer is definitionally the origin of the fact; a gated call
    // inside its own body is never scanned.
    let p = Program {
        functions: vec![
            entry(vec![call(1, 101), ret()]),
            Function {
                available: true,
                is_initializer: true,
                is_gated: false,
                is_entry_point: false,
                blocks: vec![call(2, 100), ret()],
            },
            gated(),
        ],
    };
    let diags = check_crate(&p);
    assert!(diags.is_empty());
}

#[test]
fn one_diagnostic_per_failing_entry_point() {
    // Two entry points; only the second one violates. Diagnostics follow the
    // declaration order of the entry points.
    let p = Program {
        functions: vec![
            entry(vec![call(2, 120), call(3, 121), ret()]),
            entry(vec![call(3, 122), ret()]),
            initializer(),
            gated(),
        ],
    };
    let diags = check_crate(&p);
    assert_eq!(diags, vec![vec![122]]);
}

#[test]
fn dataflow_propagates_along_a_chain() {
    // Block 0 generates the fact; it is certain at each later point of the
    // fall-through chain.
    let blocks = vec![call(9, 1), call(9, 2), ret()];
    let gens = vec![true, false, false];
    let facts = seen_init(&blocks, &gens);
    assert_eq!(facts, vec![false, true, true]);
}

#[test]
fn dataflow_joins_with_and() {
    // A diamond: only one of the two incoming paths of the join generates
    // the fact, so the join is not certainly initialized.
    let blocks = vec![branch(vec![1, 2]), call(9, 1), call(9, 2), ret()];
    let gens = vec![false, true, false, false];
    let facts = seen_init(&blocks, &gens);
    assert_eq!(facts, vec![false, false, false, false]);
}

#[test]
fn dataflow_block_without_predecessors_is_vacuous() {
    // An unreachable block joins over no incoming edges at all and is
    // vacuously initialized: it can never produce a false positive.
    let blocks = vec![ret(), ret()];
    let gens = vec![false, false];
    let facts = seen_init(&blocks, &gens);
    assert_eq!(facts, vec![false, true]);
}

#[test]
fn well_formedness_is_decided() {
    let good = Program {
        functions: vec![entry(vec![call(1, 10), ret()]), plain(vec![ret()])],
    };
    assert!(prog_wf_exec(&good));
    let dangling_callee = Program {
        functions: vec![entry(vec![call(7, 10), ret()])],
    };
    assert!(!prog_wf_exec(&dangling_callee));
    let dangling_target = Program {
        functions: vec![entry(vec![goto(5), ret()])],
    };
    assert!(!prog_wf_exec(&dangling_target));
}

#[test]
fn walker_recognizes_initializer_directly() {
    let p = Program {
        functions: vec![initializer()],
    };
    let stack: Vec<usize> = Vec::new();
    let r = check_init(&p, 0, &stack);
    assert!(matches!(r, InitState::Init));
}

#[test]
fn walker_cuts_cycles() {
    // Asking about a function already on the recursive path yields no
    // information, even for the initializer.
    let p = Program {
        functions: vec![initializer()],
    };
    let stack: Vec<usize> = vec![0];
    let r = check_init(&p, 0, &stack);
    assert!(matches!(r, InitState::NotInit));
}
