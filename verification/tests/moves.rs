//! Parallel-move sequencing checked against a direct interpretation of both
//! semantics: the sequenced moves must compute what the parallel set means,
//! cycles included.

use ssa::algos::lower_par_moves::{lower_par_moves, sequence_moves};
use ssa::builder::ModuleBuilder;
use ssa::ir::{Algo, Terminator, Type, ValueId};

/// Runs a parallel move set: every source is read before any write.
fn run_parallel(state: &[i64], moves: &[(usize, usize)]) -> Vec<i64> {
    let mut out = state.to_vec();
    for &(d, s) in moves {
        out[d] = state[s];
    }
    out
}

/// Runs moves one at a time, in order.
fn run_sequential(state: &[i64], moves: &[(usize, usize)]) -> Vec<i64> {
    let mut out = state.to_vec();
    for &(d, s) in moves {
        out[d] = out[s];
    }
    out
}

/// A two-register swap must go through a scratch register.
#[test]
fn swap_uses_scratch() {
    let moves = vec![(0usize, 1usize), (1usize, 0usize)];
    let (seq, fresh) = sequence_moves(&moves, 2);
    assert_eq!(seq, vec![(2, 1), (1, 0), (0, 2)]);
    assert_eq!(fresh, 3);

    // Semantics: registers 0 and 1 end up swapped.
    let state = vec![10, 20, 0];
    let out = run_sequential(&state, &seq);
    assert_eq!(out[0], 20);
    assert_eq!(out[1], 10);
}

/// A three-cycle is broken with one scratch and rotates correctly.
#[test]
fn three_cycle_rotates() {
    let moves = vec![(0usize, 1usize), (1usize, 2usize), (2usize, 0usize)];
    let (seq, fresh) = sequence_moves(&moves, 3);
    assert!(fresh <= 3 + moves.len());
    let mut state = vec![100, 200, 300];
    state.resize(fresh, 0);
    let par = run_parallel(&state, &moves);
    let got = run_sequential(&state, &seq);
    for r in 0..3 {
        assert_eq!(got[r], par[r]);
    }
}

/// Chains, self-moves and a cycle mixed together still agree with the
/// parallel meaning on every original register.
#[test]
fn mixed_moves_agree_with_parallel() {
    // 5 <- 0 (chain off the cycle), 0 <- 1, 1 <- 0 swap, 3 <- 3 self,
    // 4 <- 2 independent.
    let moves = vec![
        (5usize, 0usize),
        (0usize, 1usize),
        (1usize, 0usize),
        (3usize, 3usize),
        (4usize, 2usize),
    ];
    let (seq, fresh) = sequence_moves(&moves, 6);
    let mut state = vec![7, 11, 13, 17, 19, 23];
    state.resize(fresh, 0);
    let par = run_parallel(&state, &moves);
    let got = run_sequential(&state, &seq);
    for r in 0..6 {
        assert_eq!(got[r], par[r], "register {} differs", r);
    }
    // No destination is written twice.
    for i in 0..seq.len() {
        for j in 0..i {
            assert_ne!(seq[i].0, seq[j].0);
        }
    }
}

/// An empty move set sequences to nothing.
#[test]
fn empty_moves_sequence_to_nothing() {
    let moves: Vec<(usize, usize)> = vec![];
    let (seq, fresh) = sequence_moves(&moves, 4);
    assert!(seq.is_empty());
    assert_eq!(fresh, 4);
}

/// The block-level pass rewrites a cyclic parallel move list into sequential
/// moves through a freshly minted scratch value.
#[test]
fn lower_par_moves_breaks_block_cycle() {
    let mut builder = ModuleBuilder::new("cycle");
    let func = builder.push_function("f", Type::Integer(32, true), vec![], None);
    builder.switch_to_fn(func);
    let entry = builder.push_block("entry");
    builder.switch_to_block(entry);
    let a = builder.build_integer(1, Type::Integer(32, true));
    let b = builder.build_integer(2, Type::Integer(32, true));
    builder.set_terminator(Terminator::Return(a));
    let mut module = builder.build();

    // A cyclic parallel move pair on the block, as phi lowering would leave
    // it; the log must show phi lowering has run.
    module.functions[0].blocks[0].par_moves = vec![(a, b), (b, a)];
    module.algos_run.push(Algo::PhiLowering);

    let values_before = module.functions[0].values.len();
    lower_par_moves(&mut module);

    let f = &module.functions[0];
    let scratch = ValueId(values_before);
    assert_eq!(f.values.len(), values_before + 1);
    assert_eq!(f.blocks[0].par_moves, vec![(scratch, b), (b, a), (a, scratch)]);
    assert_eq!(*module.algos_run.last().unwrap(), Algo::LowerParMoves);
}
