//! Critical-edge splitting: a CFG edge whose source has several successors
//! and whose target has several predecessors is broken by a fresh bridge
//! block, so that phi lowering can place moves on a unique edge.

use vstd::prelude::*;

use crate::ir::count_target;
use crate::ir::lemma_seq_count_update;
use crate::ir::lemma_seq_count_zero;
use crate::ir::seq_count_id;
use crate::ir::term_targets;
use crate::ir::Algo;
use crate::ir::BasicBlock;
use crate::ir::BlockId;
use crate::ir::phi_arity_ok;
use crate::ir::Function;
use crate::ir::Operation;
use crate::ir::Module;
use crate::ir::Terminator;

verus! {

broadcast use vstd::string::group_string_axioms;

/// Index of an entry equal to `x` in a predecessor list known to hold one.
fn find_pred_index(preds: &Vec<BlockId>, x: BlockId) -> (r: usize)
    requires
        seq_count_id(preds@, x) > 0,
    ensures
        r < preds@.len(),
        preds@[r as int] == x,
{
    let n = preds.len();
    let mut j: usize = 0;
    while j < n
        invariant
            0 <= j <= n,
            n == preds@.len(),
            forall|jj: int| 0 <= jj < j ==> preds@[jj] != x,
        decreases n - j,
    {
        if preds[j] == x {
            return j;
        }
        j += 1;
    }
    proof {
        lemma_seq_count_zero(preds@, x);
    }
    assert(false);
    0
}

/// Splits the edge leaving block `u` through the given branch slot: a fresh
/// block with a single predecessor takes the edge and jumps on to the old
/// target.
#[verifier::loop_isolation(false)]
fn split_edge(func: &mut Function, u: usize, first_slot: bool)
    requires
        old(func).wf(),
        old(func).preds_consistent(),
        old(func).succs_consistent(),
        u < old(func).blocks@.len(),
        old(func).blocks@[u as int].terminator is Branch,
    ensures
        final(func).wf(),
        final(func).preds_consistent(),
        final(func).succs_consistent(),
        final(func).blocks@.len() == old(func).blocks@.len() + 1,
        final(func).values == old(func).values,
        final(func).variables == old(func).variables,
        final(func).name == old(func).name,
        final(func).ret_type == old(func).ret_type,
        final(func).args == old(func).args,
        final(func).linkage == old(func).linkage,
        final(func).id == old(func).id,
        forall|b: int|
            0 <= b < old(func).blocks@.len() ==> {
                let nb = #[trigger] final(func).blocks@[b];
                let ob = old(func).blocks@[b];
                nb.instructions == ob.instructions && nb.name == ob.name && nb.id == ob.id
                    && nb.par_moves == ob.par_moves && nb.preds@.len() == ob.preds@.len()
            },
        forall|b: int, k: int|
            0 <= b < old(func).blocks@.len() && 0 <= k < old(func).blocks@[b].preds@.len() ==> (
            #[trigger] final(func).blocks@[b].preds@[k]) == old(func).blocks@[b].preds@[k] || final(func).blocks@[b].preds@[k] == BlockId(old(func).blocks@.len() as usize),
        forall|b: int|
            0 <= b < old(func).blocks@.len() && b != u ==> (
            #[trigger] final(func).blocks@[b]).terminator == old(func).blocks@[b].terminator,
        ({
            let ot = old(func).blocks@[u as int].terminator;
            let nt = final(func).blocks@[u as int].terminator;
            let fresh = BlockId(old(func).blocks@.len() as usize);
            match (ot, nt) {
                (Terminator::Branch(c1, a1, b1), Terminator::Branch(c2, a2, b2)) => c2 == c1 && (
                if first_slot {
                    a2 == fresh && b2 == b1
                } else {
                    a2 == a1 && b2 == fresh
                }),
                _ => false,
            }
        }),
        ({
            let fresh = final(func).blocks@[old(func).blocks@.len() as int];
            let ot = old(func).blocks@[u as int].terminator;
            let tgt = (match ot {
                Terminator::Branch(_, a, b) => if first_slot {
                    a
                } else {
                    b
                },
                _ => BlockId(0),
            });
            fresh.instructions@.len() == 0 && fresh.par_moves@.len() == 0 && fresh.preds@.len() == 1
                && fresh.preds@[0] == BlockId(u) && fresh.terminator == Terminator::Jump(tgt)
                && fresh.id == old(func).blocks@.len() && (forall|b: int|
                0 <= b < old(func).blocks@.len() && b != tgt.0 ==> (#[trigger] final(func).blocks@[b]).preds == old(func).blocks@[b].preds)
        }),
{
    let nb = func.blocks.len();
    let (cond, t1, t2) = match func.blocks[u].terminator {
        Terminator::Branch(c, a, b) => (c, a, b),
        _ => {
            assert(false);
            (crate::ir::ValueId(0), BlockId(0), BlockId(0))
        },
    };
    let target = if first_slot {
        t1
    } else {
        t2
    };
    assert(target.0 < func.blocks@.len());
    // The branching block stands in the target's predecessor list because the
    // lists mirror the terminators.
    proof {
        assert(seq_count_id(func.blocks@[target.0 as int].preds@, BlockId(u)) == count_target(
            func.blocks@[u as int].terminator,
            BlockId(target.0),
        ));
        assert(count_target(func.blocks@[u as int].terminator, BlockId(target.0)) > 0);
    }
    let j = find_pred_index(&func.blocks[target.0].preds, BlockId(u));
    let ghost of = *func;
    {
        let blk = &mut func.blocks[target.0];
        blk.preds.set(j, BlockId(nb));
    }
    let new_term = if first_slot {
        Terminator::Branch(cond, BlockId(nb), t2)
    } else {
        Terminator::Branch(cond, t1, BlockId(nb))
    };
    {
        let blk = &mut func.blocks[u];
        blk.terminator = new_term;
        if first_slot {
            blk.succs.set(0, BlockId(nb));
        } else {
            blk.succs.set(1, BlockId(nb));
        }
    }
    let bridge = BasicBlock {
        name: "split".to_string(),
        instructions: Vec::new(),
        terminator: Terminator::Jump(target),
        preds: vec![BlockId(u)],
        succs: vec![target],
        id: nb,
        par_moves: Vec::new(),
    };
    func.blocks.push(bridge);
    proof {
        let nf = *func;
        let fresh = BlockId(nb);
        // Well-formedness: ids stay positional, every reference stays in an
        // arena that only grew.
        assert forall|b: int| 0 <= b < nf.blocks@.len() implies (#[trigger] nf.blocks@[b]).id
            == b by {
            if b < nb {
                assert(of.blocks@[b].id == b);
            }
        }
        assert forall|b: int, i: int|
            0 <= b < nf.blocks@.len() && 0 <= i < nf.blocks@[b].instructions@.len() implies
            nf.instr_wf(#[trigger] nf.blocks@[b].instructions@[i]) by {
            assert(b < nb);
            assert(nf.blocks@[b].instructions == of.blocks@[b].instructions);
            assert(of.instr_wf(of.blocks@[b].instructions@[i]));
        }
        assert forall|b: int| 0 <= b < nf.blocks@.len() implies nf.term_wf(
            (#[trigger] nf.blocks@[b]).terminator,
        ) by {
            if b < nb && b != u {
                assert(nf.blocks@[b].terminator == of.blocks@[b].terminator);
                assert(of.term_wf(of.blocks@[b].terminator));
            }
        }
        assert forall|b: int, p: int|
            0 <= b < nf.blocks@.len() && 0 <= p < nf.blocks@[b].preds@.len() implies (
        #[trigger] nf.blocks@[b].preds@[p]).0 < nf.blocks@.len() by {
            if b < nb {
                if b == target.0 && p == j {
                } else {
                    assert(nf.blocks@[b].preds@[p] == of.blocks@[b].preds@[p]);
                }
            }
        }
        assert(nf.wf());
        // Predecessor counts: the replaced entry moves one edge from `u` to
        // the bridge; the bridge's single entry matches its single jump.
        assert forall|v: int, w: BlockId| 0 <= v < nf.blocks@.len() implies #[trigger] seq_count_id(
            nf.blocks@[v].preds@,
            w,
        ) == (if w.0 < nf.blocks@.len() {
            count_target(nf.blocks@[w.0 as int].terminator, BlockId(v as usize))
        } else {
            0
        }) by {
            if v < nb {
                assert(seq_count_id(of.blocks@[v].preds@, w) == (if w.0 < of.blocks@.len() {
                    count_target(of.blocks@[w.0 as int].terminator, BlockId(v as usize))
                } else {
                    0
                }));
                if v == target.0 {
                    lemma_seq_count_update(of.blocks@[v].preds@, j as int, fresh, w);
                    assert(of.blocks@[v].preds@[j as int] == BlockId(u));
                    if w == fresh {
                        assert(seq_count_id(of.blocks@[v].preds@, fresh) == 0);
                        assert(count_target(Terminator::Jump(target), BlockId(v as usize)) == 1);
                    } else if w == BlockId(u) {
                        assert(seq_count_id(nf.blocks@[v].preds@, w) == seq_count_id(
                            of.blocks@[v].preds@,
                            w,
                        ) - 1);
                        assert(count_target(nf.blocks@[u as int].terminator, BlockId(v as usize))
                            == count_target(of.blocks@[u as int].terminator, BlockId(v as usize))
                            - 1);
                    } else {
                        if w.0 < nf.blocks@.len() && w.0 != u {
                            assert(nf.blocks@[w.0 as int].terminator
                                == of.blocks@[w.0 as int].terminator);
                        }
                    }
                } else {
                    assert(nf.blocks@[v].preds@ == of.blocks@[v].preds@);
                    if w == fresh {
                        assert(seq_count_id(of.blocks@[v].preds@, fresh) == 0);
                        assert(count_target(Terminator::Jump(target), BlockId(v as usize)) == 0);
                    } else if w == BlockId(u) {
                        assert(count_target(nf.blocks@[u as int].terminator, BlockId(v as usize))
                            == count_target(of.blocks@[u as int].terminator, BlockId(v as usize)));
                    } else if w.0 < nf.blocks@.len() && w.0 != u {
                        assert(nf.blocks@[w.0 as int].terminator
                            == of.blocks@[w.0 as int].terminator);
                    }
                }
            } else {
                // The bridge block: a single predecessor `u`, whose branch
                // now names the bridge exactly once.
                assert(nf.blocks@[v].preds@ =~= seq![BlockId(u)]);
                assert(seq_count_id(seq![BlockId(u)].drop_last(), w) == 0) by {
                    assert(seq![BlockId(u)].drop_last() =~= Seq::<BlockId>::empty());
                }
                if w == BlockId(u) {
                    assert(seq_count_id(nf.blocks@[v].preds@, w) == 1);
                    assert(count_target(nf.blocks@[u as int].terminator, fresh) == 1) by {
                        assert(t1.0 < of.blocks@.len() && t2.0 < of.blocks@.len());
                    }
                } else {
                    assert(seq_count_id(nf.blocks@[v].preds@, w) == 0);
                    if w.0 < nf.blocks@.len() {
                        if w == fresh {
                            assert(count_target(Terminator::Jump(target), BlockId(v as usize))
                                == 0);
                        } else {
                            assert(nf.blocks@[w.0 as int].terminator == (if w.0 == u {
                                new_term
                            } else {
                                of.blocks@[w.0 as int].terminator
                            }));
                            assert(count_target(nf.blocks@[w.0 as int].terminator, fresh) == 0)
                                by {
                                if w.0 != u {
                                    assert(of.term_wf(of.blocks@[w.0 as int].terminator));
                                }
                            }
                        }
                    }
                }
            }
        }
        assert(nf.preds_consistent());
        assert forall|b: int| 0 <= b < nf.blocks@.len() implies (#[trigger] nf.blocks@[b]).succs@
            == term_targets(nf.blocks@[b].terminator) by {
            if b < nb && b != u {
                assert(nf.blocks@[b].succs == of.blocks@[b].succs);
                assert(of.blocks@[b].succs@ == term_targets(of.blocks@[b].terminator));
            } else if b == u {
                assert(of.blocks@[u as int].succs@ == term_targets(of.blocks@[u as int].terminator));
                assert(nf.blocks@[u as int].succs@ =~= term_targets(new_term));
            } else {
                assert(nf.blocks@[b].succs@ =~= term_targets(Terminator::Jump(target)));
            }
        }
        assert(nf.succs_consistent());
    }
}

/// The branch target either stands as it was or is a fresh bridge block that
/// holds nothing and jumps straight on to the original target.
pub open spec fn split_target_rel(of: Function, nf: Function, orig: BlockId, now: BlockId) -> bool {
    now == orig || (of.blocks@.len() <= now.0 < nf.blocks@.len()
        && nf.blocks@[now.0 as int].terminator == Terminator::Jump(orig)
        && nf.blocks@[now.0 as int].instructions@.len() == 0 && nf.blocks@[now.0 as int].preds@.len()
        == 1)
}

/// Every pre-existing block keeps its terminator, except that a conditional
/// branch may have either target redirected through a bridge.
pub open spec fn terms_split_rel(of: Function, nf: Function) -> bool {
    forall|b: int|
        0 <= b < of.blocks@.len() ==> (match (
        of.blocks@[b].terminator,
        (#[trigger] nf.blocks@[b]).terminator,
    ) {
        (Terminator::Branch(c1, a1, b1), Terminator::Branch(c2, a2, b2)) => c2 == c1
            && split_target_rel(of, nf, a1, a2) && split_target_rel(of, nf, b1, b2),
        (t1, t2) => t2 == t1,
    })
}

/// Every pre-existing predecessor entry stands as it was or names a bridge
/// block that jumps to the entry's block, in the same position.
pub open spec fn preds_split_rel(of: Function, nf: Function) -> bool {
    forall|b: int, k: int|
        0 <= b < of.blocks@.len() && 0 <= k < of.blocks@[b].preds@.len() ==> ((
        #[trigger] nf.blocks@[b].preds@[k]) == of.blocks@[b].preds@[k] || (of.blocks@.len()
            <= nf.blocks@[b].preds@[k].0 < nf.blocks@.len()
            && nf.blocks@[nf.blocks@[b].preds@[k].0 as int].terminator == Terminator::Jump(
            BlockId(b as usize),
        )))
}

/// Adding empty blocks and redirecting edges never touches an instruction or
/// a predecessor count, so phi arity survives a split.
proof fn lemma_arity_after_split(of: Function, nf: Function)
    requires
        phi_arity_ok(of),
        nf.blocks@.len() >= of.blocks@.len(),
        forall|b: int|
            0 <= b < of.blocks@.len() ==> (#[trigger] nf.blocks@[b]).instructions
                == of.blocks@[b].instructions && nf.blocks@[b].preds@.len()
                == of.blocks@[b].preds@.len(),
        forall|b: int|
            of.blocks@.len() <= b < nf.blocks@.len() ==> (
            #[trigger] nf.blocks@[b]).instructions@.len() == 0,
    ensures
        phi_arity_ok(nf),
{
    assert forall|b: int, i: int| nf.pos_valid(b, i) implies (match (#[trigger] nf.instr_at(
        b,
        i,
    )).operation {
        Operation::Phi(vals) => vals@.len() == nf.blocks@[b].preds@.len(),
        _ => true,
    }) by {
        if b < of.blocks@.len() {
            assert(of.pos_valid(b, i));
            assert(nf.instr_at(b, i) == of.instr_at(b, i));
        }
    }
}

/// Splits every critical edge leaving a conditional branch of one function.
#[verifier::loop_isolation(false)]
#[verifier::rlimit(100)]
#[verifier::spinoff_prover]
fn split_function(func: &mut Function)
    requires
        old(func).wf(),
        old(func).preds_consistent(),
        old(func).succs_consistent(),
    ensures
        final(func).wf(),
        final(func).preds_consistent(),
        final(func).succs_consistent(),
        final(func).no_critical_edges(),
        final(func).values == old(func).values,
        final(func).variables == old(func).variables,
        final(func).name == old(func).name,
        final(func).ret_type == old(func).ret_type,
        final(func).args == old(func).args,
        final(func).linkage == old(func).linkage,
        final(func).id == old(func).id,
        final(func).blocks@.len() >= old(func).blocks@.len(),
        forall|b: int|
            0 <= b < old(func).blocks@.len() ==> {
                let nb = #[trigger] final(func).blocks@[b];
                let ob = old(func).blocks@[b];
                nb.instructions == ob.instructions && nb.name == ob.name && nb.id == ob.id
                    && nb.par_moves == ob.par_moves
            },
        forall|b: int|
            old(func).blocks@.len() <= b < final(func).blocks@.len() ==> (#[trigger] final(func).blocks@[b]).instructions@.len() == 0 && final(func).blocks@[b].par_moves@.len() == 0
                && (match final(func).blocks@[b].terminator {
                Terminator::Jump(t) => t.0 < old(func).blocks@.len(),
                _ => false,
            }) && final(func).blocks@[b].preds@.len() == 1,
        forall|b: int|
            0 <= b < old(func).blocks@.len() ==> (#[trigger] final(func).blocks@[b]).preds@.len()
                == old(func).blocks@[b].preds@.len(),
        terms_split_rel(*old(func), *final(func)),
        preds_split_rel(*old(func), *final(func)),
        phi_arity_ok(*old(func)) ==> phi_arity_ok(*final(func)),
{
    let orig_len = func.blocks.len();
    let mut u: usize = 0;
    while u < orig_len
        invariant
            func.wf(),
            func.preds_consistent(),
            func.succs_consistent(),
            orig_len == old(func).blocks@.len(),
            0 <= u <= orig_len,
            func.blocks@.len() >= orig_len,
            func.values == old(func).values,
            func.variables == old(func).variables,
            func.name == old(func).name,
            func.ret_type == old(func).ret_type,
            func.args == old(func).args,
            func.linkage == old(func).linkage,
            func.id == old(func).id,
            forall|b: int|
                0 <= b < orig_len ==> {
                    let nb = #[trigger] func.blocks@[b];
                    let ob = old(func).blocks@[b];
                    nb.instructions == ob.instructions && nb.name == ob.name && nb.id == ob.id
                        && nb.par_moves == ob.par_moves
                },
            forall|b: int|
                orig_len <= b < func.blocks@.len() ==> (#[trigger] func.blocks@[b]).instructions@.len() == 0 && func.blocks@[b].par_moves@.len() == 0
                    && (match func.blocks@[b].terminator {
                    Terminator::Jump(t) => t.0 < orig_len,
                    _ => false,
                }) && func.blocks@[b].preds@.len() == 1,
            forall|b: int|
                0 <= b < u ==> (match (#[trigger] func.blocks@[b]).terminator {
                    Terminator::Branch(_, a, bb) => a.0 < func.blocks@.len()
                        && func.blocks@[a.0 as int].preds@.len() == 1 && bb.0 < func.blocks@.len()
                        && func.blocks@[bb.0 as int].preds@.len() == 1,
                    _ => true,
                }),
            forall|b: int|
                u <= b < orig_len ==> (#[trigger] func.blocks@[b]).terminator == old(func).blocks@[b].terminator,
            forall|b: int|
                0 <= b < orig_len ==> (#[trigger] func.blocks@[b]).preds@.len() == old(func).blocks@[b].preds@.len(),
            terms_split_rel(*old(func), *func),
            preds_split_rel(*old(func), *func),
            phi_arity_ok(*old(func)) ==> phi_arity_ok(*func),
        decreases orig_len - u,
    {
        let is_branch = match func.blocks[u].terminator {
            Terminator::Branch(_, _, _) => true,
            _ => false,
        };
        if is_branch {
            let t1 = match func.blocks[u].terminator {
                Terminator::Branch(_, a, _) => a,
                _ => BlockId(0),
            };
            assert(t1.0 < func.blocks@.len());
            if func.blocks[t1.0].preds.len() > 1 {
                split_edge(func, u, true);
            } else {
                proof {
                    assert(seq_count_id(func.blocks@[t1.0 as int].preds@, BlockId(u))
                        == count_target(func.blocks@[u as int].terminator, BlockId(t1.0)));
                    assert(count_target(func.blocks@[u as int].terminator, BlockId(t1.0)) >= 1);
                }
            }
            let ghost a_mid = (match func.blocks@[u as int].terminator {
                Terminator::Branch(_, a, _) => a,
                _ => BlockId(0),
            });
            proof {
                assert(a_mid.0 < func.blocks@.len() && func.blocks@[a_mid.0 as int].preds@.len()
                    == 1);
            }
            let t2 = match func.blocks[u].terminator {
                Terminator::Branch(_, _, b) => b,
                _ => BlockId(0),
            };
            assert(t2.0 < func.blocks@.len());
            if func.blocks[t2.0].preds.len() > 1 {
                split_edge(func, u, false);
            } else {
                proof {
                    assert(seq_count_id(func.blocks@[t2.0 as int].preds@, BlockId(u))
                        == count_target(func.blocks@[u as int].terminator, BlockId(t2.0)));
                    assert(count_target(func.blocks@[u as int].terminator, BlockId(t2.0)) >= 1);
                }
            }
            proof {
                let nf = *func;
                match nf.blocks@[u as int].terminator {
                    Terminator::Branch(_, a, bb) => {
                        assert(a == a_mid);
                        assert(a.0 < nf.blocks@.len() && nf.blocks@[a.0 as int].preds@.len() == 1);
                        assert(bb.0 < nf.blocks@.len() && nf.blocks@[bb.0 as int].preds@.len()
                            == 1);
                    },
                    _ => {},
                }
            }
        }
        proof {
            if phi_arity_ok(*old(func)) {
                lemma_arity_after_split(*old(func), *func);
            }
        }
        u += 1;
    }
    proof {
        assert forall|u2: int, k: int|
            0 <= u2 < func.blocks@.len() && 0 <= k < term_targets(
                func.blocks@[u2].terminator,
            ).len() implies {
            let v = #[trigger] term_targets(func.blocks@[u2].terminator)[k];
            term_targets(func.blocks@[u2].terminator).len() == 1 || (v.0 < func.blocks@.len()
                && func.blocks@[v.0 as int].preds@.len() == 1)
        } by {
            match func.blocks@[u2].terminator {
                Terminator::Branch(_, a, bb) => {
                    assert(u2 < orig_len);
                },
                _ => {},
            }
        }
    }
}

/// Splits every critical edge in the module: afterwards every CFG edge has a
/// unique successor side or a unique predecessor side. Records the pass in
/// the log.
pub fn remove_critical_edges(module: &mut Module)
    requires
        old(module).wf(),
        old(module).preds_ok(),
        old(module).succs_ok(),
    ensures
        final(module).wf(),
        final(module).preds_ok(),
        final(module).succs_ok(),
        forall|f: int|
            0 <= f < final(module).functions@.len() ==> (
            #[trigger] final(module).functions@[f]).no_critical_edges(),
        final(module).algos_run@ == old(module).algos_run@.push(Algo::CriticalEdgeSplitting),
        final(module).analysis_stage == old(module).analysis_stage,
        final(module).name == old(module).name,
        final(module).functions@.len() == old(module).functions@.len(),
        forall|f: int|
            0 <= f < old(module).functions@.len() ==> {
                let nf = #[trigger] final(module).functions@[f];
                let of = old(module).functions@[f];
                &&& nf.values == of.values
                &&& nf.variables == of.variables
                &&& nf.name == of.name
                &&& nf.ret_type == of.ret_type
                &&& nf.args == of.args
                &&& nf.linkage == of.linkage
                &&& nf.id == of.id
                &&& nf.blocks@.len() >= of.blocks@.len()
                &&& forall|b: int|
                    0 <= b < of.blocks@.len() ==> (#[trigger] nf.blocks@[b]).instructions
                        == of.blocks@[b].instructions && nf.blocks@[b].name == of.blocks@[b].name
                        && nf.blocks@[b].id == of.blocks@[b].id && nf.blocks@[b].par_moves
                        == of.blocks@[b].par_moves
                &&& forall|b: int|
                    of.blocks@.len() <= b < nf.blocks@.len() ==> (
                    #[trigger] nf.blocks@[b]).instructions@.len() == 0
                        && nf.blocks@[b].par_moves@.len() == 0 && (match nf.blocks@[b].terminator {
                        Terminator::Jump(t) => t.0 < of.blocks@.len(),
                        _ => false,
                    }) && nf.blocks@[b].preds@.len() == 1
                &&& forall|b: int|
                    0 <= b < of.blocks@.len() ==> (#[trigger] nf.blocks@[b]).preds@.len()
                        == of.blocks@[b].preds@.len()
                &&& terms_split_rel(of, nf)
                &&& preds_split_rel(of, nf)
                &&& (phi_arity_ok(of) ==> phi_arity_ok(nf))
            },
{
    module.algos_run.push(Algo::CriticalEdgeSplitting);
    let nfuncs = module.functions.len();
    let mut fi: usize = 0;
    while fi < nfuncs
        invariant
            old(module).wf(),
            old(module).preds_ok(),
            old(module).succs_ok(),
            nfuncs == old(module).functions@.len(),
            module.functions@.len() == nfuncs,
            0 <= fi <= nfuncs,
            forall|f: int| fi <= f < nfuncs ==> #[trigger] module.functions@[f] == old(
                module,
            ).functions@[f],
            forall|f: int|
                0 <= f < fi ==> {
                    let nf = #[trigger] module.functions@[f];
                    let of = old(module).functions@[f];
                    &&& nf.wf()
                    &&& nf.preds_consistent()
                    &&& nf.succs_consistent()
                    &&& nf.no_critical_edges()
                    &&& nf.values == of.values
                    &&& nf.variables == of.variables
                    &&& nf.name == of.name
                    &&& nf.ret_type == of.ret_type
                    &&& nf.args == of.args
                    &&& nf.linkage == of.linkage
                    &&& nf.id == of.id
                    &&& nf.blocks@.len() >= of.blocks@.len()
                    &&& forall|b: int|
                        0 <= b < of.blocks@.len() ==> (#[trigger] nf.blocks@[b]).instructions
                            == of.blocks@[b].instructions && nf.blocks@[b].name
                            == of.blocks@[b].name && nf.blocks@[b].id == of.blocks@[b].id
                            && nf.blocks@[b].par_moves == of.blocks@[b].par_moves
                    &&& forall|b: int|
                        of.blocks@.len() <= b < nf.blocks@.len() ==> (
                        #[trigger] nf.blocks@[b]).instructions@.len() == 0
                            && nf.blocks@[b].par_moves@.len() == 0 && (match nf.blocks@[b].terminator {
                            Terminator::Jump(t) => t.0 < of.blocks@.len(),
                            _ => false,
                        }) && nf.blocks@[b].preds@.len() == 1
                    &&& forall|b: int|
                        0 <= b < of.blocks@.len() ==> (#[trigger] nf.blocks@[b]).preds@.len()
                            == of.blocks@[b].preds@.len()
                    &&& terms_split_rel(of, nf)
                    &&& preds_split_rel(of, nf)
                    &&& (phi_arity_ok(of) ==> phi_arity_ok(nf))
                },
            module.name == old(module).name,
            module.analysis_stage == old(module).analysis_stage,
            module.algos_run@ == old(module).algos_run@.push(Algo::CriticalEdgeSplitting),
        decreases nfuncs - fi,
    {
        proof {
            assert(old(module).functions@[fi as int].wf());
            assert(old(module).functions@[fi as int].preds_consistent());
            assert(old(module).functions@[fi as int].succs_consistent());
        }
        split_function(&mut module.functions[fi]);
        fi += 1;
    }
}

} // verus!
