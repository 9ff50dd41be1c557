//! SSA construction: gets rid of all load and store instructions, replacing
//! loads either with the value last stored in the same block or with a phi
//! over the definitions reaching each predecessor edge.

use vstd::prelude::*;

use crate::algos::delete_instructions::delete;
use crate::algos::delete_instructions::lemma_masked_filter_keeps;
use crate::algos::delete_instructions::masked_filter;
use crate::algos::delete_instructions::lemma_masked_filter_def_count;
use crate::ir::block_def_count;
use crate::ir::block_substituted;
use crate::ir::def_count;
use crate::ir::lemma_def_count_pointwise;
use crate::ir::lemma_def_count_upto_le;
use crate::algos::delete_instructions::lemma_masked_filter_len;
use crate::ir::instrs_upto;
use crate::ir::lemma_instrs_upto_delta;
use crate::ir::lemma_module_instrs_delta;
use crate::ir::lemma_seq_nat_sum_pos;
use crate::ir::module_instrs;
use crate::ir::seq_nat_sum;
use crate::ir::single_defs;
use crate::ir::count_target;
use crate::ir::is_load_or_store;
use crate::ir::lemma_same_cfg_consistency;
use crate::ir::lemma_arity_same_blocks;
use crate::ir::lemma_substitution_preserves_arity;
use crate::ir::phi_arity_ok;
use crate::ir::lemma_substitution_preserves_invariants;
use crate::ir::lemma_term_substituted_targets;
use crate::ir::same_cfg;
use crate::ir::term_targets;
use crate::ir::Algo;
use crate::ir::AnalysisStage;
use crate::ir::BasicBlock;
use crate::ir::BlockId;
use crate::ir::Function;
use crate::ir::Instruction;
use crate::ir::Module;
use crate::ir::Operation;
use crate::ir::ValueId;
use crate::ir::VariableId;

verus! {

/// The value stored into `var` by the last store of `s`, if any.
pub open spec fn last_store(s: Seq<Instruction>, var: VariableId) -> Option<ValueId>
    decreases s.len(),
{
    if s.len() == 0 {
        None
    } else {
        match s.last().operation {
            Operation::StoreVar(v, val) => if v == var {
                Some(val)
            } else {
                last_store(s.drop_last(), var)
            },
            _ => last_store(s.drop_last(), var),
        }
    }
}

/// Scans a block backwards for the last definition of `var`.
pub fn find_last_def(bb: &BasicBlock, var: VariableId) -> (r: Option<ValueId>)
    ensures
        r == last_store(bb.instructions@, var),
{
    let n = bb.instructions.len();
    let mut i: usize = n;
    proof {
        assert(bb.instructions@.take(n as int) =~= bb.instructions@);
    }
    while i > 0
        invariant
            0 <= i <= n,
            n == bb.instructions@.len(),
            last_store(bb.instructions@, var) == last_store(bb.instructions@.take(i as int), var),
        decreases i,
    {
        i -= 1;
        match &bb.instructions[i].operation {
            Operation::StoreVar(v, val) => {
                if *v == var {
                    proof {
                        assert(bb.instructions@.take(i + 1).last() == bb.instructions@[i as int]);
                    }
                    return Some(*val);
                }
            },
            _ => {},
        }
        proof {
            let pre = bb.instructions@.take(i + 1);
            assert(pre.last() == bb.instructions@[i as int]);
            assert(pre.drop_last() =~= bb.instructions@.take(i as int));
        }
    }
    proof {
        assert(bb.instructions@.take(0) =~= Seq::<Instruction>::empty());
    }
    None
}

/// How many entries of `s` are true.
pub open spec fn count_trues(s: Seq<bool>) -> nat
    decreases s.len(),
{
    if s.len() == 0 {
        0
    } else {
        count_trues(s.drop_last()) + (if s.last() {
            1nat
        } else {
            0
        })
    }
}

proof fn lemma_count_trues_le_len(s: Seq<bool>)
    ensures
        count_trues(s) <= s.len(),
    decreases s.len(),
{
    if s.len() > 0 {
        lemma_count_trues_le_len(s.drop_last());
    }
}

proof fn lemma_count_trues_update(s: Seq<bool>, i: int, b: bool)
    requires
        0 <= i < s.len(),
    ensures
        count_trues(s.update(i, b)) == count_trues(s) + (if b {
            1int
        } else {
            0
        }) - (if s[i] {
            1int
        } else {
            0
        }),
    decreases s.len(),
{
    let t = s.update(i, b);
    if i == s.len() - 1 {
        assert(t.drop_last() =~= s.drop_last());
    } else {
        assert(t.drop_last() =~= s.drop_last().update(i, b));
        assert(t.last() == s.last());
        lemma_count_trues_update(s.drop_last(), i, b);
    }
}

/// A definition the walk may hand out: the phi's own value (a back edge, a
/// re-entered path, or a missing or merging definition) or the value of some
/// block's last store to the variable.
pub open spec fn def_source_ok(f: Function, var: VariableId, to: ValueId, d: ValueId) -> bool {
    d == to || exists|b2: int|
        0 <= b2 < f.blocks@.len() && #[trigger] last_store(f.blocks@[b2].instructions@, var)
            == Some(d)
}

/// One collected definition per incoming edge: an edge from `stop_at`
/// contributes `to`, an edge from a block with a store contributes the stored
/// value, an edge resolved through the recursion contributes a definition
/// stored somewhere (or the phi's own value), and every definition lies
/// inside the value arena.
pub open spec fn edge_defs_ok(
    f: Function,
    block: BlockId,
    var: VariableId,
    stop_at: BlockId,
    to: ValueId,
    defs: Seq<ValueId>,
) -> bool {
    &&& defs.len() == f.blocks@[block.0 as int].preds@.len()
    &&& forall|j: int| 0 <= j < defs.len() ==> (#[trigger] defs[j]).0 < f.values@.len()
    &&& forall|j: int| 0 <= j < defs.len() ==> def_source_ok(f, var, to, #[trigger] defs[j])
    &&& forall|j: int|
        0 <= j < defs.len() && f.blocks@[block.0 as int].preds@[j] == stop_at ==> (
        #[trigger] defs[j]) == to
    &&& forall|j: int|
        0 <= j < defs.len() && f.blocks@[block.0 as int].preds@[j] != stop_at && last_store(
            f.blocks@[f.blocks@[block.0 as int].preds@[j].0 as int].instructions@,
            var,
        ) is Some ==> (#[trigger] defs[j]) == last_store(
            f.blocks@[f.blocks@[block.0 as int].preds@[j].0 as int].instructions@,
            var,
        ).unwrap()
}

/// Recursive walk through the predecessors of `block`, collecting exactly one
/// definition of `var` per incoming edge. A predecessor equal to `stop_at`
/// contributes `to` (this ties a back edge to the phi's own value); one with
/// a store contributes the stored value; any other is searched recursively.
/// Where the recursion does not come back with a single definition — the
/// predecessor re-enters the recursion path, has no incoming edges, or merges
/// several reaching definitions that only a phi of its own could express —
/// the edge again contributes `to`, so that the phi invariant of one operand
/// per predecessor always holds. The `marked` mask keeps the walk off blocks
/// already on the recursion path.
#[verifier::loop_isolation(false)]
fn find_defs_rec(
    func: &Function,
    block: BlockId,
    var: VariableId,
    stop_at: BlockId,
    to: ValueId,
    marked: Vec<bool>,
) -> (r: (Vec<ValueId>, Vec<bool>))
    requires
        func.wf(),
        block.0 < func.blocks@.len(),
        to.0 < func.values@.len(),
        marked@.len() == func.blocks@.len(),
    ensures
        r.1@ == marked@,
        edge_defs_ok(*func, block, var, stop_at, to, r.0@),
    decreases func.blocks@.len() - count_trues(marked@),
{
    proof {
        lemma_count_trues_le_len(marked@);
    }
    let mut defs: Vec<ValueId> = Vec::new();
    let ghost marked0 = marked@;
    let mut mk = marked;
    let npreds = func.blocks[block.0].preds.len();
    let mut j: usize = 0;
    while j < npreds
        invariant
            func.wf(),
            block.0 < func.blocks@.len(),
            to.0 < func.values@.len(),
            npreds == func.blocks@[block.0 as int].preds@.len(),
            0 <= j <= npreds,
            mk@.len() == func.blocks@.len(),
            mk@ == marked0,
            defs@.len() == j,
            forall|k: int| 0 <= k < defs@.len() ==> (#[trigger] defs@[k]).0 < func.values@.len(),
            forall|k: int|
                0 <= k < defs@.len() ==> def_source_ok(*func, var, to, #[trigger] defs@[k]),
            forall|jj: int|
                0 <= jj < j && func.blocks@[block.0 as int].preds@[jj] == stop_at ==> (
                #[trigger] defs@[jj]) == to,
            forall|jj: int|
                0 <= jj < j && func.blocks@[block.0 as int].preds@[jj] != stop_at && last_store(
                    func.blocks@[func.blocks@[block.0 as int].preds@[jj].0 as int].instructions@,
                    var,
                ) is Some ==> (#[trigger] defs@[jj]) == last_store(
                    func.blocks@[func.blocks@[block.0 as int].preds@[jj].0 as int].instructions@,
                    var,
                ).unwrap(),
        decreases npreds - j,
    {
        let p = func.blocks[block.0].preds[j];
        assert(p.0 < func.blocks@.len());
        let d: ValueId;
        if p == stop_at {
            d = to;
        } else {
            match find_last_def(&func.blocks[p.0], var) {
                Some(val) => {
                    proof {
                        let (b2, i2) = lemma_last_store_is_store_operand(
                            func.blocks@[p.0 as int].instructions@,
                            var,
                        );
                        assert(func.instr_wf(func.blocks@[p.0 as int].instructions@[i2]));
                        assert(last_store(func.blocks@[p.0 as int].instructions@, var) == Some(
                            val,
                        ));
                        assert(def_source_ok(*func, var, to, val));
                    }
                    d = val;
                },
                None => {
                    if !mk[p.0] {
                        let ghost before = mk@;
                        mk[p.0] = true;
                        proof {
                            lemma_count_trues_update(before, p.0 as int, true);
                            lemma_count_trues_le_len(mk@);
                            assert(before == marked0);
                            assert(count_trues(mk@) == count_trues(marked0) + 1);
                        }
                        let res = find_defs_rec(func, p, var, stop_at, to, mk);
                        let sub = res.0;
                        mk = res.1;
                        mk[p.0] = false;
                        proof {
                            assert(before.update(p.0 as int, true).update(p.0 as int, false)
                                =~= before);
                            assert(mk@ == before);
                        }
                        if sub.len() == 1 {
                            // The search came back with the one definition
                            // reaching this edge.
                            proof {
                                assert(def_source_ok(*func, var, to, sub@[0]));
                            }
                            d = sub[0];
                        } else {
                            // Missing or merging definitions behind this
                            // edge: tie to the phi's own value.
                            d = to;
                        }
                    } else {
                        // A predecessor already on the recursion path: the
                        // value flowing around the cycle is the phi's own.
                        d = to;
                    }
                },
            }
        }
        defs.push(d);
        j += 1;
    }
    (defs, mk)
}

/// Where `last_store` found a value, some store instruction carries it.
proof fn lemma_last_store_is_store_operand(s: Seq<Instruction>, var: VariableId) -> (r: (int, int))
    requires
        last_store(s, var) is Some,
    ensures
        0 <= r.1 < s.len(),
        s[r.1].operation == Operation::StoreVar(var, last_store(s, var).unwrap()),
    decreases s.len(),
{
    match s.last().operation {
        Operation::StoreVar(v, val) => {
            if v == var {
                (0, s.len() - 1)
            } else {
                let (_, i) = lemma_last_store_is_store_operand(s.drop_last(), var);
                assert(s.drop_last()[i] == s[i]);
                (0, i)
            }
        },
        _ => {
            let (_, i) = lemma_last_store_is_store_operand(s.drop_last(), var);
            assert(s.drop_last()[i] == s[i]);
            (0, i)
        },
    }
}

/// Collects the definitions of `var` reaching each predecessor edge of
/// `block`, stopping back-edges at `stop_at` by contributing `to`.
pub fn find_defs_in_preds(
    func: &Function,
    block_id: BlockId,
    var: VariableId,
    stop_at: BlockId,
    to: ValueId,
) -> (r: Vec<ValueId>)
    requires
        func.wf(),
        block_id.0 < func.blocks@.len(),
        to.0 < func.values@.len(),
    ensures
        edge_defs_ok(*func, block_id, var, stop_at, to, r@),
{
    let n = func.blocks.len();
    let mut marked: Vec<bool> = Vec::new();
    let mut i: usize = 0;
    while i < n
        invariant
            0 <= i <= n,
            marked@.len() == i,
        decreases n - i,
    {
        marked.push(false);
        i += 1;
    }
    let (defs, _) = find_defs_rec(func, block_id, var, stop_at, to, marked);
    defs
}

/// One SSA scan over a single function: stores record the block-local last
/// definition and are marked for deletion; loads with a local definition are
/// aliased to it and marked; loads without one become phis over the reaching
/// definitions. The returned mask says which instructions to delete.
#[verifier::loop_isolation(false)]
fn ssa_scan_function(func: &mut Function) -> (mask: Vec<Vec<bool>>)
    requires
        old(func).wf(),
        phi_arity_ok(*old(func)),
    ensures
        final(func).wf(),
        phi_arity_ok(*final(func)),
        same_cfg(*old(func), *final(func)),
        final(func).values@.len() == old(func).values@.len(),
        forall|v: int|
            0 <= v < old(func).values@.len() ==> (#[trigger] final(func).values@[v]).ty == old(func).values@[v].ty && final(func).values@[v].owner == old(func).values@[v].owner,
        final(func).variables == old(func).variables,
        final(func).name == old(func).name,
        final(func).ret_type == old(func).ret_type,
        final(func).args == old(func).args,
        final(func).linkage == old(func).linkage,
        final(func).id == old(func).id,
        forall|b: int|
            0 <= b < final(func).blocks@.len() ==> (#[trigger] final(func).blocks@[b]).instructions@.len() == old(func).blocks@[b].instructions@.len(),
        forall|b: int, i: int|
            0 <= b < final(func).blocks@.len() && 0 <= i < final(func).blocks@[b].instructions@.len() ==> (#[trigger] final(func).blocks@[b].instructions@[i]).yielded == old(func).blocks@[b].instructions@[i].yielded,
        mask@.len() == final(func).blocks@.len(),
        forall|b: int|
            0 <= b < final(func).blocks@.len() ==> (#[trigger] mask@[b])@.len() == final(func).blocks@[b].instructions@.len(),
        forall|b: int, i: int|
            0 <= b < final(func).blocks@.len() && 0 <= i < final(func).blocks@[b].instructions@.len() ==> (#[trigger] mask@[b]@[i]) || !is_load_or_store(
                final(func).blocks@[b].instructions@[i].operation,
            ),
{
    let nblocks = func.blocks.len();
    let mut mask: Vec<Vec<bool>> = Vec::new();
    let mut bi: usize = 0;
    while bi < nblocks
        invariant
            func.wf(),
            phi_arity_ok(*func),
            same_cfg(*old(func), *func),
            func.values@.len() == old(func).values@.len(),
            forall|v: int|
                0 <= v < old(func).values@.len() ==> (#[trigger] func.values@[v]).ty == old(func).values@[v].ty && func.values@[v].owner == old(func).values@[v].owner,
            func.variables == old(func).variables,
            func.name == old(func).name,
            func.ret_type == old(func).ret_type,
            func.args == old(func).args,
            func.linkage == old(func).linkage,
            func.id == old(func).id,
            forall|b: int|
                0 <= b < nblocks ==> (#[trigger] func.blocks@[b]).instructions@.len() == old(func).blocks@[b].instructions@.len(),
            forall|b: int, i: int|
                0 <= b < nblocks && 0 <= i < func.blocks@[b].instructions@.len() ==> (
                #[trigger] func.blocks@[b].instructions@[i]).yielded == old(func).blocks@[b].instructions@[i].yielded,
            0 <= bi <= nblocks,
            mask@.len() == bi,
            forall|b: int|
                0 <= b < bi ==> (#[trigger] mask@[b])@.len()
                    == func.blocks@[b].instructions@.len(),
            forall|b: int, i: int|
                0 <= b < bi && 0 <= i < func.blocks@[b].instructions@.len() ==> (
                #[trigger] mask@[b]@[i]) || !is_load_or_store(
                    func.blocks@[b].instructions@[i].operation,
                ),
        decreases nblocks - bi,
    {
        let nvars = func.variables.len();
        let mut last_defs: Vec<Option<ValueId>> = vec![None;nvars];
        let mut bmask: Vec<bool> = Vec::new();
        let ninstrs = func.blocks[bi].instructions.len();
        let mut ii: usize = 0;
        while ii < ninstrs
            invariant
                func.wf(),
                phi_arity_ok(*func),
                same_cfg(*old(func), *func),
                func.values@.len() == old(func).values@.len(),
                forall|v: int|
                    0 <= v < old(func).values@.len() ==> (#[trigger] func.values@[v]).ty == old(func).values@[v].ty && func.values@[v].owner == old(func).values@[v].owner,
                func.variables == old(func).variables,
                func.name == old(func).name,
                func.ret_type == old(func).ret_type,
                func.args == old(func).args,
                func.linkage == old(func).linkage,
                func.id == old(func).id,
                forall|b: int|
                    0 <= b < nblocks ==> (#[trigger] func.blocks@[b]).instructions@.len() == old(func).blocks@[b].instructions@.len(),
                forall|b: int, i: int|
                    0 <= b < nblocks && 0 <= i < func.blocks@[b].instructions@.len() ==> (
                    #[trigger] func.blocks@[b].instructions@[i]).yielded == old(func).blocks@[b].instructions@[i].yielded,
                0 <= ii <= ninstrs,
                ninstrs == func.blocks@[bi as int].instructions@.len(),
                bmask@.len() == ii,
                forall|b: int|
                    0 <= b < bi ==> (#[trigger] mask@[b])@.len()
                        == func.blocks@[b].instructions@.len(),
                forall|b: int, i: int|
                    0 <= b < bi && 0 <= i < func.blocks@[b].instructions@.len() ==> (
                    #[trigger] mask@[b]@[i]) || !is_load_or_store(
                        func.blocks@[b].instructions@[i].operation,
                    ),
                forall|i: int|
                    0 <= i < ii ==> (#[trigger] bmask@[i]) || !is_load_or_store(
                        func.blocks@[bi as int].instructions@[i].operation,
                    ),
                last_defs@.len() == nvars,
                forall|k: int|
                    0 <= k < nvars ==> (match #[trigger] last_defs@[k] {
                        Some(val) => val.0 < func.values@.len(),
                        None => true,
                    }),
            decreases ninstrs - ii,
        {
            let action = {
                proof {
                    assert(func.instr_wf(func.blocks@[bi as int].instructions@[ii as int]));
                }
                classify(&func.blocks[bi].instructions[ii])
            };
            match action {
                ScanAction::Store(var, val) => {
                    proof {
                        assert(func.instr_wf(func.blocks@[bi as int].instructions@[ii as int]));
                    }
                    last_defs[var.0] = Some(val);
                    bmask.push(true);
                },
                ScanAction::Load(var, u) => {
                    proof {
                        assert(func.instr_wf(func.blocks@[bi as int].instructions@[ii as int]));
                    }
                    let mut aliased = false;
                    match last_defs[var.0] {
                        Some(val) => {
                            // Alias: every use of the load's value becomes a
                            // use of the stored value; the load is deleted.
                            if u != val {
                                let ghost before = *func;
                                func.replace_children_with(u, val);
                                proof {
                                    lemma_substitution_preserves_invariants(before, *func, u, val);
                                    lemma_substitution_preserves_arity(before, *func, u, val);
                                    assert(same_cfg(before, *func)) by {
                                        assert forall|b: int|
                                            0 <= b < before.blocks@.len() implies {
                                            let nb = #[trigger] func.blocks@[b];
                                            let ob = before.blocks@[b];
                                            &&& nb.preds == ob.preds
                                            &&& nb.succs == ob.succs
                                            &&& nb.id == ob.id
                                            &&& nb.name == ob.name
                                            &&& nb.par_moves == ob.par_moves
                                            &&& term_targets(nb.terminator) == term_targets(
                                                ob.terminator,
                                            )
                                            &&& forall|v: BlockId|
                                                count_target(nb.terminator, v) == count_target(
                                                    ob.terminator,
                                                    v,
                                                )
                                        } by {
                                            assert(block_substituted(
                                                before.blocks@[b],
                                                func.blocks@[b],
                                                u,
                                                val,
                                            ));
                                            lemma_term_substituted_targets(
                                                before.blocks@[b].terminator,
                                                func.blocks@[b].terminator,
                                                u,
                                                val,
                                            );
                                        }
                                    }
                                }
                            }
                            aliased = true;
                        },
                        None => {
                            // No local definition: the load becomes a phi over
                            // the definitions reaching each incoming edge.
                            let defs = find_defs_in_preds(
                                func,
                                BlockId(bi),
                                var,
                                BlockId(bi),
                                u,
                            );
                            let ghost before = *func;
                            let phi = Instruction {
                                yielded: Some(u),
                                operation: Operation::Phi(defs),
                            };
                            func.replace_instruction(BlockId(bi), ii, phi);
                            proof {
                                assert forall|b: int, i: int|
                                    0 <= b < func.blocks@.len() && 0 <= i
                                        < func.blocks@[b].instructions@.len() implies func.instr_wf(
                                    #[trigger] func.blocks@[b].instructions@[i],
                                ) by {
                                    if b == bi && i == ii {
                                        assert(func.blocks@[b].instructions@[i] == phi);
                                    } else {
                                        assert(func.blocks@[b].instructions@[i]
                                            == before.blocks@[b].instructions@[i]);
                                        assert(before.instr_wf(before.blocks@[b].instructions@[i]));
                                    }
                                }
                                assert(func.wf());
                                assert forall|b: int, i: int|
                                    func.pos_valid(b, i) implies (match (#[trigger] func.instr_at(
                                    b,
                                    i,
                                )).operation {
                                    Operation::Phi(vals) => vals@.len()
                                        == func.blocks@[b].preds@.len(),
                                    _ => true,
                                }) by {
                                    if b == bi && i == ii {
                                        assert(func.instr_at(b, i) == phi);
                                        assert(edge_defs_ok(
                                            before,
                                            BlockId(bi),
                                            var,
                                            BlockId(bi),
                                            u,
                                            defs@,
                                        ));
                                        assert(func.blocks@[b].preds == before.blocks@[b].preds);
                                    } else {
                                        assert(func.instr_at(b, i) == before.instr_at(b, i));
                                        assert(before.pos_valid(b, i));
                                    }
                                }
                                assert(phi_arity_ok(*func));
                            }
                        },
                    }
                    bmask.push(aliased);
                },
                ScanAction::Other => {
                    bmask.push(false);
                },
            }
            ii += 1;
        }
        mask.push(bmask);
        bi += 1;
    }
    mask
}

/// Gets rid of all load and store instructions in every function of the
/// module, replacing them with direct value references and phi nodes, then
/// prunes the phis that have a single distinct operand. Records the pass in
/// the log and advances the analysis stage.
pub fn lower(module: &mut Module)
    requires
        old(module).wf(),
        forall|f: int|
            0 <= f < old(module).functions@.len() ==> phi_arity_ok(
                #[trigger] old(module).functions@[f],
            ),
    ensures
        final(module).wf(),
        forall|f: int|
            0 <= f < final(module).functions@.len() ==> (
            #[trigger] final(module).functions@[f]).no_load_store(),
        forall|f: int|
            0 <= f < final(module).functions@.len() ==> phi_arity_ok(
                #[trigger] final(module).functions@[f],
            ),
        forall|f: int, b: int, i: int|
            0 <= f < final(module).functions@.len() && final(module).functions@[f].pos_valid(b, i)
                ==> !trivial_phi(#[trigger] final(module).functions@[f].instr_at(b, i)),
        forall|f: int, v: int|
            0 <= f < old(module).functions@.len() && 0 <= v
                < old(module).functions@[f].values@.len() ==> (
            #[trigger] final(module).functions@[f].values@[v]).ty == old(
                module,
            ).functions@[f].values@[v].ty && final(module).functions@[f].values@[v].owner == old(
                module,
            ).functions@[f].values@[v].owner,
        final(module).algos_run@ == old(module).algos_run@.push(Algo::LowerToSsa),
        final(module).analysis_stage == AnalysisStage::LoweredToSSA,
        final(module).name == old(module).name,
        final(module).functions@.len() == old(module).functions@.len(),
        forall|f: int|
            0 <= f < old(module).functions@.len() ==> same_cfg(
                old(module).functions@[f],
                #[trigger] final(module).functions@[f],
            ),
        forall|f: int|
            0 <= f < old(module).functions@.len() ==> {
                let nf = #[trigger] final(module).functions@[f];
                let of = old(module).functions@[f];
                nf.values@.len() == of.values@.len() && nf.variables == of.variables && nf.name
                    == of.name && nf.ret_type == of.ret_type && nf.args == of.args && nf.linkage
                    == of.linkage && nf.id == of.id
            },
        forall|f: int, u: ValueId|
            0 <= f < old(module).functions@.len() ==> #[trigger] def_count(
                final(module).functions@[f],
                u,
            ) <= def_count(old(module).functions@[f], u),
        forall|f: int|
            0 <= f < old(module).functions@.len() && single_defs(old(module).functions@[f])
                ==> single_defs(#[trigger] final(module).functions@[f]),
        old(module).preds_ok() ==> final(module).preds_ok(),
        old(module).succs_ok() ==> final(module).succs_ok(),
{
    module.algos_run.push(Algo::LowerToSsa);
    module.analysis_stage = AnalysisStage::LoweredToSSA;
    let nfuncs = module.functions.len();
    let mut dels: Vec<Vec<Vec<bool>>> = Vec::new();
    let mut fi: usize = 0;
    while fi < nfuncs
        invariant
            old(module).wf(),
            forall|f: int|
                0 <= f < nfuncs ==> phi_arity_ok(#[trigger] old(module).functions@[f]),
            nfuncs == old(module).functions@.len(),
            module.functions@.len() == nfuncs,
            0 <= fi <= nfuncs,
            dels@.len() == fi,
            forall|f: int| fi <= f < nfuncs ==> #[trigger] module.functions@[f] == old(module).functions@[f],
            forall|f: int|
                0 <= f < fi ==> {
                    let nf = #[trigger] module.functions@[f];
                    let of = old(module).functions@[f];
                    nf.wf() && phi_arity_ok(nf) && same_cfg(of, nf) && nf.values@.len()
                        == of.values@.len() && nf.variables == of.variables && nf.name == of.name
                        && nf.ret_type == of.ret_type && nf.args == of.args && nf.linkage
                        == of.linkage && nf.id == of.id
                },
            forall|f: int, v: int|
                0 <= f < fi && 0 <= v < old(module).functions@[f].values@.len() ==> (
                #[trigger] module.functions@[f].values@[v]).ty == old(
                    module,
                ).functions@[f].values@[v].ty && module.functions@[f].values@[v].owner == old(
                    module,
                ).functions@[f].values@[v].owner,
            forall|f: int, b: int|
                0 <= f < fi && 0 <= b < module.functions@[f].blocks@.len() ==> (
                #[trigger] module.functions@[f].blocks@[b]).instructions@.len()
                    == old(module).functions@[f].blocks@[b].instructions@.len(),
            forall|f: int, b: int, i: int|
                0 <= f < fi && 0 <= b < module.functions@[f].blocks@.len() && 0 <= i
                    < module.functions@[f].blocks@[b].instructions@.len() ==> (
                #[trigger] module.functions@[f].blocks@[b].instructions@[i]).yielded == old(
                    module,
                ).functions@[f].blocks@[b].instructions@[i].yielded,
            forall|f: int|
                0 <= f < fi ==> (#[trigger] dels@[f])@.len()
                    == module.functions@[f].blocks@.len(),
            forall|f: int, b: int|
                0 <= f < fi && 0 <= b < module.functions@[f].blocks@.len() ==> (
                #[trigger] dels@[f]@[b])@.len()
                    == module.functions@[f].blocks@[b].instructions@.len(),
            forall|f: int, b: int, i: int|
                0 <= f < fi && 0 <= b < module.functions@[f].blocks@.len() && 0 <= i
                    < module.functions@[f].blocks@[b].instructions@.len() ==> (
                #[trigger] dels@[f]@[b]@[i]) || !is_load_or_store(
                    module.functions@[f].blocks@[b].instructions@[i].operation,
                ),
            module.name == old(module).name,
            module.analysis_stage == AnalysisStage::LoweredToSSA,
            module.algos_run@ == old(module).algos_run@.push(Algo::LowerToSsa),
        decreases nfuncs - fi,
    {
        proof {
            assert(old(module).functions@[fi as int].wf());
            assert(phi_arity_ok(old(module).functions@[fi as int]));
        }
        let fmask = ssa_scan_function(&mut module.functions[fi]);
        dels.push(fmask);
        fi += 1;
    }
    let ghost scanned = *module;
    delete(module, dels);
    proof {
        assert forall|f: int| 0 <= f < module.functions@.len() implies (
        #[trigger] module.functions@[f]).wf() && module.functions@[f].no_load_store() && same_cfg(
            scanned.functions@[f],
            module.functions@[f],
        ) && phi_arity_ok(module.functions@[f]) by {
            let sf = scanned.functions@[f];
            let nf = module.functions@[f];
            assert(sf.wf());
            assert(phi_arity_ok(sf));
            assert forall|b: int, i: int|
                0 <= b < nf.blocks@.len() && 0 <= i < nf.blocks@[b].instructions@.len() implies
                nf.instr_wf(#[trigger] nf.blocks@[b].instructions@[i]) && !is_load_or_store(
                nf.blocks@[b].instructions@[i].operation,
            ) && (match nf.blocks@[b].instructions@[i].operation {
                Operation::Phi(vals) => vals@.len() == nf.blocks@[b].preds@.len(),
                _ => true,
            }) by {
                let ghost preds_len = sf.blocks@[b].preds@.len();
                assert forall|i2: int|
                    0 <= i2 < sf.blocks@[b].instructions@.len() implies dels@[f]@[b]@[i2] || (
                sf.instr_wf(#[trigger] sf.blocks@[b].instructions@[i2]) && !is_load_or_store(
                    sf.blocks@[b].instructions@[i2].operation,
                ) && (match sf.blocks@[b].instructions@[i2].operation {
                    Operation::Phi(vals) => vals@.len() == preds_len,
                    _ => true,
                })) by {
                    assert(sf.instr_wf(sf.blocks@[b].instructions@[i2]));
                    assert(sf.pos_valid(b, i2) && sf.instr_at(b, i2)
                        == sf.blocks@[b].instructions@[i2]);
                }
                lemma_masked_filter_keeps(
                    sf.blocks@[b].instructions@,
                    dels@[f]@[b]@,
                    |ins: Instruction| sf.instr_wf(ins) && !is_load_or_store(ins.operation) && (
                    match ins.operation {
                        Operation::Phi(vals) => vals@.len() == preds_len,
                        _ => true,
                    }),
                );
                assert(nf.blocks@[b].instructions@ == masked_filter(
                    sf.blocks@[b].instructions@,
                    dels@[f]@[b]@,
                ));
                assert(nf.blocks@[b].preds == sf.blocks@[b].preds);
            }
            assert(nf.wf());
            assert forall|b: int, i: int| nf.pos_valid(b, i) implies (match (
            #[trigger] nf.instr_at(b, i)).operation {
                Operation::Phi(vals) => vals@.len() == nf.blocks@[b].preds@.len(),
                _ => true,
            }) by {
                assert(nf.instr_at(b, i) == nf.blocks@[b].instructions@[i]);
            }
        }
    }
    let ghost deleted = *module;
    remove_singleelem_phis(module);
    proof {
        assert forall|f: int, u: ValueId| 0 <= f < old(module).functions@.len() implies
            #[trigger] def_count(module.functions@[f], u) <= def_count(
            old(module).functions@[f],
            u,
        ) by {
            let of = old(module).functions@[f];
            let sf = scanned.functions@[f];
            let df = deleted.functions@[f];
            lemma_def_count_pointwise(of, sf, u, of.blocks@.len() as int);
            assert forall|b2: int|
                0 <= b2 < sf.blocks@.len() implies block_def_count(
                (#[trigger] df.blocks@[b2]).instructions@,
                u,
            ) <= block_def_count(sf.blocks@[b2].instructions@, u) by {
                assert(df.blocks@[b2].instructions@ == masked_filter(
                    sf.blocks@[b2].instructions@,
                    dels@[f]@[b2]@,
                ));
                lemma_masked_filter_def_count(sf.blocks@[b2].instructions@, dels@[f]@[b2]@, u);
            }
            lemma_def_count_upto_le(sf, df, u, sf.blocks@.len() as int);
            assert(def_count(module.functions@[f], u) <= def_count(df, u));
        }
        assert forall|f: int|
            0 <= f < old(module).functions@.len() && single_defs(old(module).functions@[f])
                implies single_defs(#[trigger] module.functions@[f]) by {
            assert forall|u: ValueId| #[trigger] def_count(module.functions@[f], u) <= 1 by {
                assert(def_count(module.functions@[f], u) <= def_count(
                    old(module).functions@[f],
                    u,
                ));
                assert(def_count(old(module).functions@[f], u) <= 1);
            }
        }
        assert forall|f: int| 0 <= f < old(module).functions@.len() implies same_cfg(
            old(module).functions@[f],
            #[trigger] module.functions@[f],
        ) by {
            assert(same_cfg(old(module).functions@[f], scanned.functions@[f]));
            assert(same_cfg(scanned.functions@[f], module.functions@[f]));
        }
        if old(module).preds_ok() {
            assert forall|f: int| 0 <= f < module.functions@.len() implies (
            #[trigger] module.functions@[f]).preds_consistent() by {
                lemma_same_cfg_consistency(old(module).functions@[f], module.functions@[f]);
            }
        }
        if old(module).succs_ok() {
            assert forall|f: int| 0 <= f < module.functions@.len() implies (
            #[trigger] module.functions@[f]).succs_consistent() by {
                lemma_same_cfg_consistency(old(module).functions@[f], module.functions@[f]);
            }
        }
    }
}

/// Drops all occurrences of `child` from the use list of `owner`.
/// `s` with every occurrence of `x` dropped, order kept.
pub open spec fn remove_all_ids(s: Seq<ValueId>, x: ValueId) -> Seq<ValueId>
    decreases s.len(),
{
    if s.len() == 0 {
        Seq::empty()
    } else {
        let rest = remove_all_ids(s.drop_last(), x);
        if s.last() == x {
            rest
        } else {
            rest.push(s.last())
        }
    }
}

/// Whatever survives the removal was already there.
pub proof fn lemma_remove_all_contains(s: Seq<ValueId>, x: ValueId, c: ValueId)
    requires
        remove_all_ids(s, x).contains(c),
    ensures
        s.contains(c),
    decreases s.len(),
{
    if s.len() > 0 {
        let rest = remove_all_ids(s.drop_last(), x);
        if s.last() == x {
            lemma_remove_all_contains(s.drop_last(), x, c);
            let i = choose|i: int| 0 <= i < s.drop_last().len() && s.drop_last()[i] == c;
            assert(s[i] == c);
        } else {
            let r = remove_all_ids(s, x);
            let i = choose|i: int| 0 <= i < r.len() && r[i] == c;
            if i < rest.len() {
                assert(rest[i] == c);
                assert(rest.contains(c));
                lemma_remove_all_contains(s.drop_last(), x, c);
                let i2 = choose|i2: int| 0 <= i2 < s.drop_last().len() && s.drop_last()[i2] == c;
                assert(s[i2] == c);
            } else {
                assert(r[i] == s.last());
                assert(s[s.len() - 1] == c);
            }
        }
    }
}

pub(crate) fn remove_child_occurrences(func: &mut Function, owner: ValueId, child: ValueId)
    requires
        old(func).wf(),
        owner.0 < old(func).values@.len(),
    ensures
        final(func).wf(),
        final(func).blocks == old(func).blocks,
        final(func).variables == old(func).variables,
        final(func).name == old(func).name,
        final(func).ret_type == old(func).ret_type,
        final(func).args == old(func).args,
        final(func).linkage == old(func).linkage,
        final(func).id == old(func).id,
        final(func).values@.len() == old(func).values@.len(),
        forall|k: int|
            0 <= k < old(func).values@.len() && k != owner.0 ==> #[trigger] final(func).values@[k]
                == old(func).values@[k],
        final(func).values@[owner.0 as int].ty == old(func).values@[owner.0 as int].ty,
        final(func).values@[owner.0 as int].owner == old(func).values@[owner.0 as int].owner,
        final(func).values@[owner.0 as int].children@ == remove_all_ids(
            old(func).values@[owner.0 as int].children@,
            child,
        ),
        forall|c: int|
            0 <= c < final(func).values@[owner.0 as int].children@.len() ==> old(func).values@[owner.0 as int].children@.contains(
                #[trigger] final(func).values@[owner.0 as int].children@[c],
            ),
        forall|w: int, c: ValueId|
            0 <= w < old(func).values@.len() && (#[trigger] final(func).values@[w].children@.contains(c)) ==> old(func).values@[w].children@.contains(c),
        forall|w: int|
            0 <= w < old(func).values@.len() && old(func).values@[w].children@.len() == 0 ==> (
            #[trigger] final(func).values@[w]).children@.len() == 0,
        forall|w: int|
            0 <= w < old(func).values@.len() ==> (#[trigger] final(func).values@[w]).ty == old(func).values@[w].ty && final(func).values@[w].owner == old(func).values@[w].owner,
{
    let mut moved: Vec<ValueId> = Vec::new();
    {
        let val_ref = &mut func.values[owner.0];
        core::mem::swap(&mut moved, &mut val_ref.children);
    }
    let ghost orig = moved@;
    let mut kept: Vec<ValueId> = Vec::new();
    let n = moved.len();
    let mut i: usize = 0;
    while i < n
        invariant
            n == orig.len(),
            0 <= i <= n,
            moved@ == orig.skip(i as int),
            kept@ == remove_all_ids(orig.take(i as int), child),
            forall|c: int| 0 <= c < kept@.len() ==> orig.contains(#[trigger] kept@[c]),
        decreases n - i,
    {
        let x = moved.remove(0);
        assert(x == orig[i as int]);
        proof {
            assert(orig.take(i + 1).drop_last() =~= orig.take(i as int));
            assert(orig.take(i + 1).last() == orig[i as int]);
        }
        if x != child {
            kept.push(x);
        }
        proof {
            assert(moved@ =~= orig.skip(i + 1));
        }
        i += 1;
    }
    proof {
        assert(orig.take(n as int) =~= orig);
    }
    let val_ref = &mut func.values[owner.0];
    core::mem::swap(&mut val_ref.children, &mut kept);
    proof {
        let nf = *func;
        let of = *old(func);
        assert forall|b: int, i2: int|
            0 <= b < nf.blocks@.len() && 0 <= i2 < nf.blocks@[b].instructions@.len() implies
            nf.instr_wf(#[trigger] nf.blocks@[b].instructions@[i2]) by {
            assert(of.instr_wf(of.blocks@[b].instructions@[i2]));
        }
        assert forall|v: int, c: int|
            0 <= v < nf.values@.len() && 0 <= c < nf.values@[v].children@.len() implies (
        #[trigger] nf.values@[v].children@[c]).0 < nf.values@.len() by {
            if v == owner.0 {
                let x = nf.values@[v].children@[c];
                assert(orig.contains(x));
                let w = choose|w: int| 0 <= w < orig.len() && orig[w] == x;
                assert(of.values@[owner.0 as int].children@[w].0 < of.values@.len());
            } else {
                assert(nf.values@[v] == of.values@[v]);
                assert(of.values@[v].children@[c].0 < of.values@.len());
            }
        }
        assert(nf.wf());
        assert forall|w: int, c: ValueId|
            0 <= w < of.values@.len() && (#[trigger] nf.values@[w].children@.contains(c)) implies
            of.values@[w].children@.contains(c) by {
            if w == owner.0 {
                lemma_remove_all_contains(of.values@[w].children@, child, c);
            } else {
                assert(nf.values@[w] == of.values@[w]);
            }
        }
        assert forall|w: int|
            0 <= w < of.values@.len() && of.values@[w].children@.len() == 0 implies (
        #[trigger] nf.values@[w]).children@.len() == 0 by {
            if w != owner.0 {
                assert(nf.values@[w] == of.values@[w]);
            }
        }
    }
}

/// A phi whose operand list names exactly one distinct value other than the
/// phi's own yield: the shape that pruning removes.
pub open spec fn trivial_phi(instr: Instruction) -> bool {
    match instr.operation {
        Operation::Phi(vals) => vals@.len() >= 1 && (forall|k: int|
            0 <= k < vals@.len() ==> #[trigger] vals@[k] == vals@[0]) && instr.yielded != Some(
            vals@[0],
        ),
        _ => false,
    }
}

proof fn lemma_count_trues_pos(s: Seq<bool>, i: int)
    requires
        0 <= i < s.len(),
        s[i],
    ensures
        count_trues(s) >= 1,
    decreases s.len(),
{
    if i < s.len() - 1 {
        lemma_count_trues_pos(s.drop_last(), i);
    }
}

proof fn lemma_seq_nat_sum_zero(s: Seq<nat>)
    requires
        forall|i: int| 0 <= i < s.len() ==> s[i] == 0,
    ensures
        seq_nat_sum(s) == 0,
    decreases s.len(),
{
    if s.len() > 0 {
        lemma_seq_nat_sum_zero(s.drop_last());
    }
}

/// Whether any entry of a two-level mask is set.
fn mask_any(mask: &Vec<Vec<bool>>) -> (r: bool)
    ensures
        r == exists|b: int, i: int|
            0 <= b < mask@.len() && 0 <= i < mask@[b]@.len() && #[trigger] mask@[b]@[i],
{
    let nb = mask.len();
    let mut b: usize = 0;
    while b < nb
        invariant
            0 <= b <= nb,
            nb == mask@.len(),
            forall|b2: int, i: int|
                0 <= b2 < b && 0 <= i < mask@[b2]@.len() ==> !(#[trigger] mask@[b2]@[i]),
        decreases nb - b,
    {
        let ni = mask[b].len();
        let mut i: usize = 0;
        while i < ni
            invariant
                0 <= b < nb,
                nb == mask@.len(),
                ni == mask@[b as int]@.len(),
                0 <= i <= ni,
                forall|b2: int, i2: int|
                    0 <= b2 < b && 0 <= i2 < mask@[b2]@.len() ==> !(#[trigger] mask@[b2]@[i2]),
                forall|i2: int| 0 <= i2 < i ==> !mask@[b as int]@[i2],
            decreases ni - i,
        {
            if mask[b][i] {
                return true;
            }
            i += 1;
        }
        b += 1;
    }
    false
}

/// Reads the yield and the single distinct operand of a trivial phi, if this
/// instruction is one.
fn trivial_parts(instr: &Instruction) -> (r: Option<(ValueId, ValueId)>)
    requires
        instr.operation is Phi ==> instr.yielded is Some,
    ensures
        (match r {
            Some((u, v0)) => trivial_phi(*instr) && instr.yielded == Some(u) && u != v0 && (
            match instr.operation {
                Operation::Phi(vals) => vals@.len() >= 1 && v0 == vals@[0],
                _ => false,
            }),
            None => !trivial_phi(*instr),
        }),
{
    match &instr.operation {
        Operation::Phi(vals) => {
            if vals.len() > 0 {
                let v0 = vals[0];
                let mut all_eq = true;
                let nvals = vals.len();
                let mut k: usize = 1;
                while k < nvals
                    invariant
                        1 <= k <= nvals,
                        nvals == vals@.len(),
                        v0 == vals@[0],
                        all_eq == (forall|kk: int| 0 < kk < k ==> vals@[kk] == v0),
                    decreases nvals - k,
                {
                    if vals[k] != v0 {
                        all_eq = false;
                    }
                    k += 1;
                }
                let u = instr.yielded.unwrap();
                if all_eq && u != v0 {
                    proof {
                        assert forall|kk: int| 0 <= kk < vals@.len() implies #[trigger] vals@[kk]
                            == vals@[0] by {}
                    }
                    Some((u, v0))
                } else {
                    None
                }
            } else {
                None
            }
        },
        _ => None,
    }
}

/// One pruning scan over a single function: every phi whose operands name one
/// single distinct value, other than the phi's own, is aliased to that value
/// and marked for deletion. When it marks nothing, the function is untouched
/// and holds no such phi.
#[verifier::loop_isolation(false)]
fn prune_scan_function(func: &mut Function) -> (mask: Vec<Vec<bool>>)
    requires
        old(func).wf(),
        phi_arity_ok(*old(func)),
    ensures
        final(func).wf(),
        phi_arity_ok(*final(func)),
        same_cfg(*old(func), *final(func)),
        final(func).values@.len() == old(func).values@.len(),
        forall|v: int|
            0 <= v < old(func).values@.len() ==> (#[trigger] final(func).values@[v]).ty == old(func).values@[v].ty && final(func).values@[v].owner == old(func).values@[v].owner,
        (forall|b: int, i: int|
            0 <= b < mask@.len() && 0 <= i < mask@[b]@.len() ==> !(#[trigger] mask@[b]@[i])) ==> (
        *final(func) == *old(func) && (forall|b: int, i: int|
            final(func).pos_valid(b, i) ==> !trivial_phi(#[trigger] final(func).instr_at(b, i)))),
        final(func).variables == old(func).variables,
        final(func).name == old(func).name,
        final(func).ret_type == old(func).ret_type,
        final(func).args == old(func).args,
        final(func).linkage == old(func).linkage,
        final(func).id == old(func).id,
        mask@.len() == final(func).blocks@.len(),
        forall|b: int|
            0 <= b < final(func).blocks@.len() ==> (#[trigger] final(func).blocks@[b]).instructions@.len() == old(func).blocks@[b].instructions@.len(),
        forall|b: int, i: int|
            0 <= b < final(func).blocks@.len() && 0 <= i < final(func).blocks@[b].instructions@.len() ==> (#[trigger] final(func).blocks@[b].instructions@[i]).yielded == old(func).blocks@[b].instructions@[i].yielded,
        forall|b: int|
            0 <= b < final(func).blocks@.len() ==> (#[trigger] mask@[b])@.len() == final(func).blocks@[b].instructions@.len(),
        forall|b: int, i: int|
            0 <= b < final(func).blocks@.len() && 0 <= i < final(func).blocks@[b].instructions@.len() ==> is_load_or_store(
                (#[trigger] final(func).blocks@[b].instructions@[i]).operation,
            ) == is_load_or_store(old(func).blocks@[b].instructions@[i].operation),
{
    let nblocks = func.blocks.len();
    let mut mask: Vec<Vec<bool>> = Vec::new();
    let mut bi: usize = 0;
    while bi < nblocks
        invariant
            func.wf(),
            phi_arity_ok(*func),
            same_cfg(*old(func), *func),
            func.values@.len() == old(func).values@.len(),
            forall|v: int|
                0 <= v < old(func).values@.len() ==> (#[trigger] func.values@[v]).ty == old(func).values@[v].ty && func.values@[v].owner == old(func).values@[v].owner,
            func.variables == old(func).variables,
            func.name == old(func).name,
            func.ret_type == old(func).ret_type,
            func.args == old(func).args,
            func.linkage == old(func).linkage,
            func.id == old(func).id,
            forall|b: int|
                0 <= b < nblocks ==> (#[trigger] func.blocks@[b]).instructions@.len() == old(func).blocks@[b].instructions@.len(),
            forall|b: int, i: int|
                0 <= b < nblocks && 0 <= i < func.blocks@[b].instructions@.len()
                    ==> is_load_or_store(
                    (#[trigger] func.blocks@[b].instructions@[i]).operation,
                ) == is_load_or_store(old(func).blocks@[b].instructions@[i].operation),
            forall|b: int, i: int|
                0 <= b < nblocks && 0 <= i < func.blocks@[b].instructions@.len() ==> (
                #[trigger] func.blocks@[b].instructions@[i]).yielded == old(func).blocks@[b].instructions@[i].yielded,
            0 <= bi <= nblocks,
            mask@.len() == bi,
            forall|b: int|
                0 <= b < bi ==> (#[trigger] mask@[b])@.len()
                    == func.blocks@[b].instructions@.len(),
            (forall|b: int, i: int|
                0 <= b < bi && 0 <= i < mask@[b]@.len() ==> !(#[trigger] mask@[b]@[i])) ==> (
            *func == *old(func) && (forall|b: int, i: int|
                0 <= b < bi && 0 <= i < func.blocks@[b].instructions@.len() ==> !trivial_phi(
                    #[trigger] func.blocks@[b].instructions@[i],
                ))),
        decreases nblocks - bi,
    {
        let mut bmask: Vec<bool> = Vec::new();
        let ninstrs = func.blocks[bi].instructions.len();
        let mut ii: usize = 0;
        while ii < ninstrs
            invariant
                func.wf(),
                phi_arity_ok(*func),
                same_cfg(*old(func), *func),
                func.values@.len() == old(func).values@.len(),
                forall|v: int|
                    0 <= v < old(func).values@.len() ==> (#[trigger] func.values@[v]).ty == old(func).values@[v].ty && func.values@[v].owner == old(func).values@[v].owner,
                func.variables == old(func).variables,
                func.name == old(func).name,
                func.ret_type == old(func).ret_type,
                func.args == old(func).args,
                func.linkage == old(func).linkage,
                func.id == old(func).id,
                forall|b: int|
                    0 <= b < nblocks ==> (#[trigger] func.blocks@[b]).instructions@.len() == old(func).blocks@[b].instructions@.len(),
                forall|b: int, i: int|
                    0 <= b < nblocks && 0 <= i < func.blocks@[b].instructions@.len()
                        ==> is_load_or_store(
                        (#[trigger] func.blocks@[b].instructions@[i]).operation,
                    ) == is_load_or_store(old(func).blocks@[b].instructions@[i].operation),
                forall|b: int, i: int|
                    0 <= b < nblocks && 0 <= i < func.blocks@[b].instructions@.len() ==> (
                    #[trigger] func.blocks@[b].instructions@[i]).yielded == old(func).blocks@[b].instructions@[i].yielded,
                0 <= ii <= ninstrs,
                ninstrs == func.blocks@[bi as int].instructions@.len(),
                bmask@.len() == ii,
                forall|b: int|
                    0 <= b < bi ==> (#[trigger] mask@[b])@.len()
                        == func.blocks@[b].instructions@.len(),
                mask@.len() == bi,
                ((forall|b: int, i: int|
                    0 <= b < bi && 0 <= i < mask@[b]@.len() ==> !(#[trigger] mask@[b]@[i]))
                    && (forall|i: int| 0 <= i < ii ==> !(#[trigger] bmask@[i]))) ==> (*func == *old(func) && (forall|b: int, i: int|
                    0 <= b < bi && 0 <= i < func.blocks@[b].instructions@.len() ==> !trivial_phi(
                        #[trigger] func.blocks@[b].instructions@[i],
                    )) && (forall|i: int|
                    0 <= i < ii ==> !trivial_phi(
                        #[trigger] func.blocks@[bi as int].instructions@[i],
                    ))),
            decreases ninstrs - ii,
        {
            proof {
                assert(func.instr_wf(func.blocks@[bi as int].instructions@[ii as int]));
            }
            let trivial = trivial_parts(&func.blocks[bi].instructions[ii]);
            let mut marked = false;
            match trivial {
                Some((u, v0)) => {
                    proof {
                        assert(func.instr_wf(func.blocks@[bi as int].instructions@[ii as int]));
                    }
                    let ghost pre_rm = *func;
                    remove_child_occurrences(func, v0, u);
                    let ghost before = *func;
                    proof {
                        lemma_arity_same_blocks(pre_rm, before);
                    }
                    func.replace_children_with(u, v0);
                    proof {
                        lemma_substitution_preserves_invariants(before, *func, u, v0);
                        lemma_substitution_preserves_arity(before, *func, u, v0);
                        assert(same_cfg(before, *func)) by {
                            assert forall|b: int| 0 <= b < before.blocks@.len() implies {
                                let nb = #[trigger] func.blocks@[b];
                                let ob = before.blocks@[b];
                                &&& nb.preds == ob.preds
                                &&& nb.succs == ob.succs
                                &&& nb.id == ob.id
                                &&& nb.name == ob.name
                                &&& nb.par_moves == ob.par_moves
                                &&& term_targets(nb.terminator) == term_targets(ob.terminator)
                                &&& forall|v: BlockId|
                                    count_target(nb.terminator, v) == count_target(
                                        ob.terminator,
                                        v,
                                    )
                            } by {
                                assert(block_substituted(
                                    before.blocks@[b],
                                    func.blocks@[b],
                                    u,
                                    v0,
                                ));
                                lemma_term_substituted_targets(
                                    before.blocks@[b].terminator,
                                    func.blocks@[b].terminator,
                                    u,
                                    v0,
                                );
                            }
                        }
                    }
                    marked = true;
                },
                None => {},
            }
            let ghost bm0 = bmask@;
            bmask.push(marked);
            proof {
                if (forall|b: int, i: int|
                    0 <= b < bi && 0 <= i < mask@[b]@.len() ==> !(#[trigger] mask@[b]@[i])) && (
                forall|i: int| 0 <= i < ii + 1 ==> !(#[trigger] bmask@[i])) {
                    assert(bmask@[ii as int] == marked);
                    assert(!marked);
                    assert forall|i: int| 0 <= i < ii implies !(#[trigger] bm0[i]) by {
                        assert(bm0[i] == bmask@[i]);
                    }
                    assert(*func == *old(func));
                    assert(trivial is None);
                    assert(!trivial_phi(func.blocks@[bi as int].instructions@[ii as int]));
                    assert forall|i: int| 0 <= i < ii + 1 implies !trivial_phi(
                        #[trigger] func.blocks@[bi as int].instructions@[i],
                    ) by {}
                }
            }
            ii += 1;
        }
        let ghost m0 = mask@;
        mask.push(bmask);
        proof {
            if forall|b: int, i: int|
                0 <= b < bi + 1 && 0 <= i < mask@[b]@.len() ==> !(#[trigger] mask@[b]@[i]) {
                assert forall|b: int, i: int|
                    0 <= b < bi && 0 <= i < m0[b]@.len() implies !(#[trigger] m0[b]@[i]) by {
                    assert(m0[b] == mask@[b]);
                }
                assert forall|i: int| 0 <= i < bmask@.len() implies !(#[trigger] bmask@[i]) by {
                    assert(mask@[bi as int]@[i] == bmask@[i]);
                }
                assert(*func == *old(func));
                assert forall|b: int, i: int|
                    0 <= b < bi + 1 && 0 <= i < func.blocks@[b].instructions@.len() implies
                    !trivial_phi(#[trigger] func.blocks@[b].instructions@[i]) by {}
            }
        }
        bi += 1;
    }
    mask
}

/// One pruning round over the whole module: scans every function, deletes the
/// phis found trivial, and reports whether anything changed. When nothing
/// changed, the module is exactly as it was and holds no trivial phi.
#[verifier::loop_isolation(false)]
fn prune_round(module: &mut Module) -> (changed: bool)
    requires
        old(module).wf(),
        forall|f: int|
            0 <= f < old(module).functions@.len() ==> phi_arity_ok(
                #[trigger] old(module).functions@[f],
            ),
    ensures
        final(module).wf(),
        forall|f: int|
            0 <= f < final(module).functions@.len() ==> phi_arity_ok(
                #[trigger] final(module).functions@[f],
            ),
        final(module).functions@.len() == old(module).functions@.len(),
        forall|f: int|
            0 <= f < old(module).functions@.len() ==> same_cfg(
                old(module).functions@[f],
                #[trigger] final(module).functions@[f],
            ),
        forall|f: int|
            0 <= f < old(module).functions@.len() ==> {
                let nf = #[trigger] final(module).functions@[f];
                let of = old(module).functions@[f];
                nf.values@.len() == of.values@.len() && nf.variables == of.variables && nf.name
                    == of.name && nf.ret_type == of.ret_type && nf.args == of.args && nf.linkage
                    == of.linkage && nf.id == of.id
            },
        forall|f: int, v: int|
            0 <= f < old(module).functions@.len() && 0 <= v
                < old(module).functions@[f].values@.len() ==> (
            #[trigger] final(module).functions@[f].values@[v]).ty == old(
                module,
            ).functions@[f].values@[v].ty && final(module).functions@[f].values@[v].owner == old(
                module,
            ).functions@[f].values@[v].owner,
        forall|f: int|
            0 <= f < old(module).functions@.len() && old(module).functions@[f].no_load_store() ==> (
            #[trigger] final(module).functions@[f]).no_load_store(),
        forall|f: int, u: ValueId|
            0 <= f < old(module).functions@.len() ==> #[trigger] def_count(
                final(module).functions@[f],
                u,
            ) <= def_count(old(module).functions@[f], u),
        final(module).name == old(module).name,
        final(module).analysis_stage == old(module).analysis_stage,
        final(module).algos_run == old(module).algos_run,
        !changed ==> final(module).functions@ == old(module).functions@ && (forall|
            f: int,
            b: int,
            i: int,
        |
            0 <= f < final(module).functions@.len() && final(module).functions@[f].pos_valid(b, i)
                ==> !trivial_phi(#[trigger] final(module).functions@[f].instr_at(b, i))),
        changed ==> module_instrs(*final(module)) < module_instrs(*old(module)),
{
    let nfuncs = module.functions.len();
    let mut dels: Vec<Vec<Vec<bool>>> = Vec::new();
    let mut any = false;
    let mut fi: usize = 0;
    while fi < nfuncs
        invariant
            old(module).wf(),
            forall|f: int|
                0 <= f < nfuncs ==> phi_arity_ok(#[trigger] old(module).functions@[f]),
            nfuncs == old(module).functions@.len(),
            module.functions@.len() == nfuncs,
            0 <= fi <= nfuncs,
            dels@.len() == fi,
            forall|f: int| fi <= f < nfuncs ==> #[trigger] module.functions@[f] == old(module).functions@[f],
            forall|f: int|
                0 <= f < fi ==> {
                    let nf = #[trigger] module.functions@[f];
                    let of = old(module).functions@[f];
                    nf.wf() && phi_arity_ok(nf) && same_cfg(of, nf) && nf.values@.len()
                        == of.values@.len() && nf.variables == of.variables && nf.name == of.name
                        && nf.ret_type == of.ret_type && nf.args == of.args && nf.linkage
                        == of.linkage && nf.id == of.id
                },
            forall|f: int, v: int|
                0 <= f < fi && 0 <= v < old(module).functions@[f].values@.len() ==> (
                #[trigger] module.functions@[f].values@[v]).ty == old(
                    module,
                ).functions@[f].values@[v].ty && module.functions@[f].values@[v].owner == old(
                    module,
                ).functions@[f].values@[v].owner,
            forall|f: int|
                0 <= f < fi ==> (#[trigger] dels@[f])@.len()
                    == module.functions@[f].blocks@.len(),
            forall|f: int, b: int|
                0 <= f < fi && 0 <= b < module.functions@[f].blocks@.len() ==> (
                #[trigger] dels@[f]@[b])@.len()
                    == module.functions@[f].blocks@[b].instructions@.len(),
            forall|f: int, b: int|
                0 <= f < fi && 0 <= b < module.functions@[f].blocks@.len() ==> (
                #[trigger] module.functions@[f].blocks@[b]).instructions@.len()
                    == old(module).functions@[f].blocks@[b].instructions@.len(),
            forall|f: int, b: int, i: int|
                0 <= f < fi && 0 <= b < module.functions@[f].blocks@.len() && 0 <= i
                    < module.functions@[f].blocks@[b].instructions@.len() ==> is_load_or_store(
                    (#[trigger] module.functions@[f].blocks@[b].instructions@[i]).operation,
                ) == is_load_or_store(
                    old(module).functions@[f].blocks@[b].instructions@[i].operation,
                ),
            forall|f: int, b: int, i: int|
                0 <= f < fi && 0 <= b < module.functions@[f].blocks@.len() && 0 <= i
                    < module.functions@[f].blocks@[b].instructions@.len() ==> (
                #[trigger] module.functions@[f].blocks@[b].instructions@[i]).yielded == old(
                    module,
                ).functions@[f].blocks@[b].instructions@[i].yielded,
            any ==> exists|f: int, b: int, i: int|
                0 <= f < fi && 0 <= b < dels@[f]@.len() && 0 <= i < dels@[f]@[b]@.len()
                    && #[trigger] dels@[f]@[b]@[i],
            !any ==> forall|f: int|
                0 <= f < fi ==> #[trigger] module.functions@[f] == old(module).functions@[f] && (
                forall|b: int, i: int|
                    module.functions@[f].pos_valid(b, i) ==> !trivial_phi(
                        #[trigger] module.functions@[f].instr_at(b, i),
                    )),
            module.name == old(module).name,
            module.analysis_stage == old(module).analysis_stage,
            module.algos_run == old(module).algos_run,
        decreases nfuncs - fi,
    {
        proof {
            assert(old(module).functions@[fi as int].wf());
            assert(phi_arity_ok(old(module).functions@[fi as int]));
        }
        let fmask = prune_scan_function(&mut module.functions[fi]);
        let fa = mask_any(&fmask);
        let ghost dels0 = dels@;
        let ghost any0 = any;
        any = any || fa;
        dels.push(fmask);
        proof {
            if any {
                if fa {
                    let (b0, i0) = choose|b: int, i: int|
                        0 <= b < fmask@.len() && 0 <= i < fmask@[b]@.len()
                            && #[trigger] fmask@[b]@[i];
                    assert(dels@[fi as int] == fmask);
                    assert(dels@[fi as int]@[b0]@[i0]);
                } else {
                    assert(any0);
                    let (f0, b0, i0) = choose|f: int, b: int, i: int|
                        0 <= f < fi && 0 <= b < dels0[f]@.len() && 0 <= i < dels0[f]@[b]@.len()
                            && #[trigger] dels0[f]@[b]@[i];
                    assert(dels@[f0] == dels0[f0]);
                    assert(dels@[f0]@[b0]@[i0]);
                }
            }
        }
        fi += 1;
    }
    if !any {
        proof {
            assert(module.functions@ =~= old(module).functions@);
            assert forall|f: int, u: ValueId| 0 <= f < nfuncs implies #[trigger] def_count(
                module.functions@[f],
                u,
            ) <= def_count(old(module).functions@[f], u) by {
                assert(module.functions@[f] == old(module).functions@[f]);
            }
        }
        return false;
    }
    let ghost scanned = *module;
    delete(module, dels);
    proof {
        assert forall|f: int| 0 <= f < module.functions@.len() implies (
        #[trigger] module.functions@[f]).wf() && phi_arity_ok(module.functions@[f]) && same_cfg(
            scanned.functions@[f],
            module.functions@[f],
        ) && (old(module).functions@[f].no_load_store()
            ==> module.functions@[f].no_load_store()) by {
            let sf = scanned.functions@[f];
            let nf = module.functions@[f];
            assert forall|b: int, i: int|
                0 <= b < nf.blocks@.len() && 0 <= i < nf.blocks@[b].instructions@.len() implies
                nf.instr_wf(#[trigger] nf.blocks@[b].instructions@[i]) && (old(module).functions@[f].no_load_store() ==> !is_load_or_store(
                nf.blocks@[b].instructions@[i].operation,
            )) && (match nf.blocks@[b].instructions@[i].operation {
                Operation::Phi(vals) => vals@.len() == nf.blocks@[b].preds@.len(),
                _ => true,
            }) by {
                assert(sf.wf());
                assert(same_cfg(old(module).functions@[f], sf));
                assert(sf.blocks@[b].instructions@.len() == old(
                    module,
                ).functions@[f].blocks@[b].instructions@.len());
                assert forall|i2: int|
                    0 <= i2 < sf.blocks@[b].instructions@.len() implies sf.instr_wf(
                    #[trigger] sf.blocks@[b].instructions@[i2],
                ) && (old(module).functions@[f].no_load_store() ==> !is_load_or_store(
                    sf.blocks@[b].instructions@[i2].operation,
                )) && (match sf.blocks@[b].instructions@[i2].operation {
                    Operation::Phi(vals) => vals@.len() == sf.blocks@[b].preds@.len(),
                    _ => true,
                }) by {
                    assert(is_load_or_store(sf.blocks@[b].instructions@[i2].operation)
                        == is_load_or_store(
                        old(module).functions@[f].blocks@[b].instructions@[i2].operation,
                    ));
                    assert(sf.pos_valid(b, i2) && sf.instr_at(b, i2)
                        == sf.blocks@[b].instructions@[i2]);
                }
                let ghost preds_len = sf.blocks@[b].preds@.len();
                if old(module).functions@[f].no_load_store() {
                    lemma_masked_filter_keeps(
                        sf.blocks@[b].instructions@,
                        dels@[f]@[b]@,
                        |ins: Instruction| sf.instr_wf(ins) && !is_load_or_store(ins.operation)
                            && (match ins.operation {
                            Operation::Phi(vals) => vals@.len() == preds_len,
                            _ => true,
                        }),
                    );
                } else {
                    lemma_masked_filter_keeps(
                        sf.blocks@[b].instructions@,
                        dels@[f]@[b]@,
                        |ins: Instruction| sf.instr_wf(ins) && (match ins.operation {
                            Operation::Phi(vals) => vals@.len() == preds_len,
                            _ => true,
                        }),
                    );
                }
                assert(nf.blocks@[b].instructions@ == masked_filter(
                    sf.blocks@[b].instructions@,
                    dels@[f]@[b]@,
                ));
                assert(nf.blocks@[b].preds == sf.blocks@[b].preds);
            }
            assert(nf.wf());
            assert forall|b: int, i: int| nf.pos_valid(b, i) implies (match (
            #[trigger] nf.instr_at(b, i)).operation {
                Operation::Phi(vals) => vals@.len() == nf.blocks@[b].preds@.len(),
                _ => true,
            }) by {
                assert(nf.instr_at(b, i) == nf.blocks@[b].instructions@[i]);
            }
        }
        assert forall|f: int, u: ValueId| 0 <= f < old(module).functions@.len() implies
            #[trigger] def_count(module.functions@[f], u) <= def_count(
            old(module).functions@[f],
            u,
        ) by {
            let of = old(module).functions@[f];
            let sf = scanned.functions@[f];
            let nf = module.functions@[f];
            lemma_def_count_pointwise(of, sf, u, of.blocks@.len() as int);
            assert forall|b2: int|
                0 <= b2 < sf.blocks@.len() implies block_def_count(
                (#[trigger] nf.blocks@[b2]).instructions@,
                u,
            ) <= block_def_count(sf.blocks@[b2].instructions@, u) by {
                assert(nf.blocks@[b2].instructions@ == masked_filter(
                    sf.blocks@[b2].instructions@,
                    dels@[f]@[b2]@,
                ));
                lemma_masked_filter_def_count(sf.blocks@[b2].instructions@, dels@[f]@[b2]@, u);
            }
            lemma_def_count_upto_le(sf, nf, u, sf.blocks@.len() as int);
        }
        // The deleted round removed at least one instruction, so the module
        // shrank.
        assert(module_instrs(*module) < module_instrs(*old(module))) by {
            let om = *old(module);
            let sm = scanned;
            let nm = *module;
            let zero = Seq::new(om.functions@.len(), |f: int| 0nat);
            assert forall|f: int| 0 <= f < om.functions@.len() implies (
            #[trigger] sm.functions@[f]).blocks@.len() == om.functions@[f].blocks@.len()
                && instrs_upto(sm.functions@[f], sm.functions@[f].blocks@.len() as int) + zero[f]
                == instrs_upto(om.functions@[f], om.functions@[f].blocks@.len() as int) by {
                let zf = Seq::new(om.functions@[f].blocks@.len(), |b: int| 0nat);
                assert forall|b2: int|
                    0 <= b2 < om.functions@[f].blocks@.len() implies (
                #[trigger] sm.functions@[f].blocks@[b2]).instructions@.len() + zf[b2]
                    == om.functions@[f].blocks@[b2].instructions@.len() by {}
                lemma_instrs_upto_delta(
                    om.functions@[f],
                    sm.functions@[f],
                    om.functions@[f].blocks@.len() as int,
                    zf,
                );
                assert(zf.take(om.functions@[f].blocks@.len() as int) =~= zf);
                lemma_seq_nat_sum_zero(zf);
            }
            lemma_module_instrs_delta(om, sm, om.functions@.len() as int, zero);
            assert(zero.take(om.functions@.len() as int) =~= zero);
            lemma_seq_nat_sum_zero(zero);
            let delta = Seq::new(
                sm.functions@.len(),
                |f: int|
                    seq_nat_sum(
                        Seq::new(
                            sm.functions@[f].blocks@.len(),
                            |b: int| count_trues(dels@[f]@[b]@),
                        ),
                    ),
            );
            assert forall|f: int| 0 <= f < sm.functions@.len() implies (
            #[trigger] nm.functions@[f]).blocks@.len() == sm.functions@[f].blocks@.len()
                && instrs_upto(nm.functions@[f], nm.functions@[f].blocks@.len() as int) + delta[f]
                == instrs_upto(sm.functions@[f], sm.functions@[f].blocks@.len() as int) by {
                let df = Seq::new(
                    sm.functions@[f].blocks@.len(),
                    |b: int| count_trues(dels@[f]@[b]@),
                );
                assert forall|b2: int|
                    0 <= b2 < sm.functions@[f].blocks@.len() implies (
                #[trigger] nm.functions@[f].blocks@[b2]).instructions@.len() + df[b2]
                    == sm.functions@[f].blocks@[b2].instructions@.len() by {
                    assert(nm.functions@[f].blocks@[b2].instructions@ == masked_filter(
                        sm.functions@[f].blocks@[b2].instructions@,
                        dels@[f]@[b2]@,
                    ));
                    lemma_masked_filter_len(
                        sm.functions@[f].blocks@[b2].instructions@,
                        dels@[f]@[b2]@,
                    );
                }
                lemma_instrs_upto_delta(
                    sm.functions@[f],
                    nm.functions@[f],
                    sm.functions@[f].blocks@.len() as int,
                    df,
                );
                assert(df.take(sm.functions@[f].blocks@.len() as int) =~= df);
            }
            lemma_module_instrs_delta(sm, nm, sm.functions@.len() as int, delta);
            assert(delta.take(sm.functions@.len() as int) =~= delta);
            let (f0, b0, i0) = choose|f: int, b: int, i: int|
                0 <= f < dels@.len() && 0 <= b < dels@[f]@.len() && 0 <= i < dels@[f]@[b]@.len()
                    && #[trigger] dels@[f]@[b]@[i];
            lemma_count_trues_pos(dels@[f0]@[b0]@, i0);
            let df0 = Seq::new(
                sm.functions@[f0].blocks@.len(),
                |b: int| count_trues(dels@[f0]@[b]@),
            );
            lemma_seq_nat_sum_pos(df0, b0);
            lemma_seq_nat_sum_pos(delta, f0);
        }
    }
    true
}

/// Prunes, until none is left, every phi whose operand list names exactly one
/// distinct value other than its own: uses are rewritten to that value and
/// the phi is deleted. The design asks for a single scan; scanning until the
/// module settles only removes more of the same shape, and afterwards no such
/// phi remains anywhere. The degenerate phi whose single distinct operand is
/// its own yield stays: rewriting uses of a value to itself means nothing,
/// and deleting its only definition would orphan them.
pub fn remove_singleelem_phis(module: &mut Module)
    requires
        old(module).wf(),
        forall|f: int|
            0 <= f < old(module).functions@.len() ==> phi_arity_ok(
                #[trigger] old(module).functions@[f],
            ),
    ensures
        final(module).wf(),
        forall|f: int|
            0 <= f < final(module).functions@.len() ==> phi_arity_ok(
                #[trigger] final(module).functions@[f],
            ),
        final(module).functions@.len() == old(module).functions@.len(),
        forall|f: int, b: int, i: int|
            0 <= f < final(module).functions@.len() && final(module).functions@[f].pos_valid(b, i)
                ==> !trivial_phi(#[trigger] final(module).functions@[f].instr_at(b, i)),
        forall|f: int|
            0 <= f < old(module).functions@.len() ==> same_cfg(
                old(module).functions@[f],
                #[trigger] final(module).functions@[f],
            ),
        forall|f: int|
            0 <= f < old(module).functions@.len() ==> {
                let nf = #[trigger] final(module).functions@[f];
                let of = old(module).functions@[f];
                nf.values@.len() == of.values@.len() && nf.variables == of.variables && nf.name
                    == of.name && nf.ret_type == of.ret_type && nf.args == of.args && nf.linkage
                    == of.linkage && nf.id == of.id
            },
        forall|f: int, v: int|
            0 <= f < old(module).functions@.len() && 0 <= v
                < old(module).functions@[f].values@.len() ==> (
            #[trigger] final(module).functions@[f].values@[v]).ty == old(
                module,
            ).functions@[f].values@[v].ty && final(module).functions@[f].values@[v].owner == old(
                module,
            ).functions@[f].values@[v].owner,
        forall|f: int|
            0 <= f < old(module).functions@.len() && old(module).functions@[f].no_load_store() ==> (
            #[trigger] final(module).functions@[f]).no_load_store(),
        forall|f: int, u: ValueId|
            0 <= f < old(module).functions@.len() ==> #[trigger] def_count(
                final(module).functions@[f],
                u,
            ) <= def_count(old(module).functions@[f], u),
        final(module).name == old(module).name,
        final(module).analysis_stage == old(module).analysis_stage,
        final(module).algos_run == old(module).algos_run,
{
    loop
        invariant_except_break
            module.wf(),
            forall|f: int|
                0 <= f < module.functions@.len() ==> phi_arity_ok(
                    #[trigger] module.functions@[f],
                ),
            module.functions@.len() == old(module).functions@.len(),
            forall|f: int|
                0 <= f < old(module).functions@.len() ==> same_cfg(
                    old(module).functions@[f],
                    #[trigger] module.functions@[f],
                ),
            forall|f: int|
                0 <= f < old(module).functions@.len() ==> {
                    let nf = #[trigger] module.functions@[f];
                    let of = old(module).functions@[f];
                    nf.values@.len() == of.values@.len() && nf.variables == of.variables && nf.name
                        == of.name && nf.ret_type == of.ret_type && nf.args == of.args && nf.linkage
                        == of.linkage && nf.id == of.id
                },
            forall|f: int, v: int|
                0 <= f < old(module).functions@.len() && 0 <= v
                    < old(module).functions@[f].values@.len() ==> (
                #[trigger] module.functions@[f].values@[v]).ty == old(
                    module,
                ).functions@[f].values@[v].ty && module.functions@[f].values@[v].owner == old(
                    module,
                ).functions@[f].values@[v].owner,
            forall|f: int|
                0 <= f < old(module).functions@.len() && old(
                    module,
                ).functions@[f].no_load_store() ==> (
                #[trigger] module.functions@[f]).no_load_store(),
            forall|f: int, u: ValueId|
                0 <= f < old(module).functions@.len() ==> #[trigger] def_count(
                    module.functions@[f],
                    u,
                ) <= def_count(old(module).functions@[f], u),
            module.name == old(module).name,
            module.analysis_stage == old(module).analysis_stage,
            module.algos_run == old(module).algos_run,
        ensures
            module.wf(),
            forall|f: int|
                0 <= f < module.functions@.len() ==> phi_arity_ok(
                    #[trigger] module.functions@[f],
                ),
            module.functions@.len() == old(module).functions@.len(),
            forall|f: int, b: int, i: int|
                0 <= f < module.functions@.len() && module.functions@[f].pos_valid(b, i)
                    ==> !trivial_phi(#[trigger] module.functions@[f].instr_at(b, i)),
            forall|f: int|
                0 <= f < old(module).functions@.len() ==> same_cfg(
                    old(module).functions@[f],
                    #[trigger] module.functions@[f],
                ),
            forall|f: int|
                0 <= f < old(module).functions@.len() ==> {
                    let nf = #[trigger] module.functions@[f];
                    let of = old(module).functions@[f];
                    nf.values@.len() == of.values@.len() && nf.variables == of.variables && nf.name
                        == of.name && nf.ret_type == of.ret_type && nf.args == of.args && nf.linkage
                        == of.linkage && nf.id == of.id
                },
            forall|f: int, v: int|
                0 <= f < old(module).functions@.len() && 0 <= v
                    < old(module).functions@[f].values@.len() ==> (
                #[trigger] module.functions@[f].values@[v]).ty == old(
                    module,
                ).functions@[f].values@[v].ty && module.functions@[f].values@[v].owner == old(
                    module,
                ).functions@[f].values@[v].owner,
            forall|f: int|
                0 <= f < old(module).functions@.len() && old(
                    module,
                ).functions@[f].no_load_store() ==> (
                #[trigger] module.functions@[f]).no_load_store(),
            forall|f: int, u: ValueId|
                0 <= f < old(module).functions@.len() ==> #[trigger] def_count(
                    module.functions@[f],
                    u,
                ) <= def_count(old(module).functions@[f], u),
            module.name == old(module).name,
            module.analysis_stage == old(module).analysis_stage,
            module.algos_run == old(module).algos_run,
        decreases module_instrs(*module),
    {
        let ghost pre = *module;
        let changed = prune_round(module);
        proof {
            assert forall|f: int| 0 <= f < old(module).functions@.len() implies same_cfg(
                old(module).functions@[f],
                #[trigger] module.functions@[f],
            ) by {
                assert(same_cfg(old(module).functions@[f], pre.functions@[f]));
                assert(same_cfg(pre.functions@[f], module.functions@[f]));
            }
            assert forall|f: int, u: ValueId|
                0 <= f < old(module).functions@.len() implies #[trigger] def_count(
                module.functions@[f],
                u,
            ) <= def_count(old(module).functions@[f], u) by {
                assert(def_count(module.functions@[f], u) <= def_count(pre.functions@[f], u));
                assert(def_count(pre.functions@[f], u) <= def_count(
                    old(module).functions@[f],
                    u,
                ));
            }
        }
        if !changed {
            proof {
                assert(module.functions@ == pre.functions@);
            }
            break;
        }
    }
}

/// What the scan of one instruction sees.
enum ScanAction {
    Store(VariableId, ValueId),
    Load(VariableId, ValueId),
    Other,
}

/// Classifies an instruction for the SSA scan.
fn classify(instr: &Instruction) -> (a: ScanAction)
    requires
        instr.operation is LoadVar ==> instr.yielded is Some,
    ensures
        (match a {
            ScanAction::Store(var, val) => instr.operation == Operation::StoreVar(var, val),
            ScanAction::Load(var, u) => instr.operation == Operation::LoadVar(var)
                && instr.yielded == Some(u),
            ScanAction::Other => !is_load_or_store(instr.operation),
        }),
{
    match &instr.operation {
        Operation::StoreVar(var, val) => ScanAction::Store(*var, *val),
        Operation::LoadVar(var) => ScanAction::Load(*var, instr.yielded.unwrap()),
        _ => ScanAction::Other,
    }
}

} // verus!
