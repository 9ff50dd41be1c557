//! Phi lowering: each phi becomes one parallel move per predecessor edge,
//! appended to the predecessor block that the operand position names. The
//! phis themselves are deleted. Critical edges must have been split first, so
//! that a move placed in a predecessor affects only this edge.

use vstd::prelude::*;

use crate::algos::delete_instructions::delete;
use crate::algos::delete_instructions::lemma_masked_filter_keeps;
use crate::algos::delete_instructions::masked_filter;
use crate::ir::is_load_or_store;
use crate::ir::is_phi;
use crate::ir::log_contains;
use crate::ir::phi_arity_ok;
use crate::ir::Algo;
use crate::ir::BlockId;
use crate::ir::Function;
use crate::ir::Instruction;
use crate::ir::Module;
use crate::ir::Operation;
use crate::ir::ValueId;

verus! {

/// The moves that one phi (yielding `u`, operands `vals`, predecessor list
/// `preds`) contributes to block `q`, taking the first `k` operand positions.
pub open spec fn moves_from_phi(
    u: ValueId,
    vals: Seq<ValueId>,
    preds: Seq<BlockId>,
    q: BlockId,
    k: int,
) -> Seq<(ValueId, ValueId)>
    decreases k,
{
    if k <= 0 {
        Seq::empty()
    } else {
        moves_from_phi(u, vals, preds, q, k - 1) + (if 0 <= k - 1 < preds.len() && 0 <= k - 1
            < vals.len() && preds[k - 1] == q {
            seq![(u, vals[k - 1])]
        } else {
            Seq::empty()
        })
    }
}

/// The moves contributed to block `q` by one instruction.
pub open spec fn instr_moves(f: Function, b: int, i: int, q: BlockId) -> Seq<(ValueId, ValueId)> {
    match f.blocks@[b].instructions@[i].operation {
        Operation::Phi(vals) => match f.blocks@[b].instructions@[i].yielded {
            Some(u) => moves_from_phi(u, vals@, f.blocks@[b].preds@, q, vals@.len() as int),
            None => Seq::empty(),
        },
        _ => Seq::empty(),
    }
}

/// The moves contributed to block `q` by the first `i` instructions of block
/// `b`.
pub open spec fn block_moves_upto(f: Function, b: int, i: int, q: BlockId) -> Seq<
    (ValueId, ValueId),
>
    decreases i,
{
    if i <= 0 {
        Seq::empty()
    } else {
        block_moves_upto(f, b, i - 1, q) + instr_moves(f, b, i - 1, q)
    }
}

/// The moves contributed to block `q` by the phis of the first `b` blocks.
pub open spec fn moves_upto_block(f: Function, b: int, q: BlockId) -> Seq<(ValueId, ValueId)>
    decreases b,
{
    if b <= 0 {
        Seq::empty()
    } else {
        moves_upto_block(f, b - 1, q) + block_moves_upto(
            f,
            b - 1,
            f.blocks@[b - 1].instructions@.len() as int,
            q,
        )
    }
}

/// All parallel moves that phi lowering appends to block `q`.
pub open spec fn phi_moves_for(f: Function, q: BlockId) -> Seq<(ValueId, ValueId)> {
    moves_upto_block(f, f.blocks@.len() as int, q)
}

/// Reads the pieces of a phi instruction, if this is one.
fn phi_parts(instr: &Instruction) -> (r: Option<(ValueId, Vec<ValueId>)>)
    requires
        instr.operation is Phi ==> instr.yielded is Some,
    ensures
        (match r {
            Some((u, vc)) => (match instr.operation {
                Operation::Phi(vs) => vs@ == vc@,
                _ => false,
            }) && instr.yielded == Some(u),
            None => !is_phi(instr.operation),
        }),
{
    match &instr.operation {
        Operation::Phi(vals) => {
            let mut vc: Vec<ValueId> = Vec::new();
            let nvals = vals.len();
            let mut k: usize = 0;
            while k < nvals
                invariant
                    0 <= k <= nvals,
                    nvals == vals@.len(),
                    vc@ == vals@.take(k as int),
                decreases nvals - k,
            {
                vc.push(vals[k]);
                proof {
                    assert(vals@.take(k + 1) =~= vals@.take(k as int).push(vals@[k as int]));
                }
                k += 1;
            }
            proof {
                assert(vals@.take(nvals as int) =~= vals@);
            }
            Some((instr.yielded.unwrap(), vc))
        },
        _ => None,
    }
}

/// Lowers every phi of one function into parallel moves on its predecessor
/// blocks and returns the deletion mask that marks the phis.
#[verifier::loop_isolation(false)]
fn phi_scan_function(func: &mut Function) -> (mask: Vec<Vec<bool>>)
    requires
        old(func).wf(),
        phi_arity_ok(*old(func)),
    ensures
        final(func).wf(),
        final(func).values == old(func).values,
        final(func).variables == old(func).variables,
        final(func).name == old(func).name,
        final(func).ret_type == old(func).ret_type,
        final(func).args == old(func).args,
        final(func).linkage == old(func).linkage,
        final(func).id == old(func).id,
        final(func).blocks@.len() == old(func).blocks@.len(),
        forall|b: int|
            0 <= b < old(func).blocks@.len() ==> {
                let nb = #[trigger] final(func).blocks@[b];
                let ob = old(func).blocks@[b];
                nb.instructions == ob.instructions && nb.name == ob.name && nb.id == ob.id
                    && nb.preds == ob.preds && nb.succs == ob.succs && nb.terminator
                    == ob.terminator
            },
        forall|b: int|
            0 <= b < old(func).blocks@.len() ==> (#[trigger] final(func).blocks@[b]).par_moves@
                == old(func).blocks@[b].par_moves@ + phi_moves_for(
                *old(func),
                BlockId(b as usize),
            ),
        mask@.len() == old(func).blocks@.len(),
        forall|b: int|
            0 <= b < old(func).blocks@.len() ==> (#[trigger] mask@[b])@.len() == old(func).blocks@[b].instructions@.len(),
        forall|b: int, i: int|
            0 <= b < old(func).blocks@.len() && 0 <= i
                < old(func).blocks@[b].instructions@.len() ==> ((#[trigger] mask@[b]@[i]) <==>
            is_phi(old(func).blocks@[b].instructions@[i].operation)),
{
    let nblocks = func.blocks.len();
    let mut mask: Vec<Vec<bool>> = Vec::new();
    let mut bi: usize = 0;
    while bi < nblocks
        invariant
            func.wf(),
            func.values == old(func).values,
            func.variables == old(func).variables,
            func.name == old(func).name,
            func.ret_type == old(func).ret_type,
            func.args == old(func).args,
            func.linkage == old(func).linkage,
            func.id == old(func).id,
            nblocks == old(func).blocks@.len(),
            func.blocks@.len() == nblocks,
            forall|b: int|
                0 <= b < nblocks ==> {
                    let nb = #[trigger] func.blocks@[b];
                    let ob = old(func).blocks@[b];
                    nb.instructions == ob.instructions && nb.name == ob.name && nb.id == ob.id
                        && nb.preds == ob.preds && nb.succs == ob.succs && nb.terminator
                        == ob.terminator
                },
            forall|q: int|
                0 <= q < nblocks ==> (#[trigger] func.blocks@[q]).par_moves@ == old(func).blocks@[q].par_moves@ + moves_upto_block(
                    *old(func),
                    bi as int,
                    BlockId(q as usize),
                ),
            0 <= bi <= nblocks,
            mask@.len() == bi,
            forall|b: int|
                0 <= b < bi ==> (#[trigger] mask@[b])@.len() == old(func).blocks@[b].instructions@.len(),
            forall|b: int, i: int|
                0 <= b < bi && 0 <= i < old(func).blocks@[b].instructions@.len() ==> ((
                #[trigger] mask@[b]@[i]) <==> is_phi(
                    old(func).blocks@[b].instructions@[i].operation,
                )),
        decreases nblocks - bi,
    {
        let mut bmask: Vec<bool> = Vec::new();
        let ninstrs = func.blocks[bi].instructions.len();
        let mut ii: usize = 0;
        while ii < ninstrs
            invariant
                func.wf(),
                func.values == old(func).values,
                func.variables == old(func).variables,
                func.name == old(func).name,
                func.ret_type == old(func).ret_type,
                func.args == old(func).args,
                func.linkage == old(func).linkage,
                func.id == old(func).id,
                nblocks == old(func).blocks@.len(),
                func.blocks@.len() == nblocks,
                0 <= bi < nblocks,
                ninstrs == old(func).blocks@[bi as int].instructions@.len(),
                forall|b: int|
                    0 <= b < nblocks ==> {
                        let nb = #[trigger] func.blocks@[b];
                        let ob = old(func).blocks@[b];
                        nb.instructions == ob.instructions && nb.name == ob.name && nb.id == ob.id
                            && nb.preds == ob.preds && nb.succs == ob.succs && nb.terminator
                            == ob.terminator
                    },
                forall|q: int|
                    0 <= q < nblocks ==> (#[trigger] func.blocks@[q]).par_moves@ == old(func).blocks@[q].par_moves@ + moves_upto_block(*old(func), bi as int, BlockId(q as usize))
                        + block_moves_upto(*old(func), bi as int, ii as int, BlockId(q as usize)),
                0 <= ii <= ninstrs,
                bmask@.len() == ii,
                forall|i: int|
                    0 <= i < ii ==> ((#[trigger] bmask@[i]) <==> is_phi(
                        old(func).blocks@[bi as int].instructions@[i].operation,
                    )),
                mask@.len() == bi,
                forall|b: int|
                    0 <= b < bi ==> (#[trigger] mask@[b])@.len() == old(func).blocks@[b].instructions@.len(),
                forall|b: int, i: int|
                    0 <= b < bi && 0 <= i < old(func).blocks@[b].instructions@.len() ==> ((
                    #[trigger] mask@[b]@[i]) <==> is_phi(
                        old(func).blocks@[b].instructions@[i].operation,
                    )),
            decreases ninstrs - ii,
        {
            proof {
                assert(func.instr_wf(func.blocks@[bi as int].instructions@[ii as int]));
            }
            let phi_data = phi_parts(&func.blocks[bi].instructions[ii]);
            let ghost pre_instr = *func;
            match phi_data {
                Some((u, vals_copy)) => {
                    let nvals = vals_copy.len();
                    proof {
                        let of = *old(func);
                        assert(of.pos_valid(bi as int, ii as int));
                        assert(of.instr_at(bi as int, ii as int) == func.blocks@[bi as int].instructions@[ii as int]);
                        assert(vals_copy@.len() == of.blocks@[bi as int].preds@.len());
                        assert(func.blocks@[bi as int].preds == of.blocks@[bi as int].preds);
                    }
                    let mut k: usize = 0;
                    while k < nvals
                        invariant
                            func.wf(),
                            func.values == old(func).values,
                            func.variables == old(func).variables,
                            func.name == old(func).name,
                            func.ret_type == old(func).ret_type,
                            func.args == old(func).args,
                            func.linkage == old(func).linkage,
                            func.id == old(func).id,
                            nblocks == old(func).blocks@.len(),
                            func.blocks@.len() == nblocks,
                            0 <= bi < nblocks,
                            0 <= ii < ninstrs,
                            ninstrs == old(func).blocks@[bi as int].instructions@.len(),
                            forall|b: int|
                                0 <= b < nblocks ==> {
                                    let nb = #[trigger] func.blocks@[b];
                                    let ob = old(func).blocks@[b];
                                    nb.instructions == ob.instructions && nb.name == ob.name
                                        && nb.id == ob.id && nb.preds == ob.preds && nb.succs
                                        == ob.succs && nb.terminator == ob.terminator
                                },
                            0 <= k <= nvals,
                            old(func).blocks@[bi as int].instructions@[ii as int].operation
                                matches Operation::Phi(vs) && vs@ == vals_copy@,
                            old(func).blocks@[bi as int].instructions@[ii as int].yielded == Some(
                                u,
                            ),
                            nvals == vals_copy@.len(),
                            nvals == old(func).blocks@[bi as int].preds@.len(),
                            forall|q: int|
                                0 <= q < nblocks ==> (#[trigger] func.blocks@[q]).par_moves@ == old(func).blocks@[q].par_moves@ + moves_upto_block(
                                    *old(func),
                                    bi as int,
                                    BlockId(q as usize),
                                ) + block_moves_upto(
                                    *old(func),
                                    bi as int,
                                    ii as int,
                                    BlockId(q as usize),
                                ) + moves_from_phi(
                                    u,
                                    vals_copy@,
                                    old(func).blocks@[bi as int].preds@,
                                    BlockId(q as usize),
                                    k as int,
                                ),
                        decreases nvals - k,
                    {
                        let p = func.blocks[bi].preds[k];
                        assert(p.0 < nblocks);
                        let mv = (u, vals_copy[k]);
                        func.blocks[p.0].par_moves.push(mv);
                        proof {
                            let of = *old(func);
                            let preds = of.blocks@[bi as int].preds@;
                            assert forall|q: int| 0 <= q < nblocks implies (
                            #[trigger] func.blocks@[q]).par_moves@ == of.blocks@[q].par_moves@
                                + moves_upto_block(of, bi as int, BlockId(q as usize))
                                + block_moves_upto(of, bi as int, ii as int, BlockId(q as usize))
                                + moves_from_phi(
                                u,
                                vals_copy@,
                                preds,
                                BlockId(q as usize),
                                k + 1,
                            ) by {
                                let qq = BlockId(q as usize);
                                let base = of.blocks@[q].par_moves@ + moves_upto_block(
                                    of,
                                    bi as int,
                                    qq,
                                ) + block_moves_upto(of, bi as int, ii as int, qq);
                                if q == p.0 {
                                    assert(moves_from_phi(u, vals_copy@, preds, qq, k + 1)
                                        =~= moves_from_phi(u, vals_copy@, preds, qq, k as int)
                                        + seq![(u, vals_copy@[k as int])]);
                                    assert(func.blocks@[q].par_moves@ =~= base + moves_from_phi(
                                        u,
                                        vals_copy@,
                                        preds,
                                        qq,
                                        k + 1,
                                    ));
                                } else {
                                    assert(moves_from_phi(u, vals_copy@, preds, qq, k + 1)
                                        =~= moves_from_phi(u, vals_copy@, preds, qq, k as int));
                                    assert(func.blocks@[q].par_moves@ =~= base + moves_from_phi(
                                        u,
                                        vals_copy@,
                                        preds,
                                        qq,
                                        k + 1,
                                    ));
                                }
                            }
                        }
                        k += 1;
                    }
                    bmask.push(true);
                },
                None => {
                    bmask.push(false);
                },
            }
            proof {
                let of = *old(func);
                assert forall|q: int| 0 <= q < nblocks implies (
                #[trigger] func.blocks@[q]).par_moves@ == of.blocks@[q].par_moves@
                    + moves_upto_block(of, bi as int, BlockId(q as usize)) + block_moves_upto(
                    of,
                    bi as int,
                    ii + 1,
                    BlockId(q as usize),
                ) by {
                    let qq = BlockId(q as usize);
                    match phi_data {
                        Some((u, vals_copy)) => {
                            assert(instr_moves(of, bi as int, ii as int, qq) == moves_from_phi(
                                u,
                                vals_copy@,
                                of.blocks@[bi as int].preds@,
                                qq,
                                vals_copy@.len() as int,
                            ));
                            assert(block_moves_upto(of, bi as int, ii + 1, qq) =~= block_moves_upto(
                                of,
                                bi as int,
                                ii as int,
                                qq,
                            ) + instr_moves(of, bi as int, ii as int, qq));
                            assert(func.blocks@[q].par_moves@ =~= of.blocks@[q].par_moves@
                                + moves_upto_block(of, bi as int, qq) + block_moves_upto(
                                of,
                                bi as int,
                                ii + 1,
                                qq,
                            ));
                        },
                        None => {
                            assert(instr_moves(of, bi as int, ii as int, qq) =~= Seq::<
                                (ValueId, ValueId),
                            >::empty());
                            assert(func.blocks@[q].par_moves@ =~= of.blocks@[q].par_moves@
                                + moves_upto_block(of, bi as int, qq) + block_moves_upto(
                                of,
                                bi as int,
                                ii + 1,
                                qq,
                            ));
                        },
                    }
                }
            }
            ii += 1;
        }
        mask.push(bmask);
        proof {
            let of = *old(func);
            assert forall|q: int| 0 <= q < nblocks implies (
            #[trigger] func.blocks@[q]).par_moves@ == of.blocks@[q].par_moves@ + moves_upto_block(
                of,
                bi + 1,
                BlockId(q as usize),
            ) by {
                let qq = BlockId(q as usize);
                assert(moves_upto_block(of, bi + 1, qq) =~= moves_upto_block(of, bi as int, qq)
                    + block_moves_upto(
                    of,
                    bi as int,
                    of.blocks@[bi as int].instructions@.len() as int,
                    qq,
                ));
                assert(func.blocks@[q].par_moves@ =~= of.blocks@[q].par_moves@ + moves_upto_block(
                    of,
                    bi + 1,
                    qq,
                ));
            }
        }
        bi += 1;
    }
    mask
}

/// Lowers every phi in the module into parallel moves on the predecessor
/// blocks, in positional correspondence with each block's predecessor list,
/// and deletes the phis. Requires critical edges to have been split.
pub fn lower_phis(module: &mut Module)
    requires
        old(module).wf(),
        old(module).algos_run@.contains(Algo::CriticalEdgeSplitting),
        forall|f: int|
            0 <= f < old(module).functions@.len() ==> phi_arity_ok(
                #[trigger] old(module).functions@[f],
            ),
    ensures
        final(module).wf(),
        final(module).functions@.len() == old(module).functions@.len(),
        forall|f: int|
            0 <= f < final(module).functions@.len() ==> (
            #[trigger] final(module).functions@[f]).no_phis(),
        forall|f: int, b: int|
            0 <= f < old(module).functions@.len() && 0 <= b
                < old(module).functions@[f].blocks@.len() ==> (#[trigger] final(module).functions@[f].blocks@[b]).instructions@ == masked_filter(
                old(module).functions@[f].blocks@[b].instructions@,
                Seq::new(
                    old(module).functions@[f].blocks@[b].instructions@.len(),
                    |i: int| is_phi(old(module).functions@[f].blocks@[b].instructions@[i].operation),
                ),
            ),
        forall|f: int, b: int|
            0 <= f < old(module).functions@.len() && 0 <= b
                < old(module).functions@[f].blocks@.len() ==> (#[trigger] final(module).functions@[f].blocks@[b]).par_moves@ == old(module).functions@[f].blocks@[b].par_moves@
                + phi_moves_for(old(module).functions@[f], BlockId(b as usize)),
        forall|f: int|
            0 <= f < old(module).functions@.len() ==> {
                let nf = #[trigger] final(module).functions@[f];
                let of = old(module).functions@[f];
                nf.values == of.values && nf.variables == of.variables && nf.name == of.name
                    && nf.ret_type == of.ret_type && nf.args == of.args && nf.linkage == of.linkage
                    && nf.id == of.id && nf.blocks@.len() == of.blocks@.len()
            },
        forall|f: int, b: int|
            0 <= f < old(module).functions@.len() && 0 <= b
                < old(module).functions@[f].blocks@.len() ==> {
                let nb = #[trigger] final(module).functions@[f].blocks@[b];
                let ob = old(module).functions@[f].blocks@[b];
                nb.name == ob.name && nb.id == ob.id && nb.preds == ob.preds && nb.succs == ob.succs
                    && nb.terminator == ob.terminator
            },
        forall|f: int|
            0 <= f < old(module).functions@.len() && old(
                module,
            ).functions@[f].no_load_store() ==> (
            #[trigger] final(module).functions@[f]).no_load_store(),
        final(module).algos_run@ == old(module).algos_run@.push(Algo::PhiLowering),
        final(module).analysis_stage == old(module).analysis_stage,
        final(module).name == old(module).name,
{
    let ordered = log_contains(&module.algos_run, Algo::CriticalEdgeSplitting);
    assert(ordered);
    module.algos_run.push(Algo::PhiLowering);
    let nfuncs = module.functions.len();
    let mut dels: Vec<Vec<Vec<bool>>> = Vec::new();
    let mut fi: usize = 0;
    while fi < nfuncs
        invariant
            old(module).wf(),
            forall|f: int|
                0 <= f < nfuncs ==> phi_arity_ok(#[trigger] old(module).functions@[f]),
            nfuncs == old(module).functions@.len(),
            module.functions@.len() == nfuncs,
            0 <= fi <= nfuncs,
            dels@.len() == fi,
            forall|f: int| fi <= f < nfuncs ==> #[trigger] module.functions@[f] == old(
                module,
            ).functions@[f],
            forall|f: int|
                0 <= f < fi ==> {
                    let nf = #[trigger] module.functions@[f];
                    let of = old(module).functions@[f];
                    nf.wf() && nf.values == of.values && nf.variables == of.variables && nf.name
                        == of.name && nf.ret_type == of.ret_type && nf.args == of.args && nf.linkage
                        == of.linkage && nf.id == of.id && nf.blocks@.len() == of.blocks@.len()
                },
            forall|f: int, b: int|
                0 <= f < fi && 0 <= b < old(module).functions@[f].blocks@.len() ==> {
                    let nb = #[trigger] module.functions@[f].blocks@[b];
                    let ob = old(module).functions@[f].blocks@[b];
                    nb.instructions == ob.instructions && nb.name == ob.name && nb.id == ob.id
                        && nb.preds == ob.preds && nb.succs == ob.succs && nb.terminator
                        == ob.terminator
                },
            forall|f: int, b: int|
                0 <= f < fi && 0 <= b < old(module).functions@[f].blocks@.len() ==> (
                #[trigger] module.functions@[f].blocks@[b]).par_moves@ == old(module).functions@[f].blocks@[b].par_moves@ + phi_moves_for(
                    old(module).functions@[f],
                    BlockId(b as usize),
                ),
            forall|f: int|
                0 <= f < fi ==> (#[trigger] dels@[f])@.len()
                    == module.functions@[f].blocks@.len(),
            forall|f: int, b: int|
                0 <= f < fi && 0 <= b < module.functions@[f].blocks@.len() ==> (
                #[trigger] dels@[f]@[b])@.len()
                    == module.functions@[f].blocks@[b].instructions@.len(),
            forall|f: int, b: int, i: int|
                0 <= f < fi && 0 <= b < module.functions@[f].blocks@.len() && 0 <= i
                    < module.functions@[f].blocks@[b].instructions@.len() ==> ((
                #[trigger] dels@[f]@[b]@[i]) <==> is_phi(
                    module.functions@[f].blocks@[b].instructions@[i].operation,
                )),
            module.name == old(module).name,
            module.analysis_stage == old(module).analysis_stage,
            module.algos_run@ == old(module).algos_run@.push(Algo::PhiLowering),
        decreases nfuncs - fi,
    {
        proof {
            assert(old(module).functions@[fi as int].wf());
            assert(phi_arity_ok(old(module).functions@[fi as int]));
        }
        let fmask = phi_scan_function(&mut module.functions[fi]);
        dels.push(fmask);
        fi += 1;
    }
    let ghost scanned = *module;
    delete(module, dels);
    proof {
        assert forall|f: int, b: int|
            0 <= f < old(module).functions@.len() && 0 <= b
                < old(module).functions@[f].blocks@.len() implies (#[trigger] module.functions@[f].blocks@[b]).instructions@ == masked_filter(
            old(module).functions@[f].blocks@[b].instructions@,
            Seq::new(
                old(module).functions@[f].blocks@[b].instructions@.len(),
                |i: int| is_phi(old(module).functions@[f].blocks@[b].instructions@[i].operation),
            ),
        ) by {
            assert(scanned.functions@[f].blocks@[b].instructions == old(
                module,
            ).functions@[f].blocks@[b].instructions);
            assert(dels@[f]@[b]@ =~= Seq::new(
                old(module).functions@[f].blocks@[b].instructions@.len(),
                |i: int| is_phi(old(module).functions@[f].blocks@[b].instructions@[i].operation),
            ));
            assert(module.functions@[f].blocks@[b].instructions@ == masked_filter(
                scanned.functions@[f].blocks@[b].instructions@,
                dels@[f]@[b]@,
            ));
        }
        assert forall|f: int| 0 <= f < module.functions@.len() implies (
        #[trigger] module.functions@[f]).wf() && module.functions@[f].no_phis() && (old(
            module,
        ).functions@[f].no_load_store() ==> module.functions@[f].no_load_store()) by {
            let sf = scanned.functions@[f];
            let nf = module.functions@[f];
            assert forall|b: int, i: int|
                0 <= b < nf.blocks@.len() && 0 <= i < nf.blocks@[b].instructions@.len() implies
                nf.instr_wf(#[trigger] nf.blocks@[b].instructions@[i]) && !is_phi(
                nf.blocks@[b].instructions@[i].operation,
            ) && (old(module).functions@[f].no_load_store() ==> !is_load_or_store(
                nf.blocks@[b].instructions@[i].operation,
            )) by {
                assert(sf.wf());
                assert(sf.blocks@[b].instructions == old(module).functions@[f].blocks@[b].instructions);
                assert forall|i2: int|
                    0 <= i2 < sf.blocks@[b].instructions@.len() implies dels@[f]@[b]@[i2] || (
                    sf.instr_wf(#[trigger] sf.blocks@[b].instructions@[i2]) && !is_phi(
                        sf.blocks@[b].instructions@[i2].operation,
                    ) && (old(module).functions@[f].no_load_store() ==> !is_load_or_store(
                        sf.blocks@[b].instructions@[i2].operation,
                    ))) by {
                    if !dels@[f]@[b]@[i2] {
                        assert(!is_phi(sf.blocks@[b].instructions@[i2].operation));
                    }
                }
                lemma_masked_filter_keeps(
                    sf.blocks@[b].instructions@,
                    dels@[f]@[b]@,
                    |ins: Instruction| sf.instr_wf(ins) && !is_phi(ins.operation) && (old(
                        module,
                    ).functions@[f].no_load_store() ==> !is_load_or_store(ins.operation)),
                );
                assert(nf.blocks@[b].instructions@ == masked_filter(
                    sf.blocks@[b].instructions@,
                    dels@[f]@[b]@,
                ));
            }
            assert(nf.wf());
        }
    }
}

} // verus!
