//! Bulk deletion of instructions through a mask, used by the passes that mark
//! instructions while scanning and remove them afterwards.

use vstd::prelude::*;

use crate::ir::Instruction;
use crate::ir::Module;

verus! {

/// The instructions of `s` whose mask entry is false, in order.
pub open spec fn masked_filter(s: Seq<Instruction>, mask: Seq<bool>) -> Seq<Instruction>
    decreases s.len(),
{
    if s.len() == 0 {
        Seq::empty()
    } else {
        let rest = masked_filter(s.drop_last(), mask.drop_last());
        if mask[s.len() - 1] {
            rest
        } else {
            rest.push(s.last())
        }
    }
}

/// A property of every unmasked instruction holds of every kept instruction.
pub proof fn lemma_masked_filter_keeps(
    s: Seq<Instruction>,
    mask: Seq<bool>,
    p: spec_fn(Instruction) -> bool,
)
    requires
        mask.len() == s.len(),
        forall|i: int| 0 <= i < s.len() ==> mask[i] || p(#[trigger] s[i]),
    ensures
        forall|j: int|
            0 <= j < masked_filter(s, mask).len() ==> p(#[trigger] masked_filter(s, mask)[j]),
    decreases s.len(),
{
    if s.len() > 0 {
        lemma_masked_filter_keeps(s.drop_last(), mask.drop_last(), p);
        let rest = masked_filter(s.drop_last(), mask.drop_last());
        if !mask[s.len() - 1] {
            assert forall|j: int| 0 <= j < masked_filter(s, mask).len() implies p(
                #[trigger] masked_filter(s, mask)[j],
            ) by {
                if j < rest.len() {
                    assert(masked_filter(s, mask)[j] == rest[j]);
                } else {
                    assert(masked_filter(s, mask)[j] == s.last());
                }
            }
        }
    }
}

/// Deleting instructions can only lower how often a value is defined.
pub proof fn lemma_masked_filter_def_count(
    s: Seq<Instruction>,
    mask: Seq<bool>,
    u: crate::ir::ValueId,
)
    ensures
        crate::ir::block_def_count(masked_filter(s, mask), u) <= crate::ir::block_def_count(s, u),
    decreases s.len(),
{
    if s.len() > 0 {
        lemma_masked_filter_def_count(s.drop_last(), mask.drop_last(), u);
        let rest = masked_filter(s.drop_last(), mask.drop_last());
        if !mask[s.len() - 1] {
            assert(masked_filter(s, mask) == rest.push(s.last()));
            assert(masked_filter(s, mask).drop_last() =~= rest);
        }
    }
}

/// Filtering removes exactly the marked entries.
pub proof fn lemma_masked_filter_len(s: Seq<Instruction>, mask: Seq<bool>)
    requires
        mask.len() == s.len(),
    ensures
        masked_filter(s, mask).len() + crate::algos::lower_to_ssa::count_trues(mask) == s.len(),
    decreases s.len(),
{
    if s.len() > 0 {
        lemma_masked_filter_len(s.drop_last(), mask.drop_last());
        if !mask[s.len() - 1] {
            assert(masked_filter(s, mask) == masked_filter(
                s.drop_last(),
                mask.drop_last(),
            ).push(s.last()));
        }
    }
}

/// Removes from every block of every function the instructions whose mask
/// entry is true. `dels` is indexed by function, block and instruction.
pub fn delete(module: &mut Module, dels: Vec<Vec<Vec<bool>>>)
    requires
        dels@.len() == old(module).functions@.len(),
        forall|f: int|
            0 <= f < old(module).functions@.len() ==> (#[trigger] dels@[f])@.len() == old(module).functions@[f].blocks@.len(),
        forall|f: int, b: int|
            0 <= f < old(module).functions@.len() && 0 <= b
                < old(module).functions@[f].blocks@.len() ==> (#[trigger] dels@[f]@[b])@.len()
                == old(module).functions@[f].blocks@[b].instructions@.len(),
    ensures
        final(module).functions@.len() == old(module).functions@.len(),
        forall|f: int, b: int|
            0 <= f < old(module).functions@.len() && 0 <= b
                < old(module).functions@[f].blocks@.len() ==> (#[trigger] final(module).functions@[f].blocks@[b]).instructions@ == masked_filter(
                old(module).functions@[f].blocks@[b].instructions@,
                dels@[f]@[b]@,
            ),
        forall|f: int|
            0 <= f < old(module).functions@.len() ==> {
                let nf = #[trigger] final(module).functions@[f];
                let of = old(module).functions@[f];
                nf.name == of.name && nf.ret_type == of.ret_type && nf.args == of.args && nf.linkage
                    == of.linkage && nf.variables == of.variables && nf.id == of.id && nf.values
                    == of.values && nf.blocks@.len() == of.blocks@.len()
            },
        forall|f: int, b: int|
            0 <= f < old(module).functions@.len() && 0 <= b
                < old(module).functions@[f].blocks@.len() ==> {
                let nb = #[trigger] final(module).functions@[f].blocks@[b];
                let ob = old(module).functions@[f].blocks@[b];
                nb.name == ob.name && nb.terminator == ob.terminator && nb.preds == ob.preds
                    && nb.succs == ob.succs && nb.id == ob.id && nb.par_moves == ob.par_moves
            },
        final(module).name == old(module).name,
        final(module).analysis_stage == old(module).analysis_stage,
        final(module).algos_run == old(module).algos_run,
{
    let nfuncs = module.functions.len();
    let mut fi: usize = 0;
    while fi < nfuncs
        invariant
            nfuncs == old(module).functions@.len(),
            0 <= fi <= nfuncs,
            dels@.len() == nfuncs,
            forall|f: int|
                0 <= f < nfuncs ==> (#[trigger] dels@[f])@.len() == old(module).functions@[f].blocks@.len(),
            forall|f: int, b: int|
                0 <= f < nfuncs && 0 <= b < old(module).functions@[f].blocks@.len() ==> (
                #[trigger] dels@[f]@[b])@.len()
                    == old(module).functions@[f].blocks@[b].instructions@.len(),
            module.functions@.len() == nfuncs,
            forall|f: int| fi <= f < nfuncs ==> #[trigger] module.functions@[f] == old(module).functions@[f],
            forall|f: int, b: int|
                0 <= f < fi && 0 <= b < old(module).functions@[f].blocks@.len() ==> (
                #[trigger] module.functions@[f].blocks@[b]).instructions@ == masked_filter(
                    old(module).functions@[f].blocks@[b].instructions@,
                    dels@[f]@[b]@,
                ),
            forall|f: int|
                0 <= f < fi ==> {
                    let nf = #[trigger] module.functions@[f];
                    let of = old(module).functions@[f];
                    nf.name == of.name && nf.ret_type == of.ret_type && nf.args == of.args
                        && nf.linkage == of.linkage && nf.variables == of.variables && nf.id
                        == of.id && nf.values == of.values && nf.blocks@.len() == of.blocks@.len()
                },
            forall|f: int, b: int|
                0 <= f < fi && 0 <= b < old(module).functions@[f].blocks@.len() ==> {
                    let nb = #[trigger] module.functions@[f].blocks@[b];
                    let ob = old(module).functions@[f].blocks@[b];
                    nb.name == ob.name && nb.terminator == ob.terminator && nb.preds == ob.preds
                        && nb.succs == ob.succs && nb.id == ob.id && nb.par_moves == ob.par_moves
                },
            module.name == old(module).name,
            module.analysis_stage == old(module).analysis_stage,
            module.algos_run == old(module).algos_run,
        decreases nfuncs - fi,
    {
        let nblocks = module.functions[fi].blocks.len();
        let mut bi: usize = 0;
        while bi < nblocks
            invariant
                nfuncs == old(module).functions@.len(),
                0 <= fi < nfuncs,
                dels@.len() == nfuncs,
                forall|f: int|
                    0 <= f < nfuncs ==> (#[trigger] dels@[f])@.len() == old(module).functions@[f].blocks@.len(),
                forall|f: int, b: int|
                    0 <= f < nfuncs && 0 <= b < old(module).functions@[f].blocks@.len() ==> (
                    #[trigger] dels@[f]@[b])@.len()
                        == old(module).functions@[f].blocks@[b].instructions@.len(),
                module.functions@.len() == nfuncs,
                nblocks == old(module).functions@[fi as int].blocks@.len(),
                0 <= bi <= nblocks,
                forall|f: int| fi < f < nfuncs ==> #[trigger] module.functions@[f] == old(module).functions@[f],
                forall|f: int, b: int|
                    0 <= f < fi && 0 <= b < old(module).functions@[f].blocks@.len() ==> (
                    #[trigger] module.functions@[f].blocks@[b]).instructions@ == masked_filter(
                        old(module).functions@[f].blocks@[b].instructions@,
                        dels@[f]@[b]@,
                    ),
                forall|f: int|
                    0 <= f < fi ==> {
                        let nf = #[trigger] module.functions@[f];
                        let of = old(module).functions@[f];
                        nf.name == of.name && nf.ret_type == of.ret_type && nf.args == of.args
                            && nf.linkage == of.linkage && nf.variables == of.variables && nf.id
                            == of.id && nf.values == of.values && nf.blocks@.len()
                            == of.blocks@.len()
                    },
                forall|f: int, b: int|
                    0 <= f < fi && 0 <= b < old(module).functions@[f].blocks@.len() ==> {
                        let nb = #[trigger] module.functions@[f].blocks@[b];
                        let ob = old(module).functions@[f].blocks@[b];
                        nb.name == ob.name && nb.terminator == ob.terminator && nb.preds == ob.preds
                            && nb.succs == ob.succs && nb.id == ob.id && nb.par_moves
                            == ob.par_moves
                    },
                ({
                    let nf = module.functions@[fi as int];
                    let of = old(module).functions@[fi as int];
                    nf.name == of.name && nf.ret_type == of.ret_type && nf.args == of.args
                        && nf.linkage == of.linkage && nf.variables == of.variables && nf.id
                        == of.id && nf.values == of.values && nf.blocks@.len() == of.blocks@.len()
                }),
                forall|b: int|
                    0 <= b < bi ==> (
                    #[trigger] module.functions@[fi as int].blocks@[b]).instructions@
                        == masked_filter(
                        old(module).functions@[fi as int].blocks@[b].instructions@,
                        dels@[fi as int]@[b]@,
                    ),
                forall|b: int| bi <= b < nblocks ==> #[trigger] module.functions@[fi as int].blocks@[b]
                    == old(module).functions@[fi as int].blocks@[b],
                forall|b: int|
                    0 <= b < nblocks ==> {
                        let nb = #[trigger] module.functions@[fi as int].blocks@[b];
                        let ob = old(module).functions@[fi as int].blocks@[b];
                        nb.name == ob.name && nb.terminator == ob.terminator && nb.preds == ob.preds
                            && nb.succs == ob.succs && nb.id == ob.id && nb.par_moves
                            == ob.par_moves
                    },
                module.name == old(module).name,
                module.analysis_stage == old(module).analysis_stage,
                module.algos_run == old(module).algos_run,
            decreases nblocks - bi,
        {
            let ghost orig = module.functions@[fi as int].blocks@[bi as int].instructions@;
            let ghost mask = dels@[fi as int]@[bi as int]@;
            let mut old_instrs: Vec<Instruction> = Vec::new();
            {
                let blk = &mut module.functions[fi].blocks[bi];
                core::mem::swap(&mut old_instrs, &mut blk.instructions);
            }
            let mut kept: Vec<Instruction> = Vec::new();
            let mut i: usize = 0;
            let n = old_instrs.len();
            while i < n
                invariant
                    n == orig.len(),
                    mask.len() == orig.len(),
                    0 <= i <= n,
                    old_instrs@ == orig.skip(i as int),
                    kept@ == masked_filter(orig.take(i as int), mask.take(i as int)),
                    i < n ==> dels@.len() > fi && dels@[fi as int]@.len() > bi,
                    fi < dels@.len(),
                    bi < dels@[fi as int]@.len(),
                    mask == dels@[fi as int]@[bi as int]@,
                decreases n - i,
            {
                let instr = old_instrs.remove(0);
                assert(instr == orig[i as int]);
                let keep = !dels[fi][bi][i];
                proof {
                    assert(orig.take(i + 1).drop_last() =~= orig.take(i as int));
                    assert(mask.take(i + 1).drop_last() =~= mask.take(i as int));
                    assert(orig.take(i + 1).last() == orig[i as int]);
                    assert(mask.take(i + 1)[i as int] == mask[i as int]);
                }
                if keep {
                    kept.push(instr);
                }
                proof {
                    assert(old_instrs@ =~= orig.skip(i + 1));
                }
                i += 1;
            }
            proof {
                assert(orig.take(n as int) =~= orig);
                assert(mask.take(n as int) =~= mask);
            }
            {
                let blk = &mut module.functions[fi].blocks[bi];
                core::mem::swap(&mut blk.instructions, &mut kept);
            }
            bi += 1;
        }
        fi += 1;
    }
}

} // verus!
