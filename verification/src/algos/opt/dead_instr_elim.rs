//! Dead-instruction elimination: an instruction whose yielded value has no
//! consumers and is read by no terminator is removed, and its operands'
//! use lists forget it.

use vstd::prelude::*;

use crate::algos::delete_instructions::delete;
use crate::algos::delete_instructions::lemma_masked_filter_keeps;
use crate::algos::delete_instructions::masked_filter;
use crate::algos::lower_to_ssa::remove_child_occurrences;
use crate::algos::opt::OptPass;
use crate::ir::term_refs;
use crate::ir::Function;
use crate::ir::Instruction;
use crate::ir::Module;
use crate::ir::Operation;
use crate::ir::ValueId;

verus! {

/// Removes instructions that define values nobody consumes.
pub struct DeadInstrElim {}

/// An instruction is dead in `f` when it yields a value with an empty use
/// list that no terminator reads.
pub open spec fn dead_in(f: Function, ins: Instruction) -> bool {
    match ins.yielded {
        Some(v) => v.0 < f.values@.len() && f.values@[v.0 as int].children@.len() == 0
            && !term_uses(f, v),
        None => false,
    }
}

/// Block `b` of function `f` was filtered through some mask that marks only
/// instructions dead in the resulting module.
pub open spec fn dead_mask_exists(om: Module, nm: Module, f: int, b: int) -> bool {
    exists|m: Seq<bool>|
        #![trigger crate::vcode::seq_marker(m)]
        m.len() == om.functions@[f].blocks@[b].instructions@.len()
            && nm.functions@[f].blocks@[b].instructions@ == masked_filter(
            om.functions@[f].blocks@[b].instructions@,
            m,
        ) && (forall|i: int|
            0 <= i < m.len() && m[i] ==> dead_in(
                nm.functions@[f],
                #[trigger] om.functions@[f].blocks@[b].instructions@[i],
            ))
}

/// Whether any terminator of the function reads `v`.
pub open spec fn term_uses(f: Function, v: ValueId) -> bool {
    exists|b: int|
        0 <= b < f.blocks@.len() && term_refs((#[trigger] f.blocks@[b]).terminator, v)
}

/// Whether some terminator of the function reads `v`.
fn terminator_uses(func: &Function, v: ValueId) -> (r: bool)
    ensures
        r == term_uses(*func, v),
{
    let n = func.blocks.len();
    let mut b: usize = 0;
    while b < n
        invariant
            0 <= b <= n,
            n == func.blocks@.len(),
            forall|j: int| 0 <= j < b ==> !term_refs((#[trigger] func.blocks@[j]).terminator, v),
        decreases n - b,
    {
        let used = match func.blocks[b].terminator {
            crate::ir::Terminator::Return(x) => x == v,
            crate::ir::Terminator::Branch(x, _, _) => x == v,
            _ => false,
        };
        if used {
            assert(term_uses(*func, v));
            return true;
        }
        b += 1;
    }
    false
}

/// Drops the dying value from the use lists of one instruction's operands.
#[verifier::loop_isolation(false)]
fn forget_operands(func: &mut Function, instr: &Instruction, v: ValueId)
    requires
        old(func).wf(),
        old(func).instr_wf(*instr),
    ensures
        final(func).wf(),
        final(func).blocks == old(func).blocks,
        final(func).variables == old(func).variables,
        final(func).name == old(func).name,
        final(func).ret_type == old(func).ret_type,
        final(func).args == old(func).args,
        final(func).linkage == old(func).linkage,
        final(func).id == old(func).id,
        final(func).values@.len() == old(func).values@.len(),
        forall|w: int, c: ValueId|
            0 <= w < old(func).values@.len() && (#[trigger] final(func).values@[w].children@.contains(c)) ==> old(func).values@[w].children@.contains(c),
        forall|w: int|
            0 <= w < old(func).values@.len() && old(func).values@[w].children@.len() == 0 ==> (
            #[trigger] final(func).values@[w]).children@.len() == 0,
        forall|w: int|
            0 <= w < old(func).values@.len() ==> (#[trigger] final(func).values@[w]).ty == old(func).values@[w].ty && final(func).values@[w].owner == old(func).values@[w].owner,
    {
    match &instr.operation {
        Operation::BinOp(_, l, r) => {
            let l = *l;
            let r = *r;
            remove_child_occurrences(func, l, v);
            remove_child_occurrences(func, r, v);
        },
        Operation::Call(_, args) => {
            let nargs = args.len();
            let mut k: usize = 0;
            while k < nargs
                invariant
                    func.wf(),
                    nargs == args@.len(),
                    0 <= k <= nargs,
                    forall|j: int| 0 <= j < nargs ==> (#[trigger] args@[j]).0 < func.values@.len(),
                    func.blocks == old(func).blocks,
                    func.variables == old(func).variables,
                    func.name == old(func).name,
                    func.ret_type == old(func).ret_type,
                    func.args == old(func).args,
                    func.linkage == old(func).linkage,
                    func.id == old(func).id,
                    func.values@.len() == old(func).values@.len(),
                    forall|w: int, c: ValueId|
                        0 <= w < old(func).values@.len() && (#[trigger] func.values@[w].children@.contains(c)) ==> old(func).values@[w].children@.contains(c),
                    forall|w: int|
                        0 <= w < old(func).values@.len() && old(func).values@[w].children@.len()
                            == 0 ==> (#[trigger] func.values@[w]).children@.len() == 0,
                    forall|w: int|
                        0 <= w < old(func).values@.len() ==> (#[trigger] func.values@[w]).ty == old(func).values@[w].ty && func.values@[w].owner == old(func).values@[w].owner,
                decreases nargs - k,
            {
                let a = args[k];
                remove_child_occurrences(func, a, v);
                k += 1;
            }
        },
        Operation::StoreVar(_, val) => {
            let val = *val;
            remove_child_occurrences(func, val, v);
        },
        Operation::Phi(vals) => {
            let nvals = vals.len();
            let mut k: usize = 0;
            while k < nvals
                invariant
                    func.wf(),
                    nvals == vals@.len(),
                    0 <= k <= nvals,
                    forall|j: int| 0 <= j < nvals ==> (#[trigger] vals@[j]).0 < func.values@.len(),
                    func.blocks == old(func).blocks,
                    func.variables == old(func).variables,
                    func.name == old(func).name,
                    func.ret_type == old(func).ret_type,
                    func.args == old(func).args,
                    func.linkage == old(func).linkage,
                    func.id == old(func).id,
                    func.values@.len() == old(func).values@.len(),
                    forall|w: int, c: ValueId|
                        0 <= w < old(func).values@.len() && (#[trigger] func.values@[w].children@.contains(c)) ==> old(func).values@[w].children@.contains(c),
                    forall|w: int|
                        0 <= w < old(func).values@.len() && old(func).values@[w].children@.len()
                            == 0 ==> (#[trigger] func.values@[w]).children@.len() == 0,
                    forall|w: int|
                        0 <= w < old(func).values@.len() ==> (#[trigger] func.values@[w]).ty == old(func).values@[w].ty && func.values@[w].owner == old(func).values@[w].owner,
                decreases nvals - k,
            {
                let a = vals[k];
                remove_child_occurrences(func, a, v);
                k += 1;
            }
        },
        _ => {},
    }
}

impl OptPass for DeadInstrElim {
    /// One sweep over every function: each instruction that yields a value
    /// with an empty use list, unread by any terminator, is deleted, and its
    /// operands' use lists forget it. The control-flow skeleton, the pass log
    /// and the absence of loads, stores or phis all survive the sweep.
    fn run(&mut self, module: &mut Module)
        ensures
            final(module).functions@.len() == old(module).functions@.len(),
            forall|f: int|
                0 <= f < old(module).functions@.len() ==> crate::ir::same_cfg(
                    old(module).functions@[f],
                    #[trigger] final(module).functions@[f],
                ),
            forall|f: int|
                0 <= f < old(module).functions@.len() ==> {
                    let nf = #[trigger] final(module).functions@[f];
                    let of = old(module).functions@[f];
                    nf.values@.len() == of.values@.len() && nf.variables == of.variables && nf.name
                        == of.name && nf.ret_type == of.ret_type && nf.args == of.args && nf.linkage
                        == of.linkage && nf.id == of.id
                },
            forall|f: int|
                0 <= f < old(module).functions@.len() && old(
                    module,
                ).functions@[f].no_load_store() ==> (
                #[trigger] final(module).functions@[f]).no_load_store(),
            forall|f: int|
                0 <= f < old(module).functions@.len() && old(module).functions@[f].no_phis()
                    ==> (#[trigger] final(module).functions@[f]).no_phis(),
            forall|f: int, b: int|
                0 <= f < old(module).functions@.len() && 0 <= b
                    < old(module).functions@[f].blocks@.len() ==> (#[trigger] final(module).functions@[f].blocks@[b]).terminator == old(module).functions@[f].blocks@[b].terminator,
            forall|f: int, b: int, j: int|
                0 <= f < old(module).functions@.len() && 0 <= b
                    < old(module).functions@[f].blocks@.len() && 0 <= j < final(module).functions@[f].blocks@[b].instructions@.len() ==> !dead_in(
                    old(module).functions@[f],
                    #[trigger] final(module).functions@[f].blocks@[b].instructions@[j],
                ),
            forall|f: int, b: int|
                0 <= f < old(module).functions@.len() && 0 <= b
                    < old(module).functions@[f].blocks@.len() ==> #[trigger] dead_mask_exists(
                    *old(module),
                    *final(module),
                    f,
                    b,
                ),
            final(module).name == old(module).name,
            final(module).analysis_stage == old(module).analysis_stage,
            final(module).algos_run == old(module).algos_run,
    {
        let nfuncs = module.functions.len();
        let mut dels: Vec<Vec<Vec<bool>>> = Vec::new();
        let mut fi: usize = 0;
        while fi < nfuncs
            invariant
                old(module).wf(),
                nfuncs == old(module).functions@.len(),
                module.functions@.len() == nfuncs,
                0 <= fi <= nfuncs,
                dels@.len() == fi,
                forall|f: int| fi <= f < nfuncs ==> #[trigger] module.functions@[f] == old(
                    module,
                ).functions@[f],
                forall|f: int|
                    0 <= f < fi ==> {
                        let nf = #[trigger] module.functions@[f];
                        let of = old(module).functions@[f];
                        nf.wf() && nf.blocks == of.blocks && nf.values@.len() == of.values@.len()
                            && nf.variables == of.variables && nf.name == of.name && nf.ret_type
                            == of.ret_type && nf.args == of.args && nf.linkage == of.linkage
                            && nf.id == of.id
                    },
                forall|f: int|
                    0 <= f < fi ==> (#[trigger] dels@[f])@.len()
                        == module.functions@[f].blocks@.len(),
                forall|f: int, b: int|
                    0 <= f < fi && 0 <= b < module.functions@[f].blocks@.len() ==> (
                    #[trigger] dels@[f]@[b])@.len()
                        == module.functions@[f].blocks@[b].instructions@.len(),
                forall|f: int, b: int, i: int|
                    0 <= f < fi && 0 <= b < old(module).functions@[f].blocks@.len() && 0 <= i
                        < old(module).functions@[f].blocks@[b].instructions@.len() && (
                    #[trigger] dels@[f]@[b]@[i]) ==> dead_in(
                        module.functions@[f],
                        old(module).functions@[f].blocks@[b].instructions@[i],
                    ),
                forall|f: int, b: int, i: int|
                    0 <= f < fi && 0 <= b < old(module).functions@[f].blocks@.len() && 0 <= i
                        < old(module).functions@[f].blocks@[b].instructions@.len() && dead_in(
                        old(module).functions@[f],
                        #[trigger] old(module).functions@[f].blocks@[b].instructions@[i],
                    ) ==> dels@[f]@[b]@[i],
                module.name == old(module).name,
                module.analysis_stage == old(module).analysis_stage,
                module.algos_run == old(module).algos_run,
            decreases nfuncs - fi,
        {
            proof {
                assert(old(module).functions@[fi as int].wf());
            }
            let fmask = dead_scan_function(&mut module.functions[fi]);
            dels.push(fmask);
            fi += 1;
        }
        let ghost scanned = *module;
        delete(module, dels);
        proof {
            assert forall|f: int| 0 <= f < module.functions@.len() implies (
            #[trigger] module.functions@[f]).wf() && crate::ir::same_cfg(
                old(module).functions@[f],
                module.functions@[f],
            ) && (old(module).functions@[f].no_load_store()
                ==> module.functions@[f].no_load_store()) && (old(
                module,
            ).functions@[f].no_phis() ==> module.functions@[f].no_phis()) by {
                let sf = scanned.functions@[f];
                let nf = module.functions@[f];
                assert(sf.wf());
                assert(sf.blocks == old(module).functions@[f].blocks);
                assert forall|b: int, i: int|
                    0 <= b < nf.blocks@.len() && 0 <= i
                        < nf.blocks@[b].instructions@.len() implies nf.instr_wf(
                    #[trigger] nf.blocks@[b].instructions@[i],
                ) && (old(module).functions@[f].no_load_store() ==> !crate::ir::is_load_or_store(
                    nf.blocks@[b].instructions@[i].operation,
                )) && (old(module).functions@[f].no_phis() ==> !crate::ir::is_phi(
                    nf.blocks@[b].instructions@[i].operation,
                )) by {
                    lemma_masked_filter_keeps(
                        sf.blocks@[b].instructions@,
                        dels@[f]@[b]@,
                        |ins: Instruction| sf.instr_wf(ins) && (old(
                            module,
                        ).functions@[f].no_load_store() ==> !crate::ir::is_load_or_store(
                            ins.operation,
                        )) && (old(module).functions@[f].no_phis() ==> !crate::ir::is_phi(
                            ins.operation,
                        )),
                    );
                    assert(nf.blocks@[b].instructions@ == masked_filter(
                        sf.blocks@[b].instructions@,
                        dels@[f]@[b]@,
                    ));
                }
                assert(nf.wf());
            }
        }
        // Only instructions dead in the input disappeared, and nothing kept is
        // dead in the input.
        assert forall|f: int, b: int, j: int|
            0 <= f < old(module).functions@.len() && 0 <= b
                < old(module).functions@[f].blocks@.len() && 0 <= j
                < module.functions@[f].blocks@[b].instructions@.len() implies !dead_in(
            old(module).functions@[f],
            #[trigger] module.functions@[f].blocks@[b].instructions@[j],
        ) by {
            let of = old(module).functions@[f];
            let sf = scanned.functions@[f];
            assert(sf.blocks == of.blocks);
            assert forall|i2: int|
                0 <= i2 < sf.blocks@[b].instructions@.len() implies dels@[f]@[b]@[i2] || !dead_in(
                of,
                #[trigger] sf.blocks@[b].instructions@[i2],
            ) by {
                if !dels@[f]@[b]@[i2] {
                    assert(!dead_in(of, of.blocks@[b].instructions@[i2]));
                }
            }
            lemma_masked_filter_keeps(
                sf.blocks@[b].instructions@,
                dels@[f]@[b]@,
                |ins: Instruction| !dead_in(of, ins),
            );
            assert(module.functions@[f].blocks@[b].instructions@ == masked_filter(
                sf.blocks@[b].instructions@,
                dels@[f]@[b]@,
            ));
        }
        assert forall|f: int, b: int|
            0 <= f < old(module).functions@.len() && 0 <= b
                < old(module).functions@[f].blocks@.len() implies #[trigger] dead_mask_exists(
            *old(module),
            *module,
            f,
            b,
        ) by {
            let of = old(module).functions@[f];
            let sf = scanned.functions@[f];
            let nf = module.functions@[f];
            let m = dels@[f]@[b]@;
            assert(crate::vcode::seq_marker(m));
            assert(sf.blocks == of.blocks);
            assert(nf.blocks@[b].instructions@ == masked_filter(
                sf.blocks@[b].instructions@,
                m,
            ));
            assert forall|i: int| 0 <= i < m.len() && m[i] implies dead_in(
                nf,
                #[trigger] of.blocks@[b].instructions@[i],
            ) by {
                assert(dead_in(sf, of.blocks@[b].instructions@[i]));
                let v = of.blocks@[b].instructions@[i].yielded.unwrap();
                assert(nf.values == sf.values);
                assert(!term_uses(nf, v)) by {
                    if term_uses(nf, v) {
                        let b2 = choose|b2: int|
                            0 <= b2 < nf.blocks@.len() && term_refs(
                                (#[trigger] nf.blocks@[b2]).terminator,
                                v,
                            );
                        assert(nf.blocks@[b2].terminator == sf.blocks@[b2].terminator);
                        assert(term_uses(sf, v));
                    }
                }
            }
        }
    }
}

/// Marks the dead instructions of one function and forgets their operand
/// uses.
#[verifier::loop_isolation(false)]
fn dead_scan_function(func: &mut Function) -> (mask: Vec<Vec<bool>>)
    requires
        old(func).wf(),
    ensures
        final(func).wf(),
        final(func).blocks == old(func).blocks,
        final(func).variables == old(func).variables,
        final(func).name == old(func).name,
        final(func).ret_type == old(func).ret_type,
        final(func).args == old(func).args,
        final(func).linkage == old(func).linkage,
        final(func).id == old(func).id,
        final(func).values@.len() == old(func).values@.len(),
        mask@.len() == old(func).blocks@.len(),
        forall|b: int|
            0 <= b < old(func).blocks@.len() ==> (#[trigger] mask@[b])@.len() == old(
                func,
            ).blocks@[b].instructions@.len(),
        forall|w: int, c: ValueId|
            0 <= w < old(func).values@.len() && (#[trigger] final(func).values@[w].children@.contains(c)) ==> old(func).values@[w].children@.contains(c),
        forall|b: int, i: int|
            0 <= b < old(func).blocks@.len() && 0 <= i
                < old(func).blocks@[b].instructions@.len() && (#[trigger] mask@[b]@[i]) ==> dead_in(
                *final(func),
                old(func).blocks@[b].instructions@[i],
            ),
        forall|b: int, i: int|
            0 <= b < old(func).blocks@.len() && 0 <= i
                < old(func).blocks@[b].instructions@.len() && dead_in(
                *old(func),
                #[trigger] old(func).blocks@[b].instructions@[i],
            ) ==> mask@[b]@[i],
{
    let nblocks = func.blocks.len();
    let mut mask: Vec<Vec<bool>> = Vec::new();
    let mut bi: usize = 0;
    while bi < nblocks
        invariant
            func.wf(),
            nblocks == old(func).blocks@.len(),
            func.blocks == old(func).blocks,
            func.variables == old(func).variables,
            func.name == old(func).name,
            func.ret_type == old(func).ret_type,
            func.args == old(func).args,
            func.linkage == old(func).linkage,
            func.id == old(func).id,
            func.values@.len() == old(func).values@.len(),
            forall|w: int, c: ValueId|
                0 <= w < old(func).values@.len() && (#[trigger] func.values@[w].children@.contains(c)) ==> old(func).values@[w].children@.contains(c),
            0 <= bi <= nblocks,
            mask@.len() == bi,
            forall|b: int|
                0 <= b < bi ==> (#[trigger] mask@[b])@.len() == old(
                    func,
                ).blocks@[b].instructions@.len(),
            forall|b: int, i: int|
                0 <= b < bi && 0 <= i < old(func).blocks@[b].instructions@.len() && (
                #[trigger] mask@[b]@[i]) ==> dead_in(
                    *func,
                    old(func).blocks@[b].instructions@[i],
                ),
            forall|b: int, i: int|
                0 <= b < bi && 0 <= i < old(func).blocks@[b].instructions@.len() && dead_in(
                    *old(func),
                    #[trigger] old(func).blocks@[b].instructions@[i],
                ) ==> mask@[b]@[i],
        decreases nblocks - bi,
    {
        let mut bmask: Vec<bool> = Vec::new();
        let ninstrs = func.blocks[bi].instructions.len();
        let mut ii: usize = 0;
        while ii < ninstrs
            invariant
                func.wf(),
                nblocks == old(func).blocks@.len(),
                func.blocks == old(func).blocks,
                func.variables == old(func).variables,
                func.name == old(func).name,
                func.ret_type == old(func).ret_type,
                func.args == old(func).args,
                func.linkage == old(func).linkage,
                func.id == old(func).id,
                func.values@.len() == old(func).values@.len(),
                forall|w: int, c: ValueId|
                    0 <= w < old(func).values@.len() && (#[trigger] func.values@[w].children@.contains(c)) ==> old(func).values@[w].children@.contains(c),
                0 <= bi < nblocks,
                ninstrs == func.blocks@[bi as int].instructions@.len(),
                0 <= ii <= ninstrs,
                bmask@.len() == ii,
                mask@.len() == bi,
                forall|b: int|
                    0 <= b < bi ==> (#[trigger] mask@[b])@.len() == old(
                        func,
                    ).blocks@[b].instructions@.len(),
                forall|b: int, i: int|
                    0 <= b < bi && 0 <= i < old(func).blocks@[b].instructions@.len() && (
                    #[trigger] mask@[b]@[i]) ==> dead_in(
                        *func,
                        old(func).blocks@[b].instructions@[i],
                    ),
                forall|b: int, i: int|
                    0 <= b < bi && 0 <= i < old(func).blocks@[b].instructions@.len() && dead_in(
                        *old(func),
                        #[trigger] old(func).blocks@[b].instructions@[i],
                    ) ==> mask@[b]@[i],
                forall|i: int|
                    0 <= i < ii && (#[trigger] bmask@[i]) ==> dead_in(
                        *func,
                        old(func).blocks@[bi as int].instructions@[i],
                    ),
                forall|i: int|
                    0 <= i < ii && dead_in(
                        *old(func),
                        #[trigger] old(func).blocks@[bi as int].instructions@[i],
                    ) ==> bmask@[i],
            decreases ninstrs - ii,
        {
            proof {
                assert(func.instr_wf(func.blocks@[bi as int].instructions@[ii as int]));
            }
            let dead = match func.blocks[bi].instructions[ii].yielded {
                Some(v) => {
                    if func.values[v.0].children.len() == 0 {
                        !terminator_uses(func, v)
                    } else {
                        false
                    }
                },
                None => false,
            };
            if dead {
                let v = func.blocks[bi].instructions[ii].yielded.unwrap();
                let ghost before = *func;
                // The dying instruction still sits in the block; copy out what
                // it reads before touching the use lists.
                let instr_copy = read_instr(func, bi, ii);
                proof {
                    let orig = func.blocks@[bi as int].instructions@[ii as int];
                    assert(func.instr_wf(orig));
                    assert(func.instr_wf(instr_copy)) by {
                        match (orig.operation, instr_copy.operation) {
                            (Operation::Call(_, a1), Operation::Call(_, a2)) => {
                                assert(a1@ == a2@);
                            },
                            (Operation::Phi(a1), Operation::Phi(a2)) => {
                                assert(a1@ == a2@);
                            },
                            _ => {},
                        }
                    }
                }
                forget_operands(func, &instr_copy, v);
            }
            proof {
                let ins = old(func).blocks@[bi as int].instructions@[ii as int];
                assert(func.blocks@[bi as int].instructions@[ii as int] == ins);
                if dead_in(*old(func), ins) {
                    // A use list empty on entry is still empty, and the
                    // terminators have not moved, so the scan marked it.
                    let v = ins.yielded.unwrap();
                    assert(func.values@[v.0 as int].children@.len() == 0 || dead) by {
                        if func.values@[v.0 as int].children@.len() > 0 {
                            let c = func.values@[v.0 as int].children@[0];
                            assert(func.values@[v.0 as int].children@.contains(c));
                            assert(old(func).values@[v.0 as int].children@.contains(c));
                        }
                    }
                    assert(dead);
                }
                if dead {
                    let v = ins.yielded.unwrap();
                    assert(dead_in(*func, ins));
                }
            }
            bmask.push(dead);
            ii += 1;
        }
        mask.push(bmask);
        bi += 1;
    }
    mask
}

/// `a` and `b` are the same operation up to the identity of their operand
/// vectors.
pub open spec fn op_equiv(a: Operation, b: Operation) -> bool {
    match (a, b) {
        (Operation::Integer(x), Operation::Integer(y)) => x == y,
        (Operation::BinOp(o1, l1, r1), Operation::BinOp(o2, l2, r2)) => o1 == o2 && l1 == l2 && r1
            == r2,
        (Operation::Call(f1, a1), Operation::Call(f2, a2)) => f1 == f2 && a1@ == a2@,
        (Operation::LoadVar(v1), Operation::LoadVar(v2)) => v1 == v2,
        (Operation::StoreVar(v1, x1), Operation::StoreVar(v2, x2)) => v1 == v2 && x1 == x2,
        (Operation::Phi(a1), Operation::Phi(a2)) => a1@ == a2@,
        _ => false,
    }
}

/// A copy of the instruction at a position, equivalent up to operand-vector
/// identity.
fn read_instr(func: &Function, bi: usize, ii: usize) -> (r: Instruction)
    requires
        bi < func.blocks@.len(),
        ii < func.blocks@[bi as int].instructions@.len(),
    ensures
        r.yielded == func.blocks@[bi as int].instructions@[ii as int].yielded,
        op_equiv(func.blocks@[bi as int].instructions@[ii as int].operation, r.operation),
{
    let instr = &func.blocks[bi].instructions[ii];
    let yielded = instr.yielded;
    let operation = match &instr.operation {
        Operation::Integer(k) => Operation::Integer(*k),
        Operation::BinOp(o, l, r) => Operation::BinOp(*o, *l, *r),
        Operation::Call(f, args) => {
            let mut c: Vec<ValueId> = Vec::new();
            let n = args.len();
            let mut k: usize = 0;
            while k < n
                invariant
                    0 <= k <= n,
                    n == args@.len(),
                    c@ == args@.take(k as int),
                decreases n - k,
            {
                c.push(args[k]);
                proof {
                    assert(args@.take(k + 1) =~= args@.take(k as int).push(args@[k as int]));
                }
                k += 1;
            }
            proof {
                assert(args@.take(n as int) =~= args@);
            }
            Operation::Call(*f, c)
        },
        Operation::LoadVar(v) => Operation::LoadVar(*v),
        Operation::StoreVar(v, val) => Operation::StoreVar(*v, *val),
        Operation::Phi(vals) => {
            let mut c: Vec<ValueId> = Vec::new();
            let n = vals.len();
            let mut k: usize = 0;
            while k < n
                invariant
                    0 <= k <= n,
                    n == vals@.len(),
                    c@ == vals@.take(k as int),
                decreases n - k,
            {
                c.push(vals[k]);
                proof {
                    assert(vals@.take(k + 1) =~= vals@.take(k as int).push(vals@[k as int]));
                }
                k += 1;
            }
            proof {
                assert(vals@.take(n as int) =~= vals@);
            }
            Operation::Phi(c)
        },
    };
    Instruction { yielded, operation }
}

} // verus!
