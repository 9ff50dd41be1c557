//! The construction API that front-ends use to produce initial IR. Every
//! operation states its exact effect and preserves the module invariant:
//! well-formed ids, predecessor/successor lists that mirror the terminators,
//! and use lists that mirror the instructions.

use vstd::prelude::*;

use crate::ir::defs_exact;
use crate::ir::def_count;
use crate::ir::lemma_append_instr_def_ref;
use crate::ir::lemma_def_count_append_block;
use crate::ir::lemma_def_count_append_instr;
use crate::ir::lemma_def_count_fresh;
use crate::ir::lemma_def_count_pointwise;
use crate::ir::lemma_def_of_in_range;
use crate::ir::lemma_def_ref_in_range;
use crate::ir::lemma_extended_blocks_def_ref;
use crate::ir::lemma_push_contains;
use crate::ir::lemma_module_after_plain_append;
use crate::ir::lemma_same_instrs_def_ref;
use crate::ir::lemma_seq_count_push;
use crate::ir::lemma_seq_count_zero;
use crate::ir::count_target;
use crate::ir::op_refs;
use crate::ir::seq_count_id;
use crate::ir::term_targets;
use crate::ir::AnalysisStage;
use crate::ir::BasicBlock;
use crate::ir::BinOp;
use crate::ir::BlockId;
use crate::ir::Function;
use crate::ir::FunctionId;
use crate::ir::Instruction;
use crate::ir::Linkage;
use crate::ir::Module;
use crate::ir::Operation;
use crate::ir::Terminator;
use crate::ir::Type;
use crate::ir::Value;
use crate::ir::ValueId;
use crate::ir::Variable;
use crate::ir::VariableId;

verus! {

broadcast use vstd::string::group_string_axioms;

/// Appending one instruction whose yield is either nothing or the value just
/// minted keeps every value defined exactly once.
proof fn lemma_defs_ok_after_append(om: Module, nm: Module, fi: int, cb: int, instr: Instruction)
    requires
        om.defs_ok(),
        om.wf(),
        0 <= fi < om.functions@.len(),
        nm.functions@.len() == om.functions@.len(),
        forall|k: int|
            0 <= k < om.functions@.len() && k != fi ==> #[trigger] nm.functions@[k]
                == om.functions@[k],
        0 <= cb < om.functions@[fi].blocks@.len(),
        nm.functions@[fi].blocks@.len() == om.functions@[fi].blocks@.len(),
        forall|b: int|
            0 <= b < om.functions@[fi].blocks@.len() && b != cb ==> (
            #[trigger] nm.functions@[fi].blocks@[b]).instructions
                == om.functions@[fi].blocks@[b].instructions,
        nm.functions@[fi].blocks@[cb].instructions@
            == om.functions@[fi].blocks@[cb].instructions@.push(instr),
        (match instr.yielded {
            Some(u) => u.0 == om.functions@[fi].values@.len()
                && nm.functions@[fi].values@.len() == om.functions@[fi].values@.len() + 1,
            None => nm.functions@[fi].values@.len() == om.functions@[fi].values@.len(),
        }),
    ensures
        nm.defs_ok(),
{
    let of = om.functions@[fi];
    let nf = nm.functions@[fi];
    assert forall|k: int| 0 <= k < nm.functions@.len() implies defs_exact(
        #[trigger] nm.functions@[k],
    ) by {
        if k != fi {
            assert(nm.functions@[k] == om.functions@[k]);
            assert(defs_exact(om.functions@[k]));
        } else {
            assert(defs_exact(of));
            assert forall|u: crate::ir::ValueId| #[trigger] def_count(nf, u) == (if u.0
                < nf.values@.len() {
                1nat
            } else {
                0
            }) by {
                assert(def_count(of, u) == (if u.0 < of.values@.len() {
                    1nat
                } else {
                    0
                }));
                lemma_def_count_append_instr(of, nf, cb, instr, u, nf.blocks@.len() as int);
                match instr.yielded {
                    Some(v) => {
                        if u == v {
                            lemma_def_count_fresh(of, u, of.blocks@.len() as int);
                        }
                    },
                    None => {},
                }
            }
        }
    }
}

/// Builds a module function by function, block by block. A current function
/// and a current block select where the `build_*` operations append.
pub struct ModuleBuilder {
    pub module: Module,
    pub current_func: Option<FunctionId>,
    pub current_block: Option<BlockId>,
}

impl ModuleBuilder {
    /// Index of the current function, or -1.
    pub open spec fn cur_f(&self) -> int {
        match self.current_func {
            Some(f) => f.0 as int,
            None => -1,
        }
    }

    /// Index of the current block, or -1.
    pub open spec fn cur_b(&self) -> int {
        match self.current_block {
            Some(b) => b.0 as int,
            None => -1,
        }
    }

    /// A current function is selected and exists.
    pub open spec fn func_selected(&self) -> bool {
        self.current_func is Some && self.cur_f() < self.module.functions@.len()
    }

    /// A current block is selected and exists in the current function.
    pub open spec fn block_selected(&self) -> bool {
        &&& self.func_selected()
        &&& self.current_block is Some
        &&& self.cur_b() < self.module.functions@[self.cur_f()].blocks@.len()
    }

    /// The current function.
    pub open spec fn cur_func(&self) -> Function {
        self.module.functions@[self.cur_f()]
    }

    /// The builder's module satisfies the structural invariant.
    pub open spec fn inv(&self) -> bool {
        self.module.inv()
    }

    /// A fresh builder for an empty module called `name`.
    pub fn new(name: &str) -> (b: ModuleBuilder)
        ensures
            b.module.functions@.len() == 0,
            b.module.name@ == name@,
            b.module.analysis_stage == AnalysisStage::Unanalyzed,
            b.module.algos_run@.len() == 0,
            b.current_func is None,
            b.current_block is None,
            b.inv(),
            b.module.defs_ok(),
    {
        ModuleBuilder {
            module: Module::new(name, Vec::new()),
            current_block: None,
            current_func: None,
        }
    }

    /// Hands out the finished module.
    pub fn build(self) -> (m: Module)
        ensures
            m == self.module,
    {
        self.module
    }

    /// Hands out the module without any SSA guarantee attached.
    pub fn build_nossa(self) -> (m: Module)
        ensures
            m == self.module,
    {
        self.module
    }

    /// Appends an empty function; `None` linkage defaults to private.
    pub fn push_function(
        &mut self,
        name: &str,
        ret_type: Type,
        args: Vec<(String, Type)>,
        linkage: Option<Linkage>,
    ) -> (f: FunctionId)
        requires
            old(self).inv(),
            old(self).module.defs_ok(),
        ensures
            final(self).inv(),
            final(self).module.defs_ok(),
            f.0 == old(self).module.functions@.len(),
            final(self).module.functions@.len() == old(self).module.functions@.len() + 1,
            forall|k: int|
                0 <= k < old(self).module.functions@.len() ==> final(self).module.functions@[k]
                    == old(self).module.functions@[k],
            final(self).module.functions@[f.0 as int].name@ == name@,
            final(self).module.functions@[f.0 as int].ret_type == ret_type,
            final(self).module.functions@[f.0 as int].args == args,
            final(self).module.functions@[f.0 as int].linkage == (match linkage {
                Some(l) => l,
                None => Linkage::Private,
            }),
            final(self).module.functions@[f.0 as int].blocks@.len() == 0,
            final(self).module.functions@[f.0 as int].variables@.len() == 0,
            final(self).module.functions@[f.0 as int].values@.len() == 0,
            final(self).module.functions@[f.0 as int].id == f.0,
            final(self).module.name == old(self).module.name,
            final(self).module.analysis_stage == old(self).module.analysis_stage,
            final(self).module.algos_run == old(self).module.algos_run,
            final(self).current_func == old(self).current_func,
            final(self).current_block == old(self).current_block,
    {
        let id = self.module.functions.len();
        let link = match linkage {
            Some(l) => l,
            None => Linkage::Private,
        };
        let func = Function::new(name, ret_type, args, link, Vec::new(), id);
        self.module.functions.push(func);
        proof {
            assert forall|f2: int| 0 <= f2 < self.module.functions@.len() implies defs_exact(
                #[trigger] self.module.functions@[f2],
            ) by {
                if f2 < old(self).module.functions@.len() {
                    assert(self.module.functions@[f2] == old(self).module.functions@[f2]);
                } else {
                    let nf = self.module.functions@[f2];
                    assert forall|u: crate::ir::ValueId| #[trigger] def_count(nf, u) == (if u.0
                        < nf.values@.len() {
                        1nat
                    } else {
                        0
                    }) by {
                        assert(nf.blocks@.len() == 0);
                    }
                }
            }
        }
        FunctionId(id)
    }

    /// Selects the function that the following operations build into.
    pub fn switch_to_fn(&mut self, id: FunctionId)
        requires
            old(self).inv(),
            old(self).module.defs_ok(),
            id.0 < old(self).module.functions@.len(),
        ensures
            final(self).inv(),
            final(self).module.defs_ok(),
            final(self).module == old(self).module,
            final(self).current_func == Some(id),
            final(self).current_block == old(self).current_block,
    {
        self.current_func = Some(id);
    }

    /// Selects the block that the following operations append to.
    pub fn switch_to_block(&mut self, id: BlockId)
        requires
            old(self).inv(),
            old(self).module.defs_ok(),
            old(self).func_selected(),
            id.0 < old(self).cur_func().blocks@.len(),
        ensures
            final(self).inv(),
            final(self).module.defs_ok(),
            final(self).module == old(self).module,
            final(self).current_func == old(self).current_func,
            final(self).current_block == Some(id),
    {
        self.current_block = Some(id);
    }

    /// Appends an empty block, terminated by the invalid placeholder, to the
    /// current function.
    pub fn push_block(&mut self, name: &str) -> (b: BlockId)
        requires
            old(self).inv(),
            old(self).module.defs_ok(),
            old(self).func_selected(),
        ensures
            final(self).inv(),
            final(self).module.defs_ok(),
            final(self).func_selected(),
            b.0 == old(self).cur_func().blocks@.len(),
            final(self).module.functions@.len() == old(self).module.functions@.len(),
            forall|k: int|
                0 <= k < old(self).module.functions@.len() && k != old(self).cur_f() ==> final(self).module.functions@[k] == old(self).module.functions@[k],
            final(self).cur_func().blocks@.len() == old(self).cur_func().blocks@.len() + 1,
            forall|k: int|
                0 <= k < old(self).cur_func().blocks@.len() ==> final(self).cur_func().blocks@[k]
                    == old(self).cur_func().blocks@[k],
            final(self).cur_func().blocks@[b.0 as int].name@ == name@,
            final(self).cur_func().blocks@[b.0 as int].instructions@.len() == 0,
            final(self).cur_func().blocks@[b.0 as int].terminator == Terminator::NoTerm,
            final(self).cur_func().blocks@[b.0 as int].preds@.len() == 0,
            final(self).cur_func().blocks@[b.0 as int].succs@.len() == 0,
            final(self).cur_func().blocks@[b.0 as int].par_moves@.len() == 0,
            final(self).cur_func().blocks@[b.0 as int].id == b.0,
            final(self).cur_func().values == old(self).cur_func().values,
            final(self).cur_func().variables == old(self).cur_func().variables,
            final(self).cur_func().name == old(self).cur_func().name,
            final(self).module.name == old(self).module.name,
            final(self).module.analysis_stage == old(self).module.analysis_stage,
            final(self).module.algos_run == old(self).module.algos_run,
            final(self).current_func == old(self).current_func,
            final(self).current_block == old(self).current_block,
    {
        let fi = self.current_func.unwrap().0;
        let id = self.module.functions[fi].blocks.len();
        let block = BasicBlock {
            name: name.to_string(),
            instructions: Vec::new(),
            terminator: Terminator::NoTerm,
            preds: Vec::new(),
            succs: Vec::new(),
            id,
            par_moves: Vec::new(),
        };
        let ghost of = self.module.functions@[fi as int];
        let func = &mut self.module.functions[fi];
        func.push_block(block);
        proof {
            let nf = self.module.functions@[fi as int];
            assert(nf.blocks@ == of.blocks@.push(block));
            lemma_extended_blocks_def_ref(of, nf);
            assert forall|v: int, u: BlockId| 0 <= v < nf.blocks@.len() implies
                #[trigger] seq_count_id(nf.blocks@[v].preds@, u) == (if u.0 < nf.blocks@.len() {
                count_target(nf.blocks@[u.0 as int].terminator, BlockId(v as usize))
            } else {
                0
            }) by {
                if v < of.blocks@.len() {
                    assert(nf.blocks@[v] == of.blocks@[v]);
                    if u.0 < of.blocks@.len() {
                        assert(seq_count_id(of.blocks@[v].preds@, u) == count_target(
                            of.blocks@[u.0 as int].terminator,
                            BlockId(v as usize),
                        ));
                    } else if u.0 == of.blocks@.len() {
                        assert forall|p: int| 0 <= p < of.blocks@[v].preds@.len() implies (
                        #[trigger] of.blocks@[v].preds@[p]) != u by {
                            assert(of.blocks@[v].preds@[p].0 < of.blocks@.len());
                        }
                        lemma_seq_count_zero(of.blocks@[v].preds@, u);
                        assert(count_target(Terminator::NoTerm, BlockId(v as usize)) == 0);
                    } else {
                        assert forall|p: int| 0 <= p < of.blocks@[v].preds@.len() implies (
                        #[trigger] of.blocks@[v].preds@[p]) != u by {
                            assert(of.blocks@[v].preds@[p].0 < of.blocks@.len());
                        }
                        lemma_seq_count_zero(of.blocks@[v].preds@, u);
                    }
                } else {
                    assert(nf.blocks@[v].preds@.len() == 0);
                    if u.0 < nf.blocks@.len() {
                        assert(count_target(nf.blocks@[u.0 as int].terminator, BlockId(v as usize))
                            == 0) by {
                            if u.0 < of.blocks@.len() {
                                assert(of.term_wf(of.blocks@[u.0 as int].terminator));
                            }
                        }
                    }
                }
            }
            assert(nf.preds_consistent());
            assert(nf.wf());
            assert(nf.use_lists_consistent());
            assert(nf.succs_consistent()) by {
                assert(term_targets(Terminator::NoTerm) =~= block.succs@);
            }
            assert forall|k: int| 0 <= k < self.module.functions@.len() implies (
            #[trigger] self.module.functions@[k]).wf() && self.module.functions@[k].use_lists_consistent()
                && self.module.functions@[k].preds_consistent()
                && self.module.functions@[k].succs_consistent() && defs_exact(
                self.module.functions@[k],
            ) by {
                if k != fi {
                    assert(self.module.functions@[k] == old(self).module.functions@[k]);
                } else {
                    assert forall|u: crate::ir::ValueId| #[trigger] def_count(nf, u) == (if u.0
                        < nf.values@.len() {
                        1nat
                    } else {
                        0
                    }) by {
                        assert(defs_exact(of));
                        assert(def_count(of, u) == (if u.0 < of.values@.len() {
                            1nat
                        } else {
                            0
                        }));
                        lemma_def_count_append_block(of, nf, u, nf.blocks@.len() as int);
                    }
                }
            }
        }
        BlockId(id)
    }

    /// Appends a fresh variable of type `ty` to the current function.
    pub fn push_variable(&mut self, name: &str, ty: Type) -> (v: VariableId)
        requires
            old(self).inv(),
            old(self).module.defs_ok(),
            old(self).func_selected(),
        ensures
            final(self).inv(),
            final(self).module.defs_ok(),
            v.0 == old(self).cur_func().variables@.len(),
            final(self).module.functions@.len() == old(self).module.functions@.len(),
            forall|k: int|
                0 <= k < old(self).module.functions@.len() && k != old(self).cur_f() ==> final(self).module.functions@[k] == old(self).module.functions@[k],
            final(self).cur_func().variables@.len() == old(self).cur_func().variables@.len() + 1,
            forall|k: int|
                0 <= k < old(self).cur_func().variables@.len() ==> final(self).cur_func().variables@[k] == old(self).cur_func().variables@[k],
            final(self).cur_func().variables@[v.0 as int].name@ == name@,
            final(self).cur_func().variables@[v.0 as int].ty == ty,
            final(self).cur_func().variables@[v.0 as int].bbs_assign_to@.len() == 0,
            final(self).cur_func().blocks == old(self).cur_func().blocks,
            final(self).cur_func().values == old(self).cur_func().values,
            final(self).module.name == old(self).module.name,
            final(self).module.algos_run == old(self).module.algos_run,
            final(self).module.analysis_stage == old(self).module.analysis_stage,
            final(self).current_func == old(self).current_func,
            final(self).current_block == old(self).current_block,
    {
        let fi = self.current_func.unwrap().0;
        let ghost of = self.module.functions@[fi as int];
        let id = self.module.functions[fi].variables.len();
        let func = &mut self.module.functions[fi];
        func.variables.push(Variable { name: name.to_string(), ty, bbs_assign_to: Vec::new() });
        proof {
            let nf = self.module.functions@[fi as int];
            assert forall|b: int, i: int|
                0 <= b < nf.blocks@.len() && 0 <= i < nf.blocks@[b].instructions@.len() implies
                nf.instr_wf(#[trigger] nf.blocks@[b].instructions@[i]) by {
                assert(of.instr_wf(of.blocks@[b].instructions@[i]));
            }
            lemma_same_instrs_def_ref(of, nf);
            assert(nf.wf());
            assert(nf.use_lists_consistent());
            assert forall|k: int| 0 <= k < self.module.functions@.len() implies (
            #[trigger] self.module.functions@[k]).wf() && self.module.functions@[k].use_lists_consistent()
                && self.module.functions@[k].preds_consistent()
                && self.module.functions@[k].succs_consistent() && defs_exact(
                self.module.functions@[k],
            ) by {
                if k != fi {
                    assert(self.module.functions@[k] == old(self).module.functions@[k]);
                } else {
                    assert forall|u: crate::ir::ValueId| #[trigger] def_count(nf, u) == (if u.0
                        < nf.values@.len() {
                        1nat
                    } else {
                        0
                    }) by {
                        assert(defs_exact(of));
                        assert(def_count(of, u) == (if u.0 < of.values@.len() {
                            1nat
                        } else {
                            0
                        }));
                        lemma_def_count_pointwise(of, nf, u, of.blocks@.len() as int);
                    }
                }
            }
        }
        VariableId(id)
    }
    /// Mints a fresh value owned by the current block.
    fn push_value(&mut self, ty: Type) -> (v: ValueId)
        requires
            old(self).inv(),
            old(self).block_selected(),
        ensures
            final(self).inv(),
            final(self).block_selected(),
            final(self).current_func == old(self).current_func,
            final(self).current_block == old(self).current_block,
            v.0 == old(self).cur_func().values@.len(),
            final(self).module.functions@.len() == old(self).module.functions@.len(),
            forall|k: int|
                0 <= k < old(self).module.functions@.len() && k != old(self).cur_f() ==> final(self).module.functions@[k] == old(self).module.functions@[k],
            final(self).cur_func().values@.len() == old(self).cur_func().values@.len() + 1,
            forall|k: int|
                0 <= k < old(self).cur_func().values@.len() ==> final(self).cur_func().values@[k]
                    == old(self).cur_func().values@[k],
            final(self).cur_func().values@[v.0 as int].ty == ty,
            final(self).cur_func().values@[v.0 as int].children@.len() == 0,
            final(self).cur_func().values@[v.0 as int].owner == BlockId(old(self).cur_b() as usize),
            final(self).cur_func().blocks == old(self).cur_func().blocks,
            final(self).cur_func().variables == old(self).cur_func().variables,
            final(self).cur_func().name == old(self).cur_func().name,
            final(self).module.name == old(self).module.name,
            final(self).module.analysis_stage == old(self).module.analysis_stage,
            final(self).module.algos_run == old(self).module.algos_run,
    {
        let fi = self.current_func.unwrap().0;
        let owner = self.current_block.unwrap();
        let ghost of = self.module.functions@[fi as int];
        let id = self.module.functions[fi].values.len();
        let func = &mut self.module.functions[fi];
        func.values.push(Value { ty, children: Vec::new(), owner });
        proof {
            let nf = self.module.functions@[fi as int];
            assert forall|b: int, i: int|
                0 <= b < nf.blocks@.len() && 0 <= i < nf.blocks@[b].instructions@.len() implies
                nf.instr_wf(#[trigger] nf.blocks@[b].instructions@[i]) by {
                assert(of.instr_wf(of.blocks@[b].instructions@[i]));
            }
            assert forall|w: int, c: int|
                0 <= w < nf.values@.len() && 0 <= c < nf.values@[w].children@.len() implies (
            #[trigger] nf.values@[w].children@[c]).0 < nf.values@.len() by {
                if w < of.values@.len() {
                    assert(nf.values@[w] == of.values@[w]);
                    assert(of.values@[w].children@[c].0 < of.values@.len());
                }
            }
            lemma_same_instrs_def_ref(of, nf);
            assert(nf.wf());
            assert forall|w: ValueId, u: ValueId| w.0 < nf.values@.len() implies ((
            #[trigger] nf.values@[w.0 as int].children@.contains(u)) <==> nf.has_def_ref(u, w)) by {
                if w.0 < of.values@.len() {
                    assert(nf.values@[w.0 as int] == of.values@[w.0 as int]);
                    assert(of.values@[w.0 as int].children@.contains(u) <==> of.has_def_ref(u, w));
                } else {
                    lemma_def_ref_in_range(of, u, w);
                    assert(nf.values@[w.0 as int].children@.len() == 0);
                }
            }
            assert(nf.use_lists_consistent());
            assert forall|k: int| 0 <= k < self.module.functions@.len() implies (
            #[trigger] self.module.functions@[k]).wf() && self.module.functions@[k].use_lists_consistent()
                && self.module.functions@[k].preds_consistent()
                && self.module.functions@[k].succs_consistent() by {
                if k != fi {
                    assert(self.module.functions@[k] == old(self).module.functions@[k]);
                }
            }
        }
        ValueId(id)
    }

    /// Appends an integer-constant instruction yielding a fresh value.
    pub fn build_integer(&mut self, value: i64, ty: Type) -> (v: ValueId)
        requires
            old(self).inv(),
            old(self).module.defs_ok(),
            old(self).block_selected(),
        ensures
            final(self).inv(),
            final(self).module.defs_ok(),
            final(self).block_selected(),
            final(self).current_func == old(self).current_func,
            final(self).current_block == old(self).current_block,
            v.0 == old(self).cur_func().values@.len(),
            final(self).module.functions@.len() == old(self).module.functions@.len(),
            forall|k: int|
                0 <= k < old(self).module.functions@.len() && k != old(self).cur_f() ==> final(self).module.functions@[k] == old(self).module.functions@[k],
            final(self).cur_func().values@.len() == old(self).cur_func().values@.len() + 1,
            forall|k: int|
                0 <= k < old(self).cur_func().values@.len() ==> final(self).cur_func().values@[k]
                    == old(self).cur_func().values@[k],
            final(self).cur_func().values@[v.0 as int].ty == ty,
            final(self).cur_func().values@[v.0 as int].children@.len() == 0,
            final(self).cur_func().values@[v.0 as int].owner == BlockId(old(self).cur_b() as usize),
            final(self).cur_func().blocks@.len() == old(self).cur_func().blocks@.len(),
            forall|k: int|
                0 <= k < old(self).cur_func().blocks@.len() && k != old(self).cur_b() ==> final(self).cur_func().blocks@[k] == old(self).cur_func().blocks@[k],
            final(self).cur_func().blocks@[old(self).cur_b()].instructions@ == old(self).cur_func().blocks@[old(self).cur_b()].instructions@.push(
                Instruction { yielded: Some(v), operation: Operation::Integer(value) },
            ),
            final(self).cur_func().blocks@[old(self).cur_b()].terminator == old(self).cur_func().blocks@[old(self).cur_b()].terminator,
            final(self).cur_func().blocks@[old(self).cur_b()].preds == old(self).cur_func().blocks@[old(self).cur_b()].preds,
            final(self).cur_func().blocks@[old(self).cur_b()].succs == old(self).cur_func().blocks@[old(self).cur_b()].succs,
            final(self).cur_func().blocks@[old(self).cur_b()].par_moves == old(self).cur_func().blocks@[old(self).cur_b()].par_moves,
            final(self).cur_func().variables == old(self).cur_func().variables,
            final(self).module.name == old(self).module.name,
            final(self).module.analysis_stage == old(self).module.analysis_stage,
            final(self).module.algos_run == old(self).module.algos_run,
    {
        let v = self.push_value(ty);
        let fi = self.current_func.unwrap().0;
        let bi = self.current_block.unwrap().0;
        let instr = Instruction { yielded: Some(v), operation: Operation::Integer(value) };
        let ghost mm = self.module;
        self.module.functions[fi].blocks[bi].instructions.push(instr);
        proof {
            lemma_module_after_plain_append(mm, self.module, fi as int, bi as int, instr);
            lemma_defs_ok_after_append(
                old(self).module,
                self.module,
                fi as int,
                bi as int,
                instr,
            );
        }
        v
    }

    /// Appends a load of `var` yielding a fresh value of the variable's type.
    pub fn build_load(&mut self, var: VariableId) -> (v: ValueId)
        requires
            old(self).inv(),
            old(self).module.defs_ok(),
            old(self).block_selected(),
            var.0 < old(self).cur_func().variables@.len(),
        ensures
            final(self).inv(),
            final(self).module.defs_ok(),
            final(self).block_selected(),
            final(self).current_func == old(self).current_func,
            final(self).current_block == old(self).current_block,
            v.0 == old(self).cur_func().values@.len(),
            final(self).module.functions@.len() == old(self).module.functions@.len(),
            forall|k: int|
                0 <= k < old(self).module.functions@.len() && k != old(self).cur_f() ==> final(self).module.functions@[k] == old(self).module.functions@[k],
            final(self).cur_func().values@.len() == old(self).cur_func().values@.len() + 1,
            forall|k: int|
                0 <= k < old(self).cur_func().values@.len() ==> final(self).cur_func().values@[k]
                    == old(self).cur_func().values@[k],
            final(self).cur_func().values@[v.0 as int].ty == old(self).cur_func().variables@[var.0 as int].ty,
            final(self).cur_func().values@[v.0 as int].children@.len() == 0,
            final(self).cur_func().values@[v.0 as int].owner == BlockId(old(self).cur_b() as usize),
            final(self).cur_func().blocks@.len() == old(self).cur_func().blocks@.len(),
            forall|k: int|
                0 <= k < old(self).cur_func().blocks@.len() && k != old(self).cur_b() ==> final(self).cur_func().blocks@[k] == old(self).cur_func().blocks@[k],
            final(self).cur_func().blocks@[old(self).cur_b()].instructions@ == old(self).cur_func().blocks@[old(self).cur_b()].instructions@.push(
                Instruction { yielded: Some(v), operation: Operation::LoadVar(var) },
            ),
            final(self).cur_func().blocks@[old(self).cur_b()].terminator == old(self).cur_func().blocks@[old(self).cur_b()].terminator,
            final(self).cur_func().blocks@[old(self).cur_b()].preds == old(self).cur_func().blocks@[old(self).cur_b()].preds,
            final(self).cur_func().blocks@[old(self).cur_b()].succs == old(self).cur_func().blocks@[old(self).cur_b()].succs,
            final(self).cur_func().blocks@[old(self).cur_b()].par_moves == old(self).cur_func().blocks@[old(self).cur_b()].par_moves,
            final(self).cur_func().variables == old(self).cur_func().variables,
            final(self).module.name == old(self).module.name,
            final(self).module.analysis_stage == old(self).module.analysis_stage,
            final(self).module.algos_run == old(self).module.algos_run,
    {
        let fi = self.current_func.unwrap().0;
        let ty = self.module.functions[fi].variables[var.0].ty.duplicate();
        let v = self.push_value(ty);
        let bi = self.current_block.unwrap().0;
        let instr = Instruction { yielded: Some(v), operation: Operation::LoadVar(var) };
        let ghost mm = self.module;
        self.module.functions[fi].blocks[bi].instructions.push(instr);
        proof {
            lemma_module_after_plain_append(mm, self.module, fi as int, bi as int, instr);
            lemma_defs_ok_after_append(
                old(self).module,
                self.module,
                fi as int,
                bi as int,
                instr,
            );
        }
        v
    }

    /// Appends a store of `value` into `var` and records the current block in
    /// the variable's assignment set.
    pub fn build_store(&mut self, var: VariableId, value: ValueId)
        requires
            old(self).inv(),
            old(self).module.defs_ok(),
            old(self).block_selected(),
            var.0 < old(self).cur_func().variables@.len(),
            value.0 < old(self).cur_func().values@.len(),
        ensures
            final(self).inv(),
            final(self).module.defs_ok(),
            final(self).block_selected(),
            final(self).current_func == old(self).current_func,
            final(self).current_block == old(self).current_block,
            final(self).module.functions@.len() == old(self).module.functions@.len(),
            forall|k: int|
                0 <= k < old(self).module.functions@.len() && k != old(self).cur_f() ==> final(self).module.functions@[k] == old(self).module.functions@[k],
            final(self).cur_func().values == old(self).cur_func().values,
            final(self).cur_func().blocks@.len() == old(self).cur_func().blocks@.len(),
            forall|k: int|
                0 <= k < old(self).cur_func().blocks@.len() && k != old(self).cur_b() ==> final(self).cur_func().blocks@[k] == old(self).cur_func().blocks@[k],
            final(self).cur_func().blocks@[old(self).cur_b()].instructions@ == old(self).cur_func().blocks@[old(self).cur_b()].instructions@.push(
                Instruction { yielded: None, operation: Operation::StoreVar(var, value) },
            ),
            final(self).cur_func().blocks@[old(self).cur_b()].terminator == old(self).cur_func().blocks@[old(self).cur_b()].terminator,
            final(self).cur_func().blocks@[old(self).cur_b()].preds == old(self).cur_func().blocks@[old(self).cur_b()].preds,
            final(self).cur_func().blocks@[old(self).cur_b()].succs == old(self).cur_func().blocks@[old(self).cur_b()].succs,
            final(self).cur_func().blocks@[old(self).cur_b()].par_moves == old(self).cur_func().blocks@[old(self).cur_b()].par_moves,
            final(self).cur_func().variables@.len() == old(self).cur_func().variables@.len(),
            forall|k: int|
                0 <= k < old(self).cur_func().variables@.len() && k != var.0 ==> final(self).cur_func().variables@[k] == old(self).cur_func().variables@[k],
            final(self).cur_func().variables@[var.0 as int].name == old(self).cur_func().variables@[var.0 as int].name,
            final(self).cur_func().variables@[var.0 as int].ty == old(self).cur_func().variables@[var.0 as int].ty,
            final(self).cur_func().variables@[var.0 as int].bbs_assign_to@ == (if old(self).cur_func().variables@[var.0 as int].bbs_assign_to@.contains(
                BlockId(old(self).cur_b() as usize),
            ) {
                old(self).cur_func().variables@[var.0 as int].bbs_assign_to@
            } else {
                old(self).cur_func().variables@[var.0 as int].bbs_assign_to@.push(
                    BlockId(old(self).cur_b() as usize),
                )
            }),
            final(self).module.name == old(self).module.name,
            final(self).module.analysis_stage == old(self).module.analysis_stage,
            final(self).module.algos_run == old(self).module.algos_run,
    {
        let fi = self.current_func.unwrap().0;
        let cur_blk = self.current_block.unwrap();
        let bi = cur_blk.0;
        let instr = Instruction { yielded: None, operation: Operation::StoreVar(var, value) };
        let ghost mm = self.module;
        self.module.functions[fi].blocks[bi].instructions.push(instr);
        proof {
            lemma_module_after_plain_append(mm, self.module, fi as int, bi as int, instr);
            lemma_defs_ok_after_append(
                old(self).module,
                self.module,
                fi as int,
                bi as int,
                instr,
            );
        }
        let ghost snap = *self;
        let nvars = self.module.functions[fi].variables[var.0].bbs_assign_to.len();
        let mut present = false;
        let mut i: usize = 0;
        while i < nvars
            invariant
                *self == snap,
                fi == snap.cur_f(),
                snap.func_selected(),
                var.0 < snap.cur_func().variables@.len(),
                nvars == snap.cur_func().variables@[var.0 as int].bbs_assign_to@.len(),
                0 <= i <= nvars,
                present == exists|j: int|
                    0 <= j < i && snap.cur_func().variables@[var.0 as int].bbs_assign_to@[j]
                        == cur_blk,
            decreases nvars - i,
        {
            if self.module.functions[fi].variables[var.0].bbs_assign_to[i] == cur_blk {
                present = true;
            }
            i += 1;
        }
        if !present {
            assert(!snap.cur_func().variables@[var.0 as int].bbs_assign_to@.contains(cur_blk));
            self.module.functions[fi].variables[var.0].bbs_assign_to.push(cur_blk);
            proof {
                let nf = self.module.functions@[fi as int];
                let sf = snap.module.functions@[fi as int];
                assert forall|b: int, i2: int|
                    0 <= b < nf.blocks@.len() && 0 <= i2 < nf.blocks@[b].instructions@.len() implies
                    nf.instr_wf(#[trigger] nf.blocks@[b].instructions@[i2]) by {
                    assert(sf.instr_wf(sf.blocks@[b].instructions@[i2]));
                }
                lemma_same_instrs_def_ref(sf, nf);
                assert(nf.wf() && nf.use_lists_consistent());
                assert forall|k: int| 0 <= k < self.module.functions@.len() implies (
                #[trigger] self.module.functions@[k]).wf()
                    && self.module.functions@[k].use_lists_consistent()
                    && self.module.functions@[k].preds_consistent()
                    && self.module.functions@[k].succs_consistent() && defs_exact(
                    self.module.functions@[k],
                ) by {
                    if k != fi {
                        assert(self.module.functions@[k] == snap.module.functions@[k]);
                        assert(defs_exact(snap.module.functions@[k]));
                    } else {
                        assert(defs_exact(sf));
                        assert forall|u: crate::ir::ValueId| #[trigger] def_count(nf, u) == (if u.0
                            < nf.values@.len() {
                            1nat
                        } else {
                            0
                        }) by {
                            assert(def_count(sf, u) == (if u.0 < sf.values@.len() {
                                1nat
                            } else {
                                0
                            }));
                            lemma_def_count_pointwise(sf, nf, u, sf.blocks@.len() as int);
                        }
                    }
                }
            }
        } else {
            assert(snap.cur_func().variables@[var.0 as int].bbs_assign_to@.contains(cur_blk));
        }
    }

    /// Appends a two-operand instruction yielding a fresh value, and records
    /// the new value in the use lists of both operands.
    pub fn build_binop(&mut self, op: BinOp, lhs: ValueId, rhs: ValueId, ty: Type) -> (v: ValueId)
        requires
            old(self).inv(),
            old(self).module.defs_ok(),
            old(self).block_selected(),
            lhs.0 < old(self).cur_func().values@.len(),
            rhs.0 < old(self).cur_func().values@.len(),
        ensures
            final(self).inv(),
            final(self).module.defs_ok(),
            final(self).block_selected(),
            final(self).current_func == old(self).current_func,
            final(self).current_block == old(self).current_block,
            v.0 == old(self).cur_func().values@.len(),
            final(self).module.functions@.len() == old(self).module.functions@.len(),
            forall|k: int|
                0 <= k < old(self).module.functions@.len() && k != old(self).cur_f() ==> final(self).module.functions@[k] == old(self).module.functions@[k],
            final(self).cur_func().values@.len() == old(self).cur_func().values@.len() + 1,
            forall|k: int|
                0 <= k < old(self).cur_func().values@.len() && k != lhs.0 && k != rhs.0 ==> final(self).cur_func().values@[k] == old(self).cur_func().values@[k],
            final(self).cur_func().values@[v.0 as int].ty == ty,
            final(self).cur_func().values@[v.0 as int].children@.len() == 0,
            final(self).cur_func().values@[v.0 as int].owner == BlockId(old(self).cur_b() as usize),
            lhs != rhs ==> final(self).cur_func().values@[lhs.0 as int].children@ == old(self).cur_func().values@[lhs.0 as int].children@.push(v),
            lhs != rhs ==> final(self).cur_func().values@[rhs.0 as int].children@ == old(self).cur_func().values@[rhs.0 as int].children@.push(v),
            lhs == rhs ==> final(self).cur_func().values@[lhs.0 as int].children@ == old(self).cur_func().values@[lhs.0 as int].children@.push(v),
            final(self).cur_func().values@[lhs.0 as int].ty == old(self).cur_func().values@[lhs.0 as int].ty,
            final(self).cur_func().values@[rhs.0 as int].ty == old(self).cur_func().values@[rhs.0 as int].ty,
            final(self).cur_func().values@[lhs.0 as int].owner == old(self).cur_func().values@[lhs.0 as int].owner,
            final(self).cur_func().values@[rhs.0 as int].owner == old(self).cur_func().values@[rhs.0 as int].owner,
            final(self).cur_func().blocks@.len() == old(self).cur_func().blocks@.len(),
            forall|k: int|
                0 <= k < old(self).cur_func().blocks@.len() && k != old(self).cur_b() ==> final(self).cur_func().blocks@[k] == old(self).cur_func().blocks@[k],
            final(self).cur_func().blocks@[old(self).cur_b()].instructions@ == old(self).cur_func().blocks@[old(self).cur_b()].instructions@.push(
                Instruction { yielded: Some(v), operation: Operation::BinOp(op, lhs, rhs) },
            ),
            final(self).cur_func().blocks@[old(self).cur_b()].terminator == old(self).cur_func().blocks@[old(self).cur_b()].terminator,
            final(self).cur_func().blocks@[old(self).cur_b()].preds == old(self).cur_func().blocks@[old(self).cur_b()].preds,
            final(self).cur_func().blocks@[old(self).cur_b()].succs == old(self).cur_func().blocks@[old(self).cur_b()].succs,
            final(self).cur_func().blocks@[old(self).cur_b()].par_moves == old(self).cur_func().blocks@[old(self).cur_b()].par_moves,
            final(self).cur_func().variables == old(self).cur_func().variables,
            final(self).module.name == old(self).module.name,
            final(self).module.analysis_stage == old(self).module.analysis_stage,
            final(self).module.algos_run == old(self).module.algos_run,
    {
        let v = self.push_value(ty);
        let fi = self.current_func.unwrap().0;
        let bi = self.current_block.unwrap().0;
        let ghost m1 = self.module.functions@[fi as int];
        // Each operand value consumes the result once, also when both
        // operands name the same value: the use list is a set.
        self.module.functions[fi].values[rhs.0].children.push(v);
        if lhs != rhs {
            self.module.functions[fi].values[lhs.0].children.push(v);
        }
        let instr = Instruction { yielded: Some(v), operation: Operation::BinOp(op, lhs, rhs) };
        let ghost m2 = self.module.functions@[fi as int];
        self.module.functions[fi].blocks[bi].instructions.push(instr);
        proof {
            let nf = self.module.functions@[fi as int];
            // Well-formedness of the extended function.
            assert forall|b: int, i: int|
                0 <= b < nf.blocks@.len() && 0 <= i < nf.blocks@[b].instructions@.len() implies
                nf.instr_wf(#[trigger] nf.blocks@[b].instructions@[i]) by {
                if b == bi && i == m2.blocks@[bi as int].instructions@.len() {
                    assert(nf.blocks@[b].instructions@[i] == instr);
                } else {
                    assert(nf.blocks@[b].instructions@[i] == m1.blocks@[b].instructions@[i]);
                    assert(m1.instr_wf(m1.blocks@[b].instructions@[i]));
                }
            }
            assert forall|w: int, c: int|
                0 <= w < nf.values@.len() && 0 <= c < nf.values@[w].children@.len() implies (
            #[trigger] nf.values@[w].children@[c]).0 < nf.values@.len() by {
                if w == lhs.0 || w == rhs.0 {
                    if c < m1.values@[w].children@.len() {
                        assert(m1.values@[w].children@[c].0 < m1.values@.len());
                    } else {
                        assert(nf.values@[w].children@[c] == v);
                    }
                } else {
                    assert(nf.values@[w] == m1.values@[w]);
                    assert(m1.values@[w].children@[c].0 < m1.values@.len());
                }
            }
            assert(nf.wf());
            lemma_same_instrs_def_ref(m1, m2);
            lemma_append_instr_def_ref(m2, nf, bi as int, instr);
            // Use lists stay consistent: only lhs and rhs gained the fresh
            // child, and only the new instruction reads them.
            assert forall|w: ValueId, u: ValueId| w.0 < nf.values@.len() implies ((
            #[trigger] nf.values@[w.0 as int].children@.contains(u)) <==> nf.has_def_ref(u, w)) by {
                if w.0 < m1.values@.len() {
                    assert(m1.values@[w.0 as int].children@.contains(u) <==> m1.has_def_ref(u, w));
                    if w == lhs || w == rhs {
                        lemma_push_contains(m1.values@[w.0 as int].children@, v, u);
                        let f0 = old(self).module.functions@[fi as int];
                        lemma_same_instrs_def_ref(f0, m1);
                        lemma_def_of_in_range(f0, v, w);
                        assert(nf.has_def_ref(u, w) == (m1.has_def_ref(u, w) || u == v));
                    } else {
                        assert(nf.values@[w.0 as int] == m1.values@[w.0 as int]);
                        assert(!(op_refs(instr.operation, w)));
                        assert(nf.has_def_ref(u, w) == m1.has_def_ref(u, w));
                    }
                } else {
                    assert(w.0 == m1.values@.len() - 1 || w.0 >= m1.values@.len());
                    assert(w == v || w.0 >= m1.values@.len());
                    assert(nf.values@[w.0 as int].children@.len() == 0);
                    lemma_def_ref_in_range(m1, u, w);
                    assert(lhs != w && rhs != w);
                    assert(!op_refs(instr.operation, w));
                }
            }
            assert(nf.use_lists_consistent());
            assert forall|k: int| 0 <= k < self.module.functions@.len() implies (
            #[trigger] self.module.functions@[k]).wf() && self.module.functions@[k].use_lists_consistent()
                && self.module.functions@[k].preds_consistent()
                && self.module.functions@[k].succs_consistent() by {
                if k != fi {
                    assert(self.module.functions@[k] == old(self).module.functions@[k]);
                }
            }
            lemma_defs_ok_after_append(
                old(self).module,
                self.module,
                fi as int,
                bi as int,
                instr,
            );
        }
        v
    }

    /// Installs the terminator of the current block and extends the
    /// predecessor and successor lists of the blocks it addresses. Installing
    /// the invalid placeholder, or overwriting an existing terminator, is a
    /// caller error and is ruled out.
    pub fn set_terminator(&mut self, terminator: Terminator)
        requires
            old(self).inv(),
            old(self).module.defs_ok(),
            old(self).block_selected(),
            !(terminator is NoTerm),
            old(self).cur_func().blocks@[old(self).cur_b()].terminator is NoTerm,
            old(self).cur_func().term_wf(terminator),
        ensures
            final(self).inv(),
            final(self).module.defs_ok(),
            final(self).block_selected(),
            final(self).current_func == old(self).current_func,
            final(self).current_block == old(self).current_block,
            final(self).module.functions@.len() == old(self).module.functions@.len(),
            forall|k: int|
                0 <= k < old(self).module.functions@.len() && k != old(self).cur_f() ==> final(self).module.functions@[k] == old(self).module.functions@[k],
            final(self).cur_func().values == old(self).cur_func().values,
            final(self).cur_func().variables == old(self).cur_func().variables,
            final(self).cur_func().blocks@.len() == old(self).cur_func().blocks@.len(),
            final(self).cur_func().blocks@[old(self).cur_b()].terminator == terminator,
            final(self).cur_func().blocks@[old(self).cur_b()].succs@ == term_targets(terminator),
            forall|k: int|
                0 <= k < old(self).cur_func().blocks@.len() ==> (#[trigger] final(self).cur_func().blocks@[k]).instructions == old(self).cur_func().blocks@[k].instructions,
            forall|k: int|
                0 <= k < old(self).cur_func().blocks@.len() ==> (#[trigger] final(self).cur_func().blocks@[k]).preds@ == old(self).cur_func().blocks@[k].preds@
                    + Seq::new(
                    count_target(terminator, BlockId(k as usize)),
                    |i: int| BlockId(old(self).cur_b() as usize),
                ),
            final(self).module.name == old(self).module.name,
            final(self).module.analysis_stage == old(self).module.analysis_stage,
            final(self).module.algos_run == old(self).module.algos_run,
    {
        let fi = self.current_func.unwrap().0;
        let cur_blk = self.current_block.unwrap();
        match terminator {
            Terminator::Return(_) => {},
            Terminator::Jump(loc) => {
                self.module.functions[fi].blocks[loc.0].preds.push(cur_blk);
            },
            Terminator::Branch(_, loc1, loc2) => {
                self.module.functions[fi].blocks[loc1.0].preds.push(cur_blk);
                self.module.functions[fi].blocks[loc2.0].preds.push(cur_blk);
            },
            Terminator::NoTerm => {},
        }
        let mut succs: Vec<BlockId> = Vec::new();
        match terminator {
            Terminator::Jump(loc) => {
                succs.push(loc);
            },
            Terminator::Branch(_, loc1, loc2) => {
                succs.push(loc1);
                succs.push(loc2);
            },
            _ => {},
        }
        let ghost m1 = self.module.functions@[fi as int];
        {
            let blk = &mut self.module.functions[fi].blocks[cur_blk.0];
            blk.terminator = terminator;
            blk.succs = succs;
        }
        proof {
            let of = old(self).module.functions@[fi as int];
            let nf = self.module.functions@[fi as int];
            let cb = cur_blk.0 as int;
            assert(term_targets(terminator) =~= nf.blocks@[cb].succs@);
            assert forall|b: int, i: int|
                0 <= b < nf.blocks@.len() && 0 <= i < nf.blocks@[b].instructions@.len() implies
                nf.instr_wf(#[trigger] nf.blocks@[b].instructions@[i]) by {
                assert(nf.blocks@[b].instructions == of.blocks@[b].instructions);
                assert(of.instr_wf(of.blocks@[b].instructions@[i]));
            }
            assert(nf.wf());
            lemma_same_instrs_def_ref(of, nf);
            assert(nf.use_lists_consistent());
            // Predecessor counts: the current block's old terminator was the
            // placeholder, so its edge count into every block was zero.
            assert forall|vv: int, u: BlockId| 0 <= vv < nf.blocks@.len() implies
                #[trigger] seq_count_id(nf.blocks@[vv].preds@, u) == (if u.0 < nf.blocks@.len() {
                count_target(nf.blocks@[u.0 as int].terminator, BlockId(vv as usize))
            } else {
                0
            }) by {
                let vid = BlockId(vv as usize);
                assert(seq_count_id(of.blocks@[vv].preds@, u) == (if u.0 < of.blocks@.len() {
                    count_target(of.blocks@[u.0 as int].terminator, vid)
                } else {
                    0
                }));
                match terminator {
                    Terminator::Return(_) => {
                        assert(nf.blocks@[vv].preds@ == of.blocks@[vv].preds@);
                    },
                    Terminator::Jump(loc) => {
                        if vv == loc.0 {
                            lemma_seq_count_push(of.blocks@[vv].preds@, cur_blk, u);
                        } else {
                            assert(nf.blocks@[vv].preds@ == of.blocks@[vv].preds@);
                        }
                    },
                    Terminator::Branch(_, loc1, loc2) => {
                        if vv == loc1.0 && vv == loc2.0 {
                            lemma_seq_count_push(of.blocks@[vv].preds@, cur_blk, u);
                            lemma_seq_count_push(
                                of.blocks@[vv].preds@.push(cur_blk),
                                cur_blk,
                                u,
                            );
                        } else if vv == loc1.0 || vv == loc2.0 {
                            lemma_seq_count_push(of.blocks@[vv].preds@, cur_blk, u);
                        } else {
                            assert(nf.blocks@[vv].preds@ == of.blocks@[vv].preds@);
                        }
                    },
                    Terminator::NoTerm => {},
                }
            }
            assert(nf.preds_consistent());
            assert forall|b: int| 0 <= b < nf.blocks@.len() implies (
            #[trigger] nf.blocks@[b]).succs@ == term_targets(nf.blocks@[b].terminator) by {
                if b != cb {
                    assert(nf.blocks@[b].succs == of.blocks@[b].succs);
                    assert(nf.blocks@[b].terminator == of.blocks@[b].terminator);
                }
            }
            assert(nf.succs_consistent());
            assert forall|k: int| 0 <= k < self.module.functions@.len() implies (
            #[trigger] self.module.functions@[k]).wf() && self.module.functions@[k].use_lists_consistent()
                && self.module.functions@[k].preds_consistent()
                && self.module.functions@[k].succs_consistent() && defs_exact(
                self.module.functions@[k],
            ) by {
                if k != fi {
                    assert(self.module.functions@[k] == old(self).module.functions@[k]);
                    assert(defs_exact(old(self).module.functions@[k]));
                } else {
                    assert(defs_exact(of));
                    assert forall|u: crate::ir::ValueId| #[trigger] def_count(nf, u) == (if u.0
                        < nf.values@.len() {
                        1nat
                    } else {
                        0
                    }) by {
                        assert(def_count(of, u) == (if u.0 < of.values@.len() {
                            1nat
                        } else {
                            0
                        }));
                        lemma_def_count_pointwise(of, nf, u, of.blocks@.len() as int);
                    }
                }
            }
            assert forall|k: int| 0 <= k < old(self).cur_func().blocks@.len() implies (
            #[trigger] final(self).cur_func().blocks@[k]).preds@ == old(self).cur_func().blocks@[k].preds@ + Seq::new(
                count_target(terminator, BlockId(k as usize)),
                |i: int| BlockId(old(self).cur_b() as usize),
            ) by {
                let piece = Seq::new(
                    count_target(terminator, BlockId(k as usize)),
                    |i: int| BlockId(old(self).cur_b() as usize),
                );
                match terminator {
                    Terminator::NoTerm => {},
                    _ => {
                        assert(nf.blocks@[k].preds@ =~= of.blocks@[k].preds@ + piece);
                    },
                }
            }
        }
    }
}

} // verus!
