//! Target-aware virtual code: instruction streams grouped per function and
//! per block, the generator that builds them, the selector capability that
//! targets implement, and the lowering driver that walks a module through a
//! selector.

use vstd::prelude::*;

use crate::ir::Instruction;
use crate::ir::Linkage;
use crate::ir::Module;
use crate::ir::Terminator;
use crate::ir::ValueId;
use crate::regalloc::Regalloc;
use crate::regalloc::VReg;
use crate::regalloc::VRegMap;
use crate::regalloc::linear_scan::RegAllocReg;

verus! {

broadcast use vstd::string::group_string_axioms;

/// The target of a jump or call in emitted code.
#[derive(Debug, Clone, Copy, PartialEq, Eq, Structural)]
pub enum LabelDest {
    Function(usize),
    Block(usize),
}

/// A target instruction set usable by the generic passes: it can report its
/// registers to an allocator and rewrite them through a finished assignment.
pub trait VCodeInstr: Sized {
    /// The live intervals after this instruction reports its definitions and
    /// uses at position `pos`.
    spec fn collect_model(&self, s: Seq<RegAllocReg>, pos: usize) -> Seq<RegAllocReg>;

    /// `out` is this instruction with every register rewritten through
    /// `allocs`.
    spec fn applied(&self, allocs: VRegMap, out: Self) -> bool;

    /// The physical registers the allocator may hand out on this target.
    fn get_usable_regs() -> (r: Vec<VReg>);

    /// Reports this instruction's definitions and uses.
    fn collect_registers<R: Regalloc>(&self, regalloc: &mut R)
        ensures
            final(regalloc).intervals() == self.collect_model(
                old(regalloc).intervals(),
                old(regalloc).position(),
            ),
            final(regalloc).position() == old(regalloc).position(),
    ;

    /// Rewrites this instruction's registers through a finished assignment.
    fn apply_allocs(&mut self, allocs: &VRegMap)
        ensures
            old(self).applied(*allocs, *final(self)),
    ;
}

/// One function's worth of emitted code: a labelled instruction group per
/// basic block.
#[derive(Debug)]
pub struct VCodeFunction<I: VCodeInstr> {
    pub name: String,
    pub instrs: Vec<LabelledInstructions<I>>,
    pub linkage: Linkage,
    pub arg_count: usize,
}

/// The instructions of one basic block.
#[derive(Debug)]
pub struct LabelledInstructions<I: VCodeInstr> {
    pub instrs: Vec<I>,
}

/// A whole module's emitted code.
#[derive(Debug)]
pub struct VCode<I: VCodeInstr> {
    pub functions: Vec<VCodeFunction<I>>,
}

/// Builds a `VCode` stream function by function and block by block, and mints
/// virtual registers.
#[derive(Debug)]
pub struct VCodeGenerator<I: VCodeInstr> {
    pub vcode: VCode<I>,
    pub current_func: Option<usize>,
    pub current_block: Option<usize>,
    pub vreg_count: usize,
}

impl<I: VCodeInstr> VCodeGenerator<I> {
    /// Index of the current function, or -1.
    pub open spec fn cf(&self) -> int {
        match self.current_func {
            Some(f) => f as int,
            None => -1,
        }
    }

    /// Index of the current block, or -1.
    pub open spec fn cb(&self) -> int {
        match self.current_block {
            Some(b) => b as int,
            None => -1,
        }
    }

    /// A current function is selected and exists.
    pub open spec fn func_selected(&self) -> bool {
        self.current_func is Some && self.cf() < self.vcode.functions@.len()
    }

    /// A current block is selected and exists.
    pub open spec fn block_selected(&self) -> bool {
        &&& self.func_selected()
        &&& self.current_block is Some
        &&& self.cb() < self.vcode.functions@[self.cf()].instrs@.len()
    }

    /// The instructions of the current block.
    pub open spec fn cur_instrs(&self) -> Seq<I> {
        self.vcode.functions@[self.cf()].instrs@[self.cb()].instrs@
    }

    /// An empty generator.
    pub fn new() -> (g: VCodeGenerator<I>)
        ensures
            g.vcode.functions@.len() == 0,
            g.current_func is None,
            g.current_block is None,
            g.vreg_count == 0,
    {
        VCodeGenerator {
            vcode: VCode { functions: Vec::new() },
            current_func: None,
            current_block: None,
            vreg_count: 0,
        }
    }

    /// Mints a fresh virtual register.
    pub fn push_vreg(&mut self) -> (r: VReg)
        requires
            old(self).vreg_count < usize::MAX,
        ensures
            r == VReg::Virtual(old(self).vreg_count),
            final(self).vreg_count == old(self).vreg_count + 1,
            final(self).vcode == old(self).vcode,
            final(self).current_func == old(self).current_func,
            final(self).current_block == old(self).current_block,
    {
        let vreg = VReg::Virtual(self.vreg_count);
        self.vreg_count = self.vreg_count + 1;
        vreg
    }

    /// Appends an instruction to the current block.
    pub fn push_instr(&mut self, instr: I)
        requires
            old(self).block_selected(),
        ensures
            gen_extended(*old(self), *final(self), seq![instr]),
    {
        let fi = self.current_func.unwrap();
        let bi = self.current_block.unwrap();
        self.vcode.functions[fi].instrs[bi].instrs.push(instr);
        proof {
            assert(final(self).cur_instrs() =~= old(self).cur_instrs() + seq![instr]);
        }
    }

    /// Opens a fresh empty block in the current function.
    pub fn push_block(&mut self) -> (b: usize)
        requires
            old(self).func_selected(),
        ensures
            b == old(self).vcode.functions@[old(self).cf()].instrs@.len(),
            final(self).vcode.functions@.len() == old(self).vcode.functions@.len(),
            forall|f: int|
                0 <= f < old(self).vcode.functions@.len() && f != old(self).cf()
                    ==> #[trigger] final(self).vcode.functions@[f] == old(
                    self,
                ).vcode.functions@[f],
            final(self).vcode.functions@[old(self).cf()].instrs@.len() == old(
                self,
            ).vcode.functions@[old(self).cf()].instrs@.len() + 1,
            forall|k: int|
                0 <= k < old(self).vcode.functions@[old(self).cf()].instrs@.len()
                    ==> #[trigger] final(self).vcode.functions@[old(self).cf()].instrs@[k] == old(
                    self,
                ).vcode.functions@[old(self).cf()].instrs@[k],
            final(self).vcode.functions@[old(self).cf()].instrs@[b as int].instrs@.len() == 0,
            final(self).vcode.functions@[old(self).cf()].name == old(
                self,
            ).vcode.functions@[old(self).cf()].name,
            final(self).vcode.functions@[old(self).cf()].linkage == old(
                self,
            ).vcode.functions@[old(self).cf()].linkage,
            final(self).vcode.functions@[old(self).cf()].arg_count == old(
                self,
            ).vcode.functions@[old(self).cf()].arg_count,
            final(self).current_func == old(self).current_func,
            final(self).current_block == old(self).current_block,
            final(self).vreg_count == old(self).vreg_count,
    {
        let fi = self.current_func.unwrap();
        let func = &mut self.vcode.functions[fi];
        let id = func.instrs.len();
        func.instrs.push(LabelledInstructions { instrs: Vec::new() });
        id
    }

    /// Opens a fresh function with no blocks yet.
    pub fn push_function(&mut self, name: &str, linkage: Linkage, arg_count: usize) -> (f: usize)
        ensures
            f == old(self).vcode.functions@.len(),
            final(self).vcode.functions@.len() == old(self).vcode.functions@.len() + 1,
            forall|k: int|
                0 <= k < old(self).vcode.functions@.len() ==> #[trigger] final(self).vcode.functions@[k] == old(self).vcode.functions@[k],
            final(self).vcode.functions@[f as int].name@ == name@,
            final(self).vcode.functions@[f as int].linkage == linkage,
            final(self).vcode.functions@[f as int].arg_count == arg_count,
            final(self).vcode.functions@[f as int].instrs@.len() == 0,
            final(self).current_func == old(self).current_func,
            final(self).current_block == old(self).current_block,
            final(self).vreg_count == old(self).vreg_count,
    {
        let id = self.vcode.functions.len();
        self.vcode.functions.push(
            VCodeFunction { name: name.to_string(), instrs: Vec::new(), linkage, arg_count },
        );
        id
    }

    /// Selects the function that following pushes build into.
    pub fn switch_to_func(&mut self, id: usize)
        requires
            id < old(self).vcode.functions@.len(),
        ensures
            final(self).vcode == old(self).vcode,
            final(self).current_func == Some(id),
            final(self).current_block == old(self).current_block,
            final(self).vreg_count == old(self).vreg_count,
    {
        self.current_func = Some(id);
    }

    /// Selects the block that following pushes append to.
    pub fn switch_to_block(&mut self, id: usize)
        requires
            old(self).func_selected(),
            id < old(self).vcode.functions@[old(self).cf()].instrs@.len(),
        ensures
            final(self).vcode == old(self).vcode,
            final(self).current_func == old(self).current_func,
            final(self).current_block == Some(id),
            final(self).vreg_count == old(self).vreg_count,
    {
        self.current_block = Some(id);
    }

    /// Hands out the finished stream.
    pub fn build(self) -> (r: VCode<I>)
        ensures
            r == self.vcode,
    {
        self.vcode
    }
}

impl<I: VCodeInstr> Default for VCodeGenerator<I> {
    /// Same as `new`: an empty generator.
    fn default() -> (g: VCodeGenerator<I>)
        ensures
            g.vcode.functions@.len() == 0,
            g.current_func is None,
            g.current_block is None,
            g.vreg_count == 0,
    {
        VCodeGenerator::new()
    }
}

/// `ng` is `og` with `added` appended to the current block and nothing else
/// changed.
pub open spec fn gen_extended<I: VCodeInstr>(
    og: VCodeGenerator<I>,
    ng: VCodeGenerator<I>,
    added: Seq<I>,
) -> bool {
    &&& og.block_selected()
    &&& ng.current_func == og.current_func
    &&& ng.current_block == og.current_block
    &&& ng.vreg_count == og.vreg_count
    &&& ng.vcode.functions@.len() == og.vcode.functions@.len()
    &&& forall|f: int|
        0 <= f < og.vcode.functions@.len() && f != og.cf() ==> #[trigger] ng.vcode.functions@[f]
            == og.vcode.functions@[f]
    &&& ng.vcode.functions@[og.cf()].name == og.vcode.functions@[og.cf()].name
    &&& ng.vcode.functions@[og.cf()].linkage == og.vcode.functions@[og.cf()].linkage
    &&& ng.vcode.functions@[og.cf()].arg_count == og.vcode.functions@[og.cf()].arg_count
    &&& ng.vcode.functions@[og.cf()].instrs@.len() == og.vcode.functions@[og.cf()].instrs@.len()
    &&& forall|b: int|
        0 <= b < og.vcode.functions@[og.cf()].instrs@.len() && b != og.cb()
            ==> #[trigger] ng.vcode.functions@[og.cf()].instrs@[b]
            == og.vcode.functions@[og.cf()].instrs@[b]
    &&& ng.cur_instrs() == og.cur_instrs() + added
}

/// A target's instruction selector: a capability that turns IR instructions,
/// sequenced moves and terminators into target instructions on a generator.
/// Selection is a pure function of the input, so a selector's own state never
/// changes.
pub trait InstrSelector: Sized {
    type Instr: VCodeInstr;

    /// Which instructions this target can select.
    spec fn selectable(&self, instr: Instruction) -> bool;

    /// Which terminators this target can select.
    spec fn term_selectable(&self, term: Terminator) -> bool;

    /// `out` is the code selected for `instr`.
    spec fn select_rel(&self, instr: Instruction, out: Seq<Self::Instr>) -> bool;

    /// The code selected for a terminator.
    spec fn term_spec(&self, term: Terminator) -> Seq<Self::Instr>;

    /// The code selected for one sequential move.
    spec fn move_spec(&self, dst: ValueId, src: ValueId) -> Seq<Self::Instr>;

    /// Emits the code for one instruction into the current block.
    fn select(&mut self, gen: &mut VCodeGenerator<Self::Instr>, instr: &Instruction)
        requires
            old(gen).block_selected(),
            old(self).selectable(*instr),
        ensures
            *final(self) == *old(self),
            exists|piece: Seq<Self::Instr>|
                gen_extended(*old(gen), *final(gen), piece) && #[trigger] old(self).select_rel(
                    *instr,
                    piece,
                ),
    ;

    /// Emits the code for a block's terminator.
    fn select_terminator(&mut self, gen: &mut VCodeGenerator<Self::Instr>, term: &Terminator)
        requires
            old(gen).block_selected(),
            old(self).term_selectable(*term),
        ensures
            *final(self) == *old(self),
            gen_extended(*old(gen), *final(gen), old(self).term_spec(*term)),
    ;

    /// Emits the code for one sequential move on entry to the successor.
    fn select_move(&mut self, gen: &mut VCodeGenerator<Self::Instr>, dst: ValueId, src: ValueId)
        requires
            old(gen).block_selected(),
        ensures
            *final(self) == *old(self),
            gen_extended(*old(gen), *final(gen), old(self).move_spec(dst, src)),
    ;

    /// Hook for target prologue expansion.
    fn get_pre_function_instructions(&mut self, gen: &mut VCodeGenerator<Self::Instr>);

    /// Hook for target epilogue expansion.
    fn get_post_function_instructions(&mut self, gen: &mut VCodeGenerator<Self::Instr>);
}

/// A trivial marker used to steer quantifier instantiation at sequence
/// witnesses.
pub open spec fn seq_marker<T>(s: Seq<T>) -> bool {
    true
}

/// The code selected for the first `i` instructions of block `b`.
pub open spec fn sel_instrs_rel<S: InstrSelector>(
    sel: S,
    f: crate::ir::Function,
    b: int,
    i: int,
    out: Seq<S::Instr>,
) -> bool
    decreases i,
{
    if i <= 0 {
        out == Seq::<S::Instr>::empty()
    } else {
        exists|pre: Seq<S::Instr>, piece: Seq<S::Instr>|
            #![trigger seq_marker(pre), seq_marker(piece)]
            sel_instrs_rel(sel, f, b, i - 1, pre) && sel.select_rel(
                f.blocks@[b].instructions@[i - 1],
                piece,
            ) && out == pre + piece
    }
}

/// One more instruction's selection extends the relation by one step.
proof fn lemma_sel_instrs_step<S: InstrSelector>(
    sel: S,
    f: crate::ir::Function,
    b: int,
    i: int,
    pre: Seq<S::Instr>,
    piece: Seq<S::Instr>,
)
    requires
        i >= 0,
        sel_instrs_rel(sel, f, b, i, pre),
        sel.select_rel(f.blocks@[b].instructions@[i], piece),
    ensures
        sel_instrs_rel(sel, f, b, i + 1, pre + piece),
{
    let out = pre + piece;
    assert(seq_marker(pre));
    assert(seq_marker(piece));
    assert(sel_instrs_rel(sel, f, b, (i + 1) - 1, pre));
    assert(sel.select_rel(f.blocks@[b].instructions@[(i + 1) - 1], piece));
}

/// The code selected for the first `k` sequential moves of block `b`.
pub open spec fn sel_moves_upto<S: InstrSelector>(
    sel: S,
    f: crate::ir::Function,
    b: int,
    k: int,
) -> Seq<S::Instr>
    decreases k,
{
    if k <= 0 {
        Seq::empty()
    } else {
        sel_moves_upto(sel, f, b, k - 1) + sel.move_spec(
            f.blocks@[b].par_moves@[k - 1].0,
            f.blocks@[b].par_moves@[k - 1].1,
        )
    }
}

/// `out` is the whole code of block `b`: its instructions, then its
/// sequential moves, then its terminator.
pub open spec fn sel_block_rel<S: InstrSelector>(
    sel: S,
    f: crate::ir::Function,
    b: int,
    out: Seq<S::Instr>,
) -> bool {
    exists|a: Seq<S::Instr>|
        #![trigger seq_marker(a)]
        sel_instrs_rel(sel, f, b, f.blocks@[b].instructions@.len() as int, a) && out == a
            + sel_moves_upto(sel, f, b, f.blocks@[b].par_moves@.len() as int) + sel.term_spec(
            f.blocks@[b].terminator,
        )
}

impl Module {
    /// Lowers every function to target code: one emitted function per IR
    /// function, one labelled block per basic block, each holding the
    /// selection of its instructions, its sequenced moves and its terminator.
    pub fn lower_to_vcode<I: VCodeInstr, S: InstrSelector<Instr = I>>(
        &self,
        selector: &mut S,
    ) -> (r: VCode<I>)
        requires
            forall|f: int, b: int, i: int|
                0 <= f < self.functions@.len() && 0 <= b < self.functions@[f].blocks@.len() && 0
                    <= i < self.functions@[f].blocks@[b].instructions@.len() ==> old(
                    selector,
                ).selectable(#[trigger] self.functions@[f].blocks@[b].instructions@[i]),
            forall|f: int, b: int|
                0 <= f < self.functions@.len() && 0 <= b < self.functions@[f].blocks@.len() ==> old(
                    selector,
                ).term_selectable((#[trigger] self.functions@[f].blocks@[b]).terminator),
        ensures
            *final(selector) == *old(selector),
            r.functions@.len() == self.functions@.len(),
            forall|f: int|
                0 <= f < self.functions@.len() ==> {
                    let vf = #[trigger] r.functions@[f];
                    let of = self.functions@[f];
                    vf.name@ == of.name@ && vf.linkage == of.linkage && vf.arg_count
                        == of.args@.len() && vf.instrs@.len() == of.blocks@.len()
                },
            forall|f: int, b: int|
                0 <= f < self.functions@.len() && 0 <= b < self.functions@[f].blocks@.len()
                    ==> sel_block_rel(
                    *old(selector),
                    self.functions@[f],
                    b,
                    (#[trigger] r.functions@[f].instrs@[b]).instrs@,
                ),
    {
        let mut gen: VCodeGenerator<I> = VCodeGenerator::new();
        let nfuncs = self.functions.len();
        let mut fi: usize = 0;
        while fi < nfuncs
            invariant
                forall|f: int, b: int, i: int|
                    0 <= f < self.functions@.len() && 0 <= b < self.functions@[f].blocks@.len()
                        && 0 <= i < self.functions@[f].blocks@[b].instructions@.len() ==> old(
                        selector,
                    ).selectable(#[trigger] self.functions@[f].blocks@[b].instructions@[i]),
                forall|f: int, b: int|
                    0 <= f < self.functions@.len() && 0 <= b < self.functions@[f].blocks@.len()
                        ==> old(selector).term_selectable(
                        (#[trigger] self.functions@[f].blocks@[b]).terminator,
                    ),
                *selector == *old(selector),
                nfuncs == self.functions@.len(),
                0 <= fi <= nfuncs,
                gen.vcode.functions@.len() == fi,
                forall|f: int|
                    0 <= f < fi ==> {
                        let vf = #[trigger] gen.vcode.functions@[f];
                        let of = self.functions@[f];
                        vf.name@ == of.name@ && vf.linkage == of.linkage && vf.arg_count
                            == of.args@.len() && vf.instrs@.len() == of.blocks@.len()
                    },
                forall|f: int, b: int|
                    0 <= f < fi && 0 <= b < self.functions@[f].blocks@.len() ==> sel_block_rel(
                        *old(selector),
                        self.functions@[f],
                        b,
                        (#[trigger] gen.vcode.functions@[f].instrs@[b]).instrs@,
                    ),
            decreases nfuncs - fi,
        {
            let func = &self.functions[fi];
            let f = gen.push_function(func.name.as_str(), func.linkage, func.args.len());
            gen.switch_to_func(f);
            let nblocks = self.functions[fi].blocks.len();
            let mut bi: usize = 0;
            while bi < nblocks
                invariant
                    forall|f2: int, b: int, i: int|
                        0 <= f2 < self.functions@.len() && 0 <= b
                            < self.functions@[f2].blocks@.len() && 0 <= i
                            < self.functions@[f2].blocks@[b].instructions@.len() ==> old(
                            selector,
                        ).selectable(
                            #[trigger] self.functions@[f2].blocks@[b].instructions@[i],
                        ),
                    forall|f2: int, b: int|
                        0 <= f2 < self.functions@.len() && 0 <= b
                            < self.functions@[f2].blocks@.len() ==> old(selector).term_selectable(
                            (#[trigger] self.functions@[f2].blocks@[b]).terminator,
                        ),
                    *selector == *old(selector),
                    nfuncs == self.functions@.len(),
                    0 <= fi < nfuncs,
                    nblocks == self.functions@[fi as int].blocks@.len(),
                    0 <= bi <= nblocks,
                    gen.vcode.functions@.len() == fi + 1,
                    gen.current_func == Some(fi),
                    forall|f2: int|
                        0 <= f2 < fi ==> {
                            let vf = #[trigger] gen.vcode.functions@[f2];
                            let of = self.functions@[f2];
                            vf.name@ == of.name@ && vf.linkage == of.linkage && vf.arg_count
                                == of.args@.len() && vf.instrs@.len() == of.blocks@.len()
                        },
                    forall|f2: int, b: int|
                        0 <= f2 < fi && 0 <= b < self.functions@[f2].blocks@.len()
                            ==> sel_block_rel(
                            *old(selector),
                            self.functions@[f2],
                            b,
                            (#[trigger] gen.vcode.functions@[f2].instrs@[b]).instrs@,
                        ),
                    gen.vcode.functions@[fi as int].name@ == self.functions@[fi as int].name@,
                    gen.vcode.functions@[fi as int].linkage == self.functions@[fi as int].linkage,
                    gen.vcode.functions@[fi as int].arg_count
                        == self.functions@[fi as int].args@.len(),
                    gen.vcode.functions@[fi as int].instrs@.len() == bi,
                    forall|b: int|
                        0 <= b < bi ==> sel_block_rel(
                            *old(selector),
                            self.functions@[fi as int],
                            b,
                            (#[trigger] gen.vcode.functions@[fi as int].instrs@[b]).instrs@,
                        ),
                decreases nblocks - bi,
            {
                let b = gen.push_block();
                gen.switch_to_block(b);
                let ghost gsnap = gen;
                proof {
                    assert(gen.cur_instrs() =~= Seq::<I>::empty());
                }
                let ninstrs = self.functions[fi].blocks[bi].instructions.len();
                let mut ii: usize = 0;
                while ii < ninstrs
                    invariant
                        forall|f2: int, b2: int, i: int|
                            0 <= f2 < self.functions@.len() && 0 <= b2
                                < self.functions@[f2].blocks@.len() && 0 <= i
                                < self.functions@[f2].blocks@[b2].instructions@.len() ==> old(
                                selector,
                            ).selectable(
                                #[trigger] self.functions@[f2].blocks@[b2].instructions@[i],
                            ),
                        *selector == *old(selector),
                        nfuncs == self.functions@.len(),
                        0 <= fi < nfuncs,
                        nblocks == self.functions@[fi as int].blocks@.len(),
                        0 <= bi < nblocks,
                        ninstrs == self.functions@[fi as int].blocks@[bi as int].instructions@.len(),
                        0 <= ii <= ninstrs,
                        gen.block_selected(),
                        gen.current_func == Some(fi),
                        gen.current_block == Some(bi),
                        gen.vcode.functions@.len() == gsnap.vcode.functions@.len(),
                        fi < gsnap.vcode.functions@.len(),
                        bi < gsnap.vcode.functions@[fi as int].instrs@.len(),
                        forall|f2: int|
                            0 <= f2 < gsnap.vcode.functions@.len() && f2 != fi
                                ==> #[trigger] gen.vcode.functions@[f2]
                                == gsnap.vcode.functions@[f2],
                        gen.vcode.functions@[fi as int].name == gsnap.vcode.functions@[fi as int].name,
                        gen.vcode.functions@[fi as int].linkage == gsnap.vcode.functions@[fi as int].linkage,
                        gen.vcode.functions@[fi as int].arg_count == gsnap.vcode.functions@[fi as int].arg_count,
                        gen.vcode.functions@[fi as int].instrs@.len() == gsnap.vcode.functions@[fi as int].instrs@.len(),
                        forall|b2: int|
                            0 <= b2 < gsnap.vcode.functions@[fi as int].instrs@.len() && b2 != bi
                                ==> #[trigger] gen.vcode.functions@[fi as int].instrs@[b2]
                                == gsnap.vcode.functions@[fi as int].instrs@[b2],
                        sel_instrs_rel(
                            *old(selector),
                            self.functions@[fi as int],
                            bi as int,
                            ii as int,
                            gen.cur_instrs(),
                        ),
                    decreases ninstrs - ii,
                {
                    let ghost oldgen = gen;
                    selector.select(&mut gen, &self.functions[fi].blocks[bi].instructions[ii]);
                    proof {
                        let piece = choose|piece: Seq<I>|
                            gen_extended(oldgen, gen, piece) && #[trigger] old(
                                selector,
                            ).select_rel(
                                self.functions@[fi as int].blocks@[bi as int].instructions@[ii as int],
                                piece,
                            );
                        assert(gen_extended(oldgen, gen, piece));
                        assert(gen.cur_instrs() == oldgen.cur_instrs() + piece);
                        lemma_sel_instrs_step(
                            *old(selector),
                            self.functions@[fi as int],
                            bi as int,
                            ii as int,
                            oldgen.cur_instrs(),
                            piece,
                        );
                        assert(sel_instrs_rel(
                            *old(selector),
                            self.functions@[fi as int],
                            bi as int,
                            ii + 1,
                            gen.cur_instrs(),
                        ));
                    }
                    ii += 1;
                }
                gen = lower_rest_of_block(gen, selector, self, fi, bi);
                proof {
                    assert forall|b2: int|
                        0 <= b2 < bi + 1 implies sel_block_rel(
                        *old(selector),
                        self.functions@[fi as int],
                        b2,
                        (#[trigger] gen.vcode.functions@[fi as int].instrs@[b2]).instrs@,
                    ) by {
                        if b2 < bi {
                            assert(gen.vcode.functions@[fi as int].instrs@[b2]
                                == gsnap.vcode.functions@[fi as int].instrs@[b2]);
                        }
                    }
                }
                bi += 1;
            }
            fi += 1;
        }
        gen.build()
    }
}

/// Emits the sequential moves and the terminator of block `b`, completing it.
#[verifier::loop_isolation(false)]
fn lower_rest_of_block<I: VCodeInstr, S: InstrSelector<Instr = I>>(
    gen: VCodeGenerator<I>,
    selector: &mut S,
    m: &Module,
    fi: usize,
    bi: usize,
) -> (r: VCodeGenerator<I>)
    requires
        gen.block_selected(),
        fi < m.functions@.len(),
        bi < m.functions@[fi as int].blocks@.len(),
        gen.current_func == Some(fi),
        gen.current_block == Some(bi),
        old(selector).term_selectable(m.functions@[fi as int].blocks@[bi as int].terminator),
        sel_instrs_rel(
            *old(selector),
            m.functions@[fi as int],
            bi as int,
            m.functions@[fi as int].blocks@[bi as int].instructions@.len() as int,
            gen.cur_instrs(),
        ),
    ensures
        *final(selector) == *old(selector),
        r.current_func == gen.current_func,
        r.current_block == gen.current_block,
        r.vreg_count == gen.vreg_count,
        r.vcode.functions@.len() == gen.vcode.functions@.len(),
        forall|f: int|
            0 <= f < gen.vcode.functions@.len() && f != fi ==> #[trigger] r.vcode.functions@[f]
                == gen.vcode.functions@[f],
        r.vcode.functions@[fi as int].name == gen.vcode.functions@[fi as int].name,
        r.vcode.functions@[fi as int].linkage == gen.vcode.functions@[fi as int].linkage,
        r.vcode.functions@[fi as int].arg_count == gen.vcode.functions@[fi as int].arg_count,
        r.vcode.functions@[fi as int].instrs@.len()
            == gen.vcode.functions@[fi as int].instrs@.len(),
        forall|b: int|
            0 <= b < gen.vcode.functions@[fi as int].instrs@.len() && b != bi
                ==> #[trigger] r.vcode.functions@[fi as int].instrs@[b]
                == gen.vcode.functions@[fi as int].instrs@[b],
        sel_block_rel(
            *old(selector),
            m.functions@[fi as int],
            bi as int,
            r.vcode.functions@[fi as int].instrs@[bi as int].instrs@,
        ),
{
    let ghost base = gen.cur_instrs();
    let ghost g0 = gen;
    let mut gen = gen;
    let npm = m.functions[fi].blocks[bi].par_moves.len();
    let mut k: usize = 0;
    while k < npm
        invariant
            gen.block_selected(),
            gen.current_func == Some(fi),
            gen.current_block == Some(bi),
            0 <= k <= npm,
            npm == m.functions@[fi as int].blocks@[bi as int].par_moves@.len(),
            *selector == *old(selector),
            gen.vreg_count == g0.vreg_count,
            gen.vcode.functions@.len() == g0.vcode.functions@.len(),
            forall|f: int|
                0 <= f < g0.vcode.functions@.len() && f != fi ==> #[trigger] gen.vcode.functions@[f] == g0.vcode.functions@[f],
            gen.vcode.functions@[fi as int].name == g0.vcode.functions@[fi as int].name,
            gen.vcode.functions@[fi as int].linkage == g0.vcode.functions@[fi as int].linkage,
            gen.vcode.functions@[fi as int].arg_count == g0.vcode.functions@[fi as int].arg_count,
            gen.vcode.functions@[fi as int].instrs@.len() == g0.vcode.functions@[fi as int].instrs@.len(),
            forall|b: int|
                0 <= b < g0.vcode.functions@[fi as int].instrs@.len() && b != bi
                    ==> #[trigger] gen.vcode.functions@[fi as int].instrs@[b]
                    == g0.vcode.functions@[fi as int].instrs@[b],
            gen.cur_instrs() == base + sel_moves_upto(
                *old(selector),
                m.functions@[fi as int],
                bi as int,
                k as int,
            ),
        decreases npm - k,
    {
        let mv = m.functions[fi].blocks[bi].par_moves[k];
        let ghost before = gen;
        selector.select_move(&mut gen, mv.0, mv.1);
        proof {
            assert(gen.cur_instrs() =~= base + sel_moves_upto(
                *old(selector),
                m.functions@[fi as int],
                bi as int,
                k + 1,
            ));
        }
        k += 1;
    }
    let term = m.functions[fi].blocks[bi].terminator;
    let ghost before_term = gen;
    selector.select_terminator(&mut gen, &term);
    proof {
        let f = m.functions@[fi as int];
        let whole = gen.vcode.functions@[fi as int].instrs@[bi as int].instrs@;
        assert(whole =~= base + sel_moves_upto(*old(selector), f, bi as int, npm as int)
            + old(selector).term_spec(f.blocks@[bi as int].terminator));
        assert(seq_marker(base));
        assert(sel_block_rel(*old(selector), f, bi as int, whole));
    }
    gen
}

} // verus!
