//! The URCL target: its instruction set, the selection rules from IR to URCL
//! code, and how URCL instructions report and rewrite their registers.

use vstd::prelude::*;

use crate::ir::BinOp;
use crate::ir::Instruction;
use crate::ir::Operation;
use crate::ir::Terminator;
use crate::ir::ValueId;
use crate::regalloc::linear_scan::RegAllocReg;
use crate::regalloc::spec_add_def;
use crate::regalloc::spec_add_use;
use crate::regalloc::spec_coalesce;
use crate::regalloc::Regalloc;
use crate::regalloc::VReg;
use crate::regalloc::VRegMap;
use crate::vcode::gen_extended;
use crate::vcode::InstrSelector;
use crate::vcode::LabelDest;
use crate::vcode::VCodeGenerator;
use crate::vcode::VCodeInstr;

verus! {

pub const URCL_REG_ZR: usize = 0;

pub const URCL_REG_1: usize = 1;

pub const URCL_REG_2: usize = 2;

pub const URCL_REG_3: usize = 3;

pub const URCL_REG_4: usize = 4;

pub const URCL_REG_5: usize = 5;

pub const URCL_REG_6: usize = 6;

pub const URCL_REG_7: usize = 7;

pub const URCL_REG_8: usize = 8;

/// A URCL machine instruction. The default calling convention returns values
/// in the first general register.
#[derive(Debug, Clone, PartialEq, Eq)]
pub enum UrclInstr {
    PhiPlaceholder { dst: VReg, ops: Vec<VReg> },
    AluOp { op: UrclAluOp, dst: VReg, src1: VReg, src2: VReg },
    Jmp { dst: LabelDest },
    Beq { src1: VReg, dst: LabelDest },
    Imm { dst: VReg, val: i64 },
    Mov { dst: VReg, src: VReg },
    Cal { dst: LabelDest },
    Ret,
}

/// A URCL arithmetic or comparison opcode.
#[derive(Debug, Clone, Copy, PartialEq, Eq, Structural)]
pub enum UrclAluOp {
    Add,
    Sub,
    Mul,
    Div,
    Mod,
    And,
    Or,
    Xor,
    Not,
    Neg,
    Rsh,
    Lsh,
    Ssete,
    Ssetne,
    Ssetl,
    Ssetle,
    Ssetg,
    Ssetge,
}

/// The URCL opcode that computes an IR operator.
pub open spec fn alu_op_of(op: BinOp) -> UrclAluOp {
    match op {
        BinOp::Add => UrclAluOp::Add,
        BinOp::Sub => UrclAluOp::Sub,
        BinOp::Mul => UrclAluOp::Mul,
        BinOp::Div => UrclAluOp::Div,
        BinOp::Mod => UrclAluOp::Mod,
        BinOp::And => UrclAluOp::And,
        BinOp::Or => UrclAluOp::Or,
        BinOp::Xor => UrclAluOp::Xor,
        BinOp::Eq => UrclAluOp::Ssete,
        BinOp::Ne => UrclAluOp::Ssetne,
        BinOp::Lt => UrclAluOp::Ssetl,
        BinOp::Le => UrclAluOp::Ssetle,
        BinOp::Gt => UrclAluOp::Ssetg,
        BinOp::Ge => UrclAluOp::Ssetge,
        BinOp::Shl => UrclAluOp::Lsh,
        BinOp::Shr => UrclAluOp::Rsh,
    }
}

impl From<BinOp> for UrclAluOp {
    /// Translates an IR operator to its URCL opcode.
    fn from(op: BinOp) -> (r: UrclAluOp) {
        match op {
            BinOp::Add => UrclAluOp::Add,
            BinOp::Sub => UrclAluOp::Sub,
            BinOp::Mul => UrclAluOp::Mul,
            BinOp::Div => UrclAluOp::Div,
            BinOp::Mod => UrclAluOp::Mod,
            BinOp::And => UrclAluOp::And,
            BinOp::Or => UrclAluOp::Or,
            BinOp::Xor => UrclAluOp::Xor,
            BinOp::Eq => UrclAluOp::Ssete,
            BinOp::Ne => UrclAluOp::Ssetne,
            BinOp::Lt => UrclAluOp::Ssetl,
            BinOp::Le => UrclAluOp::Ssetle,
            BinOp::Gt => UrclAluOp::Ssetg,
            BinOp::Ge => UrclAluOp::Ssetge,
            BinOp::Shl => UrclAluOp::Lsh,
            BinOp::Shr => UrclAluOp::Rsh,
        }
    }
}

impl vstd::std_specs::convert::FromSpecImpl<BinOp> for UrclAluOp {
    open spec fn obeys_from_spec() -> bool {
        true
    }

    open spec fn from_spec(op: BinOp) -> UrclAluOp {
        alu_op_of(op)
    }
}

/// A register rewritten through a finished assignment.
pub open spec fn map_reg(allocs: VRegMap, r: VReg) -> VReg {
    match allocs.spec_get(r) {
        Some(n) => n,
        None => r,
    }
}

/// Rewrites one register through a finished assignment.
fn map_reg_exec(allocs: &VRegMap, r: VReg) -> (o: VReg)
    ensures
        o == map_reg(*allocs, r),
{
    match allocs.get(r) {
        Some(n) => n,
        None => r,
    }
}

impl VCodeInstr for UrclInstr {
    /// Arithmetic defines its destination and uses both sources; an immediate
    /// defines its destination; a move also records a coalescing hint; a
    /// conditional branch uses its condition. Everything else touches no
    /// registers.
    open spec fn collect_model(&self, s: Seq<RegAllocReg>, pos: usize) -> Seq<RegAllocReg> {
        match *self {
            UrclInstr::AluOp { op, dst, src1, src2 } => spec_add_use(
                spec_add_use(spec_add_def(s, pos, dst), pos, src1),
                pos,
                src2,
            ),
            UrclInstr::Beq { src1, dst } => spec_add_use(s, pos, src1),
            UrclInstr::Imm { dst, val } => spec_add_def(s, pos, dst),
            UrclInstr::Mov { dst, src } => spec_coalesce(
                spec_add_use(spec_add_def(s, pos, dst), pos, src),
                src,
                dst,
            ),
            _ => s,
        }
    }

    /// Register operands are rewritten through the assignment; labels,
    /// immediates and the phi placeholder stay as they are.
    open spec fn applied(&self, allocs: VRegMap, out: Self) -> bool {
        match (*self, out) {
            (
                UrclInstr::AluOp { op, dst, src1, src2 },
                UrclInstr::AluOp { op: op2, dst: dst2, src1: s12, src2: s22 },
            ) => op2 == op && dst2 == map_reg(allocs, dst) && s12 == map_reg(allocs, src1) && s22
                == map_reg(allocs, src2),
            (UrclInstr::Jmp { dst }, UrclInstr::Jmp { dst: dst2 }) => dst2 == dst,
            (UrclInstr::Beq { src1, dst }, UrclInstr::Beq { src1: s12, dst: dst2 }) => s12
                == map_reg(allocs, src1) && dst2 == dst,
            (UrclInstr::Imm { dst, val }, UrclInstr::Imm { dst: dst2, val: val2 }) => dst2
                == map_reg(allocs, dst) && val2 == val,
            (UrclInstr::Mov { dst, src }, UrclInstr::Mov { dst: dst2, src: src2 }) => dst2
                == map_reg(allocs, dst) && src2 == map_reg(allocs, src),
            (UrclInstr::Cal { dst }, UrclInstr::Cal { dst: dst2 }) => dst2 == dst,
            (UrclInstr::Ret, UrclInstr::Ret) => true,
            (UrclInstr::PhiPlaceholder { dst, ops }, _) => out == *self,
            _ => false,
        }
    }

    /// The general registers of the default calling convention.
    fn get_usable_regs() -> (r: Vec<VReg>)
        ensures
            r@ == seq![
                VReg::Real(URCL_REG_1 as usize),
                VReg::Real(URCL_REG_2 as usize),
                VReg::Real(URCL_REG_3 as usize),
                VReg::Real(URCL_REG_4 as usize),
                VReg::Real(URCL_REG_5 as usize),
                VReg::Real(URCL_REG_6 as usize),
                VReg::Real(URCL_REG_7 as usize),
                VReg::Real(URCL_REG_8 as usize),
            ],
    {
        let mut r: Vec<VReg> = Vec::new();
        r.push(VReg::Real(URCL_REG_1));
        r.push(VReg::Real(URCL_REG_2));
        r.push(VReg::Real(URCL_REG_3));
        r.push(VReg::Real(URCL_REG_4));
        r.push(VReg::Real(URCL_REG_5));
        r.push(VReg::Real(URCL_REG_6));
        r.push(VReg::Real(URCL_REG_7));
        r.push(VReg::Real(URCL_REG_8));
        proof {
            assert(r@ =~= seq![
                VReg::Real(URCL_REG_1 as usize),
                VReg::Real(URCL_REG_2 as usize),
                VReg::Real(URCL_REG_3 as usize),
                VReg::Real(URCL_REG_4 as usize),
                VReg::Real(URCL_REG_5 as usize),
                VReg::Real(URCL_REG_6 as usize),
                VReg::Real(URCL_REG_7 as usize),
                VReg::Real(URCL_REG_8 as usize),
            ]);
        }
        r
    }

    fn collect_registers<R: Regalloc>(&self, regalloc: &mut R) {
        match self {
            UrclInstr::AluOp { dst, src1, src2, .. } => {
                regalloc.add_def(*dst);
                regalloc.add_use(*src1);
                regalloc.add_use(*src2);
            },
            UrclInstr::Jmp { .. } => {},
            UrclInstr::Beq { src1, .. } => {
                regalloc.add_use(*src1);
            },
            UrclInstr::Imm { dst, .. } => {
                regalloc.add_def(*dst);
            },
            UrclInstr::Mov { dst, src } => {
                regalloc.add_def(*dst);
                regalloc.add_use(*src);
                regalloc.coalesce_move(*src, *dst);
            },
            _ => {},
        }
    }

    fn apply_allocs(&mut self, allocs: &VRegMap) {
        let mut tmp = UrclInstr::Ret;
        core::mem::swap(&mut tmp, self);
        let new_instr = match tmp {
            UrclInstr::AluOp { op, dst, src1, src2 } => UrclInstr::AluOp {
                op,
                dst: map_reg_exec(allocs, dst),
                src1: map_reg_exec(allocs, src1),
                src2: map_reg_exec(allocs, src2),
            },
            UrclInstr::Jmp { dst } => UrclInstr::Jmp { dst },
            UrclInstr::Beq { src1, dst } => UrclInstr::Beq {
                src1: map_reg_exec(allocs, src1),
                dst,
            },
            UrclInstr::Imm { dst, val } => UrclInstr::Imm {
                dst: map_reg_exec(allocs, dst),
                val,
            },
            UrclInstr::Mov { dst, src } => UrclInstr::Mov {
                dst: map_reg_exec(allocs, dst),
                src: map_reg_exec(allocs, src),
            },
            UrclInstr::Cal { dst } => UrclInstr::Cal { dst },
            UrclInstr::Ret => UrclInstr::Ret,
            UrclInstr::PhiPlaceholder { dst, ops } => UrclInstr::PhiPlaceholder { dst, ops },
        };
        *self = new_instr;
    }
}

/// The IR-to-URCL instruction selector.
#[derive(Debug, Clone, Copy, PartialEq, Eq, Structural)]
pub struct UrclSelector;

impl UrclSelector {
    /// The virtual register that carries an IR value.
    pub fn get_vreg(&self, val: ValueId) -> (r: VReg)
        ensures
            r == VReg::Virtual(val.0),
    {
        VReg::Virtual(val.0)
    }
}

/// The destination register of an instruction: the virtual register of its
/// yielded value, or the zero register when it yields nothing.
pub open spec fn urcl_dst(yielded: Option<ValueId>) -> VReg {
    match yielded {
        Some(v) => VReg::Virtual(v.0),
        None => VReg::Real(URCL_REG_ZR as usize),
    }
}

impl InstrSelector for UrclSelector {
    type Instr = UrclInstr;

    /// Calls are not lowered by this target yet.
    open spec fn selectable(&self, instr: Instruction) -> bool {
        !(instr.operation is Call)
    }

    /// The construction placeholder has no selection.
    open spec fn term_selectable(&self, term: Terminator) -> bool {
        !(term is NoTerm)
    }

    open spec fn select_rel(&self, instr: Instruction, out: Seq<UrclInstr>) -> bool {
        let dst = urcl_dst(instr.yielded);
        match instr.operation {
            Operation::BinOp(op, l, r) => out == seq![
                UrclInstr::AluOp {
                    op: alu_op_of(op),
                    dst,
                    src1: VReg::Virtual(l.0),
                    src2: VReg::Virtual(r.0),
                },
            ],
            Operation::Integer(v) => out == seq![UrclInstr::Imm { dst, val: v }],
            Operation::LoadVar(_) => out == Seq::<UrclInstr>::empty(),
            Operation::StoreVar(_, _) => out == Seq::<UrclInstr>::empty(),
            Operation::Call(_, _) => false,
            Operation::Phi(vals) => out.len() == 1 && (match out[0] {
                UrclInstr::PhiPlaceholder { dst: d, ops } => d == dst && ops@.len() == vals@.len()
                    && (forall|k: int|
                    0 <= k < vals@.len() ==> ops@[k] == VReg::Virtual(
                        (#[trigger] vals@[k]).0,
                    )),
                _ => false,
            }),
        }
    }

    open spec fn term_spec(&self, term: Terminator) -> Seq<UrclInstr> {
        match term {
            Terminator::Return(v) => seq![
                UrclInstr::Mov {
                    dst: VReg::Real(URCL_REG_1 as usize),
                    src: VReg::Virtual(v.0),
                },
                UrclInstr::Ret,
            ],
            Terminator::Jump(b) => seq![UrclInstr::Jmp { dst: LabelDest::Block(b.0) }],
            Terminator::Branch(c, t, f) => seq![
                UrclInstr::Beq { src1: VReg::Virtual(c.0), dst: LabelDest::Block(t.0) },
                UrclInstr::Jmp { dst: LabelDest::Block(f.0) },
            ],
            Terminator::NoTerm => Seq::empty(),
        }
    }

    open spec fn move_spec(&self, dst: ValueId, src: ValueId) -> Seq<UrclInstr> {
        seq![UrclInstr::Mov { dst: VReg::Virtual(dst.0), src: VReg::Virtual(src.0) }]
    }

    fn select(&mut self, gen: &mut VCodeGenerator<UrclInstr>, instr: &Instruction) {
        let dst = match instr.yielded {
            Some(val) => self.get_vreg(val),
            None => VReg::Real(URCL_REG_ZR),
        };
        let ghost g0 = *gen;
        match &instr.operation {
            Operation::BinOp(op, lhs, rhs) => {
                let src1 = self.get_vreg(*lhs);
                let src2 = self.get_vreg(*rhs);
                let emitted = UrclInstr::AluOp { op: UrclAluOp::from(*op), dst, src1, src2 };
                gen.push_instr(emitted);
                proof {
                    assert(self.select_rel(
                        *instr,
                        seq![
                            UrclInstr::AluOp {
                                op: alu_op_of(*op),
                                dst,
                                src1: VReg::Virtual(lhs.0),
                                src2: VReg::Virtual(rhs.0),
                            },
                        ],
                    ));
                }
            },
            Operation::Integer(val) => {
                gen.push_instr(UrclInstr::Imm { dst, val: *val });
                proof {
                    assert(self.select_rel(*instr, seq![UrclInstr::Imm { dst, val: *val }]));
                }
            },
            Operation::LoadVar(_) => {
                // Never reached after SSA construction; selects nothing.
                proof {
                    assert(gen_extended(g0, *gen, Seq::<UrclInstr>::empty())) by {
                        assert(g0.cur_instrs() + Seq::<UrclInstr>::empty() =~= g0.cur_instrs());
                    }
                    assert(self.select_rel(*instr, Seq::<UrclInstr>::empty()));
                }
            },
            Operation::StoreVar(_, _) => {
                proof {
                    assert(gen_extended(g0, *gen, Seq::<UrclInstr>::empty())) by {
                        assert(g0.cur_instrs() + Seq::<UrclInstr>::empty() =~= g0.cur_instrs());
                    }
                    assert(self.select_rel(*instr, Seq::<UrclInstr>::empty()));
                }
            },
            Operation::Phi(vals) => {
                let mut ops: Vec<VReg> = Vec::new();
                let nvals = vals.len();
                let mut k: usize = 0;
                while k < nvals
                    invariant
                        0 <= k <= nvals,
                        nvals == vals@.len(),
                        ops@.len() == k,
                        forall|j: int|
                            0 <= j < k ==> ops@[j] == VReg::Virtual((#[trigger] vals@[j]).0),
                    decreases nvals - k,
                {
                    ops.push(VReg::Virtual(vals[k].0));
                    k += 1;
                }
                let emitted = UrclInstr::PhiPlaceholder { dst, ops };
                let ghost piece = seq![emitted];
                gen.push_instr(emitted);
                proof {
                    assert(self.select_rel(*instr, piece));
                }
            },
            Operation::Call(_, _) => {
                proof {
                    assert(false);
                }
            },
        }
    }

    fn select_terminator(&mut self, gen: &mut VCodeGenerator<UrclInstr>, term: &Terminator) {
        let ghost g0 = *gen;
        match term {
            Terminator::Branch(val, t, f) => {
                gen.push_instr(
                    UrclInstr::Beq { src1: self.get_vreg(*val), dst: LabelDest::Block(t.0) },
                );
                gen.push_instr(UrclInstr::Jmp { dst: LabelDest::Block(f.0) });
                proof {
                    assert(gen.cur_instrs() =~= g0.cur_instrs() + self.term_spec(*term));
                }
            },
            Terminator::Jump(l) => {
                gen.push_instr(UrclInstr::Jmp { dst: LabelDest::Block(l.0) });
                proof {
                    assert(gen.cur_instrs() =~= g0.cur_instrs() + self.term_spec(*term));
                }
            },
            Terminator::Return(val) => {
                gen.push_instr(
                    UrclInstr::Mov { dst: VReg::Real(URCL_REG_1), src: self.get_vreg(*val) },
                );
                gen.push_instr(UrclInstr::Ret);
                proof {
                    assert(gen.cur_instrs() =~= g0.cur_instrs() + self.term_spec(*term));
                }
            },
            Terminator::NoTerm => {
                proof {
                    assert(false);
                }
            },
        }
    }

    fn select_move(&mut self, gen: &mut VCodeGenerator<UrclInstr>, dst: ValueId, src: ValueId) {
        gen.push_instr(
            UrclInstr::Mov { dst: VReg::Virtual(dst.0), src: VReg::Virtual(src.0) },
        );
    }

    fn get_pre_function_instructions(&mut self, gen: &mut VCodeGenerator<UrclInstr>) {
    }

    fn get_post_function_instructions(&mut self, gen: &mut VCodeGenerator<UrclInstr>) {
    }
}

} // verus!
