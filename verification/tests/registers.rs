//! The linear-scan allocator and the register-rewriting plumbing, driven over
//! small URCL streams.

use ssa::arch::urcl::{UrclAluOp, UrclInstr};
use ssa::ir::BinOp;
use ssa::regalloc::linear_scan::LinearScanRegAlloc;
use ssa::regalloc::{apply_alloc, Regalloc, VReg, VRegMap};
use ssa::vcode::VCodeInstr;

fn usable() -> Vec<VReg> {
    UrclInstr::get_usable_regs()
}

/// Collects a tiny stream and assigns every virtual a physical register.
#[test]
fn straight_line_all_assigned() {
    let instrs = vec![
        UrclInstr::Imm {
            dst: VReg::Virtual(0),
            val: 3,
        },
        UrclInstr::AluOp {
            op: UrclAluOp::Add,
            dst: VReg::Virtual(1),
            src1: VReg::Virtual(0),
            src2: VReg::Virtual(0),
        },
        UrclInstr::Mov {
            dst: VReg::Real(1),
            src: VReg::Virtual(1),
        },
        UrclInstr::Ret,
    ];
    let mut ra = LinearScanRegAlloc::default();
    for i in &instrs {
        i.collect_registers(&mut ra);
        ra.next_instr();
    }
    assert_eq!(ra.registers.len(), 2);
    assert_eq!(ra.registers[0].reg, VReg::Virtual(0));
    assert_eq!(ra.registers[0].live_start, 0);
    assert_eq!(ra.registers[0].live_end, 1);
    assert_eq!(ra.registers[1].reg, VReg::Virtual(1));
    // The move recorded a coalescing hint toward the return register.
    assert_eq!(ra.registers[1].try_to_coalesce_to, Some(VReg::Real(1)));

    let allocs = ra.alloc_regs(&usable());
    for e in &ra.registers {
        let got = allocs.get(e.reg).expect("every virtual is assigned");
        match got {
            VReg::Real(_) => assert!(usable().contains(&got)),
            VReg::Spilled(_) => {}
            VReg::Virtual(_) => panic!("a virtual register survived allocation"),
        }
    }
    // The hint was honoured: the moved value sits in the return register.
    assert_eq!(allocs.get(VReg::Virtual(1)), Some(VReg::Real(1)));
}

/// With a single usable register, overlapping ranges spill.
#[test]
fn overlap_with_one_register_spills() {
    let instrs = vec![
        UrclInstr::Imm {
            dst: VReg::Virtual(0),
            val: 1,
        },
        UrclInstr::Imm {
            dst: VReg::Virtual(1),
            val: 2,
        },
        UrclInstr::AluOp {
            op: UrclAluOp::Add,
            dst: VReg::Virtual(2),
            src1: VReg::Virtual(0),
            src2: VReg::Virtual(1),
        },
    ];
    let mut ra = LinearScanRegAlloc::default();
    for i in &instrs {
        i.collect_registers(&mut ra);
        ra.next_instr();
    }
    let one_reg = vec![VReg::Real(1)];
    let allocs = ra.alloc_regs(&one_reg);
    let mut reals = 0;
    let mut spills = 0;
    for e in &ra.registers {
        match allocs.get(e.reg).expect("assigned") {
            VReg::Real(r) => {
                assert_eq!(r, 1);
                reals += 1;
            }
            VReg::Spilled(_) => spills += 1,
            VReg::Virtual(_) => panic!("unassigned virtual"),
        }
    }
    assert_eq!(reals + spills, 3);
    assert!(spills >= 1);
}

/// Rewriting registers through an assignment changes exactly the bound ones.
#[test]
fn apply_alloc_rewrites_bound_registers() {
    let mut m = VRegMap::new();
    m.bind(VReg::Virtual(0), VReg::Real(3));
    let mut r = VReg::Virtual(0);
    apply_alloc(&mut r, &m);
    assert_eq!(r, VReg::Real(3));
    let mut unbound = VReg::Virtual(9);
    apply_alloc(&mut unbound, &m);
    assert_eq!(unbound, VReg::Virtual(9));

    let mut instr = UrclInstr::AluOp {
        op: UrclAluOp::Xor,
        dst: VReg::Virtual(0),
        src1: VReg::Virtual(0),
        src2: VReg::Virtual(9),
    };
    instr.apply_allocs(&m);
    assert_eq!(
        instr,
        UrclInstr::AluOp {
            op: UrclAluOp::Xor,
            dst: VReg::Real(3),
            src1: VReg::Real(3),
            src2: VReg::Virtual(9),
        }
    );
}

/// Rebinding a key replaces its value and leaves the others alone.
#[test]
fn vregmap_rebind_replaces() {
    let mut m = VRegMap::new();
    m.bind(VReg::Virtual(0), VReg::Real(1));
    m.bind(VReg::Virtual(1), VReg::Real(2));
    m.bind(VReg::Virtual(0), VReg::Spilled(0));
    assert_eq!(m.get(VReg::Virtual(0)), Some(VReg::Spilled(0)));
    assert_eq!(m.get(VReg::Virtual(1)), Some(VReg::Real(2)));
    assert_eq!(m.get(VReg::Virtual(2)), None);
}

/// The IR-to-URCL opcode translation covers the comparison operators.
#[test]
fn alu_op_translation() {
    assert_eq!(UrclAluOp::from(BinOp::Add), UrclAluOp::Add);
    assert_eq!(UrclAluOp::from(BinOp::Shl), UrclAluOp::Lsh);
    assert_eq!(UrclAluOp::from(BinOp::Shr), UrclAluOp::Rsh);
    assert_eq!(UrclAluOp::from(BinOp::Eq), UrclAluOp::Ssete);
    assert_eq!(UrclAluOp::from(BinOp::Ge), UrclAluOp::Ssetge);
}

/// Virtuals whose live ranges overlap never share a physical register.
#[test]
fn overlapping_ranges_get_distinct_reals() {
    let instrs = vec![
        UrclInstr::Imm {
            dst: VReg::Virtual(0),
            val: 1,
        },
        UrclInstr::Imm {
            dst: VReg::Virtual(1),
            val: 2,
        },
        UrclInstr::AluOp {
            op: UrclAluOp::Add,
            dst: VReg::Virtual(2),
            src1: VReg::Virtual(0),
            src2: VReg::Virtual(1),
        },
        UrclInstr::Mov {
            dst: VReg::Real(1),
            src: VReg::Virtual(2),
        },
        UrclInstr::Ret,
    ];
    let mut ra = LinearScanRegAlloc::default();
    for i in &instrs {
        i.collect_registers(&mut ra);
        ra.next_instr();
    }
    // Virtual 0 lives over positions 0..2 and virtual 1 over 1..2: they clash.
    let allocs = ra.alloc_regs(&usable());
    let r0 = allocs.get(VReg::Virtual(0)).expect("assigned");
    let r1 = allocs.get(VReg::Virtual(1)).expect("assigned");
    assert!(matches!(r0, VReg::Real(_)));
    assert!(matches!(r1, VReg::Real(_)));
    assert_ne!(r0, r1);
}
