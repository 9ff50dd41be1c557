//! End-to-end runs of the pass pipeline on small programs, checking the
//! shapes that SSA construction, critical-edge splitting and phi lowering
//! must produce.

use ssa::algos::lower_to_ssa;
use ssa::algos::phi_lowering;
use ssa::algos::remove_critical_edges;
use ssa::arch::urcl::{UrclAluOp, UrclInstr, UrclSelector};
use ssa::builder::ModuleBuilder;
use ssa::ir::{Algo, BinOp, BlockId, Linkage, Operation, Terminator, Type, ValueId};
use ssa::regalloc::VReg;
use ssa::vcode::LabelDest;

#[test]
fn fig_3dot1() {
    let mut builder = ModuleBuilder::new("fig3.1");

    let m_fn = builder.push_function("main", Type::Void, vec![], None);
    builder.switch_to_fn(m_fn);

    let entry = builder.push_block("entry");
    let bb_a = builder.push_block("a");
    let bb_b = builder.push_block("b");
    let bb_c = builder.push_block("c");
    let bb_d = builder.push_block("d");
    let bb_e = builder.push_block("e");

    builder.switch_to_block(entry);
    builder.set_terminator(Terminator::Jump(bb_a));

    builder.switch_to_block(bb_b);
    let x = builder.push_variable("x", Type::Integer(32, true));
    let y = builder.push_variable("y", Type::Integer(32, true));
    let val = builder.build_integer(0, Type::Integer(4, true));
    builder.build_store(x, val);
    builder.build_store(y, val);
    builder.set_terminator(Terminator::Jump(bb_d));

    builder.switch_to_block(bb_c);
    let tmp = builder.push_variable("tmp", Type::Integer(32, true));
    let ld_x = builder.build_load(x);
    let ld_y = builder.build_load(y);
    builder.build_store(tmp, ld_x);
    builder.build_store(x, ld_y);
    let ld_tmp = builder.build_load(tmp);
    builder.build_store(y, ld_tmp);
    let ld_x = builder.build_load(x);
    builder.set_terminator(Terminator::Branch(ld_x, bb_d, bb_e));

    builder.switch_to_block(bb_d);
    let ld_x = builder.build_load(x);
    let ld_y = builder.build_load(y);
    let val = builder.build_binop(BinOp::Add, ld_x, ld_y, Type::Integer(4, true));
    builder.build_store(x, val);
    let ld_x = builder.build_load(x);
    builder.set_terminator(Terminator::Branch(ld_x, bb_a, bb_e));

    builder.switch_to_block(bb_e);
    let ld_x = builder.build_load(x);
    builder.set_terminator(Terminator::Return(ld_x));

    builder.switch_to_block(bb_a);
    let ld_tmp = builder.build_load(tmp);
    builder.set_terminator(Terminator::Branch(ld_tmp, bb_b, bb_c));

    let mut module = builder.build();
    lower_to_ssa::lower(&mut module);
    for func in &module.functions {
        for block in &func.blocks {
            for instr in &block.instructions {
                assert!(!matches!(
                    instr.operation,
                    Operation::LoadVar(_) | Operation::StoreVar(..)
                ));
            }
        }
    }
}

#[test]
fn test_var_renaming() {
    let mut builder = ModuleBuilder::new("test");
    let f = builder.push_function("main", Type::Void, vec![], None);
    builder.switch_to_fn(f);
    let entry = builder.push_block("entry");
    builder.switch_to_block(entry);
    let x = builder.push_variable("x", Type::Integer(32, true));
    let three = builder.build_integer(3, Type::Integer(32, true));
    builder.build_store(x, three);
    let ld_x = builder.build_load(x);
    builder.set_terminator(Terminator::Return(ld_x));
    let mut module = builder.build();
    let _ = ld_x;
    lower_to_ssa::lower(&mut module);
}

#[test]
fn test_vcode() {
    let mut builder = ModuleBuilder::new("test");
    let func = builder.push_function("main", Type::Integer(32, true), vec![], None);
    builder.switch_to_fn(func);

    let entry = builder.push_block("entry");
    builder.switch_to_block(entry);

    let x = builder.push_variable("x", Type::Integer(32, true));
    let y = builder.push_variable("y", Type::Integer(32, true));
    let three = builder.build_integer(3, Type::Integer(32, true));
    builder.build_store(x, three);
    builder.build_store(y, three);
    let ld_x = builder.build_load(x);
    let ld_y = builder.build_load(y);
    let val = builder.build_binop(BinOp::Add, ld_x, ld_y, Type::Integer(32, true));

    builder.set_terminator(Terminator::Return(val));
    let mut module = builder.build();
    lower_to_ssa::lower(&mut module);

    let mut selector = UrclSelector;
    let vcode = module.lower_to_vcode::<UrclInstr, UrclSelector>(&mut selector);
    assert_eq!(vcode.functions.len(), 1);
}

/// A straight-line sum of two constants flows through SSA construction and
/// instruction selection into the expected URCL stream.
#[test]
fn constant_sum_selects_add_and_return() {
    let mut builder = ModuleBuilder::new("sum");
    let func = builder.push_function("main", Type::Integer(32, true), vec![], None);
    builder.switch_to_fn(func);
    let entry = builder.push_block("entry");
    builder.switch_to_block(entry);

    let x = builder.push_variable("x", Type::Integer(32, true));
    let y = builder.push_variable("y", Type::Integer(32, true));
    let three = builder.build_integer(3, Type::Integer(32, true));
    builder.build_store(x, three);
    builder.build_store(y, three);
    let ld_x = builder.build_load(x);
    let ld_y = builder.build_load(y);
    let val = builder.build_binop(BinOp::Add, ld_x, ld_y, Type::Integer(32, true));
    builder.set_terminator(Terminator::Return(val));

    let mut module = builder.build();
    lower_to_ssa::lower(&mut module);

    // Both loads alias the constant: one immediate and one add remain.
    let block = &module.functions[0].blocks[0];
    assert_eq!(block.instructions.len(), 2);
    assert_eq!(block.instructions[0].operation, Operation::Integer(3));
    assert_eq!(
        block.instructions[1].operation,
        Operation::BinOp(BinOp::Add, three, three)
    );

    let mut selector = UrclSelector;
    let vcode = module.lower_to_vcode::<UrclInstr, UrclSelector>(&mut selector);
    let instrs = &vcode.functions[0].instrs[0].instrs;
    assert_eq!(
        *instrs,
        vec![
            UrclInstr::Imm {
                dst: VReg::Virtual(three.0),
                val: 3
            },
            UrclInstr::AluOp {
                op: UrclAluOp::Add,
                dst: VReg::Virtual(val.0),
                src1: VReg::Virtual(three.0),
                src2: VReg::Virtual(three.0)
            },
            UrclInstr::Mov {
                dst: VReg::Real(1),
                src: VReg::Virtual(val.0)
            },
            UrclInstr::Ret,
        ]
    );
}

/// A single store followed by a load aliases the load to the constant and
/// produces no phi.
#[test]
fn single_store_single_load_aliases() {
    let mut builder = ModuleBuilder::new("alias");
    let func = builder.push_function("f", Type::Integer(32, true), vec![], None);
    builder.switch_to_fn(func);
    let entry = builder.push_block("entry");
    builder.switch_to_block(entry);
    let x = builder.push_variable("x", Type::Integer(32, true));
    let seven = builder.build_integer(7, Type::Integer(32, true));
    builder.build_store(x, seven);
    let ld_x = builder.build_load(x);
    builder.set_terminator(Terminator::Return(ld_x));

    let mut module = builder.build();
    lower_to_ssa::lower(&mut module);

    let block = &module.functions[0].blocks[0];
    assert_eq!(block.instructions.len(), 1);
    assert_eq!(block.instructions[0].operation, Operation::Integer(7));
    assert!(!block
        .instructions
        .iter()
        .any(|i| matches!(i.operation, Operation::Phi(_))));
    // The returned value is the constant itself, not the deleted load.
    assert_eq!(block.terminator, Terminator::Return(seven));
}

/// A diamond whose arms store different values produces one phi in the join,
/// with operands in predecessor order; phi lowering then puts one move on
/// each arm.
#[test]
fn diamond_redefinition_phi_and_moves() {
    let mut builder = ModuleBuilder::new("diamond");
    let func = builder.push_function("f", Type::Integer(32, true), vec![], None);
    builder.switch_to_fn(func);
    let entry = builder.push_block("entry");
    let arm_a = builder.push_block("a");
    let arm_b = builder.push_block("b");
    let join = builder.push_block("join");

    builder.switch_to_block(entry);
    let x = builder.push_variable("x", Type::Integer(32, true));
    let cond = builder.build_integer(1, Type::Integer(32, true));
    builder.set_terminator(Terminator::Branch(cond, arm_a, arm_b));

    builder.switch_to_block(arm_a);
    let one = builder.build_integer(1, Type::Integer(32, true));
    builder.build_store(x, one);
    builder.set_terminator(Terminator::Jump(join));

    builder.switch_to_block(arm_b);
    let two = builder.build_integer(2, Type::Integer(32, true));
    builder.build_store(x, two);
    builder.set_terminator(Terminator::Jump(join));

    builder.switch_to_block(join);
    let ld = builder.build_load(x);
    builder.set_terminator(Terminator::Return(ld));

    let mut module = builder.build();
    lower_to_ssa::lower(&mut module);

    // One phi in the join, operands in predecessor order (a then b).
    let join_block = &module.functions[0].blocks[join.0];
    assert_eq!(join_block.preds, vec![arm_a, arm_b]);
    assert_eq!(join_block.instructions.len(), 1);
    assert_eq!(join_block.instructions[0].operation, Operation::Phi(vec![one, two]));
    assert_eq!(join_block.instructions[0].yielded, Some(ld));

    remove_critical_edges::remove_critical_edges(&mut module);
    phi_lowering::lower_phis(&mut module);

    // The phi is gone; each arm carries the move for its edge.
    let f = &module.functions[0];
    assert!(f.blocks.iter().all(|b| {
        b.instructions
            .iter()
            .all(|i| !matches!(i.operation, Operation::Phi(_)))
    }));
    assert_eq!(f.blocks[arm_a.0].par_moves, vec![(ld, one)]);
    assert_eq!(f.blocks[arm_b.0].par_moves, vec![(ld, two)]);
}

/// A loop with a back edge: the header's load becomes a phi over the entry
/// definition and the body's redefinition; the body's own load ties the back
/// edge to its own yielded value through the walk's stop block.
#[test]
fn loop_back_edge_ties_phi() {
    let mut builder = ModuleBuilder::new("back_edge");
    let func = builder.push_function("f", Type::Integer(32, true), vec![], None);
    builder.switch_to_fn(func);
    let entry = builder.push_block("entry");
    let header = builder.push_block("header");
    let body = builder.push_block("body");
    let exit = builder.push_block("exit");

    builder.switch_to_block(entry);
    let x = builder.push_variable("x", Type::Integer(32, true));
    let x0 = builder.build_integer(0, Type::Integer(32, true));
    builder.build_store(x, x0);
    builder.set_terminator(Terminator::Jump(header));

    builder.switch_to_block(header);
    let ld_h = builder.build_load(x);
    builder.set_terminator(Terminator::Branch(ld_h, body, exit));

    builder.switch_to_block(body);
    let ld_b = builder.build_load(x);
    let one = builder.build_integer(1, Type::Integer(32, true));
    let add = builder.build_binop(BinOp::Add, ld_b, one, Type::Integer(32, true));
    builder.build_store(x, add);
    builder.set_terminator(Terminator::Jump(header));

    builder.switch_to_block(exit);
    let ld_e = builder.build_load(x);
    builder.set_terminator(Terminator::Return(ld_e));

    let mut module = builder.build();
    lower_to_ssa::lower(&mut module);

    let f = &module.functions[0];
    // Header phi: entry's definition on the first edge, the body's
    // redefinition on the back edge.
    assert_eq!(f.blocks[header.0].preds, vec![entry, body]);
    assert_eq!(f.blocks[header.0].instructions.len(), 1);
    assert_eq!(
        f.blocks[header.0].instructions[0].operation,
        Operation::Phi(vec![x0, add])
    );
    assert_eq!(f.blocks[header.0].instructions[0].yielded, Some(ld_h));
    // Body phi: one operand for the body's single incoming edge. The walk
    // found two definitions merging in the header (the entry store and the
    // back edge tied to itself), so the edge is tied to the phi's own value,
    // keeping one operand per predecessor.
    assert_eq!(f.blocks[body.0].preds, vec![header]);
    assert_eq!(
        f.blocks[body.0].instructions[0].operation,
        Operation::Phi(vec![ld_b])
    );
}

/// Both edges of a conditional branch reach the same join: the splitter
/// inserts two bridge blocks and no critical edge remains.
#[test]
fn critical_edge_split_inserts_bridges() {
    let mut builder = ModuleBuilder::new("split");
    let func = builder.push_function("f", Type::Integer(32, true), vec![], None);
    builder.switch_to_fn(func);
    let entry = builder.push_block("entry");
    let join = builder.push_block("join");

    builder.switch_to_block(entry);
    let cond = builder.build_integer(1, Type::Integer(32, true));
    builder.set_terminator(Terminator::Branch(cond, join, join));

    builder.switch_to_block(join);
    let v = builder.build_integer(9, Type::Integer(32, true));
    builder.set_terminator(Terminator::Return(v));

    let mut module = builder.build();
    lower_to_ssa::lower(&mut module);
    remove_critical_edges::remove_critical_edges(&mut module);

    let f = &module.functions[0];
    assert_eq!(f.blocks.len(), 4);
    let bridge1 = BlockId(2);
    let bridge2 = BlockId(3);
    assert_eq!(f.blocks[entry.0].terminator, Terminator::Branch(cond, bridge1, bridge2));
    assert_eq!(f.blocks[bridge1.0].terminator, Terminator::Jump(join));
    assert_eq!(f.blocks[bridge2.0].terminator, Terminator::Jump(join));
    assert!(f.blocks[bridge1.0].instructions.is_empty());
    assert!(f.blocks[bridge2.0].instructions.is_empty());
    assert_eq!(f.blocks[bridge1.0].preds, vec![entry]);
    assert_eq!(f.blocks[bridge2.0].preds, vec![entry]);
    assert_eq!(f.blocks[join.0].preds, vec![bridge1, bridge2]);
    // No critical edge remains: every branch target now has one predecessor.
    for b in &f.blocks {
        if let Terminator::Branch(_, t1, t2) = b.terminator {
            assert_eq!(f.blocks[t1.0].preds.len(), 1);
            assert_eq!(f.blocks[t2.0].preds.len(), 1);
        }
    }
}

/// The pass log records each pass once, in order.
#[test]
fn pass_log_is_append_only() {
    let mut builder = ModuleBuilder::new("log");
    let func = builder.push_function("f", Type::Integer(32, true), vec![], None);
    builder.switch_to_fn(func);
    let entry = builder.push_block("entry");
    builder.switch_to_block(entry);
    let v = builder.build_integer(5, Type::Integer(32, true));
    builder.set_terminator(Terminator::Return(v));

    let mut module = builder.build();
    assert!(module.algos_run.is_empty());
    lower_to_ssa::lower(&mut module);
    assert_eq!(module.algos_run, vec![Algo::LowerToSsa]);
    remove_critical_edges::remove_critical_edges(&mut module);
    assert_eq!(
        module.algos_run,
        vec![Algo::LowerToSsa, Algo::CriticalEdgeSplitting]
    );
    phi_lowering::lower_phis(&mut module);
    assert_eq!(
        module.algos_run,
        vec![
            Algo::LowerToSsa,
            Algo::CriticalEdgeSplitting,
            Algo::PhiLowering
        ]
    );
    ssa::algos::lower_par_moves::lower_par_moves(&mut module);
    assert_eq!(
        module.algos_run,
        vec![
            Algo::LowerToSsa,
            Algo::CriticalEdgeSplitting,
            Algo::PhiLowering,
            Algo::LowerParMoves
        ]
    );
}

/// The builder keeps use lists in step with the instructions that read each
/// value, and SSA aliasing moves them to the surviving value.
#[test]
fn use_lists_follow_definitions() {
    let mut builder = ModuleBuilder::new("uses");
    let func = builder.push_function("f", Type::Integer(32, true), vec![], None);
    builder.switch_to_fn(func);
    let entry = builder.push_block("entry");
    builder.switch_to_block(entry);
    let x = builder.push_variable("x", Type::Integer(32, true));
    let seven = builder.build_integer(7, Type::Integer(32, true));
    builder.build_store(x, seven);
    let ld = builder.build_load(x);
    let two = builder.build_integer(2, Type::Integer(32, true));
    let sum = builder.build_binop(BinOp::Add, ld, two, Type::Integer(32, true));
    builder.set_terminator(Terminator::Return(sum));

    let module = builder.build();
    let f = &module.functions[0];
    // The add consumes the load and the constant.
    assert_eq!(f.values[ld.0].children, vec![sum]);
    assert_eq!(f.values[two.0].children, vec![sum]);
    assert!(f.values[sum.0].children.is_empty());

    let mut module = module;
    lower_to_ssa::lower(&mut module);
    let f = &module.functions[0];
    // Aliasing handed the load's uses to the stored constant.
    assert!(f.values[ld.0].children.is_empty());
    assert_eq!(f.values[seven.0].children, vec![sum]);
    // The add now reads the constant directly.
    assert_eq!(
        f.blocks[0].instructions[2].operation,
        Operation::BinOp(BinOp::Add, seven, two)
    );
}

/// Function metadata flows unchanged into the emitted code.
#[test]
fn vcode_function_header_carries_over() {
    let mut builder = ModuleBuilder::new("hdr");
    let func = builder.push_function(
        "compute",
        Type::Integer(32, true),
        vec![("a".to_string(), Type::Integer(32, true))],
        Some(Linkage::Public),
    );
    builder.switch_to_fn(func);
    let entry = builder.push_block("entry");
    builder.switch_to_block(entry);
    let v = builder.build_integer(4, Type::Integer(32, true));
    builder.set_terminator(Terminator::Return(v));
    let mut module = builder.build();
    lower_to_ssa::lower(&mut module);

    let mut selector = UrclSelector;
    let vcode = module.lower_to_vcode::<UrclInstr, UrclSelector>(&mut selector);
    assert_eq!(vcode.functions.len(), 1);
    assert_eq!(vcode.functions[0].name, "compute");
    assert_eq!(vcode.functions[0].linkage, Linkage::Public);
    assert_eq!(vcode.functions[0].arg_count, 1);
    assert_eq!(vcode.functions[0].instrs.len(), 1);
}

/// Jumps and branches select into the branch-then-jump URCL shape.
#[test]
fn branch_selects_beq_then_jmp() {
    let mut builder = ModuleBuilder::new("br");
    let func = builder.push_function("f", Type::Integer(32, true), vec![], None);
    builder.switch_to_fn(func);
    let entry = builder.push_block("entry");
    let then_b = builder.push_block("then");
    let else_b = builder.push_block("else");
    builder.switch_to_block(entry);
    let c = builder.build_integer(1, Type::Integer(32, true));
    builder.set_terminator(Terminator::Branch(c, then_b, else_b));
    builder.switch_to_block(then_b);
    let a = builder.build_integer(2, Type::Integer(32, true));
    builder.set_terminator(Terminator::Return(a));
    builder.switch_to_block(else_b);
    let b = builder.build_integer(3, Type::Integer(32, true));
    builder.set_terminator(Terminator::Return(b));

    let mut module = builder.build();
    lower_to_ssa::lower(&mut module);
    let mut selector = UrclSelector;
    let vcode = module.lower_to_vcode::<UrclInstr, UrclSelector>(&mut selector);
    let entry_instrs = &vcode.functions[0].instrs[0].instrs;
    assert_eq!(
        *entry_instrs,
        vec![
            UrclInstr::Imm {
                dst: VReg::Virtual(c.0),
                val: 1
            },
            UrclInstr::Beq {
                src1: VReg::Virtual(c.0),
                dst: LabelDest::Block(then_b.0)
            },
            UrclInstr::Jmp {
                dst: LabelDest::Block(else_b.0)
            },
        ]
    );
    let _ = ValueId(0);
}
