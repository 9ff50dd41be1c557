//! Edge cases of the passes: empty modules, trivial-phi pruning, dead
//! instruction removal and the phi placeholder in emitted code.

use ssa::algos::lower_to_ssa;
use ssa::algos::opt::dead_instr_elim::DeadInstrElim;
use ssa::algos::opt::OptPass;
use ssa::algos::phi_lowering;
use ssa::algos::remove_critical_edges;
use ssa::arch::urcl::{UrclInstr, UrclSelector};
use ssa::builder::ModuleBuilder;
use ssa::ir::{BasicBlock, BinOp, BlockId, Function, Instruction, Linkage, Module, Operation, Terminator, Type, Value, ValueId};
use ssa::regalloc::VReg;

/// All passes accept a module with no functions.
#[test]
fn empty_module_flows_through() {
    let mut m = Module::new("empty", Vec::new());
    lower_to_ssa::lower(&mut m);
    remove_critical_edges::remove_critical_edges(&mut m);
    phi_lowering::lower_phis(&mut m);
    ssa::algos::lower_par_moves::lower_par_moves(&mut m);
    let mut d = DeadInstrElim {};
    d.run(&mut m);
    assert!(m.functions.is_empty());
    assert_eq!(m.algos_run.len(), 4);
}

/// A phi whose operands all name the same value is pruned and its uses are
/// rewritten to that value.
#[test]
fn trivial_phi_is_pruned() {
    // Same definition on both arms of a diamond: the join's phi has one
    // distinct operand and disappears.
    let mut builder = ModuleBuilder::new("trivial");
    let func = builder.push_function("f", Type::Integer(32, true), vec![], None);
    builder.switch_to_fn(func);
    let entry = builder.push_block("entry");
    let arm_a = builder.push_block("a");
    let arm_b = builder.push_block("b");
    let join = builder.push_block("join");

    builder.switch_to_block(entry);
    let x = builder.push_variable("x", Type::Integer(32, true));
    let five = builder.build_integer(5, Type::Integer(32, true));
    builder.build_store(x, five);
    let cond = builder.build_integer(1, Type::Integer(32, true));
    builder.set_terminator(Terminator::Branch(cond, arm_a, arm_b));

    builder.switch_to_block(arm_a);
    builder.set_terminator(Terminator::Jump(join));
    builder.switch_to_block(arm_b);
    builder.set_terminator(Terminator::Jump(join));

    builder.switch_to_block(join);
    let ld = builder.build_load(x);
    builder.set_terminator(Terminator::Return(ld));

    let mut module = builder.build();
    lower_to_ssa::lower(&mut module);

    let f = &module.functions[0];
    // Both reaching definitions are the same constant; the phi was pruned and
    // the return reads the constant directly.
    assert!(f.blocks[join.0].instructions.is_empty());
    assert_eq!(f.blocks[join.0].terminator, Terminator::Return(five));
    let _ = ld;
}

/// An unconsumed arithmetic result disappears under dead-instruction
/// elimination, and the values it read forget it.
#[test]
fn dead_add_is_removed() {
    let mut builder = ModuleBuilder::new("dead");
    let func = builder.push_function("f", Type::Integer(32, true), vec![], None);
    builder.switch_to_fn(func);
    let entry = builder.push_block("entry");
    builder.switch_to_block(entry);
    let a = builder.build_integer(1, Type::Integer(32, true));
    let b = builder.build_integer(2, Type::Integer(32, true));
    let unused = builder.build_binop(BinOp::Add, a, b, Type::Integer(32, true));
    builder.set_terminator(Terminator::Return(a));

    let mut module = builder.build();
    let mut d = DeadInstrElim {};
    d.run(&mut module);

    let f = &module.functions[0];
    // The add is gone; the constants stay (the return still reads one, and
    // one pass does not cascade).
    assert_eq!(f.blocks[0].instructions.len(), 2);
    assert!(f.blocks[0]
        .instructions
        .iter()
        .all(|i| i.yielded != Some(unused)));
    // Its operands' use lists forgot the dead value.
    assert!(!f.values[a.0].children.contains(&unused));
    assert!(!f.values[b.0].children.contains(&unused));
}

/// An unlowered phi selects into a placeholder carrying its operands.
#[test]
fn phi_selects_placeholder() {
    let mut builder = ModuleBuilder::new("placeholder");
    let func = builder.push_function("f", Type::Integer(32, true), vec![], None);
    builder.switch_to_fn(func);
    let entry = builder.push_block("entry");
    let arm_a = builder.push_block("a");
    let arm_b = builder.push_block("b");
    let join = builder.push_block("join");

    builder.switch_to_block(entry);
    let x = builder.push_variable("x", Type::Integer(32, true));
    let cond = builder.build_integer(1, Type::Integer(32, true));
    builder.set_terminator(Terminator::Branch(cond, arm_a, arm_b));

    builder.switch_to_block(arm_a);
    let one = builder.build_integer(1, Type::Integer(32, true));
    builder.build_store(x, one);
    builder.set_terminator(Terminator::Jump(join));

    builder.switch_to_block(arm_b);
    let two = builder.build_integer(2, Type::Integer(32, true));
    builder.build_store(x, two);
    builder.set_terminator(Terminator::Jump(join));

    builder.switch_to_block(join);
    let ld = builder.build_load(x);
    builder.set_terminator(Terminator::Return(ld));

    let mut module = builder.build();
    lower_to_ssa::lower(&mut module);
    assert!(matches!(
        module.functions[0].blocks[join.0].instructions[0].operation,
        Operation::Phi(_)
    ));

    let mut selector = UrclSelector;
    let vcode = module.lower_to_vcode::<UrclInstr, UrclSelector>(&mut selector);
    let join_code = &vcode.functions[0].instrs[join.0].instrs;
    assert_eq!(
        join_code[0],
        UrclInstr::PhiPlaceholder {
            dst: VReg::Virtual(ld.0),
            ops: vec![VReg::Virtual(one.0), VReg::Virtual(two.0)],
        }
    );
}

/// The last store in a block wins: a load after two stores aliases to the
/// second value.
#[test]
fn second_store_shadows_first() {
    let mut builder = ModuleBuilder::new("shadow");
    let func = builder.push_function("f", Type::Integer(32, true), vec![], None);
    builder.switch_to_fn(func);
    let entry = builder.push_block("entry");
    builder.switch_to_block(entry);
    let x = builder.push_variable("x", Type::Integer(32, true));
    let first = builder.build_integer(1, Type::Integer(32, true));
    builder.build_store(x, first);
    let second = builder.build_integer(2, Type::Integer(32, true));
    builder.build_store(x, second);
    let ld = builder.build_load(x);
    builder.set_terminator(Terminator::Return(ld));

    let mut module = builder.build();
    lower_to_ssa::lower(&mut module);
    assert_eq!(
        module.functions[0].blocks[0].terminator,
        Terminator::Return(second)
    );
    let _ = first;
}

/// Each function of a module is rewritten independently.
#[test]
fn two_functions_lower_independently() {
    let mut builder = ModuleBuilder::new("pair");
    let f1 = builder.push_function("one", Type::Integer(32, true), vec![], None);
    builder.switch_to_fn(f1);
    let e1 = builder.push_block("entry");
    builder.switch_to_block(e1);
    let x = builder.push_variable("x", Type::Integer(32, true));
    let a = builder.build_integer(10, Type::Integer(32, true));
    builder.build_store(x, a);
    let ld1 = builder.build_load(x);
    builder.set_terminator(Terminator::Return(ld1));

    let f2 = builder.push_function("two", Type::Integer(32, true), vec![], None);
    builder.switch_to_fn(f2);
    let e2 = builder.push_block("entry");
    builder.switch_to_block(e2);
    let y = builder.push_variable("y", Type::Integer(32, true));
    let b = builder.build_integer(20, Type::Integer(32, true));
    builder.build_store(y, b);
    let ld2 = builder.build_load(y);
    builder.set_terminator(Terminator::Return(ld2));

    let mut module = builder.build();
    lower_to_ssa::lower(&mut module);
    assert_eq!(module.functions.len(), 2);
    assert_eq!(module.functions[0].blocks[0].terminator, Terminator::Return(a));
    assert_eq!(module.functions[1].blocks[0].terminator, Terminator::Return(b));
    for f in &module.functions {
        for bb in &f.blocks {
            assert!(bb.instructions.iter().all(|i| !matches!(
                i.operation,
                Operation::LoadVar(_) | Operation::StoreVar(..)
            )));
        }
    }
}

/// Pruning one trivial phi can make an earlier one trivial; the pass settles
/// until no phi with a single distinct operand remains.
#[test]
fn cascading_trivial_phis_all_pruned() {
    // Two phis: the second is trivial outright; rewriting its yield makes the
    // first trivial as well.
    let v0 = ValueId(0);
    let v2 = ValueId(2);
    let v3 = ValueId(3);
    let values = (0..4)
        .map(|_| Value {
            ty: Type::Void,
            children: Vec::new(),
            owner: BlockId(0),
        })
        .collect::<Vec<Value>>();
    let b0 = BasicBlock {
        name: "join".to_string(),
        instructions: vec![
            Instruction {
                yielded: Some(v2),
                operation: Operation::Phi(vec![v3, v0]),
            },
            Instruction {
                yielded: Some(v3),
                operation: Operation::Phi(vec![v0, v0]),
            },
        ],
        terminator: Terminator::Return(v0),
        preds: vec![BlockId(1), BlockId(1)],
        succs: Vec::new(),
        id: 0,
        par_moves: Vec::new(),
    };
    let b1 = BasicBlock {
        name: "pre".to_string(),
        instructions: Vec::new(),
        terminator: Terminator::NoTerm,
        preds: Vec::new(),
        succs: Vec::new(),
        id: 1,
        par_moves: Vec::new(),
    };
    let func = Function {
        name: "f".to_string(),
        ret_type: Type::Void,
        args: Vec::new(),
        blocks: vec![b0, b1],
        linkage: Linkage::Private,
        variables: Vec::new(),
        id: 0,
        values,
    };
    let mut module = Module::new("cascade", vec![func]);
    ssa::algos::lower_to_ssa::remove_singleelem_phis(&mut module);
    assert!(module.functions[0].blocks[0].instructions.is_empty());
    assert_eq!(module.functions[0].blocks[0].terminator, Terminator::Return(v0));
}
