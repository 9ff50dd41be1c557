//! A small compiler back-end core: an intermediate representation with
//! functions, basic blocks, typed values, variables and phi nodes, together
//! with the passes that carry a function from load/store form into SSA form,
//! out of SSA again (critical-edge splitting, phi lowering, parallel-move
//! sequencing) and down to target virtual code with register allocation.

pub mod algos;
pub mod arch;
pub mod builder;
pub mod ir;
pub mod regalloc;
pub mod vcode;
