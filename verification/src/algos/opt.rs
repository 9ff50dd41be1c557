//! Optional optimization passes that run between SSA construction and the
//! mandatory lowering pipeline.

pub mod dead_instr_elim;

use vstd::prelude::*;

use crate::ir::Module;

verus! {

/// An optimization pass: a module-to-module transformation that keeps the
/// module well formed.
pub trait OptPass: Sized {
    fn run(&mut self, module: &mut Module)
        requires
            old(module).wf(),
        ensures
            final(module).wf(),
    ;
}

} // verus!
