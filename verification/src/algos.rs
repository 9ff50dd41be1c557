//! The transformation passes that carry a module through the pipeline.

pub mod delete_instructions;
pub mod lower_par_moves;
pub mod lower_to_ssa;
pub mod opt;
pub mod phi_lowering;
pub mod remove_critical_edges;
