//! The intermediate representation: modules, functions, basic blocks,
//! instructions, terminators, values and variables, all linked by dense
//! integer ids, together with the specification predicates (well-formedness,
//! CFG consistency, use-list consistency) that the passes rely on.

use vstd::prelude::*;

verus! {

broadcast use vstd::string::group_string_axioms;

/// Index of a basic block inside a function; equal to its position in
/// `Function::blocks`.
#[derive(Debug, Clone, Copy, PartialEq, Eq, Structural)]
pub struct BlockId(pub usize);

/// Index of a function inside a module.
#[derive(Debug, Clone, Copy, PartialEq, Eq, Structural)]
pub struct FunctionId(pub usize);

/// Index of a variable (mutable cell) inside a function.
#[derive(Debug, Clone, Copy, PartialEq, Eq, Structural)]
pub struct VariableId(pub usize);

/// Index of a value inside a function; equal to its position in
/// `Function::values`.
#[derive(Debug, Clone, Copy, PartialEq, Eq, Structural)]
pub struct ValueId(pub usize);

/// The type of a value or variable.
#[derive(Debug)]
pub enum Type {
    Void,
    Integer(usize, bool),
    Pointer(Box<Type>),
}

impl Type {
    /// A structurally equal copy of this type.
    pub fn duplicate(&self) -> (r: Type)
        ensures
            r == *self,
        decreases *self,
    {
        match self {
            Type::Void => Type::Void,
            Type::Integer(size, signed) => Type::Integer(*size, *signed),
            Type::Pointer(inner) => Type::Pointer(Box::new((**inner).duplicate())),
        }
    }
}

/// How far a module has been analysed.
#[derive(Debug, Clone, Copy, PartialEq, Eq, Structural)]
pub enum AnalysisStage {
    LoweredToSSA,
    Optimised,
    Unanalyzed,
}

/// Tag of a pass recorded in the module's pass log.
#[derive(Debug, Clone, Copy, PartialEq, Eq, Structural)]
pub enum Algo {
    LowerToSsa,
    CriticalEdgeSplitting,
    PhiLowering,
    LowerParMoves,
}

/// Linkage of a function.
#[derive(Debug, Clone, Copy, PartialEq, Eq, Structural)]
pub enum Linkage {
    Public,
    Private,
    External,
}

/// A two-operand arithmetic, logic or comparison operator.
#[derive(Debug, Clone, Copy, PartialEq, Eq, Structural)]
pub enum BinOp {
    Add,
    Sub,
    Mul,
    Div,
    Mod,
    And,
    Or,
    Xor,
    Shl,
    Shr,
    Eq,
    Ne,
    Lt,
    Le,
    Gt,
    Ge,
}

/// What an instruction does.
#[derive(Debug, Clone, PartialEq, Eq)]
pub enum Operation {
    Integer(i64),
    BinOp(BinOp, ValueId, ValueId),
    Call(FunctionId, Vec<ValueId>),
    LoadVar(VariableId),
    StoreVar(VariableId, ValueId),
    Phi(Vec<ValueId>),
}

/// One instruction: an operation together with the value it yields, if any.
#[derive(Debug, Clone, PartialEq, Eq)]
pub struct Instruction {
    pub yielded: Option<ValueId>,
    pub operation: Operation,
}

/// How a basic block ends.
#[derive(Debug, Clone, Copy, PartialEq, Eq, Structural)]
pub enum Terminator {
    Return(ValueId),
    Jump(BlockId),
    Branch(ValueId, BlockId, BlockId),
    NoTerm,
}

/// A basic block: straight-line instructions, one terminator, and the CFG
/// edges to and from it. `par_moves` carries the parallel moves produced by
/// phi lowering; after the parallel-move sequencer has run they are ordinary
/// sequential moves executed on the edge leaving this block.
#[derive(Debug)]
pub struct BasicBlock {
    pub name: String,
    pub instructions: Vec<Instruction>,
    pub terminator: Terminator,
    pub preds: Vec<BlockId>,
    pub succs: Vec<BlockId>,
    pub id: usize,
    pub par_moves: Vec<(ValueId, ValueId)>,
}

/// A mutable cell, removed by SSA construction.
#[derive(Debug)]
pub struct Variable {
    pub name: String,
    pub ty: Type,
    pub bbs_assign_to: Vec<BlockId>,
}

/// An SSA-candidate value: its type, the block whose execution defines it,
/// and the use list `children`: the values whose defining instructions
/// consume this one.
#[derive(Debug)]
pub struct Value {
    pub ty: Type,
    pub children: Vec<ValueId>,
    pub owner: BlockId,
}

/// A function: name, signature, linkage and the arenas of blocks, variables
/// and values that its body is made of.
#[derive(Debug)]
pub struct Function {
    pub name: String,
    pub ret_type: Type,
    pub args: Vec<(String, Type)>,
    pub blocks: Vec<BasicBlock>,
    pub linkage: Linkage,
    pub variables: Vec<Variable>,
    pub id: usize,
    pub values: Vec<Value>,
}

/// A named container of functions with a monotonic pass log.
#[derive(Debug)]
pub struct Module {
    pub functions: Vec<Function>,
    pub name: String,
    pub analysis_stage: AnalysisStage,
    pub algos_run: Vec<Algo>,
}

// ---------------------------------------------------------------------------
// Specification helpers over terminators and operations
// ---------------------------------------------------------------------------

/// The successor blocks named by a terminator, in slot order.
pub open spec fn term_targets(t: Terminator) -> Seq<BlockId> {
    match t {
        Terminator::Return(_) => seq![],
        Terminator::Jump(b) => seq![b],
        Terminator::Branch(_, a, b) => seq![a, b],
        Terminator::NoTerm => seq![],
    }
}

/// How many edges a terminator sends into block `v`.
pub open spec fn count_target(t: Terminator, v: BlockId) -> nat {
    match t {
        Terminator::Return(_) => 0,
        Terminator::Jump(b) => if b == v { 1nat } else { 0 },
        Terminator::Branch(_, a, b) => (if a == v { 1nat } else { 0 }) + (if b == v {
            1nat
        } else {
            0
        }),
        Terminator::NoTerm => 0,
    }
}

/// Whether a terminator reads value `v`.
pub open spec fn term_refs(t: Terminator, v: ValueId) -> bool {
    match t {
        Terminator::Return(x) => x == v,
        Terminator::Branch(x, _, _) => x == v,
        _ => false,
    }
}

/// Whether an operation reads value `v`.
pub open spec fn op_refs(op: Operation, v: ValueId) -> bool {
    match op {
        Operation::Integer(_) => false,
        Operation::BinOp(_, l, r) => l == v || r == v,
        Operation::Call(_, args) => args@.contains(v),
        Operation::LoadVar(_) => false,
        Operation::StoreVar(_, val) => val == v,
        Operation::Phi(vals) => vals@.contains(v),
    }
}

pub open spec fn is_load_or_store(op: Operation) -> bool {
    match op {
        Operation::LoadVar(_) => true,
        Operation::StoreVar(_, _) => true,
        _ => false,
    }
}

pub open spec fn is_phi(op: Operation) -> bool {
    match op {
        Operation::Phi(_) => true,
        _ => false,
    }
}

/// `x` with `from` replaced by `to`.
pub open spec fn subst_id(x: ValueId, from: ValueId, to: ValueId) -> ValueId {
    if x == from {
        to
    } else {
        x
    }
}

/// `new` is `old` with every read of `from` turned into a read of `to`.
pub open spec fn op_substituted(old: Operation, new: Operation, from: ValueId, to: ValueId) -> bool {
    match (old, new) {
        (Operation::Integer(a), Operation::Integer(b)) => a == b,
        (Operation::BinOp(o1, l1, r1), Operation::BinOp(o2, l2, r2)) => o2 == o1 && l2 == subst_id(
            l1,
            from,
            to,
        ) && r2 == subst_id(r1, from, to),
        (Operation::Call(f1, a1), Operation::Call(f2, a2)) => f2 == f1 && a2@.len() == a1@.len()
            && (forall|i: int| 0 <= i < a1@.len() ==> a2@[i] == subst_id(#[trigger] a1@[i], from, to)),
        (Operation::LoadVar(v1), Operation::LoadVar(v2)) => v2 == v1,
        (Operation::StoreVar(v1, x1), Operation::StoreVar(v2, x2)) => v2 == v1 && x2 == subst_id(
            x1,
            from,
            to,
        ),
        (Operation::Phi(a1), Operation::Phi(a2)) => a2@.len() == a1@.len() && (forall|i: int|
            0 <= i < a1@.len() ==> a2@[i] == subst_id(#[trigger] a1@[i], from, to)),
        _ => false,
    }
}

/// `new` is `old` with every read of `from` turned into a read of `to`.
pub open spec fn term_substituted(
    old: Terminator,
    new: Terminator,
    from: ValueId,
    to: ValueId,
) -> bool {
    match (old, new) {
        (Terminator::Return(x1), Terminator::Return(x2)) => x2 == subst_id(x1, from, to),
        (Terminator::Jump(b1), Terminator::Jump(b2)) => b2 == b1,
        (Terminator::Branch(x1, a1, c1), Terminator::Branch(x2, a2, c2)) => x2 == subst_id(
            x1,
            from,
            to,
        ) && a2 == a1 && c2 == c1,
        (Terminator::NoTerm, Terminator::NoTerm) => true,
        _ => false,
    }
}

// ---------------------------------------------------------------------------
// Counting occurrences in a sequence of block ids
// ---------------------------------------------------------------------------

/// How many entries of `s` equal `x`.
pub open spec fn seq_count_id(s: Seq<BlockId>, x: BlockId) -> nat
    decreases s.len(),
{
    if s.len() == 0 {
        0
    } else {
        seq_count_id(s.drop_last(), x) + (if s.last() == x {
            1nat
        } else {
            0
        })
    }
}

pub proof fn lemma_seq_count_le_len(s: Seq<BlockId>, x: BlockId)
    ensures
        seq_count_id(s, x) <= s.len(),
    decreases s.len(),
{
    if s.len() > 0 {
        lemma_seq_count_le_len(s.drop_last(), x);
    }
}

pub proof fn lemma_seq_count_update(s: Seq<BlockId>, i: int, y: BlockId, x: BlockId)
    requires
        0 <= i < s.len(),
    ensures
        seq_count_id(s.update(i, y), x) == seq_count_id(s, x) + (if y == x {
            1int
        } else {
            0
        }) - (if s[i] == x {
            1int
        } else {
            0
        }),
    decreases s.len(),
{
    let t = s.update(i, y);
    if i == s.len() - 1 {
        assert(t.drop_last() =~= s.drop_last());
    } else {
        assert(t.drop_last() =~= s.drop_last().update(i, y));
        assert(t.last() == s.last());
        lemma_seq_count_update(s.drop_last(), i, y, x);
    }
}

/// A positive count yields a witness index.
pub proof fn lemma_seq_count_pos_contains(s: Seq<BlockId>, x: BlockId)
    requires
        seq_count_id(s, x) > 0,
    ensures
        exists|i: int| 0 <= i < s.len() && s[i] == x,
    decreases s.len(),
{
    if s.last() == x {
        assert(s[s.len() - 1] == x);
    } else {
        lemma_seq_count_pos_contains(s.drop_last(), x);
        let i = choose|i: int| 0 <= i < s.drop_last().len() && s.drop_last()[i] == x;
        assert(s[i] == x);
    }
}

// ---------------------------------------------------------------------------
// Well-formedness of a function
// ---------------------------------------------------------------------------

impl Function {
    /// Block ids equal their position in `blocks`.
    pub open spec fn blocks_positional(&self) -> bool {
        forall|b: int| 0 <= b < self.blocks@.len() ==> (#[trigger] self.blocks@[b]).id == b
    }

    /// One instruction's references stay inside this function's arenas, and
    /// loads and phis yield a value.
    pub open spec fn instr_wf(&self, instr: Instruction) -> bool {
        &&& match instr.yielded {
            Some(u) => u.0 < self.values@.len(),
            None => true,
        }
        &&& match instr.operation {
            Operation::Integer(_) => true,
            Operation::BinOp(_, l, r) => l.0 < self.values@.len() && r.0 < self.values@.len(),
            Operation::Call(_, args) => forall|i: int|
                0 <= i < args@.len() ==> (#[trigger] args@[i]).0 < self.values@.len(),
            Operation::LoadVar(v) => v.0 < self.variables@.len() && instr.yielded is Some,
            Operation::StoreVar(v, val) => v.0 < self.variables@.len() && val.0
                < self.values@.len(),
            Operation::Phi(vals) => (forall|i: int|
                0 <= i < vals@.len() ==> (#[trigger] vals@[i]).0 < self.values@.len())
                && instr.yielded is Some,
        }
    }

    /// A terminator's block targets and value reads stay in range.
    pub open spec fn term_wf(&self, t: Terminator) -> bool {
        match t {
            Terminator::Return(x) => x.0 < self.values@.len(),
            Terminator::Jump(b) => b.0 < self.blocks@.len(),
            Terminator::Branch(x, a, b) => x.0 < self.values@.len() && a.0 < self.blocks@.len()
                && b.0 < self.blocks@.len(),
            Terminator::NoTerm => true,
        }
    }

    /// Every id stored anywhere in the function resolves inside its arenas.
    pub open spec fn wf(&self) -> bool {
        &&& self.blocks_positional()
        &&& forall|b: int, i: int|
            0 <= b < self.blocks@.len() && 0 <= i < self.blocks@[b].instructions@.len()
                ==> self.instr_wf(#[trigger] self.blocks@[b].instructions@[i])
        &&& forall|b: int|
            0 <= b < self.blocks@.len() ==> self.term_wf(
                (#[trigger] self.blocks@[b]).terminator,
            )
        &&& forall|b: int, p: int|
            0 <= b < self.blocks@.len() && 0 <= p < self.blocks@[b].preds@.len() ==> (
            #[trigger] self.blocks@[b].preds@[p]).0 < self.blocks@.len()
        &&& forall|v: int, c: int|
            0 <= v < self.values@.len() && 0 <= c < self.values@[v].children@.len() ==> (
            #[trigger] self.values@[v].children@[c]).0 < self.values@.len()
    }

    /// The stored predecessor lists agree exactly, with multiplicity, with
    /// the edges named by the terminators.
    pub open spec fn preds_consistent(&self) -> bool {
        forall|v: int, u: BlockId|
            0 <= v < self.blocks@.len() ==> #[trigger] seq_count_id(
                self.blocks@[v].preds@,
                u,
            ) == (if u.0 < self.blocks@.len() {
                count_target(self.blocks@[u.0 as int].terminator, BlockId(v as usize))
            } else {
                0
            })
    }

    /// The stored successor lists mirror the terminators.
    pub open spec fn succs_consistent(&self) -> bool {
        forall|b: int|
            0 <= b < self.blocks@.len() ==> (#[trigger] self.blocks@[b]).succs@ == term_targets(
                self.blocks@[b].terminator,
            )
    }

    /// No load or store instruction remains (SSA has been constructed).
    pub open spec fn no_load_store(&self) -> bool {
        forall|b: int, i: int|
            0 <= b < self.blocks@.len() && 0 <= i < self.blocks@[b].instructions@.len()
                ==> !is_load_or_store((#[trigger] self.blocks@[b].instructions@[i]).operation)
    }

    /// No phi instruction remains (phis have been lowered to parallel moves).
    pub open spec fn no_phis(&self) -> bool {
        forall|b: int, i: int|
            0 <= b < self.blocks@.len() && 0 <= i < self.blocks@[b].instructions@.len() ==> !is_phi(
                (#[trigger] self.blocks@[b].instructions@[i]).operation,
            )
    }

    /// Every CFG edge `(u, v)` has a unique successor side or a unique
    /// predecessor side.
    pub open spec fn no_critical_edges(&self) -> bool {
        forall|u: int, k: int|
            0 <= u < self.blocks@.len() && 0 <= k < term_targets(
                self.blocks@[u].terminator,
            ).len() ==> {
                let v = #[trigger] term_targets(self.blocks@[u].terminator)[k];
                term_targets(self.blocks@[u].terminator).len() == 1 || (v.0 < self.blocks@.len()
                    && self.blocks@[v.0 as int].preds@.len() == 1)
            }
    }

    /// The instruction at a position.
    pub open spec fn instr_at(&self, b: int, i: int) -> Instruction {
        self.blocks@[b].instructions@[i]
    }

    pub open spec fn pos_valid(&self, b: int, i: int) -> bool {
        0 <= b < self.blocks@.len() && 0 <= i < self.blocks@[b].instructions@.len()
    }

    /// Some instruction defines `u` and reads `v`.
    pub open spec fn has_def_ref(&self, u: ValueId, v: ValueId) -> bool {
        exists|b: int, i: int|
            self.pos_valid(b, i) && (#[trigger] self.instr_at(b, i)).yielded == Some(u) && op_refs(
                self.instr_at(b, i).operation,
                v,
            )
    }

    /// Use-list consistency: `children` of a value holds exactly the values
    /// whose defining instructions read it.
    pub open spec fn use_lists_consistent(&self) -> bool {
        forall|v: ValueId, u: ValueId|
            v.0 < self.values@.len() ==> ((#[trigger] self.values@[v.0 as int].children@.contains(
                u,
            )) <==> self.has_def_ref(u, v))
    }
}

/// `nb` is `ob` with every read of `from` rewritten to `to`; everything else
/// is unchanged.
pub open spec fn block_substituted(ob: BasicBlock, nb: BasicBlock, from: ValueId, to: ValueId) -> bool {
    &&& nb.name == ob.name
    &&& nb.id == ob.id
    &&& nb.preds == ob.preds
    &&& nb.succs == ob.succs
    &&& nb.par_moves == ob.par_moves
    &&& term_substituted(ob.terminator, nb.terminator, from, to)
    &&& nb.instructions@.len() == ob.instructions@.len()
    &&& forall|i: int|
        0 <= i < ob.instructions@.len() ==> (#[trigger] nb.instructions@[i]).yielded
            == ob.instructions@[i].yielded && op_substituted(
            ob.instructions@[i].operation,
            nb.instructions@[i].operation,
            from,
            to,
        )
}

/// `nf` is `of` with every read of `from` rewritten to `to`, the use list of
/// `from` emptied, and its entries appended to the use list of `to`.
pub open spec fn function_substituted(of: Function, nf: Function, from: ValueId, to: ValueId) -> bool {
    &&& nf.name == of.name
    &&& nf.ret_type == of.ret_type
    &&& nf.args == of.args
    &&& nf.linkage == of.linkage
    &&& nf.variables == of.variables
    &&& nf.id == of.id
    &&& nf.blocks@.len() == of.blocks@.len()
    &&& forall|b: int|
        0 <= b < of.blocks@.len() ==> block_substituted(
            of.blocks@[b],
            #[trigger] nf.blocks@[b],
            from,
            to,
        )
    &&& nf.values@.len() == of.values@.len()
    &&& forall|v: int|
        0 <= v < of.values@.len() && v != from.0 && v != to.0 ==> #[trigger] nf.values@[v]
            == of.values@[v]
    &&& nf.values@[from.0 as int].ty == of.values@[from.0 as int].ty
    &&& nf.values@[from.0 as int].owner == of.values@[from.0 as int].owner
    &&& nf.values@[from.0 as int].children@.len() == 0
    &&& nf.values@[to.0 as int].ty == of.values@[to.0 as int].ty
    &&& nf.values@[to.0 as int].owner == of.values@[to.0 as int].owner
    &&& nf.values@[to.0 as int].children@ == of.values@[to.0 as int].children@
        + of.values@[from.0 as int].children@
}

/// Copies `v` with every entry equal to `from` replaced by `to`.
fn subst_ids(v: &Vec<ValueId>, from: ValueId, to: ValueId) -> (r: Vec<ValueId>)
    ensures
        r@.len() == v@.len(),
        forall|i: int| 0 <= i < v@.len() ==> r@[i] == subst_id(#[trigger] v@[i], from, to),
{
    let mut r: Vec<ValueId> = Vec::new();
    let mut i: usize = 0;
    while i < v.len()
        invariant
            0 <= i <= v@.len(),
            r@.len() == i,
            forall|j: int| 0 <= j < i ==> r@[j] == subst_id(#[trigger] v@[j], from, to),
        decreases v@.len() - i,
    {
        if v[i] == from {
            r.push(to);
        } else {
            r.push(v[i]);
        }
        i += 1;
    }
    r
}

impl Function {
    /// Creates an empty function with the given signature.
    pub fn new(
        name: &str,
        ret_type: Type,
        args: Vec<(String, Type)>,
        linkage: Linkage,
        variables: Vec<Variable>,
        id: usize,
    ) -> (f: Function)
        ensures
            f.name@ == name@,
            f.ret_type == ret_type,
            f.args == args,
            f.blocks@.len() == 0,
            f.linkage == linkage,
            f.variables == variables,
            f.id == id,
            f.values@.len() == 0,
    {
        Function {
            name: name.to_string(),
            ret_type,
            args,
            blocks: Vec::new(),
            linkage,
            variables,
            id,
            values: Vec::new(),
        }
    }

    /// Appends a block to the function.
    pub fn push_block(&mut self, block: BasicBlock)
        ensures
            final(self).blocks@ == old(self).blocks@.push(block),
            final(self).name == old(self).name,
            final(self).ret_type == old(self).ret_type,
            final(self).args == old(self).args,
            final(self).linkage == old(self).linkage,
            final(self).variables == old(self).variables,
            final(self).id == old(self).id,
            final(self).values == old(self).values,
    {
        self.blocks.push(block);
    }

    /// Mints a fresh value of type `ty`, owned by the entry block, with an
    /// empty use list.
    pub fn push_value(&mut self, ty: Type) -> (v: ValueId)
        ensures
            v.0 == old(self).values@.len(),
            final(self).values@.len() == old(self).values@.len() + 1,
            forall|i: int|
                0 <= i < old(self).values@.len() ==> final(self).values@[i] == old(self).values@[i],
            final(self).values@[v.0 as int].ty == ty,
            final(self).values@[v.0 as int].children@.len() == 0,
            final(self).values@[v.0 as int].owner == BlockId(0),
            final(self).blocks == old(self).blocks,
            final(self).name == old(self).name,
            final(self).ret_type == old(self).ret_type,
            final(self).args == old(self).args,
            final(self).linkage == old(self).linkage,
            final(self).variables == old(self).variables,
            final(self).id == old(self).id,
    {
        let id = self.values.len();
        self.values.push(Value { ty, children: Vec::new(), owner: BlockId(0) });
        ValueId(id)
    }

    /// Overwrites the instruction at `(block, instr)`.
    pub fn replace_instruction(&mut self, block: BlockId, instr: usize, new_instr: Instruction)
        requires
            block.0 < old(self).blocks@.len(),
            instr < old(self).blocks@[block.0 as int].instructions@.len(),
        ensures
            final(self).blocks@.len() == old(self).blocks@.len(),
            forall|b: int|
                0 <= b < old(self).blocks@.len() && b != block.0 ==> final(self).blocks@[b] == old(self).blocks@[b],
            final(self).blocks@[block.0 as int].instructions@ == old(self).blocks@[block.0 as int].instructions@.update(
                instr as int,
                new_instr,
            ),
            final(self).blocks@[block.0 as int].name == old(self).blocks@[block.0 as int].name,
            final(self).blocks@[block.0 as int].terminator == old(self).blocks@[block.0 as int].terminator,
            final(self).blocks@[block.0 as int].preds == old(self).blocks@[block.0 as int].preds,
            final(self).blocks@[block.0 as int].succs == old(self).blocks@[block.0 as int].succs,
            final(self).blocks@[block.0 as int].id == old(self).blocks@[block.0 as int].id,
            final(self).blocks@[block.0 as int].par_moves == old(self).blocks@[block.0 as int].par_moves,
            final(self).values == old(self).values,
            final(self).name == old(self).name,
            final(self).ret_type == old(self).ret_type,
            final(self).args == old(self).args,
            final(self).linkage == old(self).linkage,
            final(self).variables == old(self).variables,
            final(self).id == old(self).id,
    {
        let blk = &mut self.blocks[block.0];
        blk.instructions.set(instr, new_instr);
    }

    /// Rewrites every read of `original` across the function into a read of
    /// `to_replace_to`, and moves the use list of `original` onto
    /// `to_replace_to`. This is the substitution helper that keeps use lists
    /// consistent during SSA construction's alias step.
    pub fn replace_children_with(&mut self, original: ValueId, to_replace_to: ValueId)
        requires
            original.0 < old(self).values@.len(),
            to_replace_to.0 < old(self).values@.len(),
            original != to_replace_to,
        ensures
            function_substituted(*old(self), *final(self), original, to_replace_to),
    {
        let nblocks = self.blocks.len();
        let mut b: usize = 0;
        while b < nblocks
            invariant
                nblocks == old(self).blocks@.len(),
                0 <= b <= nblocks,
                original.0 < old(self).values@.len(),
                to_replace_to.0 < old(self).values@.len(),
                original != to_replace_to,
                self.blocks@.len() == old(self).blocks@.len(),
                forall|k: int|
                    0 <= k < b ==> block_substituted(
                        old(self).blocks@[k],
                        #[trigger] self.blocks@[k],
                        original,
                        to_replace_to,
                    ),
                forall|k: int| b <= k < nblocks ==> #[trigger] self.blocks@[k] == old(self).blocks@[k],
                self.values == old(self).values,
                self.name == old(self).name,
                self.ret_type == old(self).ret_type,
                self.args == old(self).args,
                self.linkage == old(self).linkage,
                self.variables == old(self).variables,
                self.id == old(self).id,
            decreases nblocks - b,
        {
            let ninstr = self.blocks[b].instructions.len();
            let mut i: usize = 0;
            while i < ninstr
                invariant
                    0 <= b < nblocks,
                    nblocks == old(self).blocks@.len(),
                    ninstr == old(self).blocks@[b as int].instructions@.len(),
                    0 <= i <= ninstr,
                    original.0 < old(self).values@.len(),
                    to_replace_to.0 < old(self).values@.len(),
                    original != to_replace_to,
                    self.blocks@.len() == old(self).blocks@.len(),
                    forall|k: int|
                        0 <= k < b ==> block_substituted(
                            old(self).blocks@[k],
                            #[trigger] self.blocks@[k],
                            original,
                            to_replace_to,
                        ),
                    forall|k: int|
                        b < k < nblocks ==> #[trigger] self.blocks@[k] == old(self).blocks@[k],
                    self.blocks@[b as int].name == old(self).blocks@[b as int].name,
                    self.blocks@[b as int].id == old(self).blocks@[b as int].id,
                    self.blocks@[b as int].preds == old(self).blocks@[b as int].preds,
                    self.blocks@[b as int].succs == old(self).blocks@[b as int].succs,
                    self.blocks@[b as int].par_moves == old(self).blocks@[b as int].par_moves,
                    self.blocks@[b as int].terminator == old(self).blocks@[b as int].terminator,
                    self.blocks@[b as int].instructions@.len() == ninstr,
                    forall|j: int|
                        0 <= j < i ==> (#[trigger] self.blocks@[b as int].instructions@[j]).yielded
                            == old(self).blocks@[b as int].instructions@[j].yielded
                            && op_substituted(
                            old(self).blocks@[b as int].instructions@[j].operation,
                            self.blocks@[b as int].instructions@[j].operation,
                            original,
                            to_replace_to,
                        ),
                    forall|j: int|
                        i <= j < ninstr ==> #[trigger] self.blocks@[b as int].instructions@[j]
                            == old(self).blocks@[b as int].instructions@[j],
                    self.values == old(self).values,
                    self.name == old(self).name,
                    self.ret_type == old(self).ret_type,
                    self.args == old(self).args,
                    self.linkage == old(self).linkage,
                    self.variables == old(self).variables,
                    self.id == old(self).id,
                decreases ninstr - i,
            {
                let yielded = self.blocks[b].instructions[i].yielded;
                let new_op = match &self.blocks[b].instructions[i].operation {
                    Operation::Integer(k) => Operation::Integer(*k),
                    Operation::BinOp(o, l, r) => {
                        let nl = if *l == original {
                            to_replace_to
                        } else {
                            *l
                        };
                        let nr = if *r == original {
                            to_replace_to
                        } else {
                            *r
                        };
                        Operation::BinOp(*o, nl, nr)
                    },
                    Operation::Call(f, args) => Operation::Call(
                        *f,
                        subst_ids(args, original, to_replace_to),
                    ),
                    Operation::LoadVar(v) => Operation::LoadVar(*v),
                    Operation::StoreVar(v, val) => {
                        let nv = if *val == original {
                            to_replace_to
                        } else {
                            *val
                        };
                        Operation::StoreVar(*v, nv)
                    },
                    Operation::Phi(vals) => Operation::Phi(subst_ids(vals, original, to_replace_to)),
                };
                let blk = &mut self.blocks[b];
                blk.instructions.set(i, Instruction { yielded, operation: new_op });
                i += 1;
            }
            let old_term = self.blocks[b].terminator;
            let new_term = match old_term {
                Terminator::Return(x) => Terminator::Return(
                    if x == original {
                        to_replace_to
                    } else {
                        x
                    },
                ),
                Terminator::Jump(t) => Terminator::Jump(t),
                Terminator::Branch(x, t1, t2) => Terminator::Branch(
                    if x == original {
                        to_replace_to
                    } else {
                        x
                    },
                    t1,
                    t2,
                ),
                Terminator::NoTerm => Terminator::NoTerm,
            };
            let blk = &mut self.blocks[b];
            blk.terminator = new_term;
            b += 1;
        }
        let mut moved: Vec<ValueId> = Vec::new();
        let orig_ref = &mut self.values[original.0];
        core::mem::swap(&mut moved, &mut orig_ref.children);
        let to_ref = &mut self.values[to_replace_to.0];
        to_ref.children.append(&mut moved);
    }
}

pub proof fn lemma_seq_count_push(s: Seq<BlockId>, x: BlockId, y: BlockId)
    ensures
        seq_count_id(s.push(x), y) == seq_count_id(s, y) + (if x == y {
            1int
        } else {
            0
        }),
{
    assert(s.push(x).drop_last() =~= s);
}

/// What substitution does to the read set of one operation.
pub proof fn lemma_op_refs_substituted(o: Operation, n: Operation, from: ValueId, to: ValueId)
    requires
        op_substituted(o, n, from, to),
        from != to,
    ensures
        forall|w: ValueId| #[trigger]
            op_refs(n, w) == (if w == to {
                op_refs(o, to) || op_refs(o, from)
            } else if w == from {
                false
            } else {
                op_refs(o, w)
            }),
{
    assert forall|w: ValueId| #[trigger]
        op_refs(n, w) == (if w == to {
            op_refs(o, to) || op_refs(o, from)
        } else if w == from {
            false
        } else {
            op_refs(o, w)
        }) by {
        match (o, n) {
            (Operation::Call(_, a1), Operation::Call(_, a2)) => {
                lemma_subst_seq_contains(a1@, a2@, from, to, w);
            },
            (Operation::Phi(a1), Operation::Phi(a2)) => {
                lemma_subst_seq_contains(a1@, a2@, from, to, w);
            },
            _ => {},
        }
    }
}

proof fn lemma_subst_seq_contains(
    a1: Seq<ValueId>,
    a2: Seq<ValueId>,
    from: ValueId,
    to: ValueId,
    w: ValueId,
)
    requires
        from != to,
        a2.len() == a1.len(),
        forall|i: int| 0 <= i < a1.len() ==> a2[i] == subst_id(#[trigger] a1[i], from, to),
    ensures
        a2.contains(w) == (if w == to {
            a1.contains(to) || a1.contains(from)
        } else if w == from {
            false
        } else {
            a1.contains(w)
        }),
{
    if a2.contains(w) {
        let i = choose|i: int| 0 <= i < a2.len() && a2[i] == w;
        assert(a2[i] == subst_id(a1[i], from, to));
        if w == to {
            if a1[i] == from {
                assert(a1.contains(from));
            } else {
                assert(a1.contains(to));
            }
        } else if w != from {
            assert(a1[i] == w);
            assert(a1.contains(w));
        }
    }
    if w == to {
        if a1.contains(to) {
            let i = choose|i: int| 0 <= i < a1.len() && a1[i] == to;
            assert(a2[i] == to);
            assert(a2.contains(w));
        }
        if a1.contains(from) {
            let i = choose|i: int| 0 <= i < a1.len() && a1[i] == from;
            assert(a2[i] == to);
            assert(a2.contains(w));
        }
    } else if w != from && a1.contains(w) {
        let i = choose|i: int| 0 <= i < a1.len() && a1[i] == w;
        assert(a2[i] == w);
        assert(a2.contains(w));
    }
}

/// Substitution keeps the successor structure of a terminator.
pub proof fn lemma_term_substituted_targets(o: Terminator, n: Terminator, from: ValueId, to: ValueId)
    requires
        term_substituted(o, n, from, to),
    ensures
        term_targets(n) == term_targets(o),
        forall|v: BlockId| count_target(n, v) == count_target(o, v),
{
}

/// Appending one instruction to one block extends the def-ref relation by
/// exactly that instruction's contribution.
pub proof fn lemma_append_instr_def_ref(of: Function, nf: Function, cb: int, instr: Instruction)
    requires
        0 <= cb < of.blocks@.len(),
        nf.blocks@.len() == of.blocks@.len(),
        forall|b: int|
            0 <= b < of.blocks@.len() && b != cb ==> (#[trigger] nf.blocks@[b]).instructions
                == of.blocks@[b].instructions,
        nf.blocks@[cb].instructions@ == of.blocks@[cb].instructions@.push(instr),
    ensures
        forall|u: ValueId, w: ValueId| #[trigger]
            nf.has_def_ref(u, w) == (of.has_def_ref(u, w) || (instr.yielded == Some(u) && op_refs(
                instr.operation,
                w,
            ))),
{
    assert forall|u: ValueId, w: ValueId| #[trigger]
        nf.has_def_ref(u, w) == (of.has_def_ref(u, w) || (instr.yielded == Some(u) && op_refs(
            instr.operation,
            w,
        ))) by {
        if nf.has_def_ref(u, w) {
            let (b, i) = choose|b: int, i: int|
                nf.pos_valid(b, i) && (#[trigger] nf.instr_at(b, i)).yielded == Some(u) && op_refs(
                    nf.instr_at(b, i).operation,
                    w,
                );
            if b == cb && i == of.blocks@[cb].instructions@.len() {
                assert(nf.instr_at(b, i) == instr);
            } else {
                assert(of.instr_at(b, i) == nf.instr_at(b, i));
                assert(of.pos_valid(b, i) && of.instr_at(b, i).yielded == Some(u) && op_refs(
                    of.instr_at(b, i).operation,
                    w,
                ));
            }
        }
        if of.has_def_ref(u, w) {
            let (b, i) = choose|b: int, i: int|
                of.pos_valid(b, i) && (#[trigger] of.instr_at(b, i)).yielded == Some(u) && op_refs(
                    of.instr_at(b, i).operation,
                    w,
                );
            assert(nf.pos_valid(b, i) && nf.instr_at(b, i) == of.instr_at(b, i));
            assert(nf.has_def_ref(u, w));
        }
        if instr.yielded == Some(u) && op_refs(instr.operation, w) {
            let i = of.blocks@[cb].instructions@.len() as int;
            assert(nf.pos_valid(cb, i) && nf.instr_at(cb, i) == instr);
            assert(nf.has_def_ref(u, w));
        }
    }
}

/// Two functions with identical instruction streams have the same def-ref
/// relation.
pub proof fn lemma_same_instrs_def_ref(of: Function, nf: Function)
    requires
        nf.blocks@.len() == of.blocks@.len(),
        forall|b: int|
            0 <= b < of.blocks@.len() ==> (#[trigger] nf.blocks@[b]).instructions
                == of.blocks@[b].instructions,
    ensures
        forall|u: ValueId, w: ValueId| #[trigger] nf.has_def_ref(u, w) == of.has_def_ref(u, w),
{
    assert forall|u: ValueId, w: ValueId| #[trigger]
        nf.has_def_ref(u, w) == of.has_def_ref(u, w) by {
        if nf.has_def_ref(u, w) {
            let (b, i) = choose|b: int, i: int|
                nf.pos_valid(b, i) && (#[trigger] nf.instr_at(b, i)).yielded == Some(u) && op_refs(
                    nf.instr_at(b, i).operation,
                    w,
                );
            assert(of.pos_valid(b, i) && of.instr_at(b, i) == nf.instr_at(b, i));
            assert(of.has_def_ref(u, w));
        }
        if of.has_def_ref(u, w) {
            let (b, i) = choose|b: int, i: int|
                of.pos_valid(b, i) && (#[trigger] of.instr_at(b, i)).yielded == Some(u) && op_refs(
                    of.instr_at(b, i).operation,
                    w,
                );
            assert(nf.pos_valid(b, i) && nf.instr_at(b, i) == of.instr_at(b, i));
            assert(nf.has_def_ref(u, w));
        }
    }
}

/// Substitution preserves well-formedness, the CFG consistency predicates,
/// and use-list consistency: the rewritten reads of `from` are accounted for
/// by moving its use list onto `to`.
pub proof fn lemma_substitution_preserves_invariants(
    of: Function,
    nf: Function,
    from: ValueId,
    to: ValueId,
)
    requires
        function_substituted(of, nf, from, to),
        of.wf(),
        from.0 < of.values@.len(),
        to.0 < of.values@.len(),
        from != to,
    ensures
        nf.wf(),
        of.preds_consistent() ==> nf.preds_consistent(),
        of.succs_consistent() ==> nf.succs_consistent(),
        of.use_lists_consistent() ==> nf.use_lists_consistent(),
        forall|b: int, i: int|
            of.pos_valid(b, i) ==> is_load_or_store((#[trigger] nf.instr_at(b, i)).operation)
                == is_load_or_store(of.instr_at(b, i).operation),
        forall|b: int, i: int|
            of.pos_valid(b, i) ==> is_phi((#[trigger] nf.instr_at(b, i)).operation) == is_phi(
                of.instr_at(b, i).operation,
            ),
{
    assert forall|b: int, i: int|
        0 <= b < nf.blocks@.len() && 0 <= i < nf.blocks@[b].instructions@.len() implies {
        &&& nf.instr_wf(#[trigger] nf.blocks@[b].instructions@[i])
        &&& is_load_or_store(nf.blocks@[b].instructions@[i].operation) == is_load_or_store(
            of.blocks@[b].instructions@[i].operation,
        )
        &&& is_phi(nf.blocks@[b].instructions@[i].operation) == is_phi(
            of.blocks@[b].instructions@[i].operation,
        )
    } by {
        assert(block_substituted(of.blocks@[b], nf.blocks@[b], from, to));
        assert(of.instr_wf(of.blocks@[b].instructions@[i]));
        assert(op_substituted(of.instr_at(b, i).operation, nf.instr_at(b, i).operation, from, to));
        match (of.instr_at(b, i).operation, nf.instr_at(b, i).operation) {
            (Operation::Call(_, a1), Operation::Call(_, a2)) => {
                assert forall|k: int| 0 <= k < a2@.len() implies (#[trigger] a2@[k]).0
                    < nf.values@.len() by {
                    assert(a2@[k] == subst_id(a1@[k], from, to));
                }
            },
            (Operation::Phi(a1), Operation::Phi(a2)) => {
                assert forall|k: int| 0 <= k < a2@.len() implies (#[trigger] a2@[k]).0
                    < nf.values@.len() by {
                    assert(a2@[k] == subst_id(a1@[k], from, to));
                }
            },
            _ => {},
        }
    }
    assert forall|b: int| 0 <= b < nf.blocks@.len() implies nf.term_wf(
        (#[trigger] nf.blocks@[b]).terminator,
    ) by {
        assert(of.term_wf(of.blocks@[b].terminator));
        assert(term_substituted(of.blocks@[b].terminator, nf.blocks@[b].terminator, from, to));
    }
    assert forall|v: int, c: int|
        0 <= v < nf.values@.len() && 0 <= c < nf.values@[v].children@.len() implies (
    #[trigger] nf.values@[v].children@[c]).0 < nf.values@.len() by {
        if v == to.0 {
            let oc = of.values@[to.0 as int].children@;
            let fc = of.values@[from.0 as int].children@;
            if c < oc.len() {
                assert(nf.values@[v].children@[c] == oc[c]);
            } else {
                assert(nf.values@[v].children@[c] == fc[c - oc.len()]);
            }
        } else {
            assert(v != from.0 ==> nf.values@[v] == of.values@[v]);
        }
    }
    assert forall|b: int| 0 <= b < nf.blocks@.len() implies (#[trigger] nf.blocks@[b]).id == b by {
        assert(block_substituted(of.blocks@[b], nf.blocks@[b], from, to));
    }
    assert forall|b: int, p: int|
        0 <= b < nf.blocks@.len() && 0 <= p < nf.blocks@[b].preds@.len() implies (
    #[trigger] nf.blocks@[b].preds@[p]).0 < nf.blocks@.len() by {
        assert(block_substituted(of.blocks@[b], nf.blocks@[b], from, to));
        assert(nf.blocks@[b].preds == of.blocks@[b].preds);
    }
    assert(nf.wf());
    if of.preds_consistent() {
        assert forall|v: int, u: BlockId| 0 <= v < nf.blocks@.len() implies #[trigger] seq_count_id(
            nf.blocks@[v].preds@,
            u,
        ) == (if u.0 < nf.blocks@.len() {
            count_target(nf.blocks@[u.0 as int].terminator, BlockId(v as usize))
        } else {
            0
        }) by {
            assert(nf.blocks@[v].preds == of.blocks@[v].preds);
            if u.0 < nf.blocks@.len() {
                lemma_term_substituted_targets(
                    of.blocks@[u.0 as int].terminator,
                    nf.blocks@[u.0 as int].terminator,
                    from,
                    to,
                );
            }
        }
    }
    if of.succs_consistent() {
        assert forall|b: int| 0 <= b < nf.blocks@.len() implies (#[trigger] nf.blocks@[b]).succs@
            == term_targets(nf.blocks@[b].terminator) by {
            lemma_term_substituted_targets(
                of.blocks@[b].terminator,
                nf.blocks@[b].terminator,
                from,
                to,
            );
        }
    }
    if of.use_lists_consistent() {
        assert forall|v: ValueId, u: ValueId| v.0 < nf.values@.len() implies ((
        #[trigger] nf.values@[v.0 as int].children@.contains(u)) <==> nf.has_def_ref(u, v)) by {
            lemma_substituted_def_ref(of, nf, from, to, u, v);
            assert(of.values@[v.0 as int].children@.contains(u) <==> of.has_def_ref(u, v));
            if v == to {
                let oc = of.values@[to.0 as int].children@;
                let fc = of.values@[from.0 as int].children@;
                assert(oc.contains(u) <==> of.has_def_ref(u, to));
                assert(fc.contains(u) <==> of.has_def_ref(u, from));
                assert(nf.values@[v.0 as int].children@ == oc + fc);
                assert((oc + fc).contains(u) == (oc.contains(u) || fc.contains(u))) by {
                    if oc.contains(u) {
                        let i = choose|i: int| 0 <= i < oc.len() && oc[i] == u;
                        assert((oc + fc)[i] == u);
                    }
                    if fc.contains(u) {
                        let i = choose|i: int| 0 <= i < fc.len() && fc[i] == u;
                        assert((oc + fc)[oc.len() + i] == u);
                    }
                    if (oc + fc).contains(u) {
                        let i = choose|i: int| 0 <= i < (oc + fc).len() && (oc + fc)[i] == u;
                        if i < oc.len() {
                            assert(oc[i] == u);
                        } else {
                            assert(fc[i - oc.len()] == u);
                        }
                    }
                }
            } else if v == from {
                assert(nf.values@[v.0 as int].children@.len() == 0);
            } else {
                assert(v.0 != from.0 && v.0 != to.0);
                assert(nf.values@[v.0 as int] == of.values@[v.0 as int]);
            }
        }
    }
}

/// How substitution transforms the def-ref relation.
proof fn lemma_substituted_def_ref(
    of: Function,
    nf: Function,
    from: ValueId,
    to: ValueId,
    u: ValueId,
    w: ValueId,
)
    requires
        function_substituted(of, nf, from, to),
        from != to,
    ensures
        nf.has_def_ref(u, w) == (if w == to {
            of.has_def_ref(u, to) || of.has_def_ref(u, from)
        } else if w == from {
            false
        } else {
            of.has_def_ref(u, w)
        }),
{
    if nf.has_def_ref(u, w) {
        let (b, i) = choose|b: int, i: int|
            nf.pos_valid(b, i) && (#[trigger] nf.instr_at(b, i)).yielded == Some(u) && op_refs(
                nf.instr_at(b, i).operation,
                w,
            );
        assert(block_substituted(of.blocks@[b], nf.blocks@[b], from, to));
        assert(of.pos_valid(b, i));
        assert(op_substituted(of.instr_at(b, i).operation, nf.instr_at(b, i).operation, from, to));
        lemma_op_refs_substituted(
            of.instr_at(b, i).operation,
            nf.instr_at(b, i).operation,
            from,
            to,
        );
        assert(of.instr_at(b, i).yielded == Some(u));
        if w == to {
            assert(op_refs(of.instr_at(b, i).operation, to) || op_refs(
                of.instr_at(b, i).operation,
                from,
            ));
            assert(of.has_def_ref(u, to) || of.has_def_ref(u, from));
        } else {
            assert(w != from);
            assert(op_refs(of.instr_at(b, i).operation, w));
            assert(of.has_def_ref(u, w));
        }
    }
    if w == to {
        if of.has_def_ref(u, to) || of.has_def_ref(u, from) {
            if of.has_def_ref(u, to) {
                let (b, i) = choose|b: int, i: int|
                    of.pos_valid(b, i) && (#[trigger] of.instr_at(b, i)).yielded == Some(u)
                        && op_refs(of.instr_at(b, i).operation, to);
                assert(block_substituted(of.blocks@[b], nf.blocks@[b], from, to));
                lemma_op_refs_substituted(
                    of.instr_at(b, i).operation,
                    nf.instr_at(b, i).operation,
                    from,
                    to,
                );
                assert(nf.pos_valid(b, i) && nf.instr_at(b, i).yielded == Some(u) && op_refs(
                    nf.instr_at(b, i).operation,
                    to,
                ));
                assert(nf.has_def_ref(u, w));
            } else {
                let (b, i) = choose|b: int, i: int|
                    of.pos_valid(b, i) && (#[trigger] of.instr_at(b, i)).yielded == Some(u)
                        && op_refs(of.instr_at(b, i).operation, from);
                assert(block_substituted(of.blocks@[b], nf.blocks@[b], from, to));
                lemma_op_refs_substituted(
                    of.instr_at(b, i).operation,
                    nf.instr_at(b, i).operation,
                    from,
                    to,
                );
                assert(nf.pos_valid(b, i) && nf.instr_at(b, i).yielded == Some(u) && op_refs(
                    nf.instr_at(b, i).operation,
                    to,
                ));
                assert(nf.has_def_ref(u, w));
            }
        }
    } else if w != from && of.has_def_ref(u, w) {
        let (b, i) = choose|b: int, i: int|
            of.pos_valid(b, i) && (#[trigger] of.instr_at(b, i)).yielded == Some(u) && op_refs(
                of.instr_at(b, i).operation,
                w,
            );
        assert(block_substituted(of.blocks@[b], nf.blocks@[b], from, to));
        lemma_op_refs_substituted(
            of.instr_at(b, i).operation,
            nf.instr_at(b, i).operation,
            from,
            to,
        );
        assert(nf.pos_valid(b, i) && nf.instr_at(b, i).yielded == Some(u) && op_refs(
            nf.instr_at(b, i).operation,
            w,
        ));
        assert(nf.has_def_ref(u, w));
    }
}

pub proof fn lemma_seq_count_zero(s: Seq<BlockId>, x: BlockId)
    requires
        forall|i: int| 0 <= i < s.len() ==> s[i] != x,
    ensures
        seq_count_id(s, x) == 0,
    decreases s.len(),
{
    if s.len() > 0 {
        lemma_seq_count_zero(s.drop_last(), x);
    }
}

pub proof fn lemma_push_contains(s: Seq<ValueId>, x: ValueId, u: ValueId)
    ensures
        s.push(x).contains(u) == (s.contains(u) || u == x),
{
    if s.contains(u) {
        let i = choose|i: int| 0 <= i < s.len() && s[i] == u;
        assert(s.push(x)[i] == u);
    }
    if u == x {
        assert(s.push(x)[s.len() as int] == u);
    }
    if s.push(x).contains(u) {
        let i = choose|i: int| 0 <= i < s.push(x).len() && s.push(x)[i] == u;
        if i < s.len() {
            assert(s[i] == u);
        }
    }
}

/// In a well-formed function no instruction reads a value outside the arena.
pub proof fn lemma_def_ref_in_range(f: Function, u: ValueId, w: ValueId)
    requires
        f.wf(),
        w.0 >= f.values@.len(),
    ensures
        !f.has_def_ref(u, w),
{
    if f.has_def_ref(u, w) {
        let (b, i) = choose|b: int, i: int|
            f.pos_valid(b, i) && (#[trigger] f.instr_at(b, i)).yielded == Some(u) && op_refs(
                f.instr_at(b, i).operation,
                w,
            );
        assert(f.instr_wf(f.blocks@[b].instructions@[i]));
        match f.instr_at(b, i).operation {
            Operation::Call(_, args) => {
                let k = choose|k: int| 0 <= k < args@.len() && args@[k] == w;
                assert(args@[k].0 < f.values@.len());
            },
            Operation::Phi(vals) => {
                let k = choose|k: int| 0 <= k < vals@.len() && vals@[k] == w;
                assert(vals@[k].0 < f.values@.len());
            },
            _ => {},
        }
    }
}

/// In a well-formed function no instruction yields a value outside the arena.
pub proof fn lemma_def_of_in_range(f: Function, u: ValueId, w: ValueId)
    requires
        f.wf(),
        u.0 >= f.values@.len(),
    ensures
        !f.has_def_ref(u, w),
{
    if f.has_def_ref(u, w) {
        let (b, i) = choose|b: int, i: int|
            f.pos_valid(b, i) && (#[trigger] f.instr_at(b, i)).yielded == Some(u) && op_refs(
                f.instr_at(b, i).operation,
                w,
            );
        assert(f.instr_wf(f.blocks@[b].instructions@[i]));
    }
}

/// Appending blocks that hold no instructions leaves the def-ref relation
/// unchanged.
pub proof fn lemma_extended_blocks_def_ref(of: Function, nf: Function)
    requires
        nf.blocks@.len() >= of.blocks@.len(),
        forall|b: int|
            0 <= b < of.blocks@.len() ==> (#[trigger] nf.blocks@[b]).instructions
                == of.blocks@[b].instructions,
        forall|b: int|
            of.blocks@.len() <= b < nf.blocks@.len() ==> (
            #[trigger] nf.blocks@[b]).instructions@.len() == 0,
    ensures
        forall|u: ValueId, w: ValueId| #[trigger] nf.has_def_ref(u, w) == of.has_def_ref(u, w),
{
    assert forall|u: ValueId, w: ValueId| #[trigger]
        nf.has_def_ref(u, w) == of.has_def_ref(u, w) by {
        if nf.has_def_ref(u, w) {
            let (b, i) = choose|b: int, i: int|
                nf.pos_valid(b, i) && (#[trigger] nf.instr_at(b, i)).yielded == Some(u) && op_refs(
                    nf.instr_at(b, i).operation,
                    w,
                );
            assert(b < of.blocks@.len());
            assert(of.pos_valid(b, i) && of.instr_at(b, i) == nf.instr_at(b, i));
            assert(of.has_def_ref(u, w));
        }
        if of.has_def_ref(u, w) {
            let (b, i) = choose|b: int, i: int|
                of.pos_valid(b, i) && (#[trigger] of.instr_at(b, i)).yielded == Some(u) && op_refs(
                    of.instr_at(b, i).operation,
                    w,
                );
            assert(nf.pos_valid(b, i) && nf.instr_at(b, i) == of.instr_at(b, i));
            assert(nf.has_def_ref(u, w));
        }
    }
}

/// How many instructions of `s` yield value `u`.
pub open spec fn block_def_count(s: Seq<Instruction>, u: ValueId) -> nat
    decreases s.len(),
{
    if s.len() == 0 {
        0
    } else {
        block_def_count(s.drop_last(), u) + (if s.last().yielded == Some(u) {
            1nat
        } else {
            0
        })
    }
}

/// How many instructions of the first `b` blocks of `f` yield value `u`.
pub open spec fn def_count_upto(f: Function, u: ValueId, b: int) -> nat
    decreases b,
{
    if b <= 0 {
        0
    } else {
        def_count_upto(f, u, b - 1) + block_def_count(f.blocks@[b - 1].instructions@, u)
    }
}

/// How many instructions of the whole function define value `u`.
pub open spec fn def_count(f: Function, u: ValueId) -> nat {
    def_count_upto(f, u, f.blocks@.len() as int)
}

/// Every value is defined by at most one instruction.
pub open spec fn single_defs(f: Function) -> bool {
    forall|u: ValueId| #[trigger] def_count(f, u) <= 1
}

/// Two equally long instruction sequences that yield the same values
/// positionwise define each value equally often.
pub proof fn lemma_block_def_count_pointwise(s1: Seq<Instruction>, s2: Seq<Instruction>, u: ValueId)
    requires
        s1.len() == s2.len(),
        forall|i: int| 0 <= i < s1.len() ==> (#[trigger] s1[i]).yielded == s2[i].yielded,
    ensures
        block_def_count(s1, u) == block_def_count(s2, u),
    decreases s1.len(),
{
    if s1.len() > 0 {
        assert forall|i: int|
            0 <= i < s1.drop_last().len() implies (#[trigger] s1.drop_last()[i]).yielded
            == s2.drop_last()[i].yielded by {
            assert(s1.drop_last()[i] == s1[i] && s2.drop_last()[i] == s2[i]);
        }
        lemma_block_def_count_pointwise(s1.drop_last(), s2.drop_last(), u);
        assert(s1[s1.len() - 1].yielded == s2[s2.len() - 1].yielded);
    }
}

/// Two functions whose instructions yield the same values positionwise define
/// each value equally often.
pub proof fn lemma_def_count_pointwise(f1: Function, f2: Function, u: ValueId, b: int)
    requires
        f1.blocks@.len() == f2.blocks@.len(),
        b <= f1.blocks@.len(),
        forall|b2: int|
            0 <= b2 < f1.blocks@.len() ==> (#[trigger] f1.blocks@[b2]).instructions@.len()
                == f2.blocks@[b2].instructions@.len(),
        forall|b2: int, i: int|
            0 <= b2 < f1.blocks@.len() && 0 <= i < f1.blocks@[b2].instructions@.len() ==> (
            #[trigger] f1.blocks@[b2].instructions@[i]).yielded
                == f2.blocks@[b2].instructions@[i].yielded,
    ensures
        def_count_upto(f1, u, b) == def_count_upto(f2, u, b),
    decreases b,
{
    if b > 0 {
        lemma_def_count_pointwise(f1, f2, u, b - 1);
        lemma_block_def_count_pointwise(
            f1.blocks@[b - 1].instructions@,
            f2.blocks@[b - 1].instructions@,
            u,
        );
    }
}

/// Every value inside the arena is defined by exactly one instruction, and
/// nothing defines a value outside it.
pub open spec fn defs_exact(f: Function) -> bool {
    forall|u: ValueId| #[trigger] def_count(f, u) == (if u.0 < f.values@.len() {
        1nat
    } else {
        0
    })
}

/// Exactly-once definitions are in particular at-most-once definitions.
pub proof fn lemma_defs_exact_single(f: Function)
    requires
        defs_exact(f),
    ensures
        single_defs(f),
{
    assert forall|u: ValueId| #[trigger] def_count(f, u) <= 1 by {
        assert(def_count(f, u) == (if u.0 < f.values@.len() {
            1nat
        } else {
            0
        }));
    }
}

/// A sequence whose yields all lie below `n` defines nothing at or above `n`.
proof fn lemma_block_def_count_bounded(s: Seq<Instruction>, u: ValueId, n: int)
    requires
        forall|i: int|
            0 <= i < s.len() ==> (match (#[trigger] s[i]).yielded {
                Some(w) => w.0 < n,
                None => true,
            }),
        u.0 >= n,
    ensures
        block_def_count(s, u) == 0,
    decreases s.len(),
{
    if s.len() > 0 {
        assert forall|i: int|
            0 <= i < s.drop_last().len() implies (match (#[trigger] s.drop_last()[i]).yielded {
            Some(w) => w.0 < n,
            None => true,
        }) by {
            assert(s.drop_last()[i] == s[i]);
        }
        lemma_block_def_count_bounded(s.drop_last(), u, n);
        assert(s[s.len() - 1] == s.last());
    }
}

/// A well-formed function defines nothing outside its value arena.
pub proof fn lemma_def_count_fresh(f: Function, u: ValueId, b: int)
    requires
        f.wf(),
        u.0 >= f.values@.len(),
        b <= f.blocks@.len(),
    ensures
        def_count_upto(f, u, b) == 0,
    decreases b,
{
    if b > 0 {
        lemma_def_count_fresh(f, u, b - 1);
        assert forall|i: int|
            0 <= i < f.blocks@[b - 1].instructions@.len() implies (match (
        #[trigger] f.blocks@[b - 1].instructions@[i]).yielded {
            Some(w) => w.0 < f.values@.len(),
            None => true,
        }) by {
            assert(f.instr_wf(f.blocks@[b - 1].instructions@[i]));
        }
        lemma_block_def_count_bounded(
            f.blocks@[b - 1].instructions@,
            u,
            f.values@.len() as int,
        );
    }
}

/// Appending one instruction to one block raises the yielded value's count by
/// one and changes no other.
pub proof fn lemma_def_count_append_instr(
    of: Function,
    nf: Function,
    cb: int,
    instr: Instruction,
    u: ValueId,
    b: int,
)
    requires
        0 <= cb < of.blocks@.len(),
        nf.blocks@.len() == of.blocks@.len(),
        b <= of.blocks@.len(),
        forall|b2: int|
            0 <= b2 < of.blocks@.len() && b2 != cb ==> (#[trigger] nf.blocks@[b2]).instructions
                == of.blocks@[b2].instructions,
        nf.blocks@[cb].instructions@ == of.blocks@[cb].instructions@.push(instr),
    ensures
        def_count_upto(nf, u, b) == def_count_upto(of, u, b) + (if b > cb && instr.yielded
            == Some(u) {
            1nat
        } else {
            0
        }),
    decreases b,
{
    if b > 0 {
        lemma_def_count_append_instr(of, nf, cb, instr, u, b - 1);
        if b - 1 == cb {
            assert(nf.blocks@[cb].instructions@.drop_last() =~= of.blocks@[cb].instructions@);
        }
    }
}

/// Appending a block with no instructions changes no definition count.
pub proof fn lemma_def_count_append_block(of: Function, nf: Function, u: ValueId, b: int)
    requires
        nf.blocks@.len() == of.blocks@.len() + 1,
        b <= nf.blocks@.len(),
        forall|b2: int|
            0 <= b2 < of.blocks@.len() ==> (#[trigger] nf.blocks@[b2]).instructions
                == of.blocks@[b2].instructions,
        nf.blocks@[of.blocks@.len() as int].instructions@.len() == 0,
    ensures
        def_count_upto(nf, u, b) == def_count_upto(of, u, if b <= of.blocks@.len() {
            b
        } else {
            of.blocks@.len() as int
        }),
    decreases b,
{
    if b > 0 {
        lemma_def_count_append_block(of, nf, u, b - 1);
    }
}

/// Total number of instructions in the first `b` blocks of a function.
pub open spec fn instrs_upto(f: Function, b: int) -> nat
    decreases b,
{
    if b <= 0 {
        0
    } else {
        instrs_upto(f, b - 1) + f.blocks@[b - 1].instructions@.len()
    }
}

/// Total number of instructions in the first `fi` functions of a module.
pub open spec fn module_instrs_upto(m: Module, fi: int) -> nat
    decreases fi,
{
    if fi <= 0 {
        0
    } else {
        module_instrs_upto(m, fi - 1) + instrs_upto(
            m.functions@[fi - 1],
            m.functions@[fi - 1].blocks@.len() as int,
        )
    }
}

/// Total number of instructions in a module.
pub open spec fn module_instrs(m: Module) -> nat {
    module_instrs_upto(m, m.functions@.len() as int)
}

/// Per-block length accounting lifts to the function total.
pub proof fn lemma_instrs_upto_delta(f1: Function, f2: Function, b: int, delta: Seq<nat>)
    requires
        f1.blocks@.len() == f2.blocks@.len(),
        delta.len() == f1.blocks@.len(),
        0 <= b <= f1.blocks@.len(),
        forall|b2: int|
            0 <= b2 < f1.blocks@.len() ==> (#[trigger] f2.blocks@[b2]).instructions@.len()
                + delta[b2] == f1.blocks@[b2].instructions@.len(),
    ensures
        instrs_upto(f2, b) + seq_nat_sum(delta.take(b)) == instrs_upto(f1, b),
    decreases b,
{
    if b > 0 {
        lemma_instrs_upto_delta(f1, f2, b - 1, delta);
        assert(delta.take(b).drop_last() =~= delta.take(b - 1));
    }
}

/// Sum of a sequence of counts.
pub open spec fn seq_nat_sum(s: Seq<nat>) -> nat
    decreases s.len(),
{
    if s.len() == 0 {
        0
    } else {
        seq_nat_sum(s.drop_last()) + s.last()
    }
}

/// A positive entry makes the sum positive.
pub proof fn lemma_seq_nat_sum_pos(s: Seq<nat>, i: int)
    requires
        0 <= i < s.len(),
        s[i] > 0,
    ensures
        seq_nat_sum(s) > 0,
    decreases s.len(),
{
    if i < s.len() - 1 {
        lemma_seq_nat_sum_pos(s.drop_last(), i);
    }
}

/// Per-function total accounting lifts to the module total.
pub proof fn lemma_module_instrs_delta(m1: Module, m2: Module, fi: int, delta: Seq<nat>)
    requires
        m1.functions@.len() == m2.functions@.len(),
        delta.len() == m1.functions@.len(),
        0 <= fi <= m1.functions@.len(),
        forall|f: int|
            0 <= f < m1.functions@.len() ==> (#[trigger] m2.functions@[f]).blocks@.len()
                == m1.functions@[f].blocks@.len() && instrs_upto(
                m2.functions@[f],
                m2.functions@[f].blocks@.len() as int,
            ) + delta[f] == instrs_upto(
                m1.functions@[f],
                m1.functions@[f].blocks@.len() as int,
            ),
    ensures
        module_instrs_upto(m2, fi) + seq_nat_sum(delta.take(fi)) == module_instrs_upto(m1, fi),
    decreases fi,
{
    if fi > 0 {
        lemma_module_instrs_delta(m1, m2, fi - 1, delta);
        assert(delta.take(fi).drop_last() =~= delta.take(fi - 1));
    }
}

/// Every phi has exactly one operand per predecessor of its block.
pub open spec fn phi_arity_ok(f: Function) -> bool {
    forall|b: int, i: int|
        f.pos_valid(b, i) ==> (match (#[trigger] f.instr_at(b, i)).operation {
            Operation::Phi(vals) => vals@.len() == f.blocks@[b].preds@.len(),
            _ => true,
        })
}

/// Phi arity depends only on the blocks, so it carries across any change
/// that leaves them untouched.
pub proof fn lemma_arity_same_blocks(f1: Function, f2: Function)
    requires
        f1.blocks == f2.blocks,
        phi_arity_ok(f1),
    ensures
        phi_arity_ok(f2),
{
    assert forall|b: int, i: int| f2.pos_valid(b, i) implies (match (#[trigger] f2.instr_at(
        b,
        i,
    )).operation {
        Operation::Phi(vals) => vals@.len() == f2.blocks@[b].preds@.len(),
        _ => true,
    }) by {
        assert(f1.pos_valid(b, i));
        assert(f1.instr_at(b, i) == f2.instr_at(b, i));
    }
}

/// Substitution never changes a phi's operand count or its block's
/// predecessors, so phi arity survives it.
pub proof fn lemma_substitution_preserves_arity(
    of: Function,
    nf: Function,
    from: ValueId,
    to: ValueId,
)
    requires
        function_substituted(of, nf, from, to),
        phi_arity_ok(of),
    ensures
        phi_arity_ok(nf),
{
    assert forall|b: int, i: int| nf.pos_valid(b, i) implies (match (#[trigger] nf.instr_at(
        b,
        i,
    )).operation {
        Operation::Phi(vals) => vals@.len() == nf.blocks@[b].preds@.len(),
        _ => true,
    }) by {
        assert(block_substituted(of.blocks@[b], nf.blocks@[b], from, to));
        assert(of.pos_valid(b, i));
        assert(op_substituted(of.instr_at(b, i).operation, nf.instr_at(b, i).operation, from, to));
        match (of.instr_at(b, i).operation, nf.instr_at(b, i).operation) {
            (Operation::Phi(v1), Operation::Phi(v2)) => {
                assert(v2@.len() == v1@.len());
                assert(v1@.len() == of.blocks@[b].preds@.len());
                assert(nf.blocks@[b].preds == of.blocks@[b].preds);
            },
            _ => {},
        }
    }
}

/// Block-by-block bounds on definition counts carry over to the whole
/// function.
pub proof fn lemma_def_count_upto_le(f1: Function, f2: Function, u: ValueId, b: int)
    requires
        f1.blocks@.len() == f2.blocks@.len(),
        b <= f1.blocks@.len(),
        forall|b2: int|
            0 <= b2 < f1.blocks@.len() ==> block_def_count(
                (#[trigger] f2.blocks@[b2]).instructions@,
                u,
            ) <= block_def_count(f1.blocks@[b2].instructions@, u),
    ensures
        def_count_upto(f2, u, b) <= def_count_upto(f1, u, b),
    decreases b,
{
    if b > 0 {
        lemma_def_count_upto_le(f1, f2, u, b - 1);
    }
}

/// `nf` has the same control-flow skeleton as `of`: same blocks, edges and
/// edge counts; instructions and use lists may differ.
pub open spec fn same_cfg(of: Function, nf: Function) -> bool {
    &&& nf.blocks@.len() == of.blocks@.len()
    &&& forall|b: int|
        0 <= b < of.blocks@.len() ==> {
            let nb = #[trigger] nf.blocks@[b];
            let ob = of.blocks@[b];
            &&& nb.preds == ob.preds
            &&& nb.succs == ob.succs
            &&& nb.id == ob.id
            &&& nb.name == ob.name
            &&& nb.par_moves == ob.par_moves
            &&& term_targets(nb.terminator) == term_targets(ob.terminator)
            &&& forall|v: BlockId| count_target(nb.terminator, v) == count_target(ob.terminator, v)
        }
}

/// A function with the same control-flow skeleton keeps the CFG consistency
/// predicates.
pub proof fn lemma_same_cfg_consistency(of: Function, nf: Function)
    requires
        same_cfg(of, nf),
    ensures
        of.preds_consistent() ==> nf.preds_consistent(),
        of.succs_consistent() ==> nf.succs_consistent(),
        of.no_critical_edges() ==> nf.no_critical_edges(),
{
    if of.preds_consistent() {
        assert forall|v: int, u: BlockId| 0 <= v < nf.blocks@.len() implies #[trigger] seq_count_id(
            nf.blocks@[v].preds@,
            u,
        ) == (if u.0 < nf.blocks@.len() {
            count_target(nf.blocks@[u.0 as int].terminator, BlockId(v as usize))
        } else {
            0
        }) by {
            assert(nf.blocks@[v].preds == of.blocks@[v].preds);
            if u.0 < nf.blocks@.len() {
                assert(count_target(nf.blocks@[u.0 as int].terminator, BlockId(v as usize))
                    == count_target(of.blocks@[u.0 as int].terminator, BlockId(v as usize)));
            }
        }
    }
    if of.succs_consistent() {
        assert forall|b: int| 0 <= b < nf.blocks@.len() implies (#[trigger] nf.blocks@[b]).succs@
            == term_targets(nf.blocks@[b].terminator) by {
            assert(nf.blocks@[b].succs == of.blocks@[b].succs);
        }
    }
    if of.no_critical_edges() {
        assert forall|u: int, k: int|
            0 <= u < nf.blocks@.len() && 0 <= k < term_targets(
                nf.blocks@[u].terminator,
            ).len() implies {
            let v = #[trigger] term_targets(nf.blocks@[u].terminator)[k];
            term_targets(nf.blocks@[u].terminator).len() == 1 || (v.0 < nf.blocks@.len()
                && nf.blocks@[v.0 as int].preds@.len() == 1)
        } by {
            assert(term_targets(nf.blocks@[u].terminator) == term_targets(
                of.blocks@[u].terminator,
            ));
            let v = term_targets(of.blocks@[u].terminator)[k];
            if term_targets(of.blocks@[u].terminator).len() != 1 {
                assert(v.0 < of.blocks@.len() && of.blocks@[v.0 as int].preds@.len() == 1);
                assert(nf.blocks@[v.0 as int].preds == of.blocks@[v.0 as int].preds);
            }
        }
    }
}

/// Appending one instruction that either yields nothing or reads no values
/// keeps the whole module invariant.
pub proof fn lemma_module_after_plain_append(
    om: Module,
    nm: Module,
    fi: int,
    bi: int,
    instr: Instruction,
)
    requires
        om.inv(),
        0 <= fi < om.functions@.len(),
        nm.functions@.len() == om.functions@.len(),
        forall|k: int| 0 <= k < om.functions@.len() && k != fi ==> #[trigger] nm.functions@[k] == om.functions@[k],
        0 <= bi < om.functions@[fi].blocks@.len(),
        nm.functions@[fi].blocks@.len() == om.functions@[fi].blocks@.len(),
        forall|b: int|
            0 <= b < om.functions@[fi].blocks@.len() && b != bi ==> #[trigger] nm.functions@[fi].blocks@[b] == om.functions@[fi].blocks@[b],
        nm.functions@[fi].blocks@[bi].instructions@ == om.functions@[fi].blocks@[bi].instructions@.push(instr),
        nm.functions@[fi].blocks@[bi].terminator == om.functions@[fi].blocks@[bi].terminator,
        nm.functions@[fi].blocks@[bi].preds == om.functions@[fi].blocks@[bi].preds,
        nm.functions@[fi].blocks@[bi].succs == om.functions@[fi].blocks@[bi].succs,
        nm.functions@[fi].blocks@[bi].id == om.functions@[fi].blocks@[bi].id,
        nm.functions@[fi].values == om.functions@[fi].values,
        nm.functions@[fi].variables == om.functions@[fi].variables,
        nm.functions@[fi].instr_wf(instr),
        instr.yielded is Some ==> forall|w: ValueId| !op_refs(instr.operation, w),
    ensures
        nm.inv(),
{
    let of = om.functions@[fi];
    let nf = nm.functions@[fi];
    assert forall|b: int, i: int|
        0 <= b < nf.blocks@.len() && 0 <= i < nf.blocks@[b].instructions@.len() implies nf.instr_wf(
        #[trigger] nf.blocks@[b].instructions@[i],
    ) by {
        if b == bi && i == of.blocks@[bi].instructions@.len() {
            assert(nf.blocks@[b].instructions@[i] == instr);
        } else {
            assert(nf.blocks@[b].instructions@[i] == of.blocks@[b].instructions@[i]);
            assert(of.instr_wf(of.blocks@[b].instructions@[i]));
        }
    }
    assert(nf.wf());
    lemma_append_instr_def_ref(of, nf, bi, instr);
    assert forall|w: ValueId, u: ValueId| w.0 < nf.values@.len() implies ((
    #[trigger] nf.values@[w.0 as int].children@.contains(u)) <==> nf.has_def_ref(u, w)) by {
        assert(of.values@[w.0 as int].children@.contains(u) <==> of.has_def_ref(u, w));
        if instr.yielded == Some(u) {
            assert(!op_refs(instr.operation, w));
        }
    }
    assert(nf.use_lists_consistent());
    assert forall|v: int, u: BlockId| 0 <= v < nf.blocks@.len() implies #[trigger] seq_count_id(
        nf.blocks@[v].preds@,
        u,
    ) == (if u.0 < nf.blocks@.len() {
        count_target(nf.blocks@[u.0 as int].terminator, BlockId(v as usize))
    } else {
        0
    }) by {
        assert(nf.blocks@[v].preds == of.blocks@[v].preds);
        assert(nf.blocks@[u.0 as int].terminator == of.blocks@[u.0 as int].terminator || u.0
            >= nf.blocks@.len());
    }
    assert(nf.preds_consistent());
    assert forall|b: int| 0 <= b < nf.blocks@.len() implies (#[trigger] nf.blocks@[b]).succs@
        == term_targets(nf.blocks@[b].terminator) by {
        assert(nf.blocks@[b].succs == of.blocks@[b].succs);
        assert(nf.blocks@[b].terminator == of.blocks@[b].terminator);
    }
    assert(nf.succs_consistent());
    assert forall|k: int| 0 <= k < nm.functions@.len() implies (#[trigger] nm.functions@[k]).wf()
        && nm.functions@[k].use_lists_consistent() && nm.functions@[k].preds_consistent()
        && nm.functions@[k].succs_consistent() by {
        if k != fi {
            assert(nm.functions@[k] == om.functions@[k]);
        }
    }
}

impl Module {
    /// Every function in the module is well formed.
    pub open spec fn wf(&self) -> bool {
        forall|f: int| 0 <= f < self.functions@.len() ==> (#[trigger] self.functions@[f]).wf()
    }

    /// Use lists are consistent in every function.
    pub open spec fn use_lists_ok(&self) -> bool {
        forall|f: int|
            0 <= f < self.functions@.len() ==> (
            #[trigger] self.functions@[f]).use_lists_consistent()
    }

    /// Predecessor lists mirror the terminators in every function.
    pub open spec fn preds_ok(&self) -> bool {
        forall|f: int|
            0 <= f < self.functions@.len() ==> (#[trigger] self.functions@[f]).preds_consistent()
    }

    /// Successor lists mirror the terminators in every function.
    pub open spec fn succs_ok(&self) -> bool {
        forall|f: int|
            0 <= f < self.functions@.len() ==> (#[trigger] self.functions@[f]).succs_consistent()
    }

    /// Every function's values are each defined by exactly one instruction.
    pub open spec fn defs_ok(&self) -> bool {
        forall|f: int|
            0 <= f < self.functions@.len() ==> defs_exact(#[trigger] self.functions@[f])
    }

    /// The structural invariant established by the builder and kept by every
    /// pass.
    pub open spec fn inv(&self) -> bool {
        self.wf() && self.use_lists_ok() && self.preds_ok() && self.succs_ok()
    }

    /// Creates a module holding `functions`, not yet analysed, with an empty
    /// pass log.
    pub fn new(name: &str, functions: Vec<Function>) -> (m: Module)
        ensures
            m.functions == functions,
            m.name@ == name@,
            m.analysis_stage == AnalysisStage::Unanalyzed,
            m.algos_run@.len() == 0,
    {
        Module {
            functions,
            name: name.to_string(),
            analysis_stage: AnalysisStage::Unanalyzed,
            algos_run: Vec::new(),
        }
    }
}

/// Whether the pass log contains a given tag.
pub fn log_contains(log: &Vec<Algo>, a: Algo) -> (r: bool)
    ensures
        r == log@.contains(a),
{
    let mut i: usize = 0;
    while i < log.len()
        invariant
            0 <= i <= log@.len(),
            forall|j: int| 0 <= j < i ==> log@[j] != a,
        decreases log@.len() - i,
    {
        if log[i] == a {
            assert(log@.contains(a));
            return true;
        }
        i += 1;
    }
    assert(forall|j: int| 0 <= j < log@.len() ==> log@[j] != a);
    false
}

} // verus!
