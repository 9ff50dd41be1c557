//! Register allocation interfaces: virtual, physical and spilled registers,
//! the allocator capability that instruction sets report their definitions
//! and uses against, and the finished virtual-to-physical assignment.

pub mod linear_scan;

use vstd::prelude::*;

use crate::regalloc::linear_scan::RegAllocReg;

verus! {

/// A register reference: virtual (pre-allocation), real (physical) or a spill
/// slot.
#[derive(Debug, Clone, Copy, PartialEq, Eq, Structural)]
pub enum VReg {
    Virtual(usize),
    Real(usize),
    Spilled(usize),
}

/// First interval recorded for `reg`, or -1.
pub open spec fn find_interval(s: Seq<RegAllocReg>, reg: VReg) -> int
    decreases s.len(),
{
    if s.len() == 0 {
        -1
    } else if s[0].reg == reg {
        0
    } else {
        let r = find_interval(s.drop_first(), reg);
        if r == -1 {
            -1
        } else {
            r + 1
        }
    }
}

/// The interval list after a definition of `reg` at position `pos`: a live
/// range is opened, or the existing one is extended.
pub open spec fn spec_add_def(s: Seq<RegAllocReg>, pos: usize, reg: VReg) -> Seq<RegAllocReg> {
    if !(reg is Virtual) {
        s
    } else {
        let i = find_interval(s, reg);
        if i >= 0 {
            s.update(i, RegAllocReg { live_end: pos, ..s[i] })
        } else {
            s.push(
                RegAllocReg {
                    live_start: pos,
                    live_end: pos,
                    uses: 0,
                    reg,
                    try_to_coalesce_to: None,
                },
            )
        }
    }
}

/// The interval list after a use of `reg` at position `pos`.
pub open spec fn spec_add_use(s: Seq<RegAllocReg>, pos: usize, reg: VReg) -> Seq<RegAllocReg> {
    if !(reg is Virtual) {
        s
    } else {
        let i = find_interval(s, reg);
        if i >= 0 {
            s.update(
                i,
                RegAllocReg {
                    live_end: pos,
                    uses: if s[i].uses < usize::MAX {
                        (s[i].uses + 1) as usize
                    } else {
                        usize::MAX
                    },
                    ..s[i]
                },
            )
        } else {
            s.push(
                RegAllocReg {
                    live_start: pos,
                    live_end: pos,
                    uses: 1,
                    reg,
                    try_to_coalesce_to: None,
                },
            )
        }
    }
}

/// The interval list after recording the hint that `from` would best share a
/// register with `to`.
pub open spec fn spec_coalesce(s: Seq<RegAllocReg>, from: VReg, to: VReg) -> Seq<RegAllocReg> {
    if !(from is Virtual) {
        s
    } else {
        let i = find_interval(s, from);
        if i >= 0 {
            s.update(i, RegAllocReg { try_to_coalesce_to: Some(to), ..s[i] })
        } else {
            s
        }
    }
}

/// An allocator that instructions report their registers against. Its
/// observable state is a list of live intervals and the current position.
pub trait Regalloc: Sized {
    /// The live intervals collected so far.
    spec fn intervals(&self) -> Seq<RegAllocReg>;

    /// The current instruction position.
    spec fn position(&self) -> usize;

    /// Reports that the current instruction defines `reg`.
    fn add_def(&mut self, reg: VReg)
        ensures
            final(self).intervals() == spec_add_def(
                old(self).intervals(),
                old(self).position(),
                reg,
            ),
            final(self).position() == old(self).position(),
    ;

    /// Reports that the current instruction uses `reg`.
    fn add_use(&mut self, reg: VReg)
        ensures
            final(self).intervals() == spec_add_use(
                old(self).intervals(),
                old(self).position(),
                reg,
            ),
            final(self).position() == old(self).position(),
    ;

    /// Advances to the next instruction position.
    fn next_instr(&mut self)
        requires
            old(self).position() < usize::MAX,
        ensures
            final(self).intervals() == old(self).intervals(),
            final(self).position() == old(self).position() + 1,
    ;

    /// Records that `from` would best share a physical register with `to`.
    fn coalesce_move(&mut self, from: VReg, to: VReg)
        ensures
            final(self).intervals() == spec_coalesce(old(self).intervals(), from, to),
            final(self).position() == old(self).position(),
    ;

    /// Assigns each collected virtual register a physical register or spill
    /// slot, drawing physical registers from `usable`: every collected
    /// virtual is bound, every key is a collected virtual, and every image is
    /// a usable physical register or a spill slot.
    fn alloc_regs(&self, usable: &Vec<VReg>) -> (r: VRegMap)
        ensures
            forall|k: int|
                0 <= k < self.intervals().len() && (#[trigger] self.intervals()[k]).reg
                    is Virtual ==> r.spec_get(self.intervals()[k].reg) is Some,
            forall|k: int| 0 <= k < r.pairs@.len() ==> (#[trigger] r.pairs@[k]).0 is Virtual,
            forall|k: int|
                0 <= k < r.pairs@.len() ==> ((#[trigger] r.pairs@[k]).1 is Real ==> usable@.contains(
                    r.pairs@[k].1,
                )) && (r.pairs@[k].1 is Real || r.pairs@[k].1 is Spilled),
            forall|k: int|
                0 <= k < r.pairs@.len() ==> exists|j: int|
                    0 <= j < self.intervals().len() && (#[trigger] self.intervals()[j]).reg == (
                    #[trigger] r.pairs@[k]).0,
    ;
}

/// Source of an assignment lookup: the first pair written for the key.
pub open spec fn map_lookup(pairs: Seq<(VReg, VReg)>, k: VReg) -> Option<VReg>
    decreases pairs.len(),
{
    if pairs.len() == 0 {
        None
    } else if pairs[0].0 == k {
        Some(pairs[0].1)
    } else {
        map_lookup(pairs.drop_first(), k)
    }
}

/// A finished register assignment: an association from virtual registers to
/// the physical registers or spill slots they received.
#[derive(Debug, Clone, PartialEq, Eq)]
pub struct VRegMap {
    pub pairs: Vec<(VReg, VReg)>,
}

impl VRegMap {
    /// What this assignment maps `k` to.
    pub open spec fn spec_get(&self, k: VReg) -> Option<VReg> {
        map_lookup(self.pairs@, k)
    }

    /// An empty assignment.
    pub fn new() -> (r: VRegMap)
        ensures
            r.pairs@.len() == 0,
            forall|k: VReg| r.spec_get(k) is None,
    {
        let r = VRegMap { pairs: Vec::new() };
        proof {
            assert forall|k: VReg| r.spec_get(k) is None by {
                assert(r.pairs@.len() == 0);
            }
        }
        r
    }

    /// Looks up the assignment of `k`.
    pub fn get(&self, k: VReg) -> (r: Option<VReg>)
        ensures
            r == self.spec_get(k),
    {
        let n = self.pairs.len();
        let mut i: usize = 0;
        proof {
            assert(self.pairs@.skip(0) =~= self.pairs@);
        }
        while i < n
            invariant
                0 <= i <= n,
                n == self.pairs@.len(),
                map_lookup(self.pairs@, k) == map_lookup(self.pairs@.skip(i as int), k),
            decreases n - i,
        {
            proof {
                assert(self.pairs@.skip(i as int)[0] == self.pairs@[i as int]);
                assert(self.pairs@.skip(i as int).drop_first() =~= self.pairs@.skip(i + 1));
            }
            if self.pairs[i].0 == k {
                return Some(self.pairs[i].1);
            }
            i += 1;
        }
        proof {
            assert(self.pairs@.skip(n as int) =~= Seq::<(VReg, VReg)>::empty());
        }
        None
    }

    /// Binds `k` to `v`, replacing any earlier binding.
    pub fn bind(&mut self, k: VReg, v: VReg)
        ensures
            final(self).spec_get(k) == Some(v),
            forall|k2: VReg| k2 != k ==> #[trigger] final(self).spec_get(k2) == old(
                self,
            ).spec_get(k2),
            forall|j: int|
                0 <= j < final(self).pairs@.len() ==> #[trigger] final(self).pairs@[j] == (k, v)
                    || (j < old(self).pairs@.len() && final(self).pairs@[j] == old(
                    self,
                ).pairs@[j]),
    {
        let n = self.pairs.len();
        let mut i: usize = 0;
        while i < n
            invariant
                0 <= i <= n,
                n == self.pairs@.len(),
                *self == *old(self),
                forall|j: int| 0 <= j < i ==> (#[trigger] self.pairs@[j]).0 != k,
            decreases n - i,
        {
            if self.pairs[i].0 == k {
                let ghost oldp = self.pairs@;
                self.pairs.set(i, (k, v));
                proof {
                    lemma_map_lookup_prefix_miss(self.pairs@, i as int, k);
                    assert forall|k2: VReg| k2 != k implies #[trigger] self.spec_get(k2) == map_lookup(
                        oldp,
                        k2,
                    ) by {
                        lemma_map_lookup_update_other(oldp, i as int, (k, v), k2);
                    }
                }
                return ;
            }
            i += 1;
        }
        let ghost oldp = self.pairs@;
        self.pairs.push((k, v));
        proof {
            lemma_map_lookup_snoc(oldp, (k, v), k);
            lemma_map_lookup_none_of(oldp, k);
            assert forall|k2: VReg| k2 != k implies #[trigger] self.spec_get(k2) == map_lookup(
                oldp,
                k2,
            ) by {
                lemma_map_lookup_snoc(oldp, (k, v), k2);
            }
        }
    }
}

/// A lookup that misses every entry before `i` resolves at or after `i`.
proof fn lemma_map_lookup_prefix_miss(pairs: Seq<(VReg, VReg)>, i: int, k: VReg)
    requires
        0 <= i < pairs.len(),
        forall|j: int| 0 <= j < i ==> (#[trigger] pairs[j]).0 != k,
        pairs[i].0 == k,
    ensures
        map_lookup(pairs, k) == Some(pairs[i].1),
    decreases i,
{
    if i > 0 {
        assert(pairs.drop_first()[i - 1] == pairs[i]);
        assert forall|j: int| 0 <= j < i - 1 implies (#[trigger] pairs.drop_first()[j]).0 != k by {
            assert(pairs.drop_first()[j] == pairs[j + 1]);
        }
        lemma_map_lookup_prefix_miss(pairs.drop_first(), i - 1, k);
    }
}

proof fn lemma_map_lookup_none_of(pairs: Seq<(VReg, VReg)>, k: VReg)
    requires
        forall|j: int| 0 <= j < pairs.len() ==> (#[trigger] pairs[j]).0 != k,
    ensures
        map_lookup(pairs, k) is None,
    decreases pairs.len(),
{
    if pairs.len() > 0 {
        assert forall|j: int|
            0 <= j < pairs.drop_first().len() implies (#[trigger] pairs.drop_first()[j]).0 != k by {
            assert(pairs.drop_first()[j] == pairs[j + 1]);
        }
        lemma_map_lookup_none_of(pairs.drop_first(), k);
    }
}

proof fn lemma_map_lookup_snoc(pairs: Seq<(VReg, VReg)>, m: (VReg, VReg), k: VReg)
    ensures
        map_lookup(pairs.push(m), k) == (if map_lookup(pairs, k) is Some {
            map_lookup(pairs, k)
        } else if m.0 == k {
            Some(m.1)
        } else {
            None
        }),
    decreases pairs.len(),
{
    reveal_with_fuel(map_lookup, 3);
    if pairs.len() == 0 {
        assert(pairs.push(m)[0] == m);
        assert(pairs.push(m).drop_first() =~= Seq::<(VReg, VReg)>::empty());
        assert(map_lookup(Seq::<(VReg, VReg)>::empty(), k) is None);
    } else {
        assert(pairs.push(m)[0] == pairs[0]);
        assert(pairs.push(m).drop_first() =~= pairs.drop_first().push(m));
        lemma_map_lookup_snoc(pairs.drop_first(), m, k);
    }
}

proof fn lemma_map_lookup_update_other(pairs: Seq<(VReg, VReg)>, i: int, m: (VReg, VReg), k: VReg)
    requires
        0 <= i < pairs.len(),
        pairs[i].0 == m.0,
        k != m.0,
    ensures
        map_lookup(pairs.update(i, m), k) == map_lookup(pairs, k),
    decreases i,
{
    let t = pairs.update(i, m);
    if i == 0 {
        assert(t[0] == m);
        assert(t.drop_first() =~= pairs.drop_first());
    } else {
        assert(t[0] == pairs[0]);
        assert(t.drop_first() =~= pairs.drop_first().update(i - 1, m));
        assert(pairs.drop_first()[i - 1] == pairs[i]);
        lemma_map_lookup_update_other(pairs.drop_first(), i - 1, m, k);
    }
}

/// Rewrites a register through a finished assignment; registers the map does
/// not bind stay as they are.
pub fn apply_alloc(reg: &mut VReg, allocs: &VRegMap)
    ensures
        *final(reg) == (match allocs.spec_get(*old(reg)) {
            Some(n) => n,
            None => *old(reg),
        }),
{
    match allocs.get(*reg) {
        Some(new_reg) => {
            *reg = new_reg;
        },
        None => {},
    }
}

} // verus!
