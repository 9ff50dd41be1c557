//! Linear-scan register allocation: live intervals are collected as integer
//! ranges over the instruction stream, then physical registers are assigned
//! by sweeping positions in order, spilling the longest-remaining live range
//! when none is free.

use vstd::prelude::*;

use crate::regalloc::find_interval;
use crate::regalloc::Regalloc;
use crate::regalloc::VReg;
use crate::regalloc::VRegMap;

verus! {

/// One live interval: the virtual register, the positions of its first and
/// last occurrence, how often it is read, and the register it would best be
/// coalesced with.
#[derive(Debug, Clone, Copy, PartialEq, Eq, Structural)]
pub struct RegAllocReg {
    pub live_start: usize,
    pub live_end: usize,
    pub uses: usize,
    pub reg: VReg,
    pub try_to_coalesce_to: Option<VReg>,
}

/// A linear-scan allocator: collected intervals, the current position, and
/// the number of spill slots handed out.
#[derive(Debug, Clone, PartialEq, Eq)]
pub struct LinearScanRegAlloc {
    pub registers: Vec<RegAllocReg>,
    pub live_count: usize,
    pub spill_counter: usize,
}

impl Default for LinearScanRegAlloc {
    /// An allocator with nothing collected yet.
    fn default() -> (r: LinearScanRegAlloc)
        ensures
            r.registers@.len() == 0,
            r.live_count == 0,
            r.spill_counter == 0,
    {
        LinearScanRegAlloc { registers: Vec::new(), live_count: 0, spill_counter: 0 }
    }
}

proof fn lemma_find_interval_prefix_miss(s: Seq<RegAllocReg>, i: int, reg: VReg)
    requires
        0 <= i < s.len(),
        forall|j: int| 0 <= j < i ==> (#[trigger] s[j]).reg != reg,
        s[i].reg == reg,
    ensures
        find_interval(s, reg) == i,
    decreases i,
{
    if i > 0 {
        assert(s.drop_first()[i - 1] == s[i]);
        assert forall|j: int| 0 <= j < i - 1 implies (#[trigger] s.drop_first()[j]).reg != reg by {
            assert(s.drop_first()[j] == s[j + 1]);
        }
        lemma_find_interval_prefix_miss(s.drop_first(), i - 1, reg);
    }
}

proof fn lemma_find_interval_none(s: Seq<RegAllocReg>, reg: VReg)
    requires
        forall|j: int| 0 <= j < s.len() ==> (#[trigger] s[j]).reg != reg,
    ensures
        find_interval(s, reg) == -1,
    decreases s.len(),
{
    if s.len() > 0 {
        assert forall|j: int|
            0 <= j < s.drop_first().len() implies (#[trigger] s.drop_first()[j]).reg != reg by {
            assert(s.drop_first()[j] == s[j + 1]);
        }
        lemma_find_interval_none(s.drop_first(), reg);
    }
}

impl LinearScanRegAlloc {
    /// Index of the interval recorded for `reg`, if there is one.
    pub fn find_reg(&self, reg: VReg) -> (r: Option<usize>)
        ensures
            (match r {
                Some(i) => i < self.registers@.len() && find_interval(self.registers@, reg)
                    == i as int && self.registers@[i as int].reg == reg,
                None => find_interval(self.registers@, reg) == -1,
            }),
    {
        let n = self.registers.len();
        let mut i: usize = 0;
        while i < n
            invariant
                0 <= i <= n,
                n == self.registers@.len(),
                forall|j: int| 0 <= j < i ==> (#[trigger] self.registers@[j]).reg != reg,
            decreases n - i,
        {
            if self.registers[i].reg == reg {
                proof {
                    lemma_find_interval_prefix_miss(self.registers@, i as int, reg);
                }
                return Some(i);
            }
            i += 1;
        }
        proof {
            lemma_find_interval_none(self.registers@, reg);
        }
        None
    }
}

impl Regalloc for LinearScanRegAlloc {
    open spec fn intervals(&self) -> Seq<RegAllocReg> {
        self.registers@
    }

    open spec fn position(&self) -> usize {
        self.live_count
    }

    fn add_def(&mut self, reg: VReg) {
        let is_virtual = match reg {
            VReg::Virtual(_) => true,
            _ => false,
        };
        if !is_virtual {
            return ;
        }
        match self.find_reg(reg) {
            Some(i) => {
                let mut e = self.registers[i];
                e.live_end = self.live_count;
                self.registers.set(i, e);
            },
            None => {
                self.registers.push(
                    RegAllocReg {
                        live_start: self.live_count,
                        live_end: self.live_count,
                        uses: 0,
                        reg,
                        try_to_coalesce_to: None,
                    },
                );
            },
        }
    }

    fn add_use(&mut self, reg: VReg) {
        let is_virtual = match reg {
            VReg::Virtual(_) => true,
            _ => false,
        };
        if !is_virtual {
            return ;
        }
        match self.find_reg(reg) {
            Some(i) => {
                let mut e = self.registers[i];
                e.live_end = self.live_count;
                if e.uses < usize::MAX {
                    e.uses = e.uses + 1;
                }
                self.registers.set(i, e);
            },
            None => {
                self.registers.push(
                    RegAllocReg {
                        live_start: self.live_count,
                        live_end: self.live_count,
                        uses: 1,
                        reg,
                        try_to_coalesce_to: None,
                    },
                );
            },
        }
    }

    fn next_instr(&mut self) {
        self.live_count = self.live_count + 1;
    }

    fn coalesce_move(&mut self, from: VReg, to: VReg) {
        let is_virtual = match from {
            VReg::Virtual(_) => true,
            _ => false,
        };
        if !is_virtual {
            return ;
        }
        match self.find_reg(from) {
            Some(i) => {
                let mut e = self.registers[i];
                e.try_to_coalesce_to = Some(to);
                self.registers.set(i, e);
            },
            None => {},
        }
    }

    /// Sweeps positions in order: a range starting here draws a free physical
    /// register (honouring the coalescing hint when its register is free); a
    /// range ending here returns its register. When none is free, the
    /// longest-remaining live range moves to a spill slot and donates its
    /// register. Every collected virtual register ends up assigned, physical
    /// assignments come from `usable`, and everything else is a spill slot.
    #[verifier::rlimit(100)]
    #[verifier::spinoff_prover]
    fn alloc_regs(&self, usable: &Vec<VReg>) -> (r: VRegMap)
        ensures
            alloc_wf(*self, usable@) ==> sweep_sound(*self, r),
            forall|k: int|
                0 <= k < self.registers@.len() && (#[trigger] self.registers@[k]).reg is Virtual
                    ==> r.spec_get(self.registers@[k].reg) is Some,
            forall|k: int| 0 <= k < r.pairs@.len() ==> (#[trigger] r.pairs@[k]).0 is Virtual,
            forall|k: int|
                0 <= k < r.pairs@.len() ==> ((#[trigger] r.pairs@[k]).1 is Real ==> usable@.contains(
                    r.pairs@[k].1,
                )) && (r.pairs@[k].1 is Real || r.pairs@[k].1 is Spilled),
    {
        let mut ret = VRegMap::new();
        let mut free: Vec<VReg> = Vec::new();
        let nu = usable.len();
        let mut i: usize = 0;
        while i < nu
            invariant
                0 <= i <= nu,
                nu == usable@.len(),
                forall|k: int|
                    0 <= k < free@.len() ==> usable@.contains(#[trigger] free@[k]) && free@[k]
                        is Real,
                forall|k: int|
                    0 <= k < free@.len() ==> exists|i2: int|
                        0 <= i2 < i && usable@[i2] == #[trigger] free@[k],
                (forall|a: int, b: int| 0 <= a < b < usable@.len() ==> usable@[a] != usable@[b])
                    ==> (forall|a: int, b: int| 0 <= a < b < free@.len() ==> free@[a] != free@[b]),
            decreases nu - i,
        {
            let u = usable[i];
            match u {
                VReg::Real(_) => {
                    let ghost prev = free@;
                    free.push(u);
                    proof {
                        assert(usable@.contains(usable@[i as int]));
                        if forall|a: int, b: int|
                            0 <= a < b < usable@.len() ==> usable@[a] != usable@[b] {
                            assert forall|a: int, b: int|
                                0 <= a < b < free@.len() implies free@[a] != free@[b] by {
                                if b < prev.len() {
                                    assert(free@[a] == prev[a] && free@[b] == prev[b]);
                                } else {
                                    assert(free@[b] == usable@[i as int]);
                                    let i2 = choose|i2: int|
                                        0 <= i2 < i && usable@[i2] == prev[a];
                                    assert(usable@[i2] != usable@[i as int]);
                                }
                            }
                        }
                    }
                },
                _ => {},
            }
            i += 1;
        }
        proof {
            if alloc_wf(*self, usable@) {
                assert(sweep_inv(*self, ret, free@, 0, 0, 0));
            }
        }
        let mut spills: usize = 0;
        let total = self.live_count;
        let mut pos: usize = 0;
        while pos < total
            invariant
                total == self.live_count,
                regmap_shape(&ret, usable),
                keys_collected(&ret, self.registers@),
                forall|k: int|
                    0 <= k < free@.len() ==> usable@.contains(#[trigger] free@[k]) && free@[k]
                        is Real,
                alloc_wf(*self, usable@) ==> sweep_inv(*self, ret, free@, pos as int, 0, 0),
            decreases total - pos,
        {
            let nregs = self.registers.len();
            let mut k: usize = 0;
            while k < nregs
                invariant
                    total == self.live_count,
                    0 <= pos < total,
                    nregs == self.registers@.len(),
                    0 <= k <= nregs,
                    regmap_shape(&ret, usable),
                    keys_collected(&ret, self.registers@),
                    forall|j: int|
                        0 <= j < free@.len() ==> usable@.contains(#[trigger] free@[j]) && free@[j]
                            is Real,
                    alloc_wf(*self, usable@) ==> sweep_inv(
                        *self,
                        ret,
                        free@,
                        pos as int,
                        k as int,
                        k as int,
                    ),
                decreases nregs - k,
            {
                let ghost ret0 = ret;
                let ghost free_in = free@;
                let e = self.registers[k];
                let e_is_virtual = match e.reg {
                    VReg::Virtual(_) => true,
                    _ => false,
                };
                if e_is_virtual {
                    let unassigned = match ret.get(e.reg) {
                        None => true,
                        Some(_) => false,
                    };
                    if e.live_start == pos && unassigned {
                        // Resolve the coalescing hint to a physical register,
                        // if it names one directly or through an assigned
                        // virtual.
                        let hint: Option<VReg> = match e.try_to_coalesce_to {
                            Some(VReg::Real(h)) => Some(VReg::Real(h)),
                            Some(VReg::Virtual(hv)) => {
                                match ret.get(VReg::Virtual(hv)) {
                                    Some(VReg::Real(h)) => Some(VReg::Real(h)),
                                    _ => None,
                                }
                            },
                            _ => None,
                        };
                        let mut chosen: Option<VReg> = None;
                        match hint {
                            Some(h) => {
                                let mut hit: Option<usize> = None;
                                let mut fi: usize = 0;
                                let nf = free.len();
                                while fi < nf
                                    invariant
                                        0 <= fi <= nf,
                                        nf == free@.len(),
                                        (match hit {
                                            Some(x) => x < free@.len(),
                                            None => true,
                                        }),
                                    decreases nf - fi,
                                {
                                    let is_hit = match hit {
                                        Some(_) => true,
                                        None => false,
                                    };
                                    if !is_hit && free[fi] == h {
                                        hit = Some(fi);
                                    }
                                    fi += 1;
                                }
                                match hit {
                                    Some(x) => {
                                        let ghost prev = free@;
                                        let got = free.remove(x);
                                        proof {
                                            assert forall|j: int|
                                                0 <= j < free@.len() implies usable@.contains(
                                                #[trigger] free@[j],
                                            ) && free@[j] is Real by {
                                                if j < x {
                                                    assert(free@[j] == prev[j]);
                                                } else {
                                                    assert(free@[j] == prev[j + 1]);
                                                }
                                            }
                                            assert(got == prev[x as int]);
                                            if alloc_wf(*self, usable@) {
                                                assert forall|a: int, b: int|
                                                    0 <= a < b < free@.len() implies free@[a]
                                                    != free@[b] by {
                                                    let a2: int = if a < x {
                                                        a
                                                    } else {
                                                        a + 1
                                                    };
                                                    let b2: int = if b < x {
                                                        b
                                                    } else {
                                                        b + 1
                                                    };
                                                    assert(free@[a] == prev[a2] && free@[b]
                                                        == prev[b2]);
                                                }
                                                assert forall|g: int, j: int|
                                                    0 <= g < free@.len() && 0 <= j
                                                        < self.registers@.len()
                                                        && #[trigger] ret.spec_get(
                                                        self.registers@[j].reg,
                                                    ) == Some(#[trigger] free@[g]) implies
                                                    released_by(
                                                    self.registers@[j],
                                                    pos as int,
                                                    k as int,
                                                    j,
                                                ) by {
                                                    let g2: int = if g < x {
                                                        g
                                                    } else {
                                                        g + 1
                                                    };
                                                    assert(free@[g] == prev[g2]);
                                                }
                                                assert forall|j: int|
                                                    0 <= j < self.registers@.len()
                                                        && #[trigger] ret.spec_get(
                                                        self.registers@[j].reg,
                                                    ) == Some(got) implies released_by(
                                                    self.registers@[j],
                                                    pos as int,
                                                    k as int,
                                                    j,
                                                ) by {
                                                    assert(prev[x as int] == got);
                                                }
                                                assert forall|g: int|
                                                    0 <= g < free@.len() implies #[trigger] free@[g]
                                                    != got by {
                                                    let g2: int = if g < x {
                                                        g
                                                    } else {
                                                        g + 1
                                                    };
                                                    assert(free@[g] == prev[g2]);
                                                }
                                                assert(staged_ok(
                                                    *self,
                                                    ret,
                                                    free@,
                                                    pos as int,
                                                    k as int,
                                                    got,
                                                ));
                                            }
                                        }
                                        chosen = Some(got);
                                    },
                                    None => {},
                                }
                            },
                            None => {},
                        }
                        let assigned = match chosen {
                            Some(h) => h,
                            None => {
                                let ghost prevfree = free@;
                                match free.pop() {
                                    Some(p) => {
                                        proof {
                                            assert(p == prevfree[prevfree.len() - 1]);
                                            if alloc_wf(*self, usable@) {
                                                assert forall|j: int|
                                                    0 <= j < self.registers@.len()
                                                        && #[trigger] ret.spec_get(
                                                        self.registers@[j].reg,
                                                    ) == Some(p) implies released_by(
                                                    self.registers@[j],
                                                    pos as int,
                                                    k as int,
                                                    j,
                                                ) by {
                                                    assert(prevfree[prevfree.len() - 1] == p);
                                                }
                                                assert forall|g: int|
                                                    0 <= g < free@.len() implies #[trigger] free@[g]
                                                    != p by {
                                                    assert(free@[g] == prevfree[g]);
                                                }
                                                assert(staged_ok(
                                                    *self,
                                                    ret,
                                                    free@,
                                                    pos as int,
                                                    k as int,
                                                    p,
                                                ));
                                            }
                                        }
                                        p
                                    },
                                    None => {
                                        // No physical register is free: move
                                        // the longest-remaining live range to
                                        // a spill slot and reuse its register,
                                        // or spill the new range itself.
                                        let victim = pick_spill_victim(
                                            &self.registers,
                                            &ret,
                                            pos,
                                            k,
                                        );
                                        match victim {
                                            Some((vreg, vphys)) => {
                                                proof {
                                                    lemma_shape_value(&ret, usable, vreg, vphys);
                                                }
                                                let ghost before = ret;
                                                ret.bind(vreg, VReg::Spilled(spills));
                                                proof {
                                                    lemma_bind_keeps_shape(
                                                        before,
                                                        ret,
                                                        usable,
                                                        vreg,
                                                        VReg::Spilled(spills),
                                                    );
                                                    lemma_bind_keeps_keys(
                                                        before,
                                                        ret,
                                                        self.registers@,
                                                        vreg,
                                                        VReg::Spilled(spills),
                                                    );
                                                    if alloc_wf(*self, usable@) {
                                                        assert(sweep_inv(
                                                            *self,
                                                            before,
                                                            free@,
                                                            pos as int,
                                                            k as int,
                                                            k as int,
                                                        ));
                                                        let jv = choose|jv: int|
                                                            0 <= jv < self.registers@.len() && (
                                                            #[trigger] self.registers@[jv]).reg
                                                                == vreg
                                                                && self.registers@[jv].live_start
                                                                <= pos
                                                                && pos < self.registers@[jv].live_end;
                                                        assert(!released_by(
                                                            self.registers@[jv],
                                                            pos as int,
                                                            k as int,
                                                            jv,
                                                        ));
                                                        assert forall|j: int|
                                                            0 <= j < self.registers@.len() implies (
                                                            #[trigger] ret.spec_get(
                                                                self.registers@[j].reg,
                                                            )) == (if self.registers@[j].reg
                                                                == vreg {
                                                                Some(VReg::Spilled(spills))
                                                            } else {
                                                                before.spec_get(
                                                                    self.registers@[j].reg,
                                                                )
                                                            }) by {}
                                                        assert forall|j: int|
                                                            0 <= j < self.registers@.len()
                                                                && #[trigger] ret.spec_get(
                                                                self.registers@[j].reg,
                                                            ) == Some(vphys) implies released_by(
                                                            self.registers@[j],
                                                            pos as int,
                                                            k as int,
                                                            j,
                                                        ) by {
                                                            assert(before.spec_get(
                                                                self.registers@[j].reg,
                                                            ) == Some(vphys));
                                                            if !released_by(
                                                                self.registers@[j],
                                                                pos as int,
                                                                k as int,
                                                                j,
                                                            ) {
                                                                assert(before.spec_get(
                                                                    self.registers@[jv].reg,
                                                                ) == Some(vphys));
                                                                assert(!released_by(
                                                                    self.registers@[jv],
                                                                    pos as int,
                                                                    k as int,
                                                                    jv,
                                                                ));
                                                                assert(j == jv);
                                                                assert(self.registers@[j].reg
                                                                    == vreg);
                                                            }
                                                        }
                                                        assert forall|g: int|
                                                            0 <= g < free@.len() implies
                                                            #[trigger] free@[g] != vphys by {
                                                            assert(before.spec_get(vreg) == Some(
                                                                vphys,
                                                            ));
                                                        }
                                                        assert(staged_ok(
                                                            *self,
                                                            ret,
                                                            free@,
                                                            pos as int,
                                                            k as int,
                                                            vphys,
                                                        ));
                                                    }
                                                }
                                                if spills < usize::MAX {
                                                    spills = spills + 1;
                                                }
                                                vphys
                                            },
                                            None => {
                                                let s = VReg::Spilled(spills);
                                                if spills < usize::MAX {
                                                    spills = spills + 1;
                                                }
                                                s
                                            },
                                        }
                                    },
                                }
                            },
                        };
                        let ghost before2 = ret;
                        ret.bind(e.reg, assigned);
                        proof {
                            lemma_bind_keeps_shape(before2, ret, usable, e.reg, assigned);
                            assert(self.registers@[k as int].reg == e.reg);
                            lemma_bind_keeps_keys(before2, ret, self.registers@, e.reg, assigned);
                            if alloc_wf(*self, usable@) {
                                assert(staged_ok(*self, before2, free@, pos as int, k as int, assigned));
                                lemma_bind_step(
                                    *self,
                                    before2,
                                    ret,
                                    free@,
                                    pos as int,
                                    k as int,
                                    assigned,
                                );
                            }
                        }
                    } else {
                        proof {
                            if alloc_wf(*self, usable@) {
                                assert(e.live_start != pos || !(e.reg is Virtual)) by {
                                    if e.live_start == pos && e.reg is Virtual {
                                        assert(!started_by(
                                            self.registers@[k as int],
                                            pos as int,
                                            k as int,
                                            k as int,
                                        ));
                                        assert(ret.spec_get(e.reg) is None);
                                    }
                                }
                                lemma_noassign_step(*self, ret, free@, pos as int, k as int);
                            }
                        }
                    }
                    if e.live_end == pos {
                        match ret.get(e.reg) {
                            Some(VReg::Real(p)) => {
                                let ghost prev = free@;
                                free.push(VReg::Real(p));
                                proof {
                                    assert(ret.spec_get(e.reg) == Some(VReg::Real(p)));
                                    lemma_shape_value(&ret, usable, e.reg, VReg::Real(p));
                                    assert forall|j: int|
                                        0 <= j < free@.len() implies usable@.contains(
                                        #[trigger] free@[j],
                                    ) && free@[j] is Real by {
                                        if j < prev.len() {
                                            assert(free@[j] == prev[j]);
                                        }
                                    }
                                    if alloc_wf(*self, usable@) {
                                        lemma_release_push(
                                            *self,
                                            ret,
                                            prev,
                                            free@,
                                            pos as int,
                                            k as int,
                                            VReg::Real(p),
                                        );
                                    }
                                }
                            },
                            _ => {
                                proof {
                                    if alloc_wf(*self, usable@) {
                                        lemma_release_nopush(*self, ret, free@, pos as int, k as int);
                                    }
                                }
                            },
                        }
                    } else {
                        proof {
                            if alloc_wf(*self, usable@) {
                                lemma_release_nopush(*self, ret, free@, pos as int, k as int);
                            }
                        }
                    }
                } else {
                    proof {
                        if alloc_wf(*self, usable@) {
                            lemma_lookup_none_nonvirtual(&ret, usable, e.reg);
                            lemma_noassign_step(*self, ret, free@, pos as int, k as int);
                            lemma_release_nopush(*self, ret, free@, pos as int, k as int);
                        }
                    }
                }
                k += 1;
            }
            proof {
                if alloc_wf(*self, usable@) {
                    lemma_sweep_inv_advance(*self, ret, free@, pos as int);
                }
            }
            pos += 1;
        }
        proof {
            if alloc_wf(*self, usable@) {
                assert forall|j: int|
                    0 <= j < self.registers@.len() && (#[trigger] self.registers@[j]).reg
                        is Virtual implies ret.spec_get(self.registers@[j].reg) is Some by {
                    assert(self.registers@[j].live_start < self.live_count);
                    assert(started_by(self.registers@[j], total as int, 0, j));
                }
            }
        }
        // Any interval the sweep never reached still gets a slot.
        let nregs = self.registers.len();
        let mut k: usize = 0;
        while k < nregs
            invariant
                nregs == self.registers@.len(),
                0 <= k <= nregs,
                regmap_shape(&ret, usable),
                keys_collected(&ret, self.registers@),
                forall|j: int|
                    0 <= j < k ==> ((#[trigger] self.registers@[j]).reg is Virtual ==> ret.spec_get(
                        self.registers@[j].reg,
                    ) is Some),
                forall|j: int|
                    0 <= j < free@.len() ==> usable@.contains(#[trigger] free@[j]) && free@[j]
                        is Real,
                alloc_wf(*self, usable@) ==> (sweep_sound(*self, ret) && forall|j: int|
                    0 <= j < self.registers@.len() && (#[trigger] self.registers@[j]).reg
                        is Virtual ==> ret.spec_get(self.registers@[j].reg) is Some),
            decreases nregs - k,
        {
            let e = self.registers[k];
            let e_is_virtual = match e.reg {
                VReg::Virtual(_) => true,
                _ => false,
            };
            if e_is_virtual {
                let unassigned = match ret.get(e.reg) {
                    None => true,
                    Some(_) => false,
                };
                if unassigned {
                    let ghost prevfree = free@;
                    let assigned = match free.pop() {
                        Some(p) => {
                            proof {
                                assert(p == prevfree[prevfree.len() - 1]);
                            }
                            p
                        },
                        None => {
                            let s = VReg::Spilled(spills);
                            if spills < usize::MAX {
                                spills = spills + 1;
                            }
                            s
                        },
                    };
                    let ghost before = ret;
                    ret.bind(e.reg, assigned);
                    proof {
                        lemma_bind_keeps_shape(before, ret, usable, e.reg, assigned);
                        assert(self.registers@[k as int].reg == e.reg);
                        lemma_bind_keeps_keys(before, ret, self.registers@, e.reg, assigned);
                    }
                }
            }
            k += 1;
        }
        ret
    }
}

/// Every key of the map is virtual and every value is a usable physical
/// register or a spill slot.
pub open spec fn regmap_shape(r: &VRegMap, usable: &Vec<VReg>) -> bool {
    forall|k: int|
        0 <= k < r.pairs@.len() ==> (#[trigger] r.pairs@[k]).0 is Virtual && ((r.pairs@[k].1
            is Real ==> usable@.contains(r.pairs@[k].1)) && (r.pairs@[k].1 is Real || r.pairs@[k].1
            is Spilled))
}

/// The collected state the sweep can allocate soundly from: pairwise
/// distinct registers, live ranges inside the swept positions, and pairwise
/// distinct usable registers.
pub open spec fn alloc_wf(ra: LinearScanRegAlloc, usable: Seq<VReg>) -> bool {
    &&& forall|j1: int, j2: int|
        0 <= j1 < j2 < ra.registers@.len() ==> (#[trigger] ra.registers@[j1]).reg != (
        #[trigger] ra.registers@[j2]).reg
    &&& forall|j: int|
        0 <= j < ra.registers@.len() ==> (#[trigger] ra.registers@[j]).live_start
            <= ra.registers@[j].live_end < ra.live_count
    &&& forall|a: int, b: int| 0 <= a < b < usable.len() ==> usable[a] != usable[b]
}

/// Two live ranges clash exactly when each starts strictly before the other
/// ends; ranges that only touch (one dies at the position the other is
/// defined) may share a register by design.
pub open spec fn ranges_conflict(e1: RegAllocReg, e2: RegAllocReg) -> bool {
    e1.live_start < e2.live_end && e2.live_start < e1.live_end
}

/// The interval has begun by position `pos`, counting the first `ks` entries
/// at `pos` itself as begun.
pub open spec fn started_by(e: RegAllocReg, pos: int, ks: int, j: int) -> bool {
    e.live_start < pos || (e.live_start == pos && j < ks)
}

/// The interval has ended and handed its register back by position `pos`,
/// counting the first `kr` entries at `pos` itself as done.
pub open spec fn released_by(e: RegAllocReg, pos: int, kr: int, j: int) -> bool {
    e.live_end < pos || (e.live_end == pos && j < kr)
}

/// No two intervals with clashing live ranges hold the same physical
/// register.
pub open spec fn sweep_sound(ra: LinearScanRegAlloc, ret: VRegMap) -> bool {
    forall|j1: int, j2: int|
        0 <= j1 < ra.registers@.len() && 0 <= j2 < ra.registers@.len() && (#[trigger] ret.spec_get(
            ra.registers@[j1].reg,
        )) is Some && ret.spec_get(ra.registers@[j1].reg).unwrap() is Real && (
        #[trigger] ret.spec_get(ra.registers@[j2].reg)) == ret.spec_get(ra.registers@[j1].reg)
            && ranges_conflict(ra.registers@[j1], ra.registers@[j2]) ==> j1 == j2
}

/// The sweep's running soundness state at position `pos`: the first `ks`
/// entries have drawn their register, the first `kr` have handed it back.
pub open spec fn sweep_inv(
    ra: LinearScanRegAlloc,
    ret: VRegMap,
    free: Seq<VReg>,
    pos: int,
    ks: int,
    kr: int,
) -> bool {
    // An interval is bound exactly once it has begun.
    &&& forall|j: int|
        0 <= j < ra.registers@.len() ==> ((#[trigger] ret.spec_get(ra.registers@[j].reg))
            is Some <==> (ra.registers@[j].reg is Virtual && started_by(
            ra.registers@[j],
            pos,
            ks,
            j,
        )))
    // A register on the free stack is held only by intervals already done.
    &&& forall|g: int, j: int|
        0 <= g < free.len() && 0 <= j < ra.registers@.len() && #[trigger] ret.spec_get(
            ra.registers@[j].reg,
        ) == Some(#[trigger] free[g]) ==> released_by(ra.registers@[j], pos, kr, j)
    // The free stack holds each register once.
    &&& forall|a: int, b: int| 0 <= a < b < free.len() ==> free[a] != free[b]
    // Clashing ranges never share a physical register.
    &&& sweep_sound(ra, ret)
    // A physical register has at most one holder that is not done.
    &&& forall|j1: int, j2: int|
        0 <= j1 < ra.registers@.len() && 0 <= j2 < ra.registers@.len() && (#[trigger] ret.spec_get(
            ra.registers@[j1].reg,
        )) is Some && ret.spec_get(ra.registers@[j1].reg).unwrap() is Real && (
        #[trigger] ret.spec_get(ra.registers@[j2].reg)) == ret.spec_get(ra.registers@[j1].reg)
            && !released_by(ra.registers@[j1], pos, kr, j1) && !released_by(
            ra.registers@[j2],
            pos,
            kr,
            j2,
        ) ==> j1 == j2
}

/// Stepping to the next position restates begun and done without the
/// per-entry counters.
proof fn lemma_sweep_inv_advance(
    ra: LinearScanRegAlloc,
    ret: VRegMap,
    free: Seq<VReg>,
    pos: int,
)
    requires
        sweep_inv(ra, ret, free, pos, ra.registers@.len() as int, ra.registers@.len() as int),
    ensures
        sweep_inv(ra, ret, free, pos + 1, 0, 0),
{
    let n = ra.registers@.len() as int;
    assert forall|j: int|
        0 <= j < n implies (started_by(#[trigger] ra.registers@[j], pos + 1, 0, j) == started_by(
        ra.registers@[j],
        pos,
        n,
        j,
    )) && (released_by(ra.registers@[j], pos + 1, 0, j) == released_by(
        ra.registers@[j],
        pos,
        n,
        j,
    )) by {}
}

/// Every key of the map names a collected interval's register.
/// The state just before binding the entry at `k`: the sweep invariant still
/// holds, and if the drawn register is physical, everyone holding it is done
/// and it is no longer on the free stack.
pub open spec fn staged_ok(
    ra: LinearScanRegAlloc,
    ret: VRegMap,
    free: Seq<VReg>,
    pos: int,
    k: int,
    assigned: VReg,
) -> bool {
    &&& sweep_inv(ra, ret, free, pos, k, k)
    &&& (assigned is Real ==> ((forall|j: int|
        0 <= j < ra.registers@.len() && #[trigger] ret.spec_get(ra.registers@[j].reg) == Some(
            assigned,
        ) ==> released_by(ra.registers@[j], pos, k, j)) && (forall|g: int|
        0 <= g < free.len() ==> #[trigger] free[g] != assigned)))
}

/// A map whose keys are all virtual binds nothing else.
proof fn lemma_lookup_none_nonvirtual(r: &VRegMap, usable: &Vec<VReg>, key: VReg)
    requires
        regmap_shape(r, usable),
        !(key is Virtual),
    ensures
        r.spec_get(key) is None,
{
    if r.spec_get(key) is Some {
        lemma_lookup_entry(r.pairs@, key, r.spec_get(key).unwrap());
    }
}

/// Skipping an entry that draws nothing moves the begun counter forward.
proof fn lemma_noassign_step(
    ra: LinearScanRegAlloc,
    ret: VRegMap,
    free: Seq<VReg>,
    pos: int,
    k: int,
)
    requires
        sweep_inv(ra, ret, free, pos, k, k),
        0 <= k < ra.registers@.len(),
        !(ra.registers@[k].reg is Virtual && ra.registers@[k].live_start == pos),
    ensures
        sweep_inv(ra, ret, free, pos, k + 1, k),
{
    assert forall|j: int|
        0 <= j < ra.registers@.len() implies ((#[trigger] ret.spec_get(ra.registers@[j].reg))
        is Some <==> (ra.registers@[j].reg is Virtual && started_by(
        ra.registers@[j],
        pos,
        k + 1,
        j,
    ))) by {
        assert(ret.spec_get(ra.registers@[j].reg) is Some <==> (ra.registers@[j].reg is Virtual
            && started_by(ra.registers@[j], pos, k, j)));
    }
}

/// Binding the entry at `k` to a register nobody live holds keeps the sweep
/// sound.
proof fn lemma_bind_step(
    ra: LinearScanRegAlloc,
    ret0: VRegMap,
    ret1: VRegMap,
    free: Seq<VReg>,
    pos: int,
    k: int,
    assigned: VReg,
)
    requires
        staged_ok(ra, ret0, free, pos, k, assigned),
        0 <= k < ra.registers@.len(),
        ra.registers@[k].reg is Virtual,
        ra.registers@[k].live_start == pos,
        forall|j1: int, j2: int|
            0 <= j1 < j2 < ra.registers@.len() ==> (#[trigger] ra.registers@[j1]).reg != (
            #[trigger] ra.registers@[j2]).reg,
        forall|j: int|
            0 <= j < ra.registers@.len() ==> (#[trigger] ra.registers@[j]).live_start
                <= ra.registers@[j].live_end,
        forall|g: int| 0 <= g < free.len() ==> (#[trigger] free[g]) is Real,
        assigned is Real || assigned is Spilled,
        ret1.spec_get(ra.registers@[k].reg) == Some(assigned),
        forall|k2: VReg|
            k2 != ra.registers@[k].reg ==> #[trigger] ret1.spec_get(k2) == ret0.spec_get(k2),
    ensures
        sweep_inv(ra, ret1, free, pos, k + 1, k),
{
    let e = ra.registers@[k];
    assert forall|j: int|
        0 <= j < ra.registers@.len() && j != k implies #[trigger] ret1.spec_get(
        ra.registers@[j].reg,
    ) == ret0.spec_get(ra.registers@[j].reg) by {
        assert(ra.registers@[j].reg != e.reg);
    }
    assert forall|j: int|
        0 <= j < ra.registers@.len() implies ((#[trigger] ret1.spec_get(ra.registers@[j].reg))
        is Some <==> (ra.registers@[j].reg is Virtual && started_by(
        ra.registers@[j],
        pos,
        k + 1,
        j,
    ))) by {
        if j != k {
            assert(ret0.spec_get(ra.registers@[j].reg) is Some <==> (ra.registers@[j].reg
                is Virtual && started_by(ra.registers@[j], pos, k, j)));
        }
    }
    assert forall|g: int, j: int|
        0 <= g < free.len() && 0 <= j < ra.registers@.len() && #[trigger] ret1.spec_get(
            ra.registers@[j].reg,
        ) == Some(#[trigger] free[g]) implies released_by(ra.registers@[j], pos, k, j) by {
        if j == k {
            assert(free[g] == assigned);
            assert(free[g] is Real);
        }
    }
    assert forall|j1: int, j2: int|
        0 <= j1 < ra.registers@.len() && 0 <= j2 < ra.registers@.len() && (
        #[trigger] ret1.spec_get(ra.registers@[j1].reg)) is Some && ret1.spec_get(
            ra.registers@[j1].reg,
        ).unwrap() is Real && (#[trigger] ret1.spec_get(ra.registers@[j2].reg)) == ret1.spec_get(
            ra.registers@[j1].reg,
        ) && ranges_conflict(ra.registers@[j1], ra.registers@[j2]) implies j1 == j2 by {
        if j1 != j2 {
            if j1 == k || j2 == k {
                let other: int = if j1 == k {
                    j2
                } else {
                    j1
                };
                assert(ret0.spec_get(ra.registers@[other].reg) == Some(assigned));
                assert(released_by(ra.registers@[other], pos, k, other));
                assert(ra.registers@[other].live_end <= pos);
                assert(!ranges_conflict(ra.registers@[j1], ra.registers@[j2]));
            }
        }
    }
    assert forall|j1: int, j2: int|
        0 <= j1 < ra.registers@.len() && 0 <= j2 < ra.registers@.len() && (
        #[trigger] ret1.spec_get(ra.registers@[j1].reg)) is Some && ret1.spec_get(
            ra.registers@[j1].reg,
        ).unwrap() is Real && (#[trigger] ret1.spec_get(ra.registers@[j2].reg)) == ret1.spec_get(
            ra.registers@[j1].reg,
        ) && !released_by(ra.registers@[j1], pos, k, j1) && !released_by(
            ra.registers@[j2],
            pos,
            k,
            j2,
        ) implies j1 == j2 by {
        if j1 != j2 {
            if j1 == k || j2 == k {
                let other: int = if j1 == k {
                    j2
                } else {
                    j1
                };
                assert(ret0.spec_get(ra.registers@[other].reg) == Some(assigned));
                assert(released_by(ra.registers@[other], pos, k, other));
            }
        }
    }
}

/// Handing a register back once its last holder is done keeps the sweep
/// sound.
proof fn lemma_release_push(
    ra: LinearScanRegAlloc,
    ret: VRegMap,
    free0: Seq<VReg>,
    free1: Seq<VReg>,
    pos: int,
    k: int,
    p: VReg,
)
    requires
        sweep_inv(ra, ret, free0, pos, k + 1, k),
        0 <= k < ra.registers@.len(),
        ret.spec_get(ra.registers@[k].reg) == Some(p),
        p is Real,
        ra.registers@[k].live_end == pos,
        free1 == free0.push(p),
    ensures
        sweep_inv(ra, ret, free1, pos, k + 1, k + 1),
{
    // The register cannot already be on the stack: its holder was not done.
    assert forall|g: int| 0 <= g < free0.len() implies #[trigger] free0[g] != p by {
        if free0[g] == p {
            assert(released_by(ra.registers@[k], pos, k, k));
        }
    }
    assert forall|a: int, b: int| 0 <= a < b < free1.len() implies free1[a] != free1[b] by {
        if b < free0.len() {
            assert(free1[a] == free0[a] && free1[b] == free0[b]);
        } else {
            assert(free1[b] == p && free1[a] == free0[a]);
        }
    }
    assert forall|g: int, j: int|
        0 <= g < free1.len() && 0 <= j < ra.registers@.len() && #[trigger] ret.spec_get(
            ra.registers@[j].reg,
        ) == Some(#[trigger] free1[g]) implies released_by(ra.registers@[j], pos, k + 1, j) by {
        if g < free0.len() {
            assert(free1[g] == free0[g]);
            assert(released_by(ra.registers@[j], pos, k, j));
        } else {
            assert(free1[g] == p);
            if j != k && !released_by(ra.registers@[j], pos, k, j) {
                assert(!released_by(ra.registers@[k], pos, k, k));
                assert(j == k);
            }
        }
    }
    assert forall|j1: int, j2: int|
        0 <= j1 < ra.registers@.len() && 0 <= j2 < ra.registers@.len() && (#[trigger] ret.spec_get(
            ra.registers@[j1].reg,
        )) is Some && ret.spec_get(ra.registers@[j1].reg).unwrap() is Real && (
        #[trigger] ret.spec_get(ra.registers@[j2].reg)) == ret.spec_get(ra.registers@[j1].reg)
            && !released_by(ra.registers@[j1], pos, k + 1, j1) && !released_by(
            ra.registers@[j2],
            pos,
            k + 1,
            j2,
        ) implies j1 == j2 by {
        assert(!released_by(ra.registers@[j1], pos, k, j1));
        assert(!released_by(ra.registers@[j2], pos, k, j2));
    }
}

/// When nothing is handed back, counting the entry as done only weakens the
/// sweep's obligations.
proof fn lemma_release_nopush(
    ra: LinearScanRegAlloc,
    ret: VRegMap,
    free: Seq<VReg>,
    pos: int,
    k: int,
)
    requires
        sweep_inv(ra, ret, free, pos, k + 1, k),
        0 <= k < ra.registers@.len(),
    ensures
        sweep_inv(ra, ret, free, pos, k + 1, k + 1),
{
    assert forall|j1: int, j2: int|
        0 <= j1 < ra.registers@.len() && 0 <= j2 < ra.registers@.len() && (#[trigger] ret.spec_get(
            ra.registers@[j1].reg,
        )) is Some && ret.spec_get(ra.registers@[j1].reg).unwrap() is Real && (
        #[trigger] ret.spec_get(ra.registers@[j2].reg)) == ret.spec_get(ra.registers@[j1].reg)
            && !released_by(ra.registers@[j1], pos, k + 1, j1) && !released_by(
            ra.registers@[j2],
            pos,
            k + 1,
            j2,
        ) implies j1 == j2 by {
        assert(!released_by(ra.registers@[j1], pos, k, j1));
        assert(!released_by(ra.registers@[j2], pos, k, j2));
    }
}

/// Every key of the map names a collected interval's register.
pub open spec fn keys_collected(r: &VRegMap, registers: Seq<RegAllocReg>) -> bool {
    forall|k: int|
        0 <= k < r.pairs@.len() ==> exists|j: int|
            0 <= j < registers.len() && (#[trigger] registers[j]).reg == (
            #[trigger] r.pairs@[k]).0
}

/// Binding a collected register keeps every key collected.
proof fn lemma_bind_keeps_keys(
    oldm: VRegMap,
    newm: VRegMap,
    registers: Seq<RegAllocReg>,
    k: VReg,
    v: VReg,
)
    requires
        keys_collected(&oldm, registers),
        exists|j: int| 0 <= j < registers.len() && (#[trigger] registers[j]).reg == k,
        forall|j: int|
            0 <= j < newm.pairs@.len() ==> #[trigger] newm.pairs@[j] == (k, v) || (j
                < oldm.pairs@.len() && newm.pairs@[j] == oldm.pairs@[j]),
    ensures
        keys_collected(&newm, registers),
{
    assert forall|k2: int| 0 <= k2 < newm.pairs@.len() implies exists|j: int|
        0 <= j < registers.len() && (#[trigger] registers[j]).reg == (
        #[trigger] newm.pairs@[k2]).0 by {
        if newm.pairs@[k2] != (k, v) {
            assert(newm.pairs@[k2] == oldm.pairs@[k2]);
        }
    }
}

/// Binding one more well-shaped entry keeps the map well shaped.
proof fn lemma_bind_keeps_shape(
    oldm: VRegMap,
    newm: VRegMap,
    usable: &Vec<VReg>,
    k: VReg,
    v: VReg,
)
    requires
        regmap_shape(&oldm, usable),
        k is Virtual,
        v is Real ==> usable@.contains(v),
        v is Real || v is Spilled,
        forall|j: int|
            0 <= j < newm.pairs@.len() ==> #[trigger] newm.pairs@[j] == (k, v) || (j
                < oldm.pairs@.len() && newm.pairs@[j] == oldm.pairs@[j]),
    ensures
        regmap_shape(&newm, usable),
{
    assert forall|j: int| 0 <= j < newm.pairs@.len() implies (#[trigger] newm.pairs@[j]).0
        is Virtual && ((newm.pairs@[j].1 is Real ==> usable@.contains(newm.pairs@[j].1)) && (
    newm.pairs@[j].1 is Real || newm.pairs@[j].1 is Spilled)) by {
        if newm.pairs@[j] != (k, v) {
            assert(newm.pairs@[j] == oldm.pairs@[j]);
        }
    }
}

/// A value the map returns obeys the shape of its entries.
proof fn lemma_shape_value(r: &VRegMap, usable: &Vec<VReg>, k: VReg, v: VReg)
    requires
        regmap_shape(r, usable),
        r.spec_get(k) == Some(v),
    ensures
        (v is Real ==> usable@.contains(v)) && (v is Real || v is Spilled),
{
    lemma_lookup_entry(r.pairs@, k, v);
    let j = choose|j: int| 0 <= j < r.pairs@.len() && (#[trigger] r.pairs@[j]) == (k, v);
}

proof fn lemma_lookup_entry(pairs: Seq<(VReg, VReg)>, k: VReg, v: VReg)
    requires
        crate::regalloc::map_lookup(pairs, k) == Some(v),
    ensures
        exists|j: int| 0 <= j < pairs.len() && (#[trigger] pairs[j]) == (k, v),
    decreases pairs.len(),
{
    if pairs[0].0 == k {
        assert(pairs[0] == (k, v));
    } else {
        lemma_lookup_entry(pairs.drop_first(), k, v);
        let j = choose|j: int|
            0 <= j < pairs.drop_first().len() && (#[trigger] pairs.drop_first()[j]) == (k, v);
        assert(pairs[j + 1] == (k, v));
    }
}

/// Among the strictly live, physically assigned intervals other than the one
/// being allocated, picks one with the greatest remaining extent, returning
/// its register pair. An interval ending at the current position is no
/// candidate: its register may already be back in the free stack or reused,
/// so donating it could hand one register to two live ranges.
fn pick_spill_victim(
    registers: &Vec<RegAllocReg>,
    ret: &VRegMap,
    pos: usize,
    current: usize,
) -> (r: Option<(VReg, VReg)>)
    requires
        forall|k: int|
            0 <= k < ret.pairs@.len() ==> ((#[trigger] ret.pairs@[k]).1 is Real || ret.pairs@[k].1
                is Spilled),
    ensures
        (match r {
            Some((vreg, vphys)) => ret.spec_get(vreg) == Some(vphys) && vphys is Real && vreg
                is Virtual && exists|j: int|
                0 <= j < registers@.len() && (#[trigger] registers@[j]).reg == vreg
                    && registers@[j].live_start <= pos && pos < registers@[j].live_end,
            None => true,
        }),
{
    let n = registers.len();
    let mut best: Option<(VReg, VReg, usize)> = None;
    let mut k: usize = 0;
    while k < n
        invariant
            0 <= k <= n,
            n == registers@.len(),
            (match best {
                Some((vreg, vphys, _)) => ret.spec_get(vreg) == Some(vphys) && vphys is Real
                    && vreg is Virtual && exists|j: int|
                    0 <= j < registers@.len() && (#[trigger] registers@[j]).reg == vreg
                        && registers@[j].live_start <= pos && pos < registers@[j].live_end,
                None => true,
            }),
        decreases n - k,
    {
        if k != current {
            let e = registers[k];
            let e_is_virtual = match e.reg {
                VReg::Virtual(_) => true,
                _ => false,
            };
            if e_is_virtual && e.live_start <= pos && pos < e.live_end {
                match ret.get(e.reg) {
                    Some(VReg::Real(p)) => {
                        let better = match best {
                            Some((_, _, bend)) => e.live_end > bend,
                            None => true,
                        };
                        if better {
                            best = Some((e.reg, VReg::Real(p), e.live_end));
                        }
                    },
                    _ => {},
                }
            }
        }
        k += 1;
    }
    match best {
        Some((vreg, vphys, _)) => Some((vreg, vphys)),
        None => None,
    }
}

} // verus!
