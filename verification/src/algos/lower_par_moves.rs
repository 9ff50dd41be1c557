//! Parallel-move sequencing: turns each block's set of simultaneous moves
//! into an ordered list of one-at-a-time moves that computes the same final
//! register state, breaking cyclic dependencies with fresh scratch registers.
//!
//! The semantics are spelled out over abstract register states: `apply_par`
//! reads every source before writing any destination, `apply_seq` performs
//! the moves in order. The sequencer's contract says the two agree on every
//! register that existed before sequencing, for every starting state.

use vstd::prelude::*;

use crate::ir::log_contains;
use crate::ir::Algo;
use crate::ir::Function;
use crate::ir::Module;
use crate::ir::Type;
use crate::ir::ValueId;

verus! {

/// A register state assigns a value to every register.
pub open spec fn full_map(s: Map<usize, int>) -> bool {
    forall|r: usize| s.dom().contains(r)
}

/// The source that a parallel move set assigns to destination `r`, if any
/// (the first match; destinations are distinct in a well-formed set).
pub open spec fn par_lookup(moves: Seq<(usize, usize)>, r: usize) -> Option<usize>
    decreases moves.len(),
{
    if moves.len() == 0 {
        None
    } else if moves[0].0 == r {
        Some(moves[0].1)
    } else {
        par_lookup(moves.drop_first(), r)
    }
}

/// No two moves write the same destination.
pub open spec fn dests_distinct(moves: Seq<(usize, usize)>) -> bool {
    forall|i: int, j: int| 0 <= i < j < moves.len() ==> moves[i].0 != moves[j].0
}

/// What register `r` holds after executing `moves` simultaneously from state
/// `s`: its own old value unless some move writes it, in which case the old
/// value of that move's source.
pub open spec fn apply_par(s: Map<usize, int>, moves: Seq<(usize, usize)>, r: usize) -> int {
    match par_lookup(moves, r) {
        Some(src) => s[src],
        None => s[r],
    }
}

/// The state after executing `moves` one at a time, in order.
pub open spec fn apply_seq(s: Map<usize, int>, moves: Seq<(usize, usize)>) -> Map<usize, int>
    decreases moves.len(),
{
    if moves.len() == 0 {
        s
    } else {
        apply_seq(s.insert(moves[0].0, s[moves[0].1]), moves.drop_first())
    }
}

proof fn lemma_apply_seq_full(s: Map<usize, int>, moves: Seq<(usize, usize)>)
    requires
        full_map(s),
    ensures
        full_map(apply_seq(s, moves)),
    decreases moves.len(),
{
    if moves.len() > 0 {
        lemma_apply_seq_full(s.insert(moves[0].0, s[moves[0].1]), moves.drop_first());
    }
}

/// Executing one more move at the end updates the final state pointwise.
proof fn lemma_apply_seq_snoc(s: Map<usize, int>, moves: Seq<(usize, usize)>, m: (usize, usize))
    ensures
        apply_seq(s, moves.push(m)) == apply_seq(s, moves).insert(
            m.0,
            apply_seq(s, moves)[m.1],
        ),
    decreases moves.len(),
{
    if moves.len() == 0 {
        assert(moves.push(m).drop_first() =~= Seq::<(usize, usize)>::empty());
        assert(apply_seq(s, moves.push(m)) == apply_seq(s.insert(m.0, s[m.1]), Seq::empty()));
    } else {
        assert(moves.push(m).drop_first() =~= moves.drop_first().push(m));
        assert(moves.push(m)[0] == moves[0]);
        lemma_apply_seq_snoc(s.insert(moves[0].0, s[moves[0].1]), moves.drop_first(), m);
    }
}

/// With distinct destinations, any move found in the set determines the
/// lookup.
proof fn lemma_par_lookup_at(moves: Seq<(usize, usize)>, i: int)
    requires
        dests_distinct(moves),
        0 <= i < moves.len(),
    ensures
        par_lookup(moves, moves[i].0) == Some(moves[i].1),
    decreases moves.len(),
{
    if i > 0 {
        assert(moves[0].0 != moves[i].0);
        assert(moves.drop_first()[i - 1] == moves[i]);
        assert(dests_distinct(moves.drop_first())) by {
            assert forall|a: int, b: int|
                0 <= a < b < moves.drop_first().len() implies moves.drop_first()[a].0
                != moves.drop_first()[b].0 by {
                assert(moves.drop_first()[a] == moves[a + 1]);
                assert(moves.drop_first()[b] == moves[b + 1]);
            }
        }
        lemma_par_lookup_at(moves.drop_first(), i - 1);
    }
}

/// A register that no move writes looks up to nothing.
proof fn lemma_par_lookup_none(moves: Seq<(usize, usize)>, r: usize)
    requires
        forall|i: int| 0 <= i < moves.len() ==> (#[trigger] moves[i]).0 != r,
    ensures
        par_lookup(moves, r) is None,
    decreases moves.len(),
{
    if moves.len() > 0 {
        assert(moves[0].0 != r);
        assert forall|i: int| 0 <= i < moves.drop_first().len() implies (
        #[trigger] moves.drop_first()[i]).0 != r by {
            assert(moves.drop_first()[i] == moves[i + 1]);
        }
        lemma_par_lookup_none(moves.drop_first(), r);
    }
}

/// Removing one move keeps the set's destinations distinct.
proof fn lemma_dests_distinct_remove(moves: Seq<(usize, usize)>, i: int)
    requires
        dests_distinct(moves),
        0 <= i < moves.len(),
    ensures
        dests_distinct(moves.remove(i)),
{
    assert forall|a: int, b: int|
        0 <= a < b < moves.remove(i).len() implies moves.remove(i)[a].0 != moves.remove(
        i,
    )[b].0 by {
        let a2 = if a < i {
            a
        } else {
            a + 1
        };
        let b2 = if b < i {
            b
        } else {
            b + 1
        };
        assert(moves.remove(i)[a] == moves[a2]);
        assert(moves.remove(i)[b] == moves[b2]);
    }
}

/// A successful lookup names an actual move of the set.
proof fn lemma_par_lookup_some_witness(moves: Seq<(usize, usize)>, r: usize)
    requires
        par_lookup(moves, r) is Some,
    ensures
        exists|j: int|
            0 <= j < moves.len() && (#[trigger] moves[j]).0 == r && moves[j].1 == par_lookup(
                moves,
                r,
            ).unwrap(),
    decreases moves.len(),
{
    if moves[0].0 == r {
        assert(moves[0].0 == r && moves[0].1 == par_lookup(moves, r).unwrap());
    } else {
        lemma_par_lookup_some_witness(moves.drop_first(), r);
        let j = choose|j: int|
            0 <= j < moves.drop_first().len() && (#[trigger] moves.drop_first()[j]).0 == r
                && moves.drop_first()[j].1 == par_lookup(moves.drop_first(), r).unwrap();
        assert(moves[j + 1] == moves.drop_first()[j]);
        assert((#[trigger] moves[j + 1]).0 == r && moves[j + 1].1 == par_lookup(moves, r).unwrap());
    }
}

/// A failed lookup means no move of the set writes the register.
proof fn lemma_par_lookup_none_witness(moves: Seq<(usize, usize)>, r: usize)
    requires
        par_lookup(moves, r) is None,
    ensures
        forall|j: int| 0 <= j < moves.len() ==> (#[trigger] moves[j]).0 != r,
    decreases moves.len(),
{
    if moves.len() > 0 {
        lemma_par_lookup_none_witness(moves.drop_first(), r);
        assert forall|j: int| 0 <= j < moves.len() implies (#[trigger] moves[j]).0 != r by {
            if j > 0 {
                assert(moves.drop_first()[j - 1] == moves[j]);
            }
        }
    }
}

/// Emitting a move whose destination no pending move reads, and dropping it
/// from the pending set, leaves the combined meaning of "moves done so far,
/// then the rest in parallel" unchanged.
proof fn lemma_emit_preserves(t: Map<usize, int>, pending: Seq<(usize, usize)>, i: int)
    requires
        full_map(t),
        dests_distinct(pending),
        0 <= i < pending.len(),
        forall|j: int| 0 <= j < pending.len() ==> (#[trigger] pending[j]).1 != pending[i].0,
    ensures
        forall|rg: usize|
            apply_par(t.insert(pending[i].0, t[pending[i].1]), pending.remove(i), rg)
                == #[trigger] apply_par(t, pending, rg),
{
    let d = pending[i].0;
    let src = pending[i].1;
    let t2 = t.insert(d, t[src]);
    let rest = pending.remove(i);
    lemma_dests_distinct_remove(pending, i);
    assert forall|rg: usize|
        apply_par(t2, rest, rg) == #[trigger] apply_par(t, pending, rg) by {
        if rg == d {
            lemma_par_lookup_at(pending, i);
            assert forall|j: int| 0 <= j < rest.len() implies (#[trigger] rest[j]).0 != d by {
                let j2: int = if j < i {
                    j
                } else {
                    j + 1
                };
                assert(rest[j] == pending[j2]);
            }
            lemma_par_lookup_none(rest, d);
        } else {
            match par_lookup(pending, rg) {
                Some(_) => {
                    lemma_par_lookup_some_witness(pending, rg);
                    let j = choose|j: int|
                        0 <= j < pending.len() && (#[trigger] pending[j]).0 == rg && pending[j].1
                            == par_lookup(pending, rg).unwrap();
                    assert(j != i);
                    let j2: int = if j < i {
                        j
                    } else {
                        j - 1
                    };
                    assert(rest[j2] == pending[j]);
                    lemma_par_lookup_at(rest, j2);
                    assert(pending[j].1 != d);
                    assert(t2[pending[j].1] == t[pending[j].1]);
                },
                None => {
                    lemma_par_lookup_none_witness(pending, rg);
                    assert forall|j: int| 0 <= j < rest.len() implies (#[trigger] rest[j]).0
                        != rg by {
                        let j2: int = if j < i {
                            j
                        } else {
                            j + 1
                        };
                        assert(rest[j] == pending[j2]);
                    }
                    lemma_par_lookup_none(rest, rg);
                },
            }
        }
    }
}

/// Redirecting one pending move to read a brand-new scratch register, right
/// after saving its old source into that scratch, leaves the combined meaning
/// unchanged on every register but the scratch itself.
proof fn lemma_rewrite_preserves(t: Map<usize, int>, pending: Seq<(usize, usize)>, i: int, tr: usize)
    requires
        full_map(t),
        dests_distinct(pending),
        0 <= i < pending.len(),
        forall|k: int|
            0 <= k < pending.len() ==> (#[trigger] pending[k]).0 != tr && pending[k].1 != tr,
    ensures
        forall|rg: usize|
            rg != tr ==> apply_par(
                t.insert(tr, t[pending[i].1]),
                pending.update(i, (pending[i].0, tr)),
                rg,
            ) == #[trigger] apply_par(t, pending, rg),
{
    let d = pending[i].0;
    let src = pending[i].1;
    let t2 = t.insert(tr, t[src]);
    let newp = pending.update(i, (d, tr));
    assert(dests_distinct(newp)) by {
        assert forall|a: int, b: int| 0 <= a < b < newp.len() implies newp[a].0 != newp[b].0 by {
            assert(newp[a].0 == pending[a].0 && newp[b].0 == pending[b].0);
        }
    }
    assert forall|rg: usize|
        rg != tr implies apply_par(t2, newp, rg) == #[trigger] apply_par(t, pending, rg) by {
        if rg == d {
            lemma_par_lookup_at(pending, i);
            lemma_par_lookup_at(newp, i);
            assert(apply_par(t2, newp, d) == t2[tr]);
            assert(apply_par(t, pending, d) == t[src]);
        } else {
            match par_lookup(pending, rg) {
                Some(_) => {
                    lemma_par_lookup_some_witness(pending, rg);
                    let j = choose|j: int|
                        0 <= j < pending.len() && (#[trigger] pending[j]).0 == rg && pending[j].1
                            == par_lookup(pending, rg).unwrap();
                    assert(j != i);
                    assert(newp[j] == pending[j]);
                    lemma_par_lookup_at(newp, j);
                    assert(pending[j].1 != tr);
                    assert(t2[pending[j].1] == t[pending[j].1]);
                },
                None => {
                    lemma_par_lookup_none_witness(pending, rg);
                    assert forall|j: int| 0 <= j < newp.len() implies (#[trigger] newp[j]).0
                        != rg by {
                        assert(newp[j].0 == pending[j].0);
                    }
                    lemma_par_lookup_none(newp, rg);
                    assert(t2[rg] == t[rg]);
                },
            }
        }
    }
}

/// Concatenation resolves lookups left to right.
proof fn lemma_par_lookup_concat(a: Seq<(usize, usize)>, b: Seq<(usize, usize)>, r: usize)
    ensures
        par_lookup(a + b, r) == (if par_lookup(a, r) is Some {
            par_lookup(a, r)
        } else {
            par_lookup(b, r)
        }),
    decreases a.len(),
{
    if a.len() == 0 {
        assert(a + b =~= b);
    } else {
        assert((a + b)[0] == a[0]);
        assert((a + b).drop_first() =~= a.drop_first() + b);
        lemma_par_lookup_concat(a.drop_first(), b, r);
    }
}

/// A move of a register onto itself can be dropped from a parallel move set.
proof fn lemma_drop_self_move(p: Seq<(usize, usize)>, rest: Seq<(usize, usize)>, d: usize)
    requires
        dests_distinct(p + seq![(d, d)] + rest),
    ensures
        dests_distinct(p + rest),
        forall|s: Map<usize, int>, rg: usize|
            full_map(s) ==> #[trigger] apply_par(s, p + rest, rg) == apply_par(
                s,
                p + seq![(d, d)] + rest,
                rg,
            ),
{
    let whole = p + seq![(d, d)] + rest;
    assert(whole[p.len() as int] == (d, d));
    assert forall|a: int, b: int| 0 <= a < b < (p + rest).len() implies (p + rest)[a].0 != (p
        + rest)[b].0 by {
        let a2: int = if a < p.len() {
            a
        } else {
            a + 1
        };
        let b2: int = if b < p.len() {
            b
        } else {
            b + 1
        };
        assert((p + rest)[a] == whole[a2] && (p + rest)[b] == whole[b2]);
    }
    assert forall|s: Map<usize, int>, rg: usize| full_map(s) implies #[trigger] apply_par(
        s,
        p + rest,
        rg,
    ) == apply_par(s, whole, rg) by {
        lemma_par_lookup_concat(p, rest, rg);
        lemma_par_lookup_concat(p + seq![(d, d)], rest, rg);
        lemma_par_lookup_concat(p, seq![(d, d)], rg);
        assert(whole =~= (p + seq![(d, d)]) + rest);
        if rg == d {
            assert forall|k: int| 0 <= k < p.len() implies (#[trigger] p[k]).0 != d by {
                assert(whole[k] == p[k]);
            }
            lemma_par_lookup_none(p, d);
            assert forall|k: int| 0 <= k < rest.len() implies (#[trigger] rest[k]).0 != d by {
                assert(whole[p.len() + 1 + k] == rest[k]);
            }
            lemma_par_lookup_none(rest, d);
            assert(par_lookup(seq![(d, d)], d) == Some(d));
        } else {
            assert(par_lookup(seq![(d, d)], rg) is None) by {
                reveal_with_fuel(par_lookup, 3);
                assert(seq![(d, d)][0] == (d, d));
                assert(seq![(d, d)].drop_first() =~= Seq::<(usize, usize)>::empty());
                assert(par_lookup(Seq::<(usize, usize)>::empty(), rg) is None);
            }
        }
    }
}

/// How many moves read a register below `fresh0`.
pub open spec fn count_low_srcs(moves: Seq<(usize, usize)>, fresh0: usize) -> nat
    decreases moves.len(),
{
    if moves.len() == 0 {
        0
    } else {
        count_low_srcs(moves.drop_last(), fresh0) + (if moves.last().1 < fresh0 {
            1nat
        } else {
            0
        })
    }
}

proof fn lemma_count_low_srcs_le_len(moves: Seq<(usize, usize)>, fresh0: usize)
    ensures
        count_low_srcs(moves, fresh0) <= moves.len(),
    decreases moves.len(),
{
    if moves.len() > 0 {
        lemma_count_low_srcs_le_len(moves.drop_last(), fresh0);
    }
}

proof fn lemma_count_low_srcs_remove(moves: Seq<(usize, usize)>, i: int, fresh0: usize)
    requires
        0 <= i < moves.len(),
    ensures
        count_low_srcs(moves.remove(i), fresh0) == count_low_srcs(moves, fresh0) - (if moves[i].1
            < fresh0 {
            1int
        } else {
            0
        }),
    decreases moves.len(),
{
    if i == moves.len() - 1 {
        assert(moves.remove(i) =~= moves.drop_last());
    } else {
        assert(moves.remove(i).drop_last() =~= moves.drop_last().remove(i));
        assert(moves.remove(i).last() == moves.last());
        lemma_count_low_srcs_remove(moves.drop_last(), i, fresh0);
    }
}

proof fn lemma_count_low_srcs_update(
    moves: Seq<(usize, usize)>,
    i: int,
    m: (usize, usize),
    fresh0: usize,
)
    requires
        0 <= i < moves.len(),
    ensures
        count_low_srcs(moves.update(i, m), fresh0) == count_low_srcs(moves, fresh0) + (if m.1
            < fresh0 {
            1int
        } else {
            0
        }) - (if moves[i].1 < fresh0 {
            1int
        } else {
            0
        }),
    decreases moves.len(),
{
    let t = moves.update(i, m);
    if i == moves.len() - 1 {
        assert(t.drop_last() =~= moves.drop_last());
    } else {
        assert(t.drop_last() =~= moves.drop_last().update(i, m));
        assert(t.last() == moves.last());
        lemma_count_low_srcs_update(moves.drop_last(), i, m, fresh0);
    }
}

/// Some move of the set reads register `d`.
pub open spec fn has_reader_spec(moves: Seq<(usize, usize)>, d: usize) -> bool {
    exists|j: int| 0 <= j < moves.len() && (#[trigger] moves[j]).1 == d
}

/// Whether some pending move reads register `d`.
fn has_reader(pending: &Vec<(usize, usize)>, d: usize) -> (r: bool)
    ensures
        r == has_reader_spec(pending@, d),
{
    let n = pending.len();
    let mut j: usize = 0;
    while j < n
        invariant
            0 <= j <= n,
            n == pending@.len(),
            forall|jj: int| 0 <= jj < j ==> (#[trigger] pending@[jj]).1 != d,
        decreases n - j,
    {
        if pending[j].1 == d {
            assert(has_reader_spec(pending@, d));
            return true;
        }
        j += 1;
    }
    false
}

/// Finds a move whose destination no pending move reads, if one exists.
fn find_emittable(pending: &Vec<(usize, usize)>) -> (r: Option<usize>)
    ensures
        (match r {
            Some(i) => i < pending@.len() && forall|j: int|
                0 <= j < pending@.len() ==> (#[trigger] pending@[j]).1 != pending@[i as int].0,
            None => forall|i: int|
                0 <= i < pending@.len() ==> has_reader_spec(
                    pending@,
                    (#[trigger] pending@[i]).0,
                ),
        }),
{
    let n = pending.len();
    let mut i: usize = 0;
    while i < n
        invariant
            0 <= i <= n,
            n == pending@.len(),
            forall|ii: int|
                0 <= ii < i ==> has_reader_spec(pending@, (#[trigger] pending@[ii]).0),
        decreases n - i,
    {
        if !has_reader(pending, pending[i].0) {
            return Some(i);
        }
        i += 1;
    }
    None
}

/// Finds a move whose source is an original register, not a scratch.
fn find_low_src(pending: &Vec<(usize, usize)>, fresh0: usize) -> (r: usize)
    requires
        exists|k: int| 0 <= k < pending@.len() && (#[trigger] pending@[k]).1 < fresh0,
    ensures
        r < pending@.len(),
        pending@[r as int].1 < fresh0,
{
    let n = pending.len();
    let mut i: usize = 0;
    while i < n
        invariant
            0 <= i <= n,
            n == pending@.len(),
            forall|ii: int| 0 <= ii < i ==> (#[trigger] pending@[ii]).1 >= fresh0,
        decreases n - i,
    {
        if pending[i].1 < fresh0 {
            return i;
        }
        i += 1;
    }
    assert(false);
    0
}

/// Serializes a set of parallel moves into ordinary one-at-a-time moves.
/// All registers of `moves` lie below `fresh0`; scratch registers minted to
/// break cycles are numbered from `fresh0` up, and the second component of
/// the result is the first register number left unused. The sequenced moves
/// compute, on every register below `fresh0` and from every starting state,
/// exactly the state that the parallel set computes, and no destination is
/// written twice.
/// Drops moves of a register onto itself; they mean nothing under either
/// semantics.
#[verifier::loop_isolation(false)]
#[verifier::rlimit(60)]
#[verifier::spinoff_prover]
fn drop_self_moves(moves: &Vec<(usize, usize)>, fresh0: usize) -> (p: Vec<(usize, usize)>)
    requires
        dests_distinct(moves@),
        forall|k: int|
            0 <= k < moves@.len() ==> (#[trigger] moves@[k]).0 < fresh0 && moves@[k].1 < fresh0,
    ensures
        dests_distinct(p@),
        p@.len() <= moves@.len(),
        forall|k: int|
            0 <= k < p@.len() ==> (#[trigger] p@[k]).0 < fresh0 && p@[k].1 < fresh0 && p@[k].0
                != p@[k].1,
        forall|s: Map<usize, int>, rg: usize|
            full_map(s) ==> #[trigger] apply_par(s, p@, rg) == apply_par(s, moves@, rg),
{
    let n = moves.len();
    let mut pending: Vec<(usize, usize)> = Vec::new();
    proof {
        assert(pending@ + moves@.skip(0) =~= moves@);
    }
    let mut idx: usize = 0;
    while idx < n
        invariant
            0 <= idx <= n,
            n == moves@.len(),
            dests_distinct(pending@ + moves@.skip(idx as int)),
            forall|k: int|
                0 <= k < pending@.len() ==> (#[trigger] pending@[k]).0 < fresh0 && pending@[k].1
                    < fresh0 && pending@[k].0 != pending@[k].1,
            pending@.len() <= idx,
            forall|s: Map<usize, int>, rg: usize|
                full_map(s) ==> #[trigger] apply_par(s, pending@ + moves@.skip(idx as int), rg)
                    == apply_par(s, moves@, rg),
        decreases n - idx,
    {
        let mv = moves[idx];
        let ghost before = pending@ + moves@.skip(idx as int);
        proof {
            assert(moves@.skip(idx as int)[0] == mv);
        }
        if mv.0 != mv.1 {
            pending.push(mv);
            proof {
                assert(pending@ + moves@.skip(idx + 1) =~= before);
            }
        } else {
            proof {
                assert(before =~= pending@ + seq![(mv.0, mv.0)] + moves@.skip(idx + 1));
                lemma_drop_self_move(pending@, moves@.skip(idx + 1), mv.0);
                assert forall|s: Map<usize, int>, rg: usize| full_map(s) implies #[trigger] apply_par(
                    s,
                    pending@ + moves@.skip(idx + 1),
                    rg,
                ) == apply_par(s, moves@, rg) by {
                    assert(apply_par(s, pending@ + moves@.skip(idx + 1), rg) == apply_par(
                        s,
                        before,
                        rg,
                    ));
                }
            }
        }
        idx += 1;
    }
    proof {
        assert(moves@.skip(n as int) =~= Seq::<(usize, usize)>::empty());
        assert(pending@ + moves@.skip(n as int) =~= pending@);
    }
    pending
}

#[verifier::loop_isolation(false)]
#[verifier::rlimit(100)]
#[verifier::spinoff_prover]
pub fn sequence_moves(moves: &Vec<(usize, usize)>, fresh0: usize) -> (r: (
    Vec<(usize, usize)>,
    usize,
))
    requires
        dests_distinct(moves@),
        forall|k: int|
            0 <= k < moves@.len() ==> (#[trigger] moves@[k]).0 < fresh0 && moves@[k].1 < fresh0,
        fresh0 + moves@.len() <= usize::MAX,
    ensures
        fresh0 <= r.1 <= fresh0 + moves@.len(),
        dests_distinct(r.0@),
        forall|k: int|
            0 <= k < r.0@.len() ==> (#[trigger] r.0@[k]).0 < r.1 && r.0@[k].1 < r.1,
        forall|s: Map<usize, int>, rg: usize|
            full_map(s) && rg < fresh0 ==> #[trigger] apply_seq(s, r.0@)[rg] == apply_par(
                s,
                moves@,
                rg,
            ),
{
    let n = moves.len();
    let mut pending: Vec<(usize, usize)> = drop_self_moves(moves, fresh0);
    proof {
        lemma_count_low_srcs_le_len(pending@, fresh0);
    }
    let mut emitted: Vec<(usize, usize)> = Vec::new();
    let mut fresh: usize = fresh0;
    while pending.len() > 0
        invariant
            dests_distinct(pending@),
            forall|k: int|
                0 <= k < pending@.len() ==> (#[trigger] pending@[k]).0 < fresh0 && pending@[k].1
                    < fresh && pending@[k].0 != pending@[k].1,
            dests_distinct(emitted@),
            forall|k: int|
                0 <= k < emitted@.len() ==> (#[trigger] emitted@[k]).0 < fresh && emitted@[k].1
                    < fresh,
            forall|k: int, l: int|
                0 <= k < emitted@.len() && 0 <= l < pending@.len() ==> (
                #[trigger] emitted@[k]).0 != (#[trigger] pending@[l]).0,
            fresh0 <= fresh,
            fresh - fresh0 + count_low_srcs(pending@, fresh0) <= n,
            n == moves@.len(),
            forall|s: Map<usize, int>, rg: usize|
                full_map(s) && rg < fresh0 ==> #[trigger] apply_par(
                    apply_seq(s, emitted@),
                    pending@,
                    rg,
                ) == apply_par(s, moves@, rg),
        decreases pending@.len(), count_low_srcs(pending@, fresh0),
    {
        let choice = find_emittable(&pending);
        match choice {
            Some(i) => {
                let ghost oldp = pending@;
                let ghost olde = emitted@;
                let mv = pending.remove(i);
                emitted.push(mv);
                proof {
                    lemma_dests_distinct_remove(oldp, i as int);
                    lemma_count_low_srcs_remove(oldp, i as int, fresh0);
                    assert forall|s: Map<usize, int>, rg: usize|
                        full_map(s) && rg < fresh0 implies #[trigger] apply_par(
                        apply_seq(s, emitted@),
                        pending@,
                        rg,
                    ) == apply_par(s, moves@, rg) by {
                        lemma_apply_seq_full(s, olde);
                        let t = apply_seq(s, olde);
                        lemma_apply_seq_snoc(s, olde, mv);
                        lemma_emit_preserves(t, oldp, i as int);
                        assert(apply_par(apply_seq(s, olde), oldp, rg) == apply_par(
                            s,
                            moves@,
                            rg,
                        ));
                    }
                    assert forall|k: int, l: int|
                        0 <= k < emitted@.len() && 0 <= l < pending@.len() implies (
                    #[trigger] emitted@[k]).0 != (#[trigger] pending@[l]).0 by {
                        let l2: int = if l < i {
                            l
                        } else {
                            l + 1
                        };
                        assert(pending@[l] == oldp[l2]);
                        if k < olde.len() {
                            assert(emitted@[k] == olde[k]);
                        } else {
                            assert(emitted@[k] == mv && mv == oldp[i as int]);
                        }
                    }
                }
            },
            None => {
                // Every destination is still read by some pending move: the
                // remaining moves form cycles. Save one original source into a
                // fresh scratch and redirect its move to read the scratch.
                proof {
                    assert(exists|k: int|
                        0 <= k < pending@.len() && (#[trigger] pending@[k]).1 < fresh0) by {
                        if forall|k: int|
                            0 <= k < pending@.len() ==> (#[trigger] pending@[k]).1 >= fresh0 {
                            let d0 = pending@[0].0;
                            assert(has_reader_spec(pending@, d0));
                            let j = choose|j: int|
                                0 <= j < pending@.len() && (#[trigger] pending@[j]).1 == d0;
                            assert(pending@[j].1 >= fresh0 && d0 < fresh0);
                            assert(false);
                        }
                    }
                }
                let i = find_low_src(&pending, fresh0);
                let t = fresh;
                proof {
                    lemma_count_low_srcs_le_len(pending@, fresh0);
                    assert(count_low_srcs(pending@, fresh0) >= 1) by {
                        lemma_count_low_srcs_remove(pending@, i as int, fresh0);
                    }
                }
                fresh = fresh + 1;
                let ghost oldp = pending@;
                let ghost olde = emitted@;
                let src = pending[i].1;
                let dst = pending[i].0;
                emitted.push((t, src));
                pending.set(i, (dst, t));
                proof {
                    lemma_count_low_srcs_update(oldp, i as int, (dst, t), fresh0);
                    assert forall|s: Map<usize, int>, rg: usize|
                        full_map(s) && rg < fresh0 implies #[trigger] apply_par(
                        apply_seq(s, emitted@),
                        pending@,
                        rg,
                    ) == apply_par(s, moves@, rg) by {
                        lemma_apply_seq_full(s, olde);
                        let tm = apply_seq(s, olde);
                        lemma_apply_seq_snoc(s, olde, (t, src));
                        lemma_rewrite_preserves(tm, oldp, i as int, t);
                        assert(apply_par(apply_seq(s, olde), oldp, rg) == apply_par(
                            s,
                            moves@,
                            rg,
                        ));
                    }
                    assert forall|a: int, b: int|
                        0 <= a < b < pending@.len() implies pending@[a].0 != pending@[b].0 by {
                        assert(pending@[a].0 == oldp[a].0 && pending@[b].0 == oldp[b].0);
                    }
                    assert forall|k: int, l: int|
                        0 <= k < emitted@.len() && 0 <= l < pending@.len() implies (
                    #[trigger] emitted@[k]).0 != (#[trigger] pending@[l]).0 by {
                        assert(pending@[l].0 == oldp[l].0 && oldp[l].0 < fresh0);
                        if k < olde.len() {
                            assert(emitted@[k] == olde[k]);
                        } else {
                            assert(emitted@[k].0 == t && t >= fresh0);
                        }
                    }
                }
            },
        }
    }
    proof {
        assert forall|s: Map<usize, int>, rg: usize|
            full_map(s) && rg < fresh0 implies #[trigger] apply_seq(s, emitted@)[rg] == apply_par(
            s,
            moves@,
            rg,
        ) by {
            assert(apply_par(apply_seq(s, emitted@), pending@, rg) == apply_par(s, moves@, rg));
            assert(par_lookup(pending@, rg) is None);
        }
    }
    (emitted, fresh)
}

/// A block's parallel moves as abstract register pairs.
pub open spec fn moves_view(pm: Seq<(ValueId, ValueId)>) -> Seq<(usize, usize)> {
    pm.map_values(|m: (ValueId, ValueId)| (m.0.0, m.1.0))
}

/// Total number of parallel moves in the first `b` blocks.
pub open spec fn pm_total_upto(f: Function, b: int) -> nat
    decreases b,
{
    if b <= 0 {
        0
    } else {
        pm_total_upto(f, b - 1) + f.blocks@[b - 1].par_moves@.len()
    }
}

proof fn lemma_pm_total_monotone(f: Function, a: int, b: int)
    requires
        0 <= a <= b,
    ensures
        pm_total_upto(f, a) <= pm_total_upto(f, b),
    decreases b - a,
{
    if a < b {
        lemma_pm_total_monotone(f, a, b - 1);
    }
}

/// Converts a block's move list to abstract register pairs.
fn moves_to_usize(pm: &Vec<(ValueId, ValueId)>) -> (r: Vec<(usize, usize)>)
    ensures
        r@ == moves_view(pm@),
{
    let n = pm.len();
    let mut r: Vec<(usize, usize)> = Vec::new();
    let mut i: usize = 0;
    while i < n
        invariant
            0 <= i <= n,
            n == pm@.len(),
            r@ == moves_view(pm@.take(i as int)),
        decreases n - i,
    {
        let m = pm[i];
        r.push((m.0.0, m.1.0));
        proof {
            assert(r@ =~= moves_view(pm@.take(i + 1)));
        }
        i += 1;
    }
    proof {
        assert(pm@.take(n as int) =~= pm@);
    }
    r
}

/// Converts abstract register pairs back to value moves.
fn moves_from_usize(mv: &Vec<(usize, usize)>) -> (r: Vec<(ValueId, ValueId)>)
    ensures
        moves_view(r@) == mv@,
        r@.len() == mv@.len(),
        forall|k: int|
            0 <= k < mv@.len() ==> #[trigger] r@[k] == (
                ValueId(mv@[k].0),
                ValueId(mv@[k].1),
            ),
{
    let n = mv.len();
    let mut r: Vec<(ValueId, ValueId)> = Vec::new();
    let mut i: usize = 0;
    while i < n
        invariant
            0 <= i <= n,
            n == mv@.len(),
            r@.len() == i,
            forall|k: int|
                0 <= k < i ==> #[trigger] r@[k] == (ValueId(mv@[k].0), ValueId(mv@[k].1)),
        decreases n - i,
    {
        let m = mv[i];
        r.push((ValueId(m.0), ValueId(m.1)));
        i += 1;
    }
    proof {
        assert(moves_view(r@) =~= mv@);
    }
    r
}

/// Sequences the parallel moves of every block of one function.
#[verifier::loop_isolation(false)]
fn sequence_function(func: &mut Function)
    requires
        old(func).wf(),
        forall|b: int|
            0 <= b < old(func).blocks@.len() ==> dests_distinct(
                moves_view((#[trigger] old(func).blocks@[b]).par_moves@),
            ),
        forall|b: int, k: int|
            0 <= b < old(func).blocks@.len() && 0 <= k
                < old(func).blocks@[b].par_moves@.len() ==> (
            #[trigger] old(func).blocks@[b].par_moves@[k]).0.0 < old(func).values@.len()
                && old(func).blocks@[b].par_moves@[k].1.0 < old(func).values@.len(),
        old(func).values@.len() + pm_total_upto(*old(func), old(func).blocks@.len() as int)
            <= usize::MAX,
    ensures
        final(func).wf(),
        final(func).blocks@.len() == old(func).blocks@.len(),
        final(func).values@.len() >= old(func).values@.len(),
        final(func).variables == old(func).variables,
        final(func).name == old(func).name,
        final(func).ret_type == old(func).ret_type,
        final(func).args == old(func).args,
        final(func).linkage == old(func).linkage,
        final(func).id == old(func).id,
        forall|b: int|
            0 <= b < old(func).blocks@.len() ==> {
                let nb = #[trigger] final(func).blocks@[b];
                let ob = old(func).blocks@[b];
                nb.instructions == ob.instructions && nb.name == ob.name && nb.id == ob.id
                    && nb.preds == ob.preds && nb.succs == ob.succs && nb.terminator
                    == ob.terminator
            },
        forall|b: int|
            0 <= b < old(func).blocks@.len() ==> dests_distinct(
                moves_view((#[trigger] final(func).blocks@[b]).par_moves@),
            ),
        forall|b: int|
            0 <= b < old(func).blocks@.len() ==> (forall|s: Map<usize, int>, rg: usize|
                full_map(s) && rg < old(func).values@.len() ==> #[trigger] apply_seq(
                    s,
                    moves_view(final(func).blocks@[b].par_moves@),
                )[rg] == apply_par(
                    s,
                    moves_view(#[trigger] old(func).blocks@[b].par_moves@),
                    rg,
                )),
{
    let nblocks = func.blocks.len();
    let mut bi: usize = 0;
    while bi < nblocks
        invariant
            func.wf(),
            nblocks == old(func).blocks@.len(),
            func.blocks@.len() == nblocks,
            func.values@.len() >= old(func).values@.len(),
            func.values@.len() + pm_total_upto(*old(func), nblocks as int) - pm_total_upto(
                *old(func),
                bi as int,
            ) <= usize::MAX,
            func.variables == old(func).variables,
            func.name == old(func).name,
            func.ret_type == old(func).ret_type,
            func.args == old(func).args,
            func.linkage == old(func).linkage,
            func.id == old(func).id,
            0 <= bi <= nblocks,
            forall|b: int|
                0 <= b < nblocks ==> {
                    let nb = #[trigger] func.blocks@[b];
                    let ob = old(func).blocks@[b];
                    nb.instructions == ob.instructions && nb.name == ob.name && nb.id == ob.id
                        && nb.preds == ob.preds && nb.succs == ob.succs && nb.terminator
                        == ob.terminator
                },
            forall|b: int|
                bi <= b < nblocks ==> (#[trigger] func.blocks@[b]).par_moves == old(
                    func,
                ).blocks@[b].par_moves,
            forall|b: int|
                0 <= b < bi ==> dests_distinct(
                    moves_view((#[trigger] func.blocks@[b]).par_moves@),
                ),
            forall|b: int|
                0 <= b < bi ==> (forall|s: Map<usize, int>, rg: usize|
                    full_map(s) && rg < old(func).values@.len() ==> #[trigger] apply_seq(
                        s,
                        moves_view(func.blocks@[b].par_moves@),
                    )[rg] == apply_par(
                        s,
                        moves_view(#[trigger] old(func).blocks@[b].par_moves@),
                        rg,
                    )),
        decreases nblocks - bi,
    {
        let pmu = moves_to_usize(&func.blocks[bi].par_moves);
        let fresh0 = func.values.len();
        proof {
            assert(pm_total_upto(*old(func), bi + 1) == pm_total_upto(*old(func), bi as int)
                + old(func).blocks@[bi as int].par_moves@.len());
            lemma_pm_total_monotone(*old(func), bi + 1, nblocks as int);
            assert forall|k: int| 0 <= k < pmu@.len() implies (#[trigger] pmu@[k]).0 < fresh0
                && pmu@[k].1 < fresh0 by {
                assert(pmu@[k] == moves_view(old(func).blocks@[bi as int].par_moves@)[k]);
                assert(old(func).blocks@[bi as int].par_moves@[k].0.0 < old(func).values@.len());
            }
        }
        let r = sequence_moves(&pmu, fresh0);
        let seqd = r.0;
        let fresh1 = r.1;
        let ghost fsnap = *func;
        while func.values.len() < fresh1
            invariant
                fresh0 <= func.values@.len() <= fresh1,
                fresh1 <= usize::MAX,
                func.wf(),
                func.blocks == fsnap.blocks,
                func.variables == fsnap.variables,
                func.name == fsnap.name,
                func.ret_type == fsnap.ret_type,
                func.args == fsnap.args,
                func.linkage == fsnap.linkage,
                func.id == fsnap.id,
            decreases fresh1 - func.values@.len(),
        {
            let ghost before = *func;
            func.push_value(Type::Void);
            proof {
                assert forall|b: int, i: int|
                    0 <= b < func.blocks@.len() && 0 <= i
                        < func.blocks@[b].instructions@.len() implies func.instr_wf(
                    #[trigger] func.blocks@[b].instructions@[i],
                ) by {
                    assert(before.instr_wf(before.blocks@[b].instructions@[i]));
                }
                assert forall|v: int, c: int|
                    0 <= v < func.values@.len() && 0 <= c
                        < func.values@[v].children@.len() implies (
                #[trigger] func.values@[v].children@[c]).0 < func.values@.len() by {
                    if v < before.values@.len() {
                        assert(func.values@[v] == before.values@[v]);
                        assert(before.values@[v].children@[c].0 < before.values@.len());
                    }
                }
                assert(func.wf());
            }
        }
        let newpm = moves_from_usize(&seqd);
        {
            let blk = &mut func.blocks[bi];
            blk.par_moves = newpm;
        }
        bi += 1;
    }
}

/// Serializes every block's parallel moves into ordinary sequential moves,
/// minting scratch values where a cyclic move set needs one. The sequenced
/// list computes the same final register state as the parallel set, for every
/// starting state and on every register that existed before the pass.
pub fn lower_par_moves(module: &mut Module)
    requires
        old(module).wf(),
        old(module).algos_run@.contains(Algo::PhiLowering),
        forall|f: int, b: int|
            0 <= f < old(module).functions@.len() && 0 <= b
                < old(module).functions@[f].blocks@.len() ==> dests_distinct(
                moves_view((#[trigger] old(module).functions@[f].blocks@[b]).par_moves@),
            ),
        forall|f: int, b: int, k: int|
            0 <= f < old(module).functions@.len() && 0 <= b
                < old(module).functions@[f].blocks@.len() && 0 <= k
                < old(module).functions@[f].blocks@[b].par_moves@.len() ==> (
            #[trigger] old(module).functions@[f].blocks@[b].par_moves@[k]).0.0
                < old(module).functions@[f].values@.len()
                && old(module).functions@[f].blocks@[b].par_moves@[k].1.0
                < old(module).functions@[f].values@.len(),
        forall|f: int|
            0 <= f < old(module).functions@.len() ==> (#[trigger] old(module).functions@[f]).values@.len() + pm_total_upto(
                old(module).functions@[f],
                old(module).functions@[f].blocks@.len() as int,
            ) <= usize::MAX,
    ensures
        final(module).wf(),
        final(module).algos_run@ == old(module).algos_run@.push(Algo::LowerParMoves),
        final(module).analysis_stage == old(module).analysis_stage,
        final(module).name == old(module).name,
        final(module).functions@.len() == old(module).functions@.len(),
        forall|f: int|
            0 <= f < old(module).functions@.len() ==> {
                let nf = #[trigger] final(module).functions@[f];
                let of = old(module).functions@[f];
                nf.variables == of.variables && nf.name == of.name && nf.ret_type == of.ret_type
                    && nf.args == of.args && nf.linkage == of.linkage && nf.id == of.id
                    && nf.blocks@.len() == of.blocks@.len() && nf.values@.len()
                    >= of.values@.len()
            },
        forall|f: int, b: int|
            0 <= f < old(module).functions@.len() && 0 <= b
                < old(module).functions@[f].blocks@.len() ==> {
                let nb = #[trigger] final(module).functions@[f].blocks@[b];
                let ob = old(module).functions@[f].blocks@[b];
                nb.instructions == ob.instructions && nb.name == ob.name && nb.id == ob.id
                    && nb.preds == ob.preds && nb.succs == ob.succs && nb.terminator
                    == ob.terminator
            },
        forall|f: int, b: int|
            0 <= f < old(module).functions@.len() && 0 <= b
                < old(module).functions@[f].blocks@.len() ==> dests_distinct(
                moves_view(
                    (#[trigger] final(module).functions@[f].blocks@[b]).par_moves@,
                ),
            ),
        forall|f: int, b: int|
            0 <= f < old(module).functions@.len() && 0 <= b
                < old(module).functions@[f].blocks@.len() ==> (forall|
                s: Map<usize, int>,
                rg: usize,
            |
                full_map(s) && rg < old(module).functions@[f].values@.len()
                    ==> #[trigger] apply_seq(
                    s,
                    moves_view(final(module).functions@[f].blocks@[b].par_moves@),
                )[rg] == apply_par(
                    s,
                    moves_view(
                        (#[trigger] old(module).functions@[f].blocks@[b]).par_moves@,
                    ),
                    rg,
                )),
{
    let ordered = log_contains(&module.algos_run, Algo::PhiLowering);
    assert(ordered);
    module.algos_run.push(Algo::LowerParMoves);
    let nfuncs = module.functions.len();
    let mut fi: usize = 0;
    while fi < nfuncs
        invariant
            old(module).wf(),
            forall|f: int, b: int|
                0 <= f < nfuncs && 0 <= b < old(module).functions@[f].blocks@.len()
                    ==> dests_distinct(
                    moves_view(
                        (#[trigger] old(module).functions@[f].blocks@[b]).par_moves@,
                    ),
                ),
            forall|f: int, b: int, k: int|
                0 <= f < nfuncs && 0 <= b < old(module).functions@[f].blocks@.len() && 0 <= k
                    < old(module).functions@[f].blocks@[b].par_moves@.len() ==> (
                #[trigger] old(module).functions@[f].blocks@[b].par_moves@[k]).0.0
                    < old(module).functions@[f].values@.len()
                    && old(module).functions@[f].blocks@[b].par_moves@[k].1.0
                    < old(module).functions@[f].values@.len(),
            forall|f: int|
                0 <= f < nfuncs ==> (#[trigger] old(module).functions@[f]).values@.len()
                    + pm_total_upto(
                    old(module).functions@[f],
                    old(module).functions@[f].blocks@.len() as int,
                ) <= usize::MAX,
            nfuncs == old(module).functions@.len(),
            module.functions@.len() == nfuncs,
            0 <= fi <= nfuncs,
            forall|f: int| fi <= f < nfuncs ==> #[trigger] module.functions@[f] == old(
                module,
            ).functions@[f],
            forall|f: int|
                0 <= f < fi ==> {
                    let nf = #[trigger] module.functions@[f];
                    let of = old(module).functions@[f];
                    nf.wf() && nf.variables == of.variables && nf.name == of.name && nf.ret_type
                        == of.ret_type && nf.args == of.args && nf.linkage == of.linkage && nf.id
                        == of.id && nf.blocks@.len() == of.blocks@.len() && nf.values@.len()
                        >= of.values@.len()
                },
            forall|f: int, b: int|
                0 <= f < fi && 0 <= b < old(module).functions@[f].blocks@.len() ==> {
                    let nb = #[trigger] module.functions@[f].blocks@[b];
                    let ob = old(module).functions@[f].blocks@[b];
                    nb.instructions == ob.instructions && nb.name == ob.name && nb.id == ob.id
                        && nb.preds == ob.preds && nb.succs == ob.succs && nb.terminator
                        == ob.terminator
                },
            forall|f: int, b: int|
                0 <= f < fi && 0 <= b < old(module).functions@[f].blocks@.len()
                    ==> dests_distinct(
                    moves_view((#[trigger] module.functions@[f].blocks@[b]).par_moves@),
                ),
            forall|f: int, b: int|
                0 <= f < fi && 0 <= b < old(module).functions@[f].blocks@.len() ==> (forall|
                    s: Map<usize, int>,
                    rg: usize,
                |
                    full_map(s) && rg < old(module).functions@[f].values@.len()
                        ==> #[trigger] apply_seq(
                        s,
                        moves_view(module.functions@[f].blocks@[b].par_moves@),
                    )[rg] == apply_par(
                        s,
                        moves_view(
                            (#[trigger] old(module).functions@[f].blocks@[b]).par_moves@,
                        ),
                        rg,
                    )),
            module.name == old(module).name,
            module.analysis_stage == old(module).analysis_stage,
            module.algos_run@ == old(module).algos_run@.push(Algo::LowerParMoves),
        decreases nfuncs - fi,
    {
        proof {
            assert(old(module).functions@[fi as int].wf());
        }
        sequence_function(&mut module.functions[fi]);
        fi += 1;
    }
}

} // verus!
