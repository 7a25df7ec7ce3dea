//! Sorting of the broad-phase candidate list by approach distance, and the
//! source-index bookkeeping of the scene caster's output filter, kept in a
//! module of their own so each query carries minimal context.

use vstd::prelude::*;

use crate::math::{rat_le, ratio_le, Ratio};

verus! {

/// The object index occurs in the source list.
pub open spec fn srcs_has(srcs: Seq<int>, i: int) -> bool {
    exists|kk: int| 0 <= kk < srcs.len() && (#[trigger] srcs[kk]) == i
}

/// The value occurs among the first `m` sources.
pub open spec fn srcs_prefix_has(srcs: Seq<int>, m: int, i: int) -> bool {
    exists|mm: int| 0 <= mm < m && (#[trigger] srcs[mm]) == i
}

/// A distance within the optional blocking bound.
pub open spec fn within_bound(nb: Option<Ratio>, d: Ratio) -> bool {
    match nb {
        None => true,
        Some(b) => rat_le(d@, b@),
    }
}

/// Inserting the next kept hit's source into the output sources keeps the
/// bookkeeping: every source still comes from the processed prefix, sources
/// stay pairwise distinct, and every kept prefix hit still has its source
/// present.
#[verifier::spinoff_prover]
pub(crate) proof fn lemma_retain_insert_srcs(
    hsrcs: Seq<int>,
    keys: Seq<Ratio>,
    old_osrcs: Seq<int>,
    new_osrcs: Seq<int>,
    nb: Option<Ratio>,
    m: int,
    pp: int,
)
    requires
        hsrcs.len() == keys.len(),
        0 <= m < hsrcs.len(),
        forall|m1: int, m2: int| 0 <= m1 < m2 < hsrcs.len() ==> hsrcs[m1] != hsrcs[m2],
        0 <= pp <= old_osrcs.len(),
        new_osrcs.len() == old_osrcs.len() + 1,
        forall|kk: int|
            0 <= kk < new_osrcs.len() ==> (#[trigger] new_osrcs[kk]) == (if kk < pp {
                old_osrcs[kk]
            } else if kk == pp {
                hsrcs[m]
            } else {
                old_osrcs[kk - 1]
            }),
        forall|kk: int|
            0 <= kk < old_osrcs.len() ==> srcs_prefix_has(hsrcs, m, #[trigger] old_osrcs[kk]),
        forall|k1: int, k2: int| 0 <= k1 < k2 < old_osrcs.len() ==> old_osrcs[k1] != old_osrcs[k2],
        forall|mm: int|
            0 <= mm < m && within_bound(nb, #[trigger] keys[mm]) ==> srcs_has(
                old_osrcs,
                hsrcs[mm],
            ),
    ensures
        forall|kk: int|
            0 <= kk < new_osrcs.len() ==> srcs_prefix_has(hsrcs, m + 1, #[trigger] new_osrcs[kk]),
        forall|k1: int, k2: int| 0 <= k1 < k2 < new_osrcs.len() ==> new_osrcs[k1] != new_osrcs[k2],
        forall|mm: int|
            0 <= mm < m + 1 && within_bound(nb, #[trigger] keys[mm]) ==> srcs_has(
                new_osrcs,
                hsrcs[mm],
            ),
{
    assert forall|kk: int|
        0 <= kk < new_osrcs.len() implies srcs_prefix_has(hsrcs, m + 1, #[trigger] new_osrcs[kk]) by {
        if kk < pp {
            let mm = choose|mm: int| 0 <= mm < m && (#[trigger] hsrcs[mm]) == old_osrcs[kk];
            assert(hsrcs[mm] == new_osrcs[kk]);
        } else if kk == pp {
            assert(hsrcs[m] == new_osrcs[kk]);
        } else {
            let mm = choose|mm: int| 0 <= mm < m && (#[trigger] hsrcs[mm]) == old_osrcs[kk - 1];
            assert(hsrcs[mm] == new_osrcs[kk]);
        }
    }
    assert forall|k1: int, k2: int|
        0 <= k1 < k2 < new_osrcs.len() implies new_osrcs[k1] != new_osrcs[k2] by {
        if k1 == pp || k2 == pp {
            let ko = if k1 == pp {
                k2
            } else {
                k1
            };
            let vo = if ko < pp {
                old_osrcs[ko]
            } else {
                old_osrcs[ko - 1]
            };
            assert(new_osrcs[ko] == vo);
            let mm = choose|mm: int| 0 <= mm < m && (#[trigger] hsrcs[mm]) == vo;
            assert(hsrcs[mm] != hsrcs[m]);
        }
    }
    assert forall|mm: int|
        0 <= mm < m + 1 && within_bound(nb, #[trigger] keys[mm]) implies srcs_has(
        new_osrcs,
        hsrcs[mm],
    ) by {
        if mm < m {
            let kk = choose|kk: int|
                0 <= kk < old_osrcs.len() && (#[trigger] old_osrcs[kk]) == hsrcs[mm];
            if kk < pp {
                assert(new_osrcs[kk] == hsrcs[mm]);
            } else {
                assert(new_osrcs[kk + 1] == hsrcs[mm]);
            }
        } else {
            assert(new_osrcs[pp] == hsrcs[mm]);
        }
    }
}

/// The entry occurs among the first `m` elements of `inp`.
pub open spec fn in_prefix(inp: Seq<(Ratio, usize)>, m: int, e: (Ratio, usize)) -> bool {
    exists|j: int| 0 <= j < m && inp[j] == e
}

/// The entry occurs in the sequence.
pub open spec fn appears(s: Seq<(Ratio, usize)>, e: (Ratio, usize)) -> bool {
    exists|k: int| 0 <= k < s.len() && s[k] == e
}

/// The pointwise shape of inserting `e` at position `pp`.
pub open spec fn is_insert_of(
    old_out: Seq<(Ratio, usize)>,
    new_out: Seq<(Ratio, usize)>,
    e: (Ratio, usize),
    pp: int,
) -> bool {
    &&& 0 <= pp <= old_out.len()
    &&& new_out.len() == old_out.len() + 1
    &&& forall|kk: int|
        0 <= kk < new_out.len() ==> (#[trigger] new_out[kk]) == (if kk < pp {
            old_out[kk]
        } else if kk == pp {
            e
        } else {
            old_out[kk - 1]
        })
}

/// Inserting at the found position keeps the output sorted by key.
#[verifier::spinoff_prover]
proof fn lemma_ins_sorted(
    old_out: Seq<(Ratio, usize)>,
    new_out: Seq<(Ratio, usize)>,
    e: (Ratio, usize),
    pp: int,
)
    requires
        is_insert_of(old_out, new_out, e, pp),
        forall|k1: int, k2: int|
            0 <= k1 < k2 < old_out.len() ==> rat_le(old_out[k1].0@, old_out[k2].0@),
        forall|kk: int| 0 <= kk < pp ==> rat_le((#[trigger] old_out[kk]).0@, e.0@),
        pp < old_out.len() ==> rat_le(e.0@, old_out[pp].0@),
        forall|k: int| 0 <= k < old_out.len() ==> (#[trigger] old_out[k]).0.wf(),
        e.0.wf(),
    ensures
        forall|k1: int, k2: int|
            0 <= k1 < k2 < new_out.len() ==> rat_le(new_out[k1].0@, new_out[k2].0@),
{
    assert forall|k1: int, k2: int|
        0 <= k1 < k2 < new_out.len() implies rat_le(new_out[k1].0@, new_out[k2].0@) by {
        if k2 < pp {
        } else if k1 < pp && k2 == pp {
        } else if k1 < pp && k2 > pp {
            if k2 - 1 > pp {
                crate::math::lemma_rat_le_trans(
                    old_out[k1].0@,
                    old_out[pp].0@,
                    old_out[k2 - 1].0@,
                );
            }
        } else if k1 == pp && k2 > pp {
            if k2 - 1 > pp {
                crate::math::lemma_rat_le_trans(e.0@, old_out[pp].0@, old_out[k2 - 1].0@);
            }
        } else {
        }
    }
}

/// Every entry of the inserted output comes from the processed prefix.
#[verifier::spinoff_prover]
proof fn lemma_ins_from_prefix(
    inp: Seq<(Ratio, usize)>,
    old_out: Seq<(Ratio, usize)>,
    new_out: Seq<(Ratio, usize)>,
    pp: int,
    m: int,
)
    requires
        0 <= m < inp.len(),
        old_out.len() == m,
        is_insert_of(old_out, new_out, inp[m], pp),
        forall|k: int| 0 <= k < old_out.len() ==> in_prefix(inp, m, #[trigger] old_out[k]),
    ensures
        forall|k: int| 0 <= k < new_out.len() ==> in_prefix(inp, m + 1, #[trigger] new_out[k]),
{
    assert forall|k: int| 0 <= k < new_out.len() implies in_prefix(
        inp,
        m + 1,
        #[trigger] new_out[k],
    ) by {
        if k < pp {
            let j = choose|j: int| 0 <= j < m && inp[j] == old_out[k];
            assert(inp[j] == new_out[k]);
        } else if k == pp {
            assert(inp[m] == new_out[k]);
        } else {
            let j = choose|j: int| 0 <= j < m && inp[j] == old_out[k - 1];
            assert(inp[j] == new_out[k]);
        }
    }
}

/// Every entry of the processed prefix still appears after the insertion.
#[verifier::spinoff_prover]
proof fn lemma_ins_keeps_prefix(
    inp: Seq<(Ratio, usize)>,
    old_out: Seq<(Ratio, usize)>,
    new_out: Seq<(Ratio, usize)>,
    pp: int,
    m: int,
)
    requires
        0 <= m < inp.len(),
        old_out.len() == m,
        is_insert_of(old_out, new_out, inp[m], pp),
        forall|j: int| 0 <= j < m ==> appears(old_out, #[trigger] inp[j]),
    ensures
        forall|j: int| 0 <= j < m + 1 ==> appears(new_out, #[trigger] inp[j]),
{
    assert forall|j: int| 0 <= j < m + 1 implies appears(new_out, #[trigger] inp[j]) by {
        if j < m {
            let k = choose|k: int| 0 <= k < old_out.len() && old_out[k] == inp[j];
            if k < pp {
                assert(new_out[k] == inp[j]);
            } else {
                assert(new_out[k + 1] == inp[j]);
            }
        } else {
            assert(new_out[pp] == inp[j]);
        }
    }
}

/// Insertion of an entry with a fresh object index keeps the indices
/// pairwise distinct.
#[verifier::spinoff_prover]
proof fn lemma_ins_distinct(
    inp: Seq<(Ratio, usize)>,
    old_out: Seq<(Ratio, usize)>,
    new_out: Seq<(Ratio, usize)>,
    pp: int,
    m: int,
)
    requires
        0 <= m < inp.len(),
        old_out.len() == m,
        is_insert_of(old_out, new_out, inp[m], pp),
        forall|k: int| 0 <= k < old_out.len() ==> in_prefix(inp, m, #[trigger] old_out[k]),
        forall|k1: int, k2: int| 0 <= k1 < k2 < inp.len() ==> inp[k1].1 != inp[k2].1,
        forall|k1: int, k2: int| 0 <= k1 < k2 < old_out.len() ==> old_out[k1].1 != old_out[k2].1,
    ensures
        forall|k1: int, k2: int| 0 <= k1 < k2 < new_out.len() ==> new_out[k1].1 != new_out[k2].1,
{
    assert forall|k1: int, k2: int|
        0 <= k1 < k2 < new_out.len() implies new_out[k1].1 != new_out[k2].1 by {
        if k1 == pp || k2 == pp {
            let ko = if k1 == pp {
                k2
            } else {
                k1
            };
            let vo = new_out[ko];
            let vo_old = if ko < pp {
                old_out[ko]
            } else {
                old_out[ko - 1]
            };
            assert(vo == vo_old);
            let jo = choose|j: int| 0 <= j < m && inp[j] == vo_old;
            if vo.1 == inp[m].1 {
                assert(inp[jo].1 == inp[m].1);
                assert(false);
            }
        }
    }
}

/// Sort the broad-phase candidates ascending by approach distance:
/// stable-by-insertion, preserving the candidate entries and the
/// distinctness of their object indices.
pub(crate) fn sort_culled(v: &mut Vec<(Ratio, usize)>)
    requires
        forall|k: int|
            0 <= k < old(v)@.len() ==> (#[trigger] old(v)@[k]).0.wf()
                && old(v)@[k].0.cmp_bounded(),
        forall|k1: int, k2: int|
            0 <= k1 < k2 < old(v)@.len() ==> old(v)@[k1].1 != old(v)@[k2].1,
    ensures
        final(v)@.len() == old(v)@.len(),
        forall|k: int|
            0 <= k < final(v)@.len() ==> (#[trigger] final(v)@[k]).0.wf()
                && final(v)@[k].0.cmp_bounded(),
        forall|k1: int, k2: int|
            0 <= k1 < k2 < final(v)@.len() ==> rat_le(final(v)@[k1].0@, final(v)@[k2].0@),
        forall|k: int|
            0 <= k < final(v)@.len() ==> in_prefix(
                old(v)@,
                old(v)@.len() as int,
                #[trigger] final(v)@[k],
            ),
        forall|j: int| 0 <= j < old(v)@.len() ==> appears(final(v)@, #[trigger] old(v)@[j]),
        forall|k1: int, k2: int|
            0 <= k1 < k2 < final(v)@.len() ==> final(v)@[k1].1 != final(v)@[k2].1,
{
    let ghost inp = v@;
    let mut out: Vec<(Ratio, usize)> = Vec::new();
    let mut m: usize = 0;
    while m < v.len()
        invariant
            v@ == inp,
            0 <= m <= inp.len(),
            out@.len() == m,
            forall|k: int|
                0 <= k < inp.len() ==> (#[trigger] inp[k]).0.wf() && inp[k].0.cmp_bounded(),
            forall|k1: int, k2: int| 0 <= k1 < k2 < inp.len() ==> inp[k1].1 != inp[k2].1,
            forall|k1: int, k2: int|
                0 <= k1 < k2 < out@.len() ==> rat_le(out@[k1].0@, out@[k2].0@),
            forall|k: int| 0 <= k < out@.len() ==> in_prefix(inp, m as int, #[trigger] out@[k]),
            forall|j: int| 0 <= j < m ==> appears(out@, #[trigger] inp[j]),
            forall|k1: int, k2: int| 0 <= k1 < k2 < out@.len() ==> out@[k1].1 != out@[k2].1,
        decreases inp.len() - m,
    {
        let e = v[m];
        proof {
            assert forall|k: int| 0 <= k < out@.len() implies (#[trigger] out@[k]).0.wf()
                && out@[k].0.cmp_bounded() by {
                let j = choose|j: int| 0 <= j < m && inp[j] == out@[k];
                assert(inp[j].0.wf() && inp[j].0.cmp_bounded());
            }
        }
        let mut p: usize = 0;
        while p < out.len() && ratio_le(&out[p].0, &e.0)
            invariant
                0 <= p <= out@.len(),
                e.0.wf(),
                e.0.cmp_bounded(),
                forall|k: int|
                    0 <= k < out@.len() ==> (#[trigger] out@[k]).0.wf()
                        && out@[k].0.cmp_bounded(),
                forall|k: int| 0 <= k < p ==> rat_le((#[trigger] out@[k]).0@, e.0@),
            decreases out@.len() - p,
        {
            p = p + 1;
        }
        proof {
            if p < out@.len() {
                crate::math::lemma_rat_le_total(out@[p as int].0@, e.0@);
                assert(rat_le(e.0@, out@[p as int].0@));
            }
        }
        let ghost old_out = out@;
        let ghost pp = p as int;
        out.insert(p, e);
        proof {
            assert(is_insert_of(old_out, out@, inp[m as int], pp));
            lemma_ins_sorted(old_out, out@, inp[m as int], pp);
            lemma_ins_from_prefix(inp, old_out, out@, pp, m as int);
            lemma_ins_keeps_prefix(inp, old_out, out@, pp, m as int);
            lemma_ins_distinct(inp, old_out, out@, pp, m as int);
        }
        m = m + 1;
    }
    proof {
        assert forall|k: int| 0 <= k < out@.len() implies (#[trigger] out@[k]).0.wf()
            && out@[k].0.cmp_bounded() by {
            let j = choose|j: int| 0 <= j < m && inp[j] == out@[k];
            assert(inp[j].0.wf() && inp[j].0.cmp_bounded());
        }
    }
    *v = out;
}

} // verus!
