use vstd::prelude::*;
use crate::store::SampleStore;
use crate::index::{PointIndex, seen_near, seen_apart, pairwise_apart, covered, lemma_covered_extends};

verus! {

/// Some answer of `siblings` for `p` is wholly covered by `s`: every
/// candidate around `p` is in `s` or lies near a point of `s`.
pub open spec fn expanded<P, S: Fn(&P) -> Vec<P>, N: Fn(&P, &P) -> bool>(
    siblings: S,
    near: N,
    s: Seq<P>,
    p: P,
) -> bool {
    exists|c: Vec<P>|
        #[trigger] siblings.ensures((&p,), c) && forall|j: int|
            0 <= j < c@.len() ==> covered(near, s, #[trigger] c@[j])
}

/// Expansion into a sequence carries over to every sequence that extends it.
pub proof fn lemma_expanded_extends<P, S: Fn(&P) -> Vec<P>, N: Fn(&P, &P) -> bool>(
    siblings: S,
    near: N,
    s: Seq<P>,
    t: Seq<P>,
    p: P,
)
    requires
        s.len() <= t.len(),
        t.subrange(0, s.len() as int) == s,
        expanded(siblings, near, s, p),
    ensures
        expanded(siblings, near, t, p),
{
    let c = choose|c: Vec<P>|
        #[trigger] siblings.ensures((&p,), c) && forall|j: int|
            0 <= j < c@.len() ==> covered(near, s, #[trigger] c@[j]);
    assert forall|j: int| 0 <= j < c@.len() implies covered(near, t, #[trigger] c@[j]) by {
        lemma_covered_extends(near, s, t, c@[j]);
    }
}

/// Flood-fills a surface from `start`. Each point, in order, is expanded:
/// every candidate that `siblings` proposes around it is kept unless `near`
/// reports an already kept point close to it. Growth stops at `cap` points.
///
/// The kept points begin with `start`, never exceed `cap`, and keep their
/// distance pairwise. Unless the cap was reached, every kept point was
/// expanded and every candidate around it is covered by the result.
pub fn spread<P: Copy, S: Fn(&P) -> Vec<P>, N: Fn(&P, &P) -> bool>(
    start: Vec<P>,
    siblings: &S,
    near: &N,
    cap: usize,
) -> (r: Vec<P>)
    requires
        start@.len() <= cap,
        forall|p: &P| #[trigger] siblings.requires((p,)),
        forall|a: &P, b: &P| #[trigger] near.requires((a, b)),
        pairwise_apart(*near, start@),
    ensures
        start@.len() <= r@.len() <= cap,
        r@.subrange(0, start@.len() as int) == start@,
        pairwise_apart(*near, r@),
        r@.len() < cap ==> forall|k: int|
            0 <= k < r@.len() ==> expanded(*siblings, *near, r@, #[trigger] r@[k]),
{
    let ghost start_seq = start@;
    let mut kept = PointIndex::new();
    kept.append(start);
    assert(kept@ == start_seq);
    let mut next: usize = 0;
    while next < kept.len() && kept.len() < cap
        invariant
            next <= kept@.len() <= cap,
            start_seq.len() <= kept@.len(),
            kept@.subrange(0, start_seq.len() as int) == start_seq,
            pairwise_apart(*near, kept@),
            forall|p: &P| #[trigger] siblings.requires((p,)),
            forall|a: &P, b: &P| #[trigger] near.requires((a, b)),
            kept@.len() < cap ==> forall|k: int|
                0 <= k < next ==> expanded(*siblings, *near, kept@, #[trigger] kept@[k]),
        decreases cap - next,
    {
        let parent: P = kept.items()[next];
        let cands = siblings(&parent);
        let ghost before = kept@;
        let mut j: usize = 0;
        while j < cands.len()
            invariant
                j <= cands@.len(),
                next < before.len() <= kept@.len() <= cap,
                parent == before[next as int],
                siblings.ensures((&parent,), cands),
                kept@.subrange(0, before.len() as int) == before,
                start_seq.len() <= before.len(),
                before.subrange(0, start_seq.len() as int) == start_seq,
                pairwise_apart(*near, kept@),
                forall|p: &P| #[trigger] siblings.requires((p,)),
                forall|a: &P, b: &P| #[trigger] near.requires((a, b)),
                before.len() < cap ==> forall|k: int|
                    0 <= k < next ==> expanded(*siblings, *near, before, #[trigger] before[k]),
                kept@.len() < cap ==> forall|i: int|
                    0 <= i < j ==> covered(*near, kept@, #[trigger] cands@[i]),
            decreases cands@.len() - j,
        {
            let c: P = cands[j];
            if kept.len() < cap {
                let ghost prev = kept@;
                if !kept.any_near(&c, near) {
                    kept.push(c);
                    assert(kept@[prev.len() as int] == c);
                    assert(covered(*near, kept@, c));
                    assert forall|i: int| 0 <= i < j implies covered(*near, kept@, #[trigger] cands@[i]) by {
                        assert(kept@.subrange(0, prev.len() as int) == prev);
                        lemma_covered_extends(*near, prev, kept@, cands@[i]);
                    }
                    assert forall|a: int, b: int| 0 <= a < b < kept@.len() implies #[trigger] seen_apart(*near, kept@[a], kept@[b]) by {
                        if b < prev.len() {
                            assert(seen_apart(*near, prev[a], prev[b]));
                        } else {
                            assert(seen_apart(*near, prev[a], c));
                        }
                    }
                    assert(kept@.subrange(0, before.len() as int) == before) by {
                        assert(prev.subrange(0, before.len() as int) == before);
                        assert(kept@.subrange(0, before.len() as int) =~= prev.subrange(0, before.len() as int));
                    }
                } else {
                    proof {
                        let k = choose|k: int| 0 <= k < kept@.len() && #[trigger] seen_near(*near, kept@[k], c);
                        assert(kept@[k] == kept@[k] && seen_near(*near, kept@[k], c));
                        assert(covered(*near, kept@, c));
                    }
                }
            }
            j += 1;
        }
        proof {
            if kept@.len() < cap {
                assert(before.len() < cap);
                assert forall|k: int| 0 <= k <= next implies expanded(*siblings, *near, kept@, #[trigger] kept@[k]) by {
                    assert(kept@[k] == before[k]);
                    if k < next {
                        lemma_expanded_extends(*siblings, *near, before, kept@, before[k]);
                    } else {
                        assert(forall|i: int| 0 <= i < cands@.len() ==> covered(*near, kept@, #[trigger] cands@[i]));
                        assert(siblings.ensures((&kept@[k],), cands));
                    }
                }
            }
            assert(kept@.subrange(0, start_seq.len() as int) =~= before.subrange(0, start_seq.len() as int));
        }
        next += 1;
    }
    kept.into_items()
}

/// The values that `outs` holds, in order, leaving out each `None`.
pub open spec fn somes<P>(outs: Seq<Option<P>>) -> Seq<P>
    decreases outs.len(),
{
    if outs.len() == 0 {
        Seq::empty()
    } else {
        let rest = somes(outs.drop_last());
        match outs.last() {
            Option::Some(x) => rest.push(x),
            Option::None => rest,
        }
    }
}

/// `outs` holds, position by position, an answer of `project` for `points`.
pub open spec fn projected<P, R: Fn(&P) -> Option<P>>(
    project: R,
    points: Seq<P>,
    outs: Seq<Option<P>>,
) -> bool {
    outs.len() == points.len() && forall|i: int|
        0 <= i < points.len() ==> #[trigger] project.ensures((&points[i],), outs[i])
}

/// Moves every point with `project`, which answers `None` for a point that
/// could not be brought back to the surface. Those points are dropped; the
/// others keep their order.
pub fn refit<P: Copy, R: Fn(&P) -> Option<P>>(points: &Vec<P>, project: &R) -> (r: Vec<P>)
    requires
        forall|p: &P| #[trigger] project.requires((p,)),
    ensures
        r@.len() <= points@.len(),
        exists|outs: Seq<Option<P>>|
            #[trigger] projected(*project, points@, outs) && r@ == somes(outs),
{
    let mut r: Vec<P> = Vec::new();
    let ghost mut outs: Seq<Option<P>> = Seq::empty();
    let mut i: usize = 0;
    while i < points.len()
        invariant
            i <= points@.len(),
            r@.len() <= i,
            outs.len() == i,
            forall|p: &P| #[trigger] project.requires((p,)),
            forall|k: int| 0 <= k < i ==> #[trigger] project.ensures((&points@[k],), outs[k]),
            r@ == somes(outs),
        decreases points@.len() - i,
    {
        let o = project(&points[i]);
        proof {
            assert(outs.push(o).drop_last() =~= outs);
            outs = outs.push(o);
        }
        match o {
            Option::Some(p) => {
                r.push(p);
            },
            Option::None => {},
        }
        i += 1;
    }
    assert(projected(*project, points@, outs));
    r
}

/// Point `i` of `src` was kept, or a kept point from earlier in `src` lies
/// near it.
pub open spec fn kept_or_shadowed<P, N: Fn(&P, &P) -> bool>(
    near: N,
    src: Seq<P>,
    r: Seq<P>,
    m: Seq<int>,
    i: int,
) -> bool {
    (exists|k: int| 0 <= k < m.len() && #[trigger] m[k] == i) || (exists|k: int|
        0 <= k < m.len() && m[k] < i && #[trigger] seen_near(near, r[k], src[i]))
}

/// `r` is the part of `src` at the rising positions `m`, and every point of
/// `src` left out lies near a kept point that came before it.
pub open spec fn thinning<P, N: Fn(&P, &P) -> bool>(
    near: N,
    src: Seq<P>,
    r: Seq<P>,
    m: Seq<int>,
) -> bool {
    &&& m.len() == r.len()
    &&& forall|k: int| 0 <= k < m.len() ==> 0 <= #[trigger] m[k] < src.len() && r[k] == src[m[k]]
    &&& forall|a: int, b: int| 0 <= a < b < m.len() ==> #[trigger] m[a] < #[trigger] m[b]
    &&& forall|i: int| 0 <= i < src.len() ==> #[trigger] kept_or_shadowed(near, src, r, m, i)
}

/// Resolves over-density: walks the points in order and drops each one that
/// lies near a point already kept, so that of two crowded points the later
/// one goes.
pub fn relax<P: Copy, N: Fn(&P, &P) -> bool>(points: &Vec<P>, near: &N) -> (r: Vec<P>)
    requires
        forall|a: &P, b: &P| #[trigger] near.requires((a, b)),
    ensures
        r@.len() <= points@.len(),
        pairwise_apart(*near, r@),
        exists|m: Seq<int>| #[trigger] thinning(*near, points@, r@, m),
{
    let mut kept = PointIndex::new();
    let ghost mut m: Seq<int> = Seq::empty();
    let mut i: usize = 0;
    while i < points.len()
        invariant
            i <= points@.len(),
            kept@.len() <= i,
            m.len() == kept@.len(),
            forall|a: &P, b: &P| #[trigger] near.requires((a, b)),
            pairwise_apart(*near, kept@),
            forall|k: int| 0 <= k < m.len() ==> 0 <= #[trigger] m[k] < i && kept@[k] == points@[m[k]],
            forall|a: int, b: int| 0 <= a < b < m.len() ==> #[trigger] m[a] < #[trigger] m[b],
            forall|t: int| 0 <= t < i ==> #[trigger] kept_or_shadowed(*near, points@, kept@, m, t),
        decreases points@.len() - i,
    {
        let p: P = points[i];
        let ghost prev = kept@;
        let ghost prev_m = m;
        if !kept.any_near(&p, near) {
            kept.push(p);
            proof {
                m = m.push(i as int);
                assert(kept@[prev.len() as int] == p);
                assert forall|a: int, b: int| 0 <= a < b < kept@.len() implies #[trigger] seen_apart(*near, kept@[a], kept@[b]) by {
                    if b < prev.len() {
                        assert(seen_apart(*near, prev[a], prev[b]));
                    } else {
                        assert(seen_apart(*near, prev[a], p));
                    }
                }
                assert forall|t: int| 0 <= t <= i implies #[trigger] kept_or_shadowed(*near, points@, kept@, m, t) by {
                    if t == i {
                        assert(m[prev_m.len() as int] == t);
                    } else {
                        assert(kept_or_shadowed(*near, points@, prev, prev_m, t));
                        if exists|k: int| 0 <= k < prev_m.len() && #[trigger] prev_m[k] == t {
                            let k = choose|k: int| 0 <= k < prev_m.len() && #[trigger] prev_m[k] == t;
                            assert(m[k] == t);
                        } else {
                            let k = choose|k: int| 0 <= k < prev_m.len() && prev_m[k] < t
                                && #[trigger] seen_near(*near, prev[k], points@[t]);
                            assert(m[k] < t && kept@[k] == prev[k]);
                        }
                    }
                }
            }
        } else {
            proof {
                let k = choose|k: int| 0 <= k < kept@.len() && #[trigger] seen_near(*near, kept@[k], p);
                assert(m[k] < i);
                assert(kept_or_shadowed(*near, points@, kept@, m, i as int));
            }
        }
        i += 1;
    }
    let r = kept.into_items();
    assert(thinning(*near, points@, r@, m));
    r
}

/// How a frame's population came from the last one: `outs` are the
/// answers of `project` for the old samples, `kept` is what `relax` left of
/// the survivors (positions `m` among them), and the new samples begin with
/// `kept`, or, where nothing was kept and there is room, with a fresh seed.
pub open spec fn carried_over<P, R: Fn(&P) -> Option<P>, N: Fn(&P, &P) -> bool, Z: Fn() -> P>(
    project: R,
    near: N,
    seed: Z,
    old_samples: Seq<P>,
    new_samples: Seq<P>,
    cap: nat,
    outs: Seq<Option<P>>,
    m: Seq<int>,
    kept: Seq<P>,
) -> bool {
    &&& projected(project, old_samples, outs)
    &&& thinning(near, somes(outs), kept, m)
    &&& kept.len() <= new_samples.len()
    &&& new_samples.subrange(0, kept.len() as int) == kept
    &&& (kept.len() == 0 && cap > 0) ==> (new_samples.len() > 0 && seed.ensures((), new_samples[0]))
}

/// One frame of the live sampler. Each sample is moved back onto the
/// surface by `project` (and dropped where that fails); crowded samples are
/// thinned out, later ones first; the population then grows from every
/// survivor, or from a fresh `seed` point where none survived, until the
/// surface is covered or the store is full.
pub fn resample<
    P: Copy,
    R: Fn(&P) -> Option<P>,
    S: Fn(&P) -> Vec<P>,
    N: Fn(&P, &P) -> bool,
    Z: Fn() -> P,
>(store: &mut SampleStore<P>, project: &R, siblings: &S, near: &N, seed: &Z)
    requires
        old(store).wf(),
        forall|p: &P| #[trigger] project.requires((p,)),
        forall|p: &P| #[trigger] siblings.requires((p,)),
        forall|a: &P, b: &P| #[trigger] near.requires((a, b)),
        seed.requires(()),
    ensures
        final(store).wf(),
        final(store).cap() == old(store).cap(),
        final(store)@.len() <= final(store).cap(),
        old(store).cap() > 0 ==> final(store)@.len() > 0,
        pairwise_apart(*near, final(store)@),
        final(store)@.len() < final(store).cap() ==> forall|k: int|
            0 <= k < final(store)@.len() ==> expanded(
                *siblings,
                *near,
                final(store)@,
                #[trigger] final(store)@[k],
            ),
        exists|outs: Seq<Option<P>>, m: Seq<int>, kept: Seq<P>|
            #[trigger] carried_over(
                *project,
                *near,
                *seed,
                old(store)@,
                final(store)@,
                old(store).cap(),
                outs,
                m,
                kept,
            ),
{
    let cap = store.capacity();
    let old_samples = store.take_all();
    let moved = refit(&old_samples, project);
    let kept = relax(&moved, near);
    let ghost outs = choose|outs: Seq<Option<P>>|
        #[trigger] projected(*project, old_samples@, outs) && moved@ == somes(outs);
    let ghost m = choose|m: Seq<int>| #[trigger] thinning(*near, moved@, kept@, m);
    let ghost kept_seq = kept@;
    let grown = if kept.len() > 0 {
        spread(kept, siblings, near, cap)
    } else if cap > 0 {
        let p = seed();
        let start = vec![p];
        assert(start@.len() == 1 && start@[0] == p);
        let grown = spread(start, siblings, near, cap);
        assert(grown@[0] == grown@.subrange(0, 1)[0]);
        assert(seed.ensures((), grown@[0]));
        grown
    } else {
        assert(pairwise_apart(*near, kept@));
        kept
    };
    let mut i: usize = 0;
    while i < grown.len()
        invariant
            i <= grown@.len() <= cap,
            store.wf(),
            store.cap() == cap,
            store@ == grown@.subrange(0, i as int),
        decreases grown@.len() - i,
    {
        store.push_back(grown[i]);
        assert(store@ =~= grown@.subrange(0, i + 1));
        i += 1;
    }
    assert(store@ =~= grown@);
    assert(kept_seq.len() == 0 ==> store@.subrange(0, 0) =~= kept_seq);
    assert(carried_over(*project, *near, *seed, old_samples@, store@, cap as nat, outs, m, kept_seq));
}

} // verus!
