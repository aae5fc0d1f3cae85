//! The functional model of one physics step.
//!
//! A step scans every puller (an active body whose mass exceeds the
//! pull threshold) against every other active id in ascending id
//! order. A pair within collision range queues a merge and marks both
//! ids consumed; a pair within pull range accumulates a gravitational
//! acceleration on the *other* body. The queued merges are then
//! applied, and finally every surviving pre-existing active id is
//! integrated. The executable step in [`crate::system`] is proved
//! equal to these functions.

use vstd::prelude::*;

use crate::bodies::{
    spec_integrate, spec_merge_bodies, spec_merge_kinemat, valid_body, valid_kinemat, BodyView,
    Kinemat, Vec2,
};
use crate::nums::{spec_abs, spec_clamp, spec_isqrt, ACC_PAIR_CAP, ACC_SUM_LIMIT, G_SCALED};
use crate::table::{active_mass, active_volume, entry_weight, table_sum};

verus! {

/// A merge queued during the scan: the ids consumed and the orbiter
/// that replaces them.
pub ghost struct MergeEvent {
    pub puller: int,
    pub other: int,
    pub body: BodyView,
    pub kmat: Kinemat,
}

/// The running state of the pair scan.
pub ghost struct ScanState {
    /// Accumulated acceleration per pre-existing id,
    /// in nanometres per second squared.
    pub accs: Seq<Vec2>,
    /// Ids consumed by a queued merge.
    pub skip: Seq<bool>,
    /// The queued merges, in the order found.
    pub merges: Seq<MergeEvent>,
}

/// The scan state before any pair is visited.
pub open spec fn scan_init(n: int) -> ScanState {
    ScanState {
        accs: Seq::new(n as nat, |i: int| Vec2 { x: 0, y: 0 }),
        skip: Seq::new(n as nat, |i: int| false),
        merges: Seq::empty(),
    }
}

/// Every table is wellformed enough for a step: registry and table the
/// same length, active ids backed by valid bodies, kinematic entries in
/// range, and the conserved totals within the engine's limits.
pub open spec fn table_ok(bodies: Seq<Option<BodyView>>, kmats: Seq<Option<Kinemat>>) -> bool {
    &&& bodies.len() == kmats.len()
    &&& forall|i: int| 0 <= i < kmats.len() && kmats[i] is Some ==> bodies[i] is Some
    &&& forall|i: int| 0 <= i < bodies.len() && bodies[i] is Some ==> valid_body(
        #[trigger] bodies[i]->0,
    )
    &&& forall|i: int| 0 <= i < kmats.len() && kmats[i] is Some ==> valid_kinemat(
        #[trigger] kmats[i]->0,
    )
    &&& active_mass(bodies, kmats) <= crate::nums::MASS_LIMIT
    &&& active_volume(bodies, kmats) <= crate::nums::VOLUME_LIMIT
}

/// What the scan does when the puller `i` visits the candidate `j`:
/// skip it beyond pull range, skip an immovable candidate, queue a
/// merge within collision range, and otherwise add the pull of `i` to
/// the acceleration accumulator of `j`.
pub open spec fn spec_pair_step(
    bi: BodyView,
    ki: Kinemat,
    bj: BodyView,
    kj: Kinemat,
    maxd: int,
    i: int,
    j: int,
    st: ScanState,
) -> ScanState {
    let dx = kj.pos.x - ki.pos.x;
    let dy = kj.pos.y - ki.pos.y;
    let d2 = dx * dx + dy * dy;
    if d2 > maxd * maxd {
        st
    } else if bj.immovable {
        st
    } else if d2 < (bi.radius + bj.radius) * (bi.radius + bj.radius) {
        ScanState {
            accs: st.accs,
            skip: st.skip.update(i, true).update(j, true),
            merges: st.merges.push(
                MergeEvent {
                    puller: i,
                    other: j,
                    body: spec_merge_bodies(bi, bj),
                    kmat: spec_merge_kinemat(bi, ki, bj, kj),
                },
            ),
        }
    } else {
        let araw = bi.mass * G_SCALED / d2;
        let acap = if araw > ACC_PAIR_CAP { ACC_PAIR_CAP as int } else { araw };
        let d = spec_isqrt(d2 as nat) as int;
        let mx = acap * spec_abs(dx) / d;
        let my = acap * spec_abs(dy) / d;
        let cx = if dx >= 0 { -mx } else { mx };
        let cy = if dy >= 0 { -my } else { my };
        let ax = spec_clamp(st.accs[j].x + cx, ACC_SUM_LIMIT as int);
        let ay = spec_clamp(st.accs[j].y + cy, ACC_SUM_LIMIT as int);
        ScanState {
            accs: st.accs.update(j, Vec2 { x: ax as i128, y: ay as i128 }),
            skip: st.skip,
            merges: st.merges,
        }
    }
}

/// One inner-scan visit: puller `i` considers candidate `j`, which it
/// takes on only when both are still alive and distinct and `j` is
/// active.
pub open spec fn spec_inner_one(
    bodies: Seq<Option<BodyView>>,
    kmats: Seq<Option<Kinemat>>,
    maxd: int,
    i: int,
    j: int,
    st: ScanState,
) -> ScanState {
    if j != i && 0 <= j < kmats.len() && kmats[j] is Some && bodies[j] is Some && 0 <= i
        < kmats.len() && kmats[i] is Some && bodies[i] is Some && !st.skip[j] && !st.skip[i] {
        spec_pair_step(bodies[i]->0, kmats[i]->0, bodies[j]->0, kmats[j]->0, maxd, i, j, st)
    } else {
        st
    }
}

/// The inner scan of puller `i` over the candidates below `j`.
pub open spec fn spec_inner(
    bodies: Seq<Option<BodyView>>,
    kmats: Seq<Option<Kinemat>>,
    maxd: int,
    i: int,
    j: int,
    st: ScanState,
) -> ScanState
    decreases j,
{
    if j <= 0 {
        st
    } else {
        spec_inner_one(bodies, kmats, maxd, i, j - 1, spec_inner(bodies, kmats, maxd, i, j - 1, st))
    }
}

/// One outer-scan visit: id `i` scans all candidates if it is an
/// unconsumed active body heavier than the pull threshold.
pub open spec fn spec_outer_one(
    bodies: Seq<Option<BodyView>>,
    kmats: Seq<Option<Kinemat>>,
    min_pull: int,
    maxd: int,
    i: int,
    st: ScanState,
) -> ScanState {
    if 0 <= i < kmats.len() && kmats[i] is Some && bodies[i] is Some && !st.skip[i]
        && bodies[i]->0.mass > min_pull {
        spec_inner(bodies, kmats, maxd, i, kmats.len() as int, st)
    } else {
        st
    }
}

/// The scan over the pullers below `i`.
pub open spec fn spec_outer(
    bodies: Seq<Option<BodyView>>,
    kmats: Seq<Option<Kinemat>>,
    min_pull: int,
    maxd: int,
    i: int,
) -> ScanState
    decreases i,
{
    if i <= 0 {
        scan_init(kmats.len() as int)
    } else {
        spec_outer_one(
            bodies,
            kmats,
            min_pull,
            maxd,
            i - 1,
            spec_outer(bodies, kmats, min_pull, maxd, i - 1),
        )
    }
}

/// The whole pair scan of one step.
pub open spec fn spec_scan(
    bodies: Seq<Option<BodyView>>,
    kmats: Seq<Option<Kinemat>>,
    min_pull: int,
    maxd: int,
) -> ScanState {
    spec_outer(bodies, kmats, min_pull, maxd, kmats.len() as int)
}

/// A queued merge speaks of two distinct active ids of the table and
/// carries exactly the merged body and kinematic state the merge rules
/// give for them.
pub open spec fn merge_ok(
    bodies: Seq<Option<BodyView>>,
    kmats: Seq<Option<Kinemat>>,
    m: MergeEvent,
) -> bool {
    &&& 0 <= m.puller < kmats.len()
    &&& 0 <= m.other < kmats.len()
    &&& m.puller != m.other
    &&& kmats[m.puller] is Some
    &&& kmats[m.other] is Some
    &&& bodies[m.puller] is Some
    &&& bodies[m.other] is Some
    &&& m.body == spec_merge_bodies(bodies[m.puller]->0, bodies[m.other]->0)
    &&& m.kmat == spec_merge_kinemat(
        bodies[m.puller]->0,
        kmats[m.puller]->0,
        bodies[m.other]->0,
        kmats[m.other]->0,
    )
}

/// No id is consumed by two different queued merges.
pub open spec fn merges_disjoint(ms: Seq<MergeEvent>) -> bool {
    forall|a: int, b: int|
        0 <= a < b < ms.len() ==> ms[a].puller != ms[b].puller && ms[a].puller != ms[b].other
            && ms[a].other != ms[b].puller && ms[a].other != ms[b].other
}

/// `i` is consumed by one of the queued merges.
pub open spec fn consumed(ms: Seq<MergeEvent>, i: int) -> bool {
    exists|mi: int| 0 <= mi < ms.len() && (ms[mi].puller == i || ms[mi].other == i)
}

/// The invariant the scan maintains: accumulators in range, every
/// queued merge wellformed with both its ids marked consumed, and no
/// id consumed twice.
pub open spec fn scan_inv(
    bodies: Seq<Option<BodyView>>,
    kmats: Seq<Option<Kinemat>>,
    st: ScanState,
) -> bool {
    &&& st.accs.len() == kmats.len()
    &&& st.skip.len() == kmats.len()
    &&& forall|j: int|
        0 <= j < st.accs.len() ==> -ACC_SUM_LIMIT <= #[trigger] st.accs[j].x <= ACC_SUM_LIMIT
            && -ACC_SUM_LIMIT <= st.accs[j].y <= ACC_SUM_LIMIT
    &&& forall|mi: int| 0 <= mi < st.merges.len() ==> merge_ok(bodies, kmats, #[trigger] st.merges[mi])
    &&& forall|mi: int|
        0 <= mi < st.merges.len() ==> st.skip[#[trigger] st.merges[mi].puller]
            && st.skip[st.merges[mi].other]
    &&& merges_disjoint(st.merges)
}

/// The initial scan state satisfies the invariant.
pub proof fn lemma_scan_init_inv(
    bodies: Seq<Option<BodyView>>,
    kmats: Seq<Option<Kinemat>>,
)
    ensures
        scan_inv(bodies, kmats, scan_init(kmats.len() as int)),
{
}

/// One inner-scan visit preserves the invariant.
pub proof fn lemma_inner_one_inv(
    bodies: Seq<Option<BodyView>>,
    kmats: Seq<Option<Kinemat>>,
    maxd: int,
    i: int,
    j: int,
    st: ScanState,
)
    requires
        scan_inv(bodies, kmats, st),
    ensures
        scan_inv(bodies, kmats, spec_inner_one(bodies, kmats, maxd, i, j, st)),
{
    if j != i && 0 <= j < kmats.len() && kmats[j] is Some && bodies[j] is Some && 0 <= i
        < kmats.len() && kmats[i] is Some && bodies[i] is Some && !st.skip[j] && !st.skip[i] {
        let st2 = spec_pair_step(
            bodies[i]->0,
            kmats[i]->0,
            bodies[j]->0,
            kmats[j]->0,
            maxd,
            i,
            j,
            st,
        );
        let bi = bodies[i]->0;
        let ki = kmats[i]->0;
        let bj = bodies[j]->0;
        let kj = kmats[j]->0;
        let dx = kj.pos.x - ki.pos.x;
        let dy = kj.pos.y - ki.pos.y;
        let d2 = dx * dx + dy * dy;
        if d2 > maxd * maxd {
        } else if bj.immovable {
        } else if d2 < (bi.radius + bj.radius) * (bi.radius + bj.radius) {
            let m = MergeEvent {
                puller: i,
                other: j,
                body: spec_merge_bodies(bi, bj),
                kmat: spec_merge_kinemat(bi, ki, bj, kj),
            };
            assert(st2.merges == st.merges.push(m));
            assert(st2.skip == st.skip.update(i, true).update(j, true));
            assert forall|mi: int| 0 <= mi < st2.merges.len() implies merge_ok(
                bodies,
                kmats,
                #[trigger] st2.merges[mi],
            ) by {
                if mi < st.merges.len() {
                    assert(st2.merges[mi] == st.merges[mi]);
                } else {
                    assert(st2.merges[mi] == m);
                }
            }
            assert forall|mi: int| 0 <= mi < st2.merges.len() implies st2.skip[
                #[trigger] st2.merges[mi].puller] && st2.skip[st2.merges[mi].other] by {
                if mi < st.merges.len() {
                    assert(st2.merges[mi] == st.merges[mi]);
                    assert(st.skip[st.merges[mi].puller] && st.skip[st.merges[mi].other]);
                } else {
                    assert(st2.merges[mi] == m);
                }
            }
            assert(merges_disjoint(st2.merges)) by {
                assert forall|a: int, b: int| 0 <= a < b < st2.merges.len() implies st2.merges[a]
                    .puller != st2.merges[b].puller && st2.merges[a].puller != st2.merges[b].other
                    && st2.merges[a].other != st2.merges[b].puller && st2.merges[a].other
                    != st2.merges[b].other by {
                    if b < st.merges.len() {
                        assert(st2.merges[a] == st.merges[a]);
                        assert(st2.merges[b] == st.merges[b]);
                    } else {
                        assert(st2.merges[b] == m);
                        assert(st2.merges[a] == st.merges[a]);
                        assert(st.skip[st.merges[a].puller] && st.skip[st.merges[a].other]);
                    }
                }
            }
        } else {
        }
    }
}

/// The inner scan preserves the invariant.
pub proof fn lemma_inner_inv(
    bodies: Seq<Option<BodyView>>,
    kmats: Seq<Option<Kinemat>>,
    maxd: int,
    i: int,
    j: int,
    st: ScanState,
)
    requires
        scan_inv(bodies, kmats, st),
    ensures
        scan_inv(bodies, kmats, spec_inner(bodies, kmats, maxd, i, j, st)),
    decreases j,
{
    if j > 0 {
        lemma_inner_inv(bodies, kmats, maxd, i, j - 1, st);
        lemma_inner_one_inv(
            bodies,
            kmats,
            maxd,
            i,
            j - 1,
            spec_inner(bodies, kmats, maxd, i, j - 1, st),
        );
    }
}

/// The outer scan preserves the invariant from the start.
pub proof fn lemma_outer_inv(
    bodies: Seq<Option<BodyView>>,
    kmats: Seq<Option<Kinemat>>,
    min_pull: int,
    maxd: int,
    i: int,
)
    ensures
        scan_inv(bodies, kmats, spec_outer(bodies, kmats, min_pull, maxd, i)),
    decreases i,
{
    if i <= 0 {
        lemma_scan_init_inv(bodies, kmats);
    } else {
        lemma_outer_inv(bodies, kmats, min_pull, maxd, i - 1);
        let st = spec_outer(bodies, kmats, min_pull, maxd, i - 1);
        if 0 <= i - 1 < kmats.len() && kmats[i - 1] is Some && bodies[i - 1] is Some && !st.skip[i
            - 1] && bodies[i - 1]->0.mass > min_pull {
            lemma_inner_inv(bodies, kmats, maxd, i - 1, kmats.len() as int, st);
        }
    }
}

/// Applying the queued merges in order: each consumes its two ids and
/// appends the merged orbiter under a fresh id.
pub open spec fn spec_apply_merges(
    bodies: Seq<Option<BodyView>>,
    kmats: Seq<Option<Kinemat>>,
    ms: Seq<MergeEvent>,
) -> (Seq<Option<BodyView>>, Seq<Option<Kinemat>>)
    decreases ms.len(),
{
    if ms.len() == 0 {
        (bodies, kmats)
    } else {
        let prev = spec_apply_merges(bodies, kmats, ms.drop_last());
        let m = ms.last();
        (
            prev.0.push(Some(m.body)),
            prev.1.update(m.puller, None).update(m.other, None).push(Some(m.kmat)),
        )
    }
}

/// Shape of the table after the merges are applied: old registry
/// entries intact, the merged orbiters appended, and exactly the
/// consumed table entries blanked.
pub proof fn lemma_apply_merges_props(
    bodies: Seq<Option<BodyView>>,
    kmats: Seq<Option<Kinemat>>,
    ms: Seq<MergeEvent>,
)
    requires
        bodies.len() == kmats.len(),
        forall|mi: int| 0 <= mi < ms.len() ==> merge_ok(bodies, kmats, #[trigger] ms[mi]),
        merges_disjoint(ms),
    ensures
        ({
            let r = spec_apply_merges(bodies, kmats, ms);
            &&& r.0.len() == bodies.len() + ms.len()
            &&& r.1.len() == kmats.len() + ms.len()
            &&& forall|i: int| 0 <= i < bodies.len() ==> r.0[i] == bodies[i]
            &&& forall|mi: int|
                0 <= mi < ms.len() ==> r.0[bodies.len() + mi] == Some(#[trigger] ms[mi].body)
                    && r.1[kmats.len() + mi] == Some(ms[mi].kmat)
            &&& forall|i: int|
                0 <= i < kmats.len() ==> r.1[i] == (if consumed(ms, i) {
                    None::<Kinemat>
                } else {
                    kmats[i]
                })
        }),
    decreases ms.len(),
{
    if ms.len() > 0 {
        let head = ms.drop_last();
        assert(forall|mi: int| 0 <= mi < head.len() ==> head[mi] == ms[mi]);
        lemma_apply_merges_props(bodies, kmats, head);
        let prev = spec_apply_merges(bodies, kmats, head);
        let m = ms.last();
        let r = spec_apply_merges(bodies, kmats, ms);
        assert forall|i: int| 0 <= i < kmats.len() implies r.1[i] == (if consumed(ms, i) {
            None::<Kinemat>
        } else {
            kmats[i]
        }) by {
            if i == m.puller || i == m.other {
                assert(consumed(ms, i));
            } else {
                assert(r.1[i] == prev.1[i]);
                if consumed(head, i) {
                    assert(consumed(ms, i)) by {
                        let mi = choose|mi: int|
                            0 <= mi < head.len() && (head[mi].puller == i || head[mi].other == i);
                        assert(ms[mi] == head[mi]);
                    }
                } else {
                    if consumed(ms, i) {
                        let mi = choose|mi: int|
                            0 <= mi < ms.len() && (ms[mi].puller == i || ms[mi].other == i);
                        assert(mi == ms.len() - 1);
                        assert(false);
                    }
                }
            }
        }
    }
}

/// Applying the queued merges conserves the total active mass exactly:
/// each merge removes two masses and adds back their sum.
pub proof fn lemma_apply_merges_mass(
    bodies: Seq<Option<BodyView>>,
    kmats: Seq<Option<Kinemat>>,
    ms: Seq<MergeEvent>,
)
    requires
        bodies.len() == kmats.len(),
        forall|mi: int| 0 <= mi < ms.len() ==> merge_ok(bodies, kmats, #[trigger] ms[mi]),
        merges_disjoint(ms),
    ensures
        ({
            let r = spec_apply_merges(bodies, kmats, ms);
            active_mass(r.0, r.1) == active_mass(bodies, kmats)
        }),
    decreases ms.len(),
{
    let f = crate::table::fmass();
    if ms.len() > 0 {
        let head = ms.drop_last();
        assert(forall|mi: int| 0 <= mi < head.len() ==> head[mi] == ms[mi]);
        lemma_apply_merges_mass(bodies, kmats, head);
        lemma_apply_merges_props(bodies, kmats, head);
        lemma_apply_one_sum(bodies, kmats, ms, f);
        let m = ms.last();
        assert(f(m.body) == f(bodies[m.puller]->0) + f(bodies[m.other]->0));
    }
}

/// Applying the queued merges never increases the total active cubed
/// radius: a merged radius is the rounded-down cube root of the summed
/// cubes.
pub proof fn lemma_apply_merges_volume_le(
    bodies: Seq<Option<BodyView>>,
    kmats: Seq<Option<Kinemat>>,
    ms: Seq<MergeEvent>,
)
    requires
        bodies.len() == kmats.len(),
        forall|i: int| 0 <= i < bodies.len() && bodies[i] is Some ==> valid_body(
            #[trigger] bodies[i]->0,
        ),
        forall|mi: int| 0 <= mi < ms.len() ==> merge_ok(bodies, kmats, #[trigger] ms[mi]),
        merges_disjoint(ms),
    ensures
        ({
            let r = spec_apply_merges(bodies, kmats, ms);
            active_volume(r.0, r.1) <= active_volume(bodies, kmats)
        }),
    decreases ms.len(),
{
    let f = crate::table::fvol();
    if ms.len() > 0 {
        let head = ms.drop_last();
        assert(forall|mi: int| 0 <= mi < head.len() ==> head[mi] == ms[mi]);
        lemma_apply_merges_volume_le(bodies, kmats, head);
        lemma_apply_merges_props(bodies, kmats, head);
        lemma_apply_one_sum(bodies, kmats, ms, f);
        let m = ms.last();
        let bp = bodies[m.puller]->0;
        let bo = bodies[m.other]->0;
        assert(bp.radius * bp.radius * bp.radius >= 1
            && bo.radius * bo.radius * bo.radius >= 1) by (nonlinear_arith)
            requires
                bp.radius >= 1,
                bo.radius >= 1,
        ;
        let v = bp.radius * bp.radius * bp.radius + bo.radius * bo.radius * bo.radius;
        crate::nums::lemma_icbrt_bounds(v as nat);
        let rr = crate::nums::spec_icbrt(v as nat);
        assert(m.body.radius == rr as int);
        assert(f(m.body) <= f(bp) + f(bo));
    }
}

/// The sum bookkeeping of applying the last queued merge on top of the
/// merges before it.
proof fn lemma_apply_one_sum(
    bodies: Seq<Option<BodyView>>,
    kmats: Seq<Option<Kinemat>>,
    ms: Seq<MergeEvent>,
    f: spec_fn(BodyView) -> int,
)
    requires
        bodies.len() == kmats.len(),
        ms.len() > 0,
        forall|mi: int| 0 <= mi < ms.len() ==> merge_ok(bodies, kmats, #[trigger] ms[mi]),
        merges_disjoint(ms),
    ensures
        ({
            let head = ms.drop_last();
            let m = ms.last();
            let prev = spec_apply_merges(bodies, kmats, head);
            let r = spec_apply_merges(bodies, kmats, ms);
            table_sum(r.0, r.1, r.1.len() as int, f) == table_sum(prev.0, prev.1, prev.1.len() as int, f)
                - f(bodies[m.puller]->0) - f(bodies[m.other]->0) + f(m.body)
        }),
{
    let head = ms.drop_last();
    let m = ms.last();
    assert(forall|mi: int| 0 <= mi < head.len() ==> head[mi] == ms[mi]);
    lemma_apply_merges_props(bodies, kmats, head);
    let prev = spec_apply_merges(bodies, kmats, head);
    let p = m.puller;
    let o = m.other;
    assert(!consumed(head, p) && !consumed(head, o)) by {
        if consumed(head, p) {
            let mi = choose|mi: int|
                0 <= mi < head.len() && (head[mi].puller == p || head[mi].other == p);
            assert(ms[mi] == head[mi]);
            assert(false);
        }
        if consumed(head, o) {
            let mi = choose|mi: int|
                0 <= mi < head.len() && (head[mi].puller == o || head[mi].other == o);
            assert(ms[mi] == head[mi]);
            assert(false);
        }
    }
    assert(prev.1[p] == kmats[p] && prev.1[o] == kmats[o]);
    assert(prev.0[p] == bodies[p] && prev.0[o] == bodies[o]);
    let n1 = prev.1.len() as int;
    let ka = prev.1.update(p, None);
    let kb = ka.update(o, None);
    crate::table::lemma_table_sum_update_none(prev.0, prev.1, n1, p, f);
    assert(entry_weight(prev.0, prev.1, p, f) == f(bodies[p]->0));
    crate::table::lemma_table_sum_update_none(prev.0, ka, n1, o, f);
    assert(ka[o] == prev.1[o]);
    assert(entry_weight(prev.0, ka, o, f) == f(bodies[o]->0));
    crate::table::lemma_table_sum_push(prev.0, kb, m.body, m.kmat, f);
    let r = spec_apply_merges(bodies, kmats, ms);
    assert(r.0 == prev.0.push(Some(m.body)));
    assert(r.1 == kb.push(Some(m.kmat)));
}

/// Integration of the survivors: every pre-existing id still active
/// absorbs its accumulated acceleration over `dt`; merge products
/// appended beyond the accumulator range are left as they were made.
pub open spec fn spec_integrate_all(
    kmats: Seq<Option<Kinemat>>,
    accs: Seq<Vec2>,
    dt: int,
) -> Seq<Option<Kinemat>> {
    Seq::new(
        kmats.len(),
        |i: int|
            if 0 <= i < accs.len() && kmats[i] is Some {
                Some(spec_integrate(kmats[i]->0, accs[i], dt))
            } else {
                kmats[i]
            },
    )
}

/// Integration touches no body and no activity, so every table sum is
/// unchanged.
pub proof fn lemma_integrate_all_sum(
    bodies: Seq<Option<BodyView>>,
    kmats: Seq<Option<Kinemat>>,
    accs: Seq<Vec2>,
    dt: int,
    f: spec_fn(BodyView) -> int,
)
    ensures
        table_sum(bodies, spec_integrate_all(kmats, accs, dt), kmats.len() as int, f)
            == table_sum(bodies, kmats, kmats.len() as int, f),
{
    let k2 = spec_integrate_all(kmats, accs, dt);
    assert forall|i: int| 0 <= i < kmats.len() implies entry_weight(bodies, k2, i, f)
        == entry_weight(bodies, kmats, i, f) by {
        assert(k2[i] is Some <==> kmats[i] is Some);
    }
    crate::table::lemma_table_sum_agree(bodies, k2, bodies, kmats, kmats.len() as int, f);
}

} // verus!
