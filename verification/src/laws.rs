//! The engine's global laws, stated and proved once over the model.
//!
//! Each law here is proved from the contracts of the engine's
//! operations alone, so it holds of every run of the library.

use vstd::prelude::*;

use crate::bodies::{spec_merge_bodies, BodyView};
use crate::scan::table_ok;
use crate::system::{spec_push_evict, SimulationMode, SolarSystem};
use crate::table::pad_table;

verus! {

/// Mass conservation at a single merge: the merged body's mass is
/// exactly the sum of the two input masses.
pub proof fn lemma_merge_conserves_mass(a: BodyView, b: BodyView)
    ensures
        spec_merge_bodies(a, b).mass == a.mass + b.mass,
{
}

/// History bound: a save grows the history by one until the bound is
/// reached, and never past it. Once the history is full it stays
/// exactly full, however many more saves follow.
pub proof fn lemma_history_bound(
    saves: Seq<Seq<Option<crate::bodies::Kinemat>>>,
    snap: Seq<Option<crate::bodies::Kinemat>>,
    h: int,
)
    requires
        saves.len() <= h,
        h >= 1,
    ensures
        spec_push_evict(saves, snap, h).len() == (if (saves.len() as int) < h {
            saves.len() + 1
        } else {
            h as nat
        }),
        saves.len() == h ==> spec_push_evict(saves, snap, h).len() == h,
{
}

/// Round-trip identity: entering snapshot viewing and immediately
/// restoring — with no intervening move of the viewed index — gives
/// back exactly the positions and velocities held when viewing began.
///
/// `pre` is the state at the moment `enable_load` is called, `mid` the
/// state it leaves (as its contract describes), and `post` the state
/// `exit_load` then leaves (as its contract describes).
pub proof fn lemma_rewind_round_trip(pre: SolarSystem, mid: SolarSystem, post: SolarSystem)
    requires
        pre.wf(),
        pre.mode_spec() is Simulating,
        mid.saves_view() == spec_push_evict(
            pre.saves_view(),
            pre.kinemats_view(),
            pre.max_saves_spec(),
        ),
        mid.saves_view().last() == pre.kinemats_view(),
        mid.mode_spec() == SimulationMode::LoadingSave((mid.saves_view().len() - 1) as usize),
        mid.bodies_view() == pre.bodies_view(),
        post.kinemats_view() == pad_table(
            mid.saves_view()[mid.mode_spec()->0 as int],
            mid.bodies_view().len() as int,
        ),
    ensures
        post.kinemats_view() == pre.kinemats_view(),
{
    let sv = mid.saves_view();
    let grown = pre.saves_view().push(pre.kinemats_view());
    assert(grown.len() == pre.saves_view().len() + 1);
    assert(pre.max_saves_spec() >= 1);
    if grown.len() > pre.max_saves_spec() {
        assert(sv == grown.subrange(1, grown.len() as int));
        assert(grown.len() >= 2);
    } else {
        assert(sv == grown);
    }
    assert(sv.len() >= 1);
    assert(pre.saves_view().len() <= pre.max_saves_spec());
    crate::system::lemma_config_bounds(pre);
    assert(sv.len() <= usize::MAX);
    assert(mid.mode_spec()->0 as int == sv.len() - 1);
    assert(sv[sv.len() - 1] == pre.kinemats_view());
    assert(table_ok(pre.bodies_view(), pre.kinemats_view()));
    assert(pre.bodies_view().len() == pre.kinemats_view().len());
    assert(post.kinemats_view() =~= pre.kinemats_view());
}

/// Collision scenario: in a two-body system whose centers start
/// closer than the sum of the radii — with the first body a puller,
/// the second movable, and the pair within pull range — one step
/// leaves exactly one surviving orbiter, under a fresh id, with
/// exactly the summed mass; both original ids are gone from the
/// active table.
pub proof fn lemma_collision_merges(pre: SolarSystem, post: SolarSystem, dt: int)
    requires
        pre.wf(),
        pre.mode_spec() is Simulating,
        crate::system::spec_step_rel(pre, post, dt),
        pre.kinemats_view().len() == 2,
        pre.kinemats_view()[0] is Some,
        pre.kinemats_view()[1] is Some,
        pre.bodies_view()[0]->0.mass > pre.min_pull_mass_spec(),
        !pre.bodies_view()[1]->0.immovable,
        ({
            let k0 = pre.kinemats_view()[0]->0;
            let k1 = pre.kinemats_view()[1]->0;
            let dx = k1.pos.x - k0.pos.x;
            let dy = k1.pos.y - k0.pos.y;
            let d2 = dx * dx + dy * dy;
            let rsum = pre.bodies_view()[0]->0.radius + pre.bodies_view()[1]->0.radius;
            d2 <= pre.max_pull_distance_spec() * pre.max_pull_distance_spec() && d2 < rsum * rsum
        }),
    ensures
        post.kinemats_view().len() == 3,
        post.kinemats_view()[0] is None,
        post.kinemats_view()[1] is None,
        post.kinemats_view()[2] is Some,
        post.bodies_view()[2]->0.mass == pre.bodies_view()[0]->0.mass + pre.bodies_view()[1]->0.mass,
{
    let b = pre.bodies_view();
    let k = pre.kinemats_view();
    let mp = pre.min_pull_mass_spec();
    let md = pre.max_pull_distance_spec();
    assert(b[0] is Some && b[1] is Some);
    let st0 = crate::scan::scan_init(2);
    assert(!st0.skip[0] && !st0.skip[1]);
    // The first body scans: it skips itself, then queues the merge.
    let stq = crate::scan::spec_inner(b, k, md, 0, 1, st0);
    assert(stq == crate::scan::spec_inner_one(b, k, md, 0, 0, crate::scan::spec_inner(b, k, md, 0, 0, st0)));
    assert(crate::scan::spec_inner(b, k, md, 0, 0, st0) == st0);
    assert(stq == st0);
    let stm = crate::scan::spec_inner(b, k, md, 0, 2, st0);
    assert(stm == crate::scan::spec_inner_one(b, k, md, 0, 1, stq));
    let pair = crate::scan::spec_pair_step(b[0]->0, k[0]->0, b[1]->0, k[1]->0, md, 0, 1, st0);
    assert(stm == pair);
    let m = crate::scan::MergeEvent {
        puller: 0,
        other: 1,
        body: spec_merge_bodies(b[0]->0, b[1]->0),
        kmat: crate::bodies::spec_merge_kinemat(b[0]->0, k[0]->0, b[1]->0, k[1]->0),
    };
    assert(pair.merges == st0.merges.push(m));
    assert(pair.skip == st0.skip.update(0, true).update(1, true));
    // The second body is consumed, so its own scan does nothing.
    let st1 = crate::scan::spec_outer(b, k, mp, md, 1);
    assert(st1 == crate::scan::spec_outer_one(b, k, mp, md, 0, crate::scan::spec_outer(b, k, mp, md, 0)));
    assert(crate::scan::spec_outer(b, k, mp, md, 0) == st0);
    assert(st1 == stm);
    let st2 = crate::scan::spec_outer(b, k, mp, md, 2);
    assert(st2 == crate::scan::spec_outer_one(b, k, mp, md, 1, st1));
    assert(st1.skip[1]);
    assert(st2 == st1);
    let st = crate::scan::spec_scan(b, k, mp, md);
    assert(st == st2);
    assert(st.merges =~= seq![m]);
    // Applying the one queued merge blanks ids 0 and 1 and appends
    // the product.
    let merged = crate::scan::spec_apply_merges(b, k, st.merges);
    assert(st.merges.drop_last() =~= Seq::<crate::scan::MergeEvent>::empty());
    assert(crate::scan::spec_apply_merges(b, k, st.merges.drop_last()) == (b, k));
    assert(merged.0 == b.push(Some(m.body)));
    assert(merged.1 == k.update(0, None).update(1, None).push(Some(m.kmat)));
    assert(merged.1.len() == 3);
    assert(merged.1[0] is None && merged.1[1] is None && merged.1[2] is Some);
    // Integration touches neither blanked entries nor the appended
    // product, which sits beyond the accumulator range.
    let ints = crate::scan::spec_integrate_all(merged.1, st.accs, dt);
    assert(st.accs.len() == 2);
    assert(ints.len() == 3);
    assert(ints[0] is None && ints[1] is None && ints[2] == merged.1[2]);
    assert(post.kinemats_view() == ints);
    assert(post.bodies_view() == merged.0);
    assert(post.bodies_view()[2] == Some(m.body));
    assert(m.body.mass == b[0]->0.mass + b[1]->0.mass);
}

} // verus!
