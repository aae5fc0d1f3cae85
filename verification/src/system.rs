//! The solar system engine: registry, kinematic table, snapshot
//! history, and the two-state mode machine that gates stepping and
//! rewinding.
//!
//! Ids are assigned sequentially and never reused: the registry is a
//! sequence of optional bodies indexed by id, and an id whose table
//! entry was consumed by a merge keeps its registry slot. Snapshots of
//! the whole table are kept in a bounded first-in-first-out history;
//! while a snapshot is being viewed the stepper is frozen and queries
//! read from the snapshot.

use vstd::prelude::*;

use std::collections::VecDeque;

use crate::bodies::{
    merge_bodies, merge_kinemat, valid_body, valid_kinemat, Body, BodyView, Kinemat, Orbiter,
    Vec2,
};
use crate::nums::{clamp, iabs, isqrt, COORD_LIMIT, DT_LIMIT, MASS_LIMIT, VOLUME_LIMIT};
use crate::scan::{table_ok, MergeEvent};
use crate::table::{active_mass, active_volume, entry_weight, fmass, fvol, mass_of, table_sum, volume_of};

verus! {

/// Number of steps between two automatic snapshots.
pub const SAVE_EVERY: u64 = 1_000;

/// Greatest number of snapshots the history retains.
pub const SAVE_COUNT: usize = 1_000;

/// Bodies at most this heavy (kilograms) do not pull on others,
/// though they are pulled themselves.
pub const MIN_PULL_MASS: u128 = 100_000_000_000_000_000_000_000;

/// Bodies farther apart than this (millimetres) do not pull on each
/// other.
pub const MAX_PULL_DISTANCE: u128 = 510_000_000_000_000_000;

/// What the solar system is up to.
#[derive(Clone, Copy, Debug, PartialEq, Eq, Structural)]
pub enum SimulationMode {
    /// Normal simulation.
    Simulating,
    /// Viewing a saved snapshot (and possibly about to load it).
    LoadingSave(usize),
}

/// The tunable constants of an engine instance.
#[derive(Clone, Copy, Debug)]
pub struct SimConfig {
    /// Steps between two automatic snapshots; at least one.
    pub save_every: u64,
    /// Bound on the snapshot history; at least one.
    pub max_saves: usize,
    /// Pull-mass threshold in kilograms.
    pub min_pull_mass: u128,
    /// Pull-distance cutoff in millimetres.
    pub max_pull_distance: u128,
}

/// The views of the optional bodies of the registry.
pub open spec fn views_of(bs: Seq<Option<Body>>) -> Seq<Option<BodyView>> {
    bs.map_values(
        |ob: Option<Body>|
            match ob {
                Some(b) => Some(b@),
                None => None,
            },
    )
}

/// A snapshot is consistent with a registry when it is no longer than
/// the registry, each of its active ids is backed by a body, its
/// entries are in range, and its conserved totals are within the
/// engine's limits.
pub open spec fn snap_ok(bodies: Seq<Option<BodyView>>, snap: Seq<Option<Kinemat>>) -> bool {
    &&& snap.len() <= bodies.len()
    &&& forall|i: int|
        0 <= i < snap.len() && snap[i] is Some ==> bodies[i] is Some && valid_kinemat(
            #[trigger] snap[i]->0,
        )
    &&& active_mass(bodies, snap) <= MASS_LIMIT
    &&& active_volume(bodies, snap) <= VOLUME_LIMIT
}

/// Appending a snapshot to the history, evicting the oldest entry when
/// the bound is exceeded.
pub open spec fn spec_push_evict(
    saves: Seq<Seq<Option<Kinemat>>>,
    snap: Seq<Option<Kinemat>>,
    h: int,
) -> Seq<Seq<Option<Kinemat>>> {
    let grown = saves.push(snap);
    if grown.len() > h {
        grown.subrange(1, grown.len() as int)
    } else {
        grown
    }
}

/// A solar system: bodies, their motion, and a bounded rewind history.
pub struct SolarSystem {
    /// Maps each id to its body. A merge leaves the consumed ids'
    /// entries in place; restoring a snapshot blanks the entries that
    /// nothing references any more. Ids are never reused.
    bodies: Vec<Option<Body>>,
    /// The live kinematic table, id-indexed alongside `bodies`.
    kinemats: Vec<Option<Kinemat>>,
    /// The saved snapshots, oldest first.
    saves: VecDeque<Vec<Option<Kinemat>>>,
    /// Steps between two automatic snapshots.
    save_per: u64,
    /// Where in the save cycle the stepper stands; a snapshot is taken
    /// by the step that begins at phase zero.
    save_phase: u64,
    /// Bound on the snapshot history.
    h_max: usize,
    /// Pull-mass threshold.
    min_pull_mass: u128,
    /// Pull-distance cutoff.
    max_pull_distance: u128,
    /// What the system is up to.
    mode: SimulationMode,
}

impl SolarSystem {
    /// The registry, id by id.
    pub closed spec fn bodies_view(self) -> Seq<Option<BodyView>> {
        views_of(self.bodies@)
    }

    /// The live kinematic table, id by id.
    pub closed spec fn kinemats_view(self) -> Seq<Option<Kinemat>> {
        self.kinemats@
    }

    /// The snapshot history, oldest first.
    pub closed spec fn saves_view(self) -> Seq<Seq<Option<Kinemat>>> {
        self.saves@.map_values(|v: Vec<Option<Kinemat>>| v@)
    }

    /// The current mode.
    pub closed spec fn mode_spec(self) -> SimulationMode {
        self.mode
    }

    /// Steps between two automatic snapshots.
    pub closed spec fn save_every_spec(self) -> int {
        self.save_per as int
    }

    /// Position in the save cycle.
    pub closed spec fn save_phase_spec(self) -> int {
        self.save_phase as int
    }

    /// Bound on the snapshot history.
    pub closed spec fn max_saves_spec(self) -> int {
        self.h_max as int
    }

    /// Pull-mass threshold.
    pub closed spec fn min_pull_mass_spec(self) -> int {
        self.min_pull_mass as int
    }

    /// Pull-distance cutoff.
    pub closed spec fn max_pull_distance_spec(self) -> int {
        self.max_pull_distance as int
    }

    /// The configuration of `self`, unchanged by every operation.
    pub open spec fn same_config(self, other: SolarSystem) -> bool {
        &&& other.save_every_spec() == self.save_every_spec()
        &&& other.max_saves_spec() == self.max_saves_spec()
        &&& other.min_pull_mass_spec() == self.min_pull_mass_spec()
        &&& other.max_pull_distance_spec() == self.max_pull_distance_spec()
    }

    /// The system invariant.
    pub open spec fn wf(self) -> bool {
        &&& table_ok(self.bodies_view(), self.kinemats_view())
        &&& self.saves_view().len() <= self.max_saves_spec()
        &&& forall|s: int|
            0 <= s < self.saves_view().len() ==> snap_ok(
                self.bodies_view(),
                #[trigger] self.saves_view()[s],
            )
        &&& self.save_every_spec() >= 1
        &&& 0 <= self.save_phase_spec() < self.save_every_spec()
        &&& self.max_saves_spec() >= 1
        &&& self.max_pull_distance_spec() <= COORD_LIMIT
        &&& match self.mode_spec() {
            SimulationMode::Simulating => true,
            SimulationMode::LoadingSave(n) => (n as int) < self.saves_view().len(),
        }
    }
}

/// The machine ranges of the configuration fields.
pub proof fn lemma_config_bounds(s: SolarSystem)
    ensures
        0 <= s.max_saves_spec() <= usize::MAX,
        0 <= s.save_every_spec() <= u64::MAX,
        0 <= s.save_phase_spec() <= u64::MAX,
        0 <= s.min_pull_mass_spec() <= u128::MAX,
        0 <= s.max_pull_distance_spec() <= u128::MAX,
        s.saves_view().len() == s.saves_view().len(),
{
}

/// The registry built from the seed orbiters, in list order.
pub open spec fn seed_bodies(os: Seq<Orbiter>) -> Seq<Option<BodyView>> {
    os.map_values(|o: Orbiter| Some(o.0@))
}

/// The table built from the seed orbiters, in list order.
pub open spec fn seed_kinemats(os: Seq<Orbiter>) -> Seq<Option<Kinemat>> {
    os.map_values(|o: Orbiter| Some(o.1))
}

impl SolarSystem {
    /// An engine with no bodies.
    fn empty(config: SimConfig) -> (s: SolarSystem)
        requires
            config.save_every >= 1,
            config.max_saves >= 1,
            config.max_pull_distance <= COORD_LIMIT as u128,
        ensures
            s.wf(),
            s.bodies_view() == Seq::<Option<BodyView>>::empty(),
            s.kinemats_view() == Seq::<Option<Kinemat>>::empty(),
            s.saves_view() == Seq::<Seq<Option<Kinemat>>>::empty(),
            s.mode_spec() == SimulationMode::Simulating,
            s.save_phase_spec() == 0,
            s.save_every_spec() == config.save_every as int,
            s.max_saves_spec() == config.max_saves as int,
            s.min_pull_mass_spec() == config.min_pull_mass as int,
            s.max_pull_distance_spec() == config.max_pull_distance as int,
    {
        let s = SolarSystem {
            bodies: Vec::new(),
            kinemats: Vec::new(),
            saves: VecDeque::new(),
            save_per: config.save_every,
            save_phase: 0,
            h_max: config.max_saves,
            min_pull_mass: config.min_pull_mass,
            max_pull_distance: config.max_pull_distance,
            mode: SimulationMode::Simulating,
        };
        proof {
            assert(s.bodies_view() =~= Seq::<Option<BodyView>>::empty());
            assert(s.saves_view() =~= Seq::<Seq<Option<Kinemat>>>::empty());
        }
        s
    }

    /// Builds a solar system from seed orbiters with explicit
    /// configuration constants; ids `0..n-1` are assigned in list
    /// order.
    #[verifier::loop_isolation(false)]
    pub fn with_config(orbiters: Vec<Orbiter>, config: SimConfig) -> (s: SolarSystem)
        requires
            table_ok(seed_bodies(orbiters@), seed_kinemats(orbiters@)),
            config.save_every >= 1,
            config.max_saves >= 1,
            config.max_pull_distance <= COORD_LIMIT as u128,
        ensures
            s.wf(),
            s.bodies_view() == seed_bodies(orbiters@),
            s.kinemats_view() == seed_kinemats(orbiters@),
            s.saves_view() == Seq::<Seq<Option<Kinemat>>>::empty(),
            s.mode_spec() == SimulationMode::Simulating,
            s.save_phase_spec() == 0,
            s.save_every_spec() == config.save_every as int,
            s.max_saves_spec() == config.max_saves as int,
            s.min_pull_mass_spec() == config.min_pull_mass as int,
            s.max_pull_distance_spec() == config.max_pull_distance as int,
    {
        let ghost os0 = orbiters@;
        let ghost sb = seed_bodies(os0);
        let ghost sk = seed_kinemats(os0);
        let mut orbiters = orbiters;
        let total = orbiters.len();
        proof {
            assert(os0.len() == total);
        }
        let mut s = SolarSystem::empty(config);
        let mut i: usize = 0;
        proof {
            assert(s.bodies_view() =~= sb.subrange(0, 0));
            assert(s.kinemats_view() =~= sk.subrange(0, 0));
        }
        while orbiters.len() > 0
            invariant
                os0.len() <= usize::MAX,
                i + orbiters.len() == os0.len(),
                orbiters@ == os0.subrange(i as int, os0.len() as int),
                table_ok(sb, sk),
                s.wf(),
                s.bodies_view() == sb.subrange(0, i as int),
                s.kinemats_view() == sk.subrange(0, i as int),
                s.saves_view() == Seq::<Seq<Option<Kinemat>>>::empty(),
                s.mode_spec() == SimulationMode::Simulating,
                s.save_phase_spec() == 0,
                s.save_every_spec() == config.save_every as int,
                s.max_saves_spec() == config.max_saves as int,
                s.min_pull_mass_spec() == config.min_pull_mass as int,
                s.max_pull_distance_spec() == config.max_pull_distance as int,
                active_mass(s.bodies_view(), s.kinemats_view()) == table_sum(
                    sb,
                    sk,
                    i as int,
                    fmass(),
                ),
                active_volume(s.bodies_view(), s.kinemats_view()) == table_sum(
                    sb,
                    sk,
                    i as int,
                    fvol(),
                ),
            decreases orbiters.len(),
        {
            let ghost prevo = orbiters@;
            let o = orbiters.remove(0);
            proof {
                assert(o == prevo[0]);
                lemma_seed_at(os0, i as int);
                assert(prevo[0] == os0[i as int]);
                assert(sb[i as int] == Some(os0[i as int].0@));
                assert(sk[i as int] == Some(os0[i as int].1));
                assert(valid_body(o.0@));
                assert(valid_kinemat(o.1));
                lemma_seed_prefix_sums(sb, sk, i as int);
                assert(entry_weight(sb, sk, i as int, fmass()) == o.0@.mass);
                assert(entry_weight(sb, sk, i as int, fvol()) == o.0@.radius * o.0@.radius
                    * o.0@.radius);
            }
            let ghost pre = s;
            s.add_orbiter(o);
            let ghost ii = i as int;
            proof {
                assert(s.bodies_view() =~= sb.subrange(0, ii + 1)) by {
                    assert(s.bodies_view() == pre.bodies_view().push(Some(o.0@)));
                    assert(sb[ii] == Some(o.0@));
                }
                assert(s.kinemats_view() =~= sk.subrange(0, ii + 1)) by {
                    assert(sk[ii] == Some(o.1));
                }
                assert(orbiters@ =~= os0.subrange(ii + 1, os0.len() as int));
                lemma_seed_sum_step(sb, sk, ii);
            }
            i = i + 1;
        }
        proof {
            assert(s.bodies_view() =~= sb);
            assert(s.kinemats_view() =~= sk);
        }
        s
    }

    /// Builds a solar system from seed orbiters with the default
    /// configuration constants.
    pub fn new(orbiters: Vec<Orbiter>) -> (s: SolarSystem)
        requires
            table_ok(seed_bodies(orbiters@), seed_kinemats(orbiters@)),
        ensures
            s.wf(),
            s.bodies_view() == seed_bodies(orbiters@),
            s.kinemats_view() == seed_kinemats(orbiters@),
            s.saves_view() == Seq::<Seq<Option<Kinemat>>>::empty(),
            s.mode_spec() == SimulationMode::Simulating,
            s.save_phase_spec() == 0,
            s.save_every_spec() == SAVE_EVERY as int,
            s.max_saves_spec() == SAVE_COUNT as int,
            s.min_pull_mass_spec() == MIN_PULL_MASS as int,
            s.max_pull_distance_spec() == MAX_PULL_DISTANCE as int,
    {
        SolarSystem::with_config(
            orbiters,
            SimConfig {
                save_every: SAVE_EVERY,
                max_saves: SAVE_COUNT,
                min_pull_mass: MIN_PULL_MASS,
                max_pull_distance: MAX_PULL_DISTANCE,
            },
        )
    }

    /// Adds an orbiter to the solar system and returns the id it was
    /// given: the next sequential id, never one used before.
    pub fn add_orbiter(&mut self, oer: Orbiter) -> (id: usize)
        requires
            old(self).wf(),
            valid_body(oer.0@),
            valid_kinemat(oer.1),
            active_mass(old(self).bodies_view(), old(self).kinemats_view()) + oer.0@.mass
                <= MASS_LIMIT,
            active_volume(old(self).bodies_view(), old(self).kinemats_view())
                + oer.0@.radius * oer.0@.radius * oer.0@.radius <= VOLUME_LIMIT,
        ensures
            final(self).wf(),
            id == old(self).bodies_view().len(),
            final(self).bodies_view() == old(self).bodies_view().push(Some(oer.0@)),
            final(self).kinemats_view() == old(self).kinemats_view().push(Some(oer.1)),
            final(self).saves_view() == old(self).saves_view(),
            final(self).mode_spec() == old(self).mode_spec(),
            final(self).save_phase_spec() == old(self).save_phase_spec(),
            old(self).same_config(*final(self)),
            active_mass(final(self).bodies_view(), final(self).kinemats_view()) == active_mass(
                old(self).bodies_view(),
                old(self).kinemats_view(),
            ) + oer.0@.mass,
            active_volume(final(self).bodies_view(), final(self).kinemats_view()) == active_volume(
                old(self).bodies_view(),
                old(self).kinemats_view(),
            ) + oer.0@.radius * oer.0@.radius * oer.0@.radius,
    {
        let ghost b0 = old(self).bodies_view();
        let ghost k0 = old(self).kinemats_view();
        let id = self.bodies.len();
        let Orbiter(body, kmat) = oer;
        self.bodies.push(Some(body));
        self.kinemats.push(Some(kmat));
        proof {
            assert(self.bodies_view() =~= b0.push(Some(oer.0@)));
            assert(self.kinemats_view() =~= k0.push(Some(oer.1)));
            assert(self.saves_view() == old(self).saves_view());
            crate::table::lemma_table_sum_push(b0, k0, oer.0@, oer.1, fmass());
            crate::table::lemma_table_sum_push(b0, k0, oer.0@, oer.1, fvol());
            let b2 = self.bodies_view();
            let k2 = self.kinemats_view();
            assert forall|s: int| 0 <= s < self.saves_view().len() implies snap_ok(
                b2,
                #[trigger] self.saves_view()[s],
            ) by {
                let snap = self.saves_view()[s];
                assert(snap_ok(b0, snap));
                assert forall|i: int| 0 <= i < snap.len() implies #[trigger] b2[i] == b0[i] by {
                    assert(snap.len() <= b0.len());
                }
                crate::table::lemma_table_sum_agree(
                    b2,
                    snap,
                    b0,
                    snap,
                    snap.len() as int,
                    fmass(),
                );
                crate::table::lemma_table_sum_agree(
                    b2,
                    snap,
                    b0,
                    snap,
                    snap.len() as int,
                    fvol(),
                );
            }
        }
        id
    }

    /// The current mode: always exactly one of the two states.
    pub fn get_mode(&self) -> (m: SimulationMode)
        ensures
            m == self.mode_spec(),
    {
        self.mode
    }

    /// How many snapshots the history currently holds; never more
    /// than the history bound.
    pub fn history_length(&self) -> (n: usize)
        ensures
            n == self.saves_view().len(),
            self.wf() ==> n <= self.max_saves_spec(),
    {
        self.saves.len()
    }

    /// The body a given id was assigned, if the id has been assigned
    /// and its record has not been pruned by a rewind-restore.
    pub fn get_body(&self, id: usize) -> (r: Option<&Body>)
        ensures
            match r {
                Some(b) => id < self.bodies_view().len() && self.bodies_view()[id as int] == Some(
                    b@,
                ),
                None => id >= self.bodies_view().len() || self.bodies_view()[id as int] is None,
            },
    {
        if id < self.bodies.len() {
            self.bodies[id].as_ref()
        } else {
            None
        }
    }
}

/// A copy of a kinematic table.
#[verifier::loop_isolation(false)]
fn clone_table(t: &Vec<Option<Kinemat>>) -> (r: Vec<Option<Kinemat>>)
    ensures
        r@ == t@,
{
    let mut r: Vec<Option<Kinemat>> = Vec::new();
    let mut i: usize = 0;
    while i < t.len()
        invariant
            i <= t.len(),
            r@ == t@.subrange(0, i as int),
        decreases t.len() - i,
    {
        r.push(t[i]);
        proof {
            assert(r@ =~= t@.subrange(0, i + 1 as int));
        }
        i = i + 1;
    }
    proof {
        assert(r@ =~= t@);
    }
    r
}

impl SolarSystem {
    /// Saves the current state: appends a copy of the live table to
    /// the history, evicting the oldest snapshot when the bound is
    /// reached.
    fn save(&mut self)
        requires
            old(self).wf(),
        ensures
            final(self).wf(),
            final(self).saves_view() == spec_push_evict(
                old(self).saves_view(),
                old(self).kinemats_view(),
                old(self).max_saves_spec(),
            ),
            final(self).saves_view().len() as int == (if (old(self).saves_view().len() as int)
                < old(self).max_saves_spec() {
                old(self).saves_view().len() as int + 1
            } else {
                old(self).max_saves_spec()
            }),
            final(self).saves_view().last() == old(self).kinemats_view(),
            final(self).bodies_view() == old(self).bodies_view(),
            final(self).kinemats_view() == old(self).kinemats_view(),
            final(self).mode_spec() == old(self).mode_spec(),
            final(self).save_phase_spec() == old(self).save_phase_spec(),
            old(self).same_config(*final(self)),
    {
        let ghost sv0 = self.saves_view();
        let ghost k0 = self.kinemats_view();
        let snap = clone_table(&self.kinemats);
        self.saves.push_back(snap);
        proof {
            assert(self.saves_view() =~= sv0.push(k0));
        }
        if self.saves.len() > self.h_max {
            let ghost svp = self.saves_view();
            let _ = self.saves.pop_front();
            proof {
                assert(self.saves_view() =~= svp.subrange(1, svp.len() as int));
            }
        }
        proof {
            let svf = self.saves_view();
            assert(svf == spec_push_evict(sv0, k0, old(self).max_saves_spec()));
            assert(svf.last() == k0);
            assert(self.bodies_view() == old(self).bodies_view());
            assert forall|s: int| 0 <= s < svf.len() implies snap_ok(
                self.bodies_view(),
                #[trigger] svf[s],
            ) by {
                if svf.len() == sv0.len() + 1 && s < sv0.len() {
                    assert(svf[s] == sv0[s]);
                    assert(snap_ok(self.bodies_view(), sv0[s]));
                } else if svf.len() == sv0.len() + 1 {
                    assert(svf[s] == k0);
                } else {
                    if s < svf.len() - 1 {
                        assert(svf[s] == sv0[s + 1]);
                        assert(snap_ok(self.bodies_view(), sv0[s + 1]));
                    } else {
                        assert(svf[s] == k0);
                    }
                }
                assert(snap_ok(self.bodies_view(), k0)) by {
                    assert(table_ok(self.bodies_view(), k0));
                }
            }
        }
    }

    /// Turns on snapshot-viewing mode. Takes one more snapshot first,
    /// so the moment of entry is itself preserved, and views the
    /// newest snapshot.
    pub fn enable_load(&mut self)
        requires
            old(self).wf(),
            old(self).mode_spec() is Simulating,
        ensures
            final(self).wf(),
            final(self).saves_view() == spec_push_evict(
                old(self).saves_view(),
                old(self).kinemats_view(),
                old(self).max_saves_spec(),
            ),
            final(self).saves_view().last() == old(self).kinemats_view(),
            final(self).mode_spec() == SimulationMode::LoadingSave(
                (final(self).saves_view().len() - 1) as usize,
            ),
            final(self).bodies_view() == old(self).bodies_view(),
            final(self).kinemats_view() == old(self).kinemats_view(),
            final(self).save_phase_spec() == old(self).save_phase_spec(),
            old(self).same_config(*final(self)),
    {
        self.save();
        let newest_save = self.saves.len() - 1;
        self.mode = SimulationMode::LoadingSave(newest_save);
    }

    /// While viewing, moves the viewed snapshot index by `by`, clamped
    /// to the range of indices the history holds. Never fails: an
    /// out-of-range move only clamps.
    pub fn change_load(&mut self, by: isize)
        requires
            old(self).wf(),
            old(self).mode_spec() is LoadingSave,
        ensures
            final(self).wf(),
            final(self).mode_spec() == SimulationMode::LoadingSave(
                ({
                    let target = old(self).mode_spec()->0 + by;
                    let len = old(self).saves_view().len() as int;
                    (if target < 0 {
                        0
                    } else if target > len - 1 {
                        len - 1
                    } else {
                        target
                    }) as usize
                }),
            ),
            final(self).bodies_view() == old(self).bodies_view(),
            final(self).kinemats_view() == old(self).kinemats_view(),
            final(self).saves_view() == old(self).saves_view(),
            final(self).save_phase_spec() == old(self).save_phase_spec(),
            old(self).same_config(*final(self)),
    {
        if let SimulationMode::LoadingSave(number) = self.mode {
            let len = self.saves.len();
            let target = number as i128 + by as i128;
            let new_number: usize = if target < 0 {
                0
            } else if target > (len - 1) as i128 {
                len - 1
            } else {
                target as usize
            };
            self.mode = SimulationMode::LoadingSave(new_number);
        }
    }
}

impl SolarSystem {
    /// The table queries read from: the live table while simulating,
    /// the viewed snapshot while viewing.
    pub open spec fn selected_table(self) -> Seq<Option<Kinemat>> {
        match self.mode_spec() {
            SimulationMode::Simulating => self.kinemats_view(),
            SimulationMode::LoadingSave(n) => self.saves_view()[n as int],
        }
    }

    /// The active orbiters of the selected table, as an ordered
    /// mapping from id to body and kinematic state: exactly one pair
    /// per active id, in ascending id order.
    #[verifier::loop_isolation(false)]
    pub fn get_orbiters(&self) -> (r: Vec<(usize, Orbiter)>)
        requires
            self.wf(),
        ensures
            ({
                let t = self.selected_table();
                &&& forall|k: int|
                    0 <= k < r@.len() ==> (#[trigger] r@[k]).0 < t.len() && t[r@[k].0 as int]
                        is Some && r@[k].1.1 == t[r@[k].0 as int]->0 && Some(r@[k].1.0@)
                        == self.bodies_view()[r@[k].0 as int]
                &&& forall|k1: int, k2: int|
                    0 <= k1 < k2 < r@.len() ==> (#[trigger] r@[k1]).0 < (#[trigger] r@[k2]).0
                &&& forall|id: int|
                    0 <= id < t.len() && t[id] is Some ==> exists|k: int|
                        0 <= k < r@.len() && (#[trigger] r@[k]).0 == id
            }),
    {
        let t: &Vec<Option<Kinemat>> = match self.mode {
            SimulationMode::Simulating => &self.kinemats,
            SimulationMode::LoadingSave(number) => &self.saves[number],
        };
        proof {
            assert(t@ == self.selected_table());
            assert(t@.len() <= self.bodies_view().len());
        }
        let mut out: Vec<(usize, Orbiter)> = Vec::new();
        let mut i: usize = 0;
        while i < t.len()
            invariant
                i <= t@.len(),
                t@ == self.selected_table(),
                t@.len() <= self.bodies@.len(),
                forall|k: int|
                    0 <= k < out@.len() ==> (#[trigger] out@[k]).0 < i && t@[out@[k].0 as int]
                        is Some && out@[k].1.1 == t@[out@[k].0 as int]->0 && Some(out@[k].1.0@)
                        == self.bodies_view()[out@[k].0 as int],
                forall|k1: int, k2: int|
                    0 <= k1 < k2 < out@.len() ==> (#[trigger] out@[k1]).0 < (
                    #[trigger] out@[k2]).0,
                forall|id: int|
                    0 <= id < i && t@[id] is Some ==> exists|k: int|
                        0 <= k < out@.len() && (#[trigger] out@[k]).0 == id,
            decreases t@.len() - i,
        {
            proof {
                lemma_views_at(self.bodies@, i as int);
            }
            if let Some(k) = &t[i] {
                if let Some(b) = &self.bodies[i] {
                    let ghost outp = out@;
                    let pair = (i, Orbiter(b.duplicate(), *k));
                    out.push(pair);
                    proof {
                        assert(out@ == outp.push(pair));
                        assert forall|id: int|
                            0 <= id < i + 1 && t@[id] is Some implies exists|kk: int|
                                0 <= kk < out@.len() && (#[trigger] out@[kk]).0 == id by {
                            if id == i {
                                assert(out@[out@.len() - 1].0 == id);
                            } else {
                                let kk = choose|kk: int|
                                    0 <= kk < outp.len() && (#[trigger] outp[kk]).0 == id;
                                assert(out@[kk].0 == id);
                            }
                        }
                    }
                } else {
                    proof {
                        assert(self.bodies_view()[i as int] is Some);
                        assert(false);
                    }
                }
            }
            i = i + 1;
        }
        out
    }
}

/// A merge found by the executable scan: the consumed ids and the
/// computed merge product.
struct MergeRec {
    puller: usize,
    other: usize,
    body: Body,
    kmat: Kinemat,
}

/// The queued merges of the executable scan, at the model level.
spec fn merge_views(ms: Seq<MergeRec>) -> Seq<MergeEvent> {
    ms.map_values(
        |m: MergeRec|
            MergeEvent { puller: m.puller as int, other: m.other as int, body: m.body@, kmat: m.kmat },
    )
}

/// The merge products computed by the scan are valid bodies and valid
/// kinematic states.
spec fn merges_valid(ms: Seq<MergeEvent>) -> bool {
    forall|x: int|
        0 <= x < ms.len() ==> valid_body((#[trigger] ms[x]).body) && valid_kinemat(ms[x].kmat)
}

/// Every entry of a wellformed table weighs at least nothing.
proof fn lemma_entries_nonneg(bodies: Seq<Option<BodyView>>, kmats: Seq<Option<Kinemat>>)
    requires
        forall|i: int| 0 <= i < bodies.len() && bodies[i] is Some ==> valid_body(
            #[trigger] bodies[i]->0,
        ),
    ensures
        forall|i: int| #[trigger] entry_weight(bodies, kmats, i, fmass()) >= 0,
        forall|i: int| #[trigger] entry_weight(bodies, kmats, i, fvol()) >= 0,
{
    assert forall|i: int| #[trigger] entry_weight(bodies, kmats, i, fmass()) >= 0 by {
        if 0 <= i < kmats.len() && kmats[i] is Some && i < bodies.len() && bodies[i] is Some {
            assert(valid_body(bodies[i]->0));
        }
    }
    assert forall|i: int| #[trigger] entry_weight(bodies, kmats, i, fvol()) >= 0 by {
        if 0 <= i < kmats.len() && kmats[i] is Some && i < bodies.len() && bodies[i] is Some {
            let b = bodies[i]->0;
            assert(b.radius * b.radius * b.radius >= 1) by (nonlinear_arith)
                requires
                    b.radius >= 1,
            ;
        }
    }
}

/// A snapshot consistent with a registry stays consistent when the
/// registry grows and keeps its old entries.
proof fn lemma_snap_ok_extend(
    b0: Seq<Option<BodyView>>,
    bf: Seq<Option<BodyView>>,
    snap: Seq<Option<Kinemat>>,
)
    requires
        snap_ok(b0, snap),
        bf.len() >= b0.len(),
        forall|i: int| 0 <= i < b0.len() ==> #[trigger] bf[i] == b0[i],
    ensures
        snap_ok(bf, snap),
{
    assert forall|i: int| 0 <= i < snap.len() implies entry_weight(bf, snap, i, fmass())
        == entry_weight(b0, snap, i, fmass()) && entry_weight(bf, snap, i, fvol())
        == entry_weight(b0, snap, i, fvol()) by {
        assert(bf[i] == b0[i]);
    }
    crate::table::lemma_table_sum_agree(bf, snap, b0, snap, snap.len() as int, fmass());
    crate::table::lemma_table_sum_agree(bf, snap, b0, snap, snap.len() as int, fvol());
}

/// What one simulation step does, stated over the model of the state:
/// the step that begins a save cycle snapshots first; the scan of the
/// old table decides the accelerations and merges; the merges consume
/// their ids and append their products; the surviving pre-existing
/// actives integrate. The total active mass is conserved exactly, and
/// the registry keeps every previously assigned entry unchanged.
pub open spec fn spec_step_rel(pre: SolarSystem, post: SolarSystem, dt: int) -> bool {
    let b0 = pre.bodies_view();
    let k0 = pre.kinemats_view();
    let sv1 = if pre.save_phase_spec() == 0 {
        spec_push_evict(pre.saves_view(), k0, pre.max_saves_spec())
    } else {
        pre.saves_view()
    };
    let st = crate::scan::spec_scan(b0, k0, pre.min_pull_mass_spec(), pre.max_pull_distance_spec());
    let merged = crate::scan::spec_apply_merges(b0, k0, st.merges);
    &&& post.bodies_view() == merged.0
    &&& post.kinemats_view() == crate::scan::spec_integrate_all(merged.1, st.accs, dt)
    &&& post.saves_view() == sv1
    &&& post.save_phase_spec() == (pre.save_phase_spec() + 1) % pre.save_every_spec()
    &&& post.mode_spec() is Simulating
    &&& active_mass(post.bodies_view(), post.kinemats_view()) == active_mass(b0, k0)
    &&& post.bodies_view().len() >= b0.len()
    &&& forall|i: int| 0 <= i < b0.len() ==> #[trigger] post.bodies_view()[i] == b0[i]
}

fn scan_pair(
    bi: &Body,
    ki: Kinemat,
    bj: &Body,
    kj: Kinemat,
    i: usize,
    j: usize,
    max_pull_distance: u128,
    accs: &mut Vec<Vec2>,
    skip: &mut Vec<bool>,
    merges: &mut Vec<MergeRec>,
    Ghost(b0): Ghost<Seq<Option<BodyView>>>,
    Ghost(k0): Ghost<Seq<Option<Kinemat>>>,
    Ghost(st): Ghost<crate::scan::ScanState>,
)
    requires
        table_ok(b0, k0),
        crate::scan::scan_inv(b0, k0, st),
        old(accs)@ == st.accs,
        old(skip)@ == st.skip,
        merge_views(old(merges)@) == st.merges,
        merges_valid(st.merges),
        i < k0.len(),
        j < k0.len(),
        i != j,
        k0[i as int] == Some(ki),
        b0[i as int] == Some(bi@),
        k0[j as int] == Some(kj),
        b0[j as int] == Some(bj@),
        !st.skip[i as int],
        !st.skip[j as int],
        max_pull_distance <= COORD_LIMIT as u128,
    ensures
        ({
            let st2 = crate::scan::spec_pair_step(
                bi@,
                ki,
                bj@,
                kj,
                max_pull_distance as int,
                i as int,
                j as int,
                st,
            );
            &&& final(accs)@ == st2.accs
            &&& final(skip)@ == st2.skip
            &&& merge_views(final(merges)@) == st2.merges
            &&& merges_valid(st2.merges)
        }),
{
    proof {
        assert(valid_kinemat(ki) && valid_kinemat(kj));
        assert(valid_body(bi@) && valid_body(bj@));
    }
    let dx = kj.pos.x - ki.pos.x;
    let dy = kj.pos.y - ki.pos.y;
    let ax = iabs(dx);
    let ay = iabs(dy);
    proof {
        crate::nums::lemma_abs_sq(dx as int);
        crate::nums::lemma_abs_sq(dy as int);
        assert(ax <= 2 * COORD_LIMIT && ay <= 2 * COORD_LIMIT);
        assert(ax * ax + ay * ay <= u128::MAX) by (nonlinear_arith)
            requires
                0 <= ax <= 2 * COORD_LIMIT,
                0 <= ay <= 2 * COORD_LIMIT,
                COORD_LIMIT == 4611686018427387904i128,
        ;
    }
    let d2 = ax * ax + ay * ay;
    proof {
        assert(d2 == (dx as int) * (dx as int) + (dy as int) * (dy as int));
        assert(max_pull_distance * max_pull_distance <= u128::MAX) by (nonlinear_arith)
            requires
                0 <= max_pull_distance <= COORD_LIMIT as u128,
                COORD_LIMIT == 4611686018427387904i128,
        ;
    }
    if d2 > max_pull_distance * max_pull_distance {
        return ;
    }
    if bj.immovable {
        return ;
    }
    proof {
        crate::nums::lemma_radius_bound(bi@.radius);
        crate::nums::lemma_radius_bound(bj@.radius);
        assert((bi.radius + bj.radius) * (bi.radius + bj.radius) <= u128::MAX)
            by (nonlinear_arith)
            requires
                0 <= bi.radius < 4398046511104u128,
                0 <= bj.radius < 4398046511104u128,
        ;
    }
    let rsum = bi.radius + bj.radius;
    if d2 < rsum * rsum {
        // A collision: queue the merge and consume both ids.
        proof {
            lemma_entries_nonneg(b0, k0);
            crate::table::lemma_table_sum_pair_le(b0, k0, k0.len() as int, i as int, j as int, fmass());
            crate::table::lemma_table_sum_pair_le(b0, k0, k0.len() as int, i as int, j as int, fvol());
            assert(entry_weight(b0, k0, i as int, fmass()) == bi@.mass);
            assert(entry_weight(b0, k0, j as int, fmass()) == bj@.mass);
            assert(entry_weight(b0, k0, i as int, fvol()) == bi@.radius * bi@.radius * bi@.radius);
            assert(entry_weight(b0, k0, j as int, fvol()) == bj@.radius * bj@.radius * bj@.radius);
        }
        let body = merge_bodies(bi, bj);
        let kmat = merge_kinemat(bi, &ki, bj, &kj);
        skip.set(i, true);
        skip.set(j, true);
        let ghost mprev = merges@;
        merges.push(MergeRec { puller: i, other: j, body, kmat });
        proof {
            let st2 = crate::scan::spec_pair_step(
                bi@,
                ki,
                bj@,
                kj,
                max_pull_distance as int,
                i as int,
                j as int,
                st,
            );
            assert(merge_views(merges@) =~= merge_views(mprev).push(
                MergeEvent { puller: i as int, other: j as int, body: body@, kmat: kmat },
            ));
            assert(skip@ =~= st.skip.update(i as int, true).update(j as int, true));
            assert(merge_views(merges@) == st2.merges);
            assert forall|x: int| 0 <= x < st2.merges.len() implies valid_body(
                (#[trigger] st2.merges[x]).body,
            ) && valid_kinemat(st2.merges[x].kmat) by {
                if x < st.merges.len() {
                    assert(st2.merges[x] == st.merges[x]);
                } else {
                    assert(st2.merges[x].body == body@);
                }
            }
        }
    } else {
        // Gravity: id `i` pulls id `j`.
        proof {
            assert(rsum * rsum >= 4) by (nonlinear_arith)
                requires
                    rsum >= 2,
            ;
            assert(d2 >= 4);
            assert(bi.mass * crate::nums::G_SCALED <= u128::MAX) by (nonlinear_arith)
                requires
                    0 <= bi.mass <= MASS_LIMIT,
                    MASS_LIMIT == 20282409603651670423947251286016u128,
        ;
        }
        let araw = bi.mass * crate::nums::G_SCALED / d2;
        let acap = if araw > crate::nums::ACC_PAIR_CAP {
            crate::nums::ACC_PAIR_CAP
        } else {
            araw
        };
        let d = isqrt(d2);
        proof {
            if d == 0 {
                assert((0 + 1) * (0 + 1) > d2);
                assert(false);
            }
            assert(ax * ax <= d2 && ay * ay <= d2) by (nonlinear_arith)
                requires
                    d2 == ax * ax + ay * ay,
                    ay >= 0,
                    ax >= 0,
            ;
            crate::nums::lemma_within_sqrt(ax as int, d as int, d2 as int);
            crate::nums::lemma_within_sqrt(ay as int, d as int, d2 as int);
            assert(acap * ax <= u128::MAX && acap * ay <= u128::MAX) by (nonlinear_arith)
                requires
                    0 <= acap <= crate::nums::ACC_PAIR_CAP,
                    crate::nums::ACC_PAIR_CAP == 18446744073709551616u128,
                    0 <= ax <= 2 * COORD_LIMIT,
                    0 <= ay <= 2 * COORD_LIMIT,
                    COORD_LIMIT == 4611686018427387904i128,
            ;
            vstd::arithmetic::mul::lemma_mul_inequality(ax as int, d as int, acap as int);
            vstd::arithmetic::mul::lemma_mul_inequality(ay as int, d as int, acap as int);
            vstd::arithmetic::mul::lemma_mul_is_commutative(ax as int, acap as int);
            vstd::arithmetic::mul::lemma_mul_is_commutative(ay as int, acap as int);
            vstd::arithmetic::mul::lemma_mul_is_commutative(d as int, acap as int);
            vstd::arithmetic::div_mod::lemma_div_is_ordered(
                (acap * ax) as int,
                (acap as int) * (d as int),
                d as int,
            );
            vstd::arithmetic::div_mod::lemma_div_is_ordered(
                (acap * ay) as int,
                (acap as int) * (d as int),
                d as int,
            );
            vstd::arithmetic::div_mod::lemma_div_multiples_vanish(acap as int, d as int);
        }
        let mx = acap * ax / d;
        let my = acap * ay / d;
        let cx: i128 = if dx >= 0 {
            -(mx as i128)
        } else {
            mx as i128
        };
        let cy: i128 = if dy >= 0 {
            -(my as i128)
        } else {
            my as i128
        };
        proof {
            assert(-crate::nums::ACC_SUM_LIMIT <= accs@[j as int].x <= crate::nums::ACC_SUM_LIMIT);
            assert(-crate::nums::ACC_SUM_LIMIT <= accs@[j as int].y <= crate::nums::ACC_SUM_LIMIT);
        }
        let aj = accs[j];
        let nx = clamp(aj.x + cx, crate::nums::ACC_SUM_LIMIT);
        let ny = clamp(aj.y + cy, crate::nums::ACC_SUM_LIMIT);
        accs.set(j, Vec2 { x: nx, y: ny });
        proof {
            let st2 = crate::scan::spec_pair_step(
                bi@,
                ki,
                bj@,
                kj,
                max_pull_distance as int,
                i as int,
                j as int,
                st,
            );
            assert(accs@ =~= st2.accs);
        }
    }
}

impl SolarSystem {
    /// Runs the pair scan of one step over the live table, returning
    /// the acceleration accumulators and the queued merges.
    #[verifier::loop_isolation(false)]
    fn run_scan(&self) -> (r: (Vec<Vec2>, Vec<MergeRec>))
        requires
            self.wf(),
        ensures
            ({
                let st = crate::scan::spec_scan(
                    self.bodies_view(),
                    self.kinemats_view(),
                    self.min_pull_mass_spec(),
                    self.max_pull_distance_spec(),
                );
                &&& r.0@ == st.accs
                &&& merge_views(r.1@) == st.merges
                &&& merges_valid(st.merges)
                &&& r.0@.len() == self.kinemats_view().len()
            }),
    {
        let ghost b0 = self.bodies_view();
        let ghost k0 = self.kinemats_view();
        let ghost mp = self.min_pull_mass_spec();
        let ghost md = self.max_pull_distance_spec();
        let n = self.kinemats.len();
        let mut accs: Vec<Vec2> = Vec::new();
        while accs.len() < n
            invariant
                accs@.len() <= n,
                forall|t: int| 0 <= t < accs@.len() ==> #[trigger] accs@[t] == (Vec2 { x: 0, y: 0 }),
            decreases n - accs@.len(),
        {
            accs.push(Vec2 { x: 0, y: 0 });
        }
        let mut skip: Vec<bool> = Vec::new();
        while skip.len() < n
            invariant
                skip@.len() <= n,
                forall|t: int| 0 <= t < skip@.len() ==> #[trigger] skip@[t] == false,
            decreases n - skip@.len(),
        {
            skip.push(false);
        }
        let mut merges: Vec<MergeRec> = Vec::new();
        proof {
            assert(accs@ =~= crate::scan::scan_init(n as int).accs);
            assert(skip@ =~= crate::scan::scan_init(n as int).skip);
            assert(merge_views(merges@) =~= crate::scan::scan_init(n as int).merges);
            assert(crate::scan::spec_outer(b0, k0, mp, md, 0) == crate::scan::scan_init(n as int));
        }
        let mut i: usize = 0;
        while i < n
            invariant
                i <= n,
                accs@.len() == n,
                skip@.len() == n,
                accs@ == crate::scan::spec_outer(b0, k0, mp, md, i as int).accs,
                skip@ == crate::scan::spec_outer(b0, k0, mp, md, i as int).skip,
                merge_views(merges@) == crate::scan::spec_outer(b0, k0, mp, md, i as int).merges,
                merges_valid(merge_views(merges@)),
            decreases n - i,
        {
            let ghost sti = crate::scan::spec_outer(b0, k0, mp, md, i as int);
            let mut is_puller = false;
            if !skip[i] && self.kinemats[i].is_some() {
                if let Some(bi) = &self.bodies[i] {
                    if bi.mass > self.min_pull_mass {
                        is_puller = true;
                    }
                }
            }
            proof {
                lemma_views_at(self.bodies@, i as int);
                assert(is_puller == (k0[i as int] is Some && b0[i as int] is Some && !sti.skip[
                    i as int] && b0[i as int]->0.mass > mp));
            }
            if is_puller {
                let ki = self.kinemats[i].unwrap();
                let mut j: usize = 0;
                while j < n
                    invariant
                        j <= n,
                        i < n,
                        k0[i as int] is Some,
                        b0[i as int] is Some,
                        ki == k0[i as int]->0,
                        b0[i as int]->0.mass > mp,
                        accs@.len() == n,
                        skip@.len() == n,
                        accs@ == crate::scan::spec_inner(b0, k0, md, i as int, j as int, sti).accs,
                        skip@ == crate::scan::spec_inner(b0, k0, md, i as int, j as int, sti).skip,
                        merge_views(merges@) == crate::scan::spec_inner(
                            b0,
                            k0,
                            md,
                            i as int,
                            j as int,
                            sti,
                        ).merges,
                        merges_valid(merge_views(merges@)),
                    decreases n - j,
                {
                    let ghost stj = crate::scan::spec_inner(b0, k0, md, i as int, j as int, sti);
                    proof {
                        crate::scan::lemma_outer_inv(b0, k0, mp, md, i as int);
                        crate::scan::lemma_inner_inv(b0, k0, md, i as int, j as int, sti);
                        lemma_views_at(self.bodies@, j as int);
                    }
                    let mut take_pair = false;
                    if j != i && !skip[i] && !skip[j] && self.kinemats[j].is_some() {
                        if self.bodies[j].is_some() {
                            take_pair = true;
                        }
                    }
                    proof {
                        assert(take_pair == (j != i && k0[j as int] is Some && b0[j as int]
                            is Some && !stj.skip[j as int] && !stj.skip[i as int]));
                    }
                    if take_pair {
                        let kj = self.kinemats[j].unwrap();
                        let bi = self.bodies[i].as_ref().unwrap();
                        let bj = self.bodies[j].as_ref().unwrap();
                        proof {
                            lemma_views_at(self.bodies@, i as int);
                            assert(b0[i as int] == Some(bi@));
                            assert(b0[j as int] == Some(bj@));
                        }
                        scan_pair(
                            bi,
                            ki,
                            bj,
                            kj,
                            i,
                            j,
                            self.max_pull_distance,
                            &mut accs,
                            &mut skip,
                            &mut merges,
                            Ghost(b0),
                            Ghost(k0),
                            Ghost(stj),
                        );
                        proof {
                            assert(crate::scan::spec_inner_one(b0, k0, md, i as int, j as int, stj)
                                == crate::scan::spec_pair_step(
                                bi@,
                                ki,
                                bj@,
                                kj,
                                md,
                                i as int,
                                j as int,
                                stj,
                            ));
                        }
                    } else {
                        proof {
                            assert(crate::scan::spec_inner_one(b0, k0, md, i as int, j as int, stj)
                                == stj);
                        }
                    }
                    proof {
                        assert(crate::scan::spec_inner(b0, k0, md, i as int, j + 1 as int, sti)
                            == crate::scan::spec_inner_one(b0, k0, md, i as int, j as int, stj));
                    }
                    j = j + 1;
                }
                proof {
                    assert(crate::scan::spec_outer(b0, k0, mp, md, i + 1 as int)
                        == crate::scan::spec_inner(b0, k0, md, i as int, n as int, sti));
                }
            } else {
                proof {
                    assert(crate::scan::spec_outer(b0, k0, mp, md, i + 1 as int) == sti);
                }
            }
            i = i + 1;
        }
        (accs, merges)
    }

    /// Applies the queued merges in order: both consumed ids leave the
    /// table, and the merged orbiter is appended under a fresh id.
    #[verifier::loop_isolation(false)]
    fn apply_queued(&mut self, merges: &Vec<MergeRec>)
        requires
            old(self).bodies_view().len() == old(self).kinemats_view().len(),
            forall|t: int|
                0 <= t < merge_views(merges@).len() ==> crate::scan::merge_ok(
                    old(self).bodies_view(),
                    old(self).kinemats_view(),
                    #[trigger] merge_views(merges@)[t],
                ),
            crate::scan::merges_disjoint(merge_views(merges@)),
        ensures
            final(self).bodies_view() == crate::scan::spec_apply_merges(
                old(self).bodies_view(),
                old(self).kinemats_view(),
                merge_views(merges@),
            ).0,
            final(self).kinemats_view() == crate::scan::spec_apply_merges(
                old(self).bodies_view(),
                old(self).kinemats_view(),
                merge_views(merges@),
            ).1,
            final(self).saves_view() == old(self).saves_view(),
            final(self).mode_spec() == old(self).mode_spec(),
            final(self).save_phase_spec() == old(self).save_phase_spec(),
            old(self).same_config(*final(self)),
    {
        let ghost b0 = old(self).bodies_view();
        let ghost k0 = old(self).kinemats_view();
        let ghost ms = merge_views(merges@);
        let ghost n = k0.len() as int;
        let nm = merges.len();
        let mut mi: usize = 0;
        while mi < nm
            invariant
                mi <= nm,
                nm == ms.len(),
                self.bodies_view() == crate::scan::spec_apply_merges(b0, k0, ms.take(mi as int)).0,
                self.kinemats_view() == crate::scan::spec_apply_merges(b0, k0, ms.take(mi as int)).1,
                self.saves_view() == old(self).saves_view(),
                self.mode_spec() == old(self).mode_spec(),
                self.save_phase_spec() == old(self).save_phase_spec(),
                old(self).same_config(*self),
            decreases nm - mi,
        {
            let ghost part = crate::scan::spec_apply_merges(b0, k0, ms.take(mi as int));
            proof {
                assert(forall|t: int| 0 <= t < mi ==> #[trigger] ms.take(mi as int)[t] == ms[t]);
                assert(forall|t: int|
                    0 <= t < mi ==> crate::scan::merge_ok(b0, k0, #[trigger] ms.take(mi as int)[t]));
                assert(crate::scan::merges_disjoint(ms.take(mi as int)));
                crate::scan::lemma_apply_merges_props(b0, k0, ms.take(mi as int));
                assert(crate::scan::merge_ok(b0, k0, ms[mi as int]));
                assert(part.1.len() == n + mi);
                assert(part.0.len() == n + mi);
            }
            let m_puller = merges[mi].puller;
            let m_other = merges[mi].other;
            self.kinemats.set(m_puller, None);
            self.kinemats.set(m_other, None);
            let new_body = merges[mi].body.duplicate();
            let new_kmat = merges[mi].kmat;
            self.bodies.push(Some(new_body));
            self.kinemats.push(Some(new_kmat));
            proof {
                let taken = ms.take((mi + 1) as int);
                assert(taken.drop_last() =~= ms.take(mi as int));
                assert(taken.last() == ms[mi as int]);
                assert(crate::scan::spec_apply_merges(b0, k0, taken).0 == part.0.push(
                    Some(ms[mi as int].body),
                ));
                assert(crate::scan::spec_apply_merges(b0, k0, taken).1 == part.1.update(
                    ms[mi as int].puller,
                    None,
                ).update(ms[mi as int].other, None).push(Some(ms[mi as int].kmat)));
                assert(self.bodies_view() =~= part.0.push(Some(ms[mi as int].body)));
                assert(self.kinemats_view() =~= part.1.update(ms[mi as int].puller, None).update(
                    ms[mi as int].other,
                    None,
                ).push(Some(ms[mi as int].kmat)));
            }
            mi = mi + 1;
        }
        proof {
            assert(ms.take(nm as int) =~= ms);
        }
    }

    /// Integrates the first `accs.len()` ids of the table: every
    /// surviving active among them absorbs its accumulated
    /// acceleration over `dt`.
    #[verifier::loop_isolation(false)]
    fn integrate_table(&mut self, accs: &Vec<Vec2>, dt: u64)
        requires
            dt <= DT_LIMIT,
            accs@.len() <= old(self).kinemats_view().len(),
            forall|u: int|
                0 <= u < old(self).kinemats_view().len() && old(self).kinemats_view()[u] is Some
                    ==> valid_kinemat(#[trigger] old(self).kinemats_view()[u]->0),
            forall|t: int|
                0 <= t < accs@.len() ==> -crate::nums::ACC_SUM_LIMIT <= (#[trigger] accs@[t]).x
                    <= crate::nums::ACC_SUM_LIMIT && -crate::nums::ACC_SUM_LIMIT <= accs@[t].y
                    <= crate::nums::ACC_SUM_LIMIT,
        ensures
            final(self).kinemats_view() == crate::scan::spec_integrate_all(
                old(self).kinemats_view(),
                accs@,
                dt as int,
            ),
            final(self).bodies_view() == old(self).bodies_view(),
            final(self).saves_view() == old(self).saves_view(),
            final(self).mode_spec() == old(self).mode_spec(),
            final(self).save_phase_spec() == old(self).save_phase_spec(),
            old(self).same_config(*final(self)),
    {
        let ghost k2 = old(self).kinemats_view();
        let n = accs.len();
        let mut t: usize = 0;
        while t < n
            invariant
                t <= n,
                n == accs@.len(),
                n <= k2.len(),
                self.kinemats@.len() == k2.len(),
                forall|u: int|
                    0 <= u < t ==> #[trigger] self.kinemats_view()[u]
                        == crate::scan::spec_integrate_all(k2, accs@, dt as int)[u],
                forall|u: int| t <= u < k2.len() ==> #[trigger] self.kinemats_view()[u] == k2[u],
                self.bodies_view() == old(self).bodies_view(),
                self.saves_view() == old(self).saves_view(),
                self.mode_spec() == old(self).mode_spec(),
                self.save_phase_spec() == old(self).save_phase_spec(),
                old(self).same_config(*self),
            decreases n - t,
        {
            proof {
                assert(self.kinemats_view()[t as int] == k2[t as int]);
            }
            if self.kinemats[t].is_some() {
                let mut kk = self.kinemats[t].unwrap();
                proof {
                    assert(kk == k2[t as int]->0);
                    assert(valid_kinemat(kk));
                }
                let a = accs[t];
                kk.update(dt, a);
                self.kinemats.set(t, Some(kk));
                proof {
                    assert(self.kinemats_view()[t as int] == crate::scan::spec_integrate_all(
                        k2,
                        accs@,
                        dt as int,
                    )[t as int]);
                }
            } else {
                proof {
                    assert(crate::scan::spec_integrate_all(k2, accs@, dt as int)[t as int]
                        == k2[t as int]);
                }
            }
            t = t + 1;
        }
        proof {
            assert forall|u: int| 0 <= u < k2.len() implies #[trigger] self.kinemats_view()[u]
                == crate::scan::spec_integrate_all(k2, accs@, dt as int)[u] by {
                if u >= n {
                    assert(self.kinemats_view()[u] == k2[u]);
                }
            }
            assert(self.kinemats_view() =~= crate::scan::spec_integrate_all(k2, accs@, dt as int));
        }
    }

    /// Advances the simulation by one step of `dt` milliseconds while
    /// simulating; a no-op while a snapshot is being viewed.
    #[verifier::spinoff_prover]
    #[verifier::rlimit(100)]
    pub fn update(&mut self, dt: u64)
        requires
            old(self).wf(),
            dt <= DT_LIMIT,
        ensures
            final(self).wf(),
            old(self).same_config(*final(self)),
            old(self).mode_spec() is LoadingSave ==> *final(self) == *old(self),
            old(self).mode_spec() is Simulating ==> spec_step_rel(*old(self), *final(self), dt as int),
    {
        if let SimulationMode::LoadingSave(_) = self.mode {
            return ;
        }
        let ghost b0 = old(self).bodies_view();
        let ghost k0 = old(self).kinemats_view();
        let ghost mp = old(self).min_pull_mass_spec();
        let ghost md = old(self).max_pull_distance_spec();
        if self.save_phase == 0 {
            self.save();
        }
        let ghost sv1 = self.saves_view();
        let n = self.kinemats.len();
        proof {
            assert(n == k0.len());
            assert(b0.len() == k0.len());
            assert(self.bodies_view() == b0);
            assert(self.kinemats_view() == k0);
        }
        let (accs, merges) = self.run_scan();
        let ghost st = crate::scan::spec_scan(b0, k0, mp, md);
        let ghost ms = merge_views(merges@);
        proof {
            assert(ms == st.merges);
            assert(accs@ == st.accs);
            crate::scan::lemma_outer_inv(b0, k0, mp, md, n as int);
            assert(crate::scan::scan_inv(b0, k0, st));
            crate::scan::lemma_apply_merges_props(b0, k0, ms);
            crate::scan::lemma_apply_merges_mass(b0, k0, ms);
            crate::scan::lemma_apply_merges_volume_le(b0, k0, ms);
        }
        let ghost merged = crate::scan::spec_apply_merges(b0, k0, ms);
        self.apply_queued(&merges);
        let ghost b2 = merged.0;
        let ghost k2 = merged.1;
        let ghost nm = ms.len() as int;
        proof {
            assert(self.bodies_view() == b2);
            assert(self.kinemats_view() == k2);
            assert(k2.len() == n + nm);
            assert forall|u: int| 0 <= u < k2.len() && k2[u] is Some implies valid_kinemat(
                #[trigger] k2[u]->0,
            ) by {
                if u < n {
                    assert(k2[u] == (if crate::scan::consumed(ms, u) {
                        None::<Kinemat>
                    } else {
                        k0[u]
                    }));
                } else {
                    assert(k2[u] == Some(ms[u - n].kmat));
                    assert(merges_valid(ms));
                }
            }
        }
        self.integrate_table(&accs, dt);
        // Step the save cycle.
        let next_phase = if self.save_phase + 1 == self.save_per {
            0
        } else {
            self.save_phase + 1
        };
        proof {
            if self.save_phase + 1 == self.save_per {
                vstd::arithmetic::div_mod::lemma_mod_self_0(self.save_per as int);
            } else {
                vstd::arithmetic::div_mod::lemma_small_mod(
                    (self.save_phase + 1) as nat,
                    self.save_per as nat,
                );
            }
        }
        self.save_phase = next_phase;
        // The step leaves a wellformed system.
        proof {
            let bf = self.bodies_view();
            let kf = self.kinemats_view();
            assert(bf == merged.0);
            crate::scan::lemma_integrate_all_sum(bf, k2, accs@, dt as int, fmass());
            crate::scan::lemma_integrate_all_sum(bf, k2, accs@, dt as int, fvol());
            assert(active_mass(bf, kf) == active_mass(b0, k0));
            assert(active_volume(bf, kf) <= active_volume(b0, k0));
            assert forall|u: int| 0 <= u < kf.len() && kf[u] is Some implies bf[u] is Some by {
                assert(kf[u] is Some <==> k2[u] is Some);
                if u < n {
                    assert(k2[u] == (if crate::scan::consumed(ms, u) {
                        None::<Kinemat>
                    } else {
                        k0[u]
                    }));
                    assert(bf[u] == b0[u]);
                } else {
                    assert(bf[u] == Some(ms[u - n].body));
                }
            }
            assert forall|u: int| 0 <= u < bf.len() && bf[u] is Some implies valid_body(
                #[trigger] bf[u]->0,
            ) by {
                if u < n {
                    assert(bf[u] == b0[u]);
                } else {
                    assert(bf[u] == Some(ms[u - n].body));
                    assert(merges_valid(ms));
                }
            }
            assert forall|u: int| 0 <= u < kf.len() && kf[u] is Some implies valid_kinemat(
                #[trigger] kf[u]->0,
            ) by {
                let ints = crate::scan::spec_integrate_all(k2, accs@, dt as int);
                assert(kf[u] == ints[u]);
                if 0 <= u < n && k2[u] is Some {
                    assert(kf[u] == Some(crate::bodies::spec_integrate(
                        k2[u]->0,
                        accs@[u],
                        dt as int,
                    )));
                } else {
                    assert(kf[u] == k2[u]);
                }
            }
            assert(table_ok(bf, kf));
            assert forall|s: int| 0 <= s < sv1.len() implies snap_ok(bf, #[trigger] sv1[s]) by {
                lemma_snap_ok_extend(b0, bf, sv1[s]);
            }
            assert(self.wf());
        }
    }
}

/// The view of the registry at one index.
proof fn lemma_views_at(bs: Seq<Option<Body>>, i: int)
    requires
        0 <= i < bs.len(),
    ensures
        views_of(bs).len() == bs.len(),
        views_of(bs)[i] == (match bs[i] {
            Some(b) => Some(b@),
            None => None::<BodyView>,
        }),
{
}

/// Some entry of the restored table or of a surviving snapshot still
/// refers to id `i`.
pub open spec fn table_references(
    kmats: Seq<Option<Kinemat>>,
    saves: Seq<Seq<Option<Kinemat>>>,
    i: int,
) -> bool {
    ||| (0 <= i < kmats.len() && kmats[i] is Some)
    ||| exists|s: int| 0 <= s < saves.len() && 0 <= i < saves[s].len() && #[trigger] saves[s][i] is Some
}

impl SolarSystem {
    /// Whether any snapshot in the history still holds id `i`.
    #[verifier::loop_isolation(false)]
    fn saves_contain(&self, i: usize) -> (r: bool)
        ensures
            r == exists|s: int|
                0 <= s < self.saves_view().len() && 0 <= i < self.saves_view()[s].len()
                    && #[trigger] self.saves_view()[s][i as int] is Some,
    {
        let mut s: usize = 0;
        let n = self.saves.len();
        while s < n
            invariant
                s <= n,
                n == self.saves_view().len(),
                forall|t: int|
                    0 <= t < s ==> !(0 <= i < self.saves_view()[t].len()
                        && #[trigger] self.saves_view()[t][i as int] is Some),
            decreases n - s,
        {
            let snap = &self.saves[s];
            if i < snap.len() {
                if snap[i].is_some() {
                    proof {
                        assert(self.saves_view()[s as int][i as int] is Some);
                    }
                    return true;
                }
            }
            proof {
                assert(!(0 <= i < self.saves_view()[s as int].len()
                    && self.saves_view()[s as int][i as int] is Some));
            }
            s = s + 1;
        }
        false
    }

    /// Leaves snapshot-viewing mode into the viewed snapshot: the live
    /// table becomes a copy of it, the history drops everything newer
    /// than it, the registry drops the bodies that neither the
    /// restored table nor any surviving snapshot refers to any more,
    /// and simulation resumes.
    #[verifier::loop_isolation(false)]
    pub fn exit_load(&mut self)
        requires
            old(self).wf(),
            old(self).mode_spec() is LoadingSave,
        ensures
            final(self).wf(),
            final(self).mode_spec() == SimulationMode::Simulating,
            final(self).kinemats_view() == crate::table::pad_table(
                old(self).saves_view()[old(self).mode_spec()->0 as int],
                old(self).bodies_view().len() as int,
            ),
            final(self).saves_view() == old(self).saves_view().subrange(
                0,
                old(self).mode_spec()->0 + 1,
            ),
            final(self).bodies_view().len() == old(self).bodies_view().len(),
            forall|i: int|
                0 <= i < old(self).bodies_view().len() ==> #[trigger] final(self).bodies_view()[i]
                    == (if table_references(
                    final(self).kinemats_view(),
                    final(self).saves_view(),
                    i,
                ) {
                    old(self).bodies_view()[i]
                } else {
                    None::<BodyView>
                }),
            final(self).save_phase_spec() == old(self).save_phase_spec(),
            old(self).same_config(*final(self)),
    {
        let ghost b0 = old(self).bodies_view();
        let ghost sv0 = old(self).saves_view();
        if let SimulationMode::LoadingSave(number) = self.mode {
            let ghost snap0 = sv0[number as int];
            let mut snap = clone_table(&self.saves[number]);
            proof {
                assert(snap@ == snap0);
                assert(snap0.len() <= b0.len());
            }
            while snap.len() < self.bodies.len()
                invariant
                    snap0.len() <= snap@.len() <= self.bodies@.len(),
                    snap@ == crate::table::pad_table(snap0, snap@.len() as int),
                decreases self.bodies@.len() - snap@.len(),
            {
                snap.push(None);
                proof {
                    assert(snap@ =~= crate::table::pad_table(snap0, snap@.len() as int));
                }
            }
            proof {
                assert(snap@ =~= crate::table::pad_table(snap0, b0.len() as int));
            }
            self.kinemats = snap;
            let ghost svp = self.saves_view();
            self.saves.truncate(number + 1);
            proof {
                assert(self.saves_view() =~= sv0.subrange(0, number + 1 as int));
            }
            // Prune the registry: blank every id that nothing
            // references any more, so old ids never desynchronize.
            let n = self.bodies.len();
            let ghost bmid = self.bodies_view();
            let ghost kf = self.kinemats_view();
            let ghost svf = self.saves_view();
            let mut i: usize = 0;
            while i < n
                invariant
                    i <= n,
                    n == self.bodies@.len(),
                    self.kinemats_view() == kf,
                    self.saves_view() == svf,
                    self.bodies_view().len() == bmid.len(),
                    bmid == b0,
                    forall|t: int|
                        0 <= t < i ==> #[trigger] self.bodies_view()[t] == (if table_references(
                            kf,
                            svf,
                            t,
                        ) {
                            b0[t]
                        } else {
                            None::<BodyView>
                        }),
                    forall|t: int|
                        i <= t < n ==> #[trigger] self.bodies_view()[t] == b0[t],
                    self.mode_spec() == old(self).mode_spec(),
                    self.save_phase_spec() == old(self).save_phase_spec(),
                    old(self).same_config(*self),
                decreases n - i,
            {
                let keep = self.kinemats[i].is_some() || self.saves_contain(i);
                proof {
                    assert(keep == table_references(kf, svf, i as int));
                }
                if !keep {
                    let ghost bprev = self.bodies_view();
                    self.bodies.set(i, None);
                    proof {
                        assert(self.bodies_view() =~= bprev.update(i as int, None));
                    }
                }
                i = i + 1;
            }
            self.mode = SimulationMode::Simulating;
            proof {
                lemma_exit_load_wf(b0, sv0, number as int, self.bodies_view());
            }
        }
    }
}

/// Restoring a snapshot and pruning unreferenced registry entries
/// leaves a wellformed system state.
proof fn lemma_exit_load_wf(
    b0: Seq<Option<BodyView>>,
    sv0: Seq<Seq<Option<Kinemat>>>,
    number: int,
    bf: Seq<Option<BodyView>>,
)
    requires
        0 <= number < sv0.len(),
        forall|s: int| 0 <= s < sv0.len() ==> snap_ok(b0, #[trigger] sv0[s]),
        forall|i: int| 0 <= i < b0.len() && b0[i] is Some ==> valid_body(#[trigger] b0[i]->0),
        bf.len() == b0.len(),
        ({
            let kf = crate::table::pad_table(sv0[number], b0.len() as int);
            let svf = sv0.subrange(0, number + 1);
            forall|i: int|
                0 <= i < b0.len() ==> #[trigger] bf[i] == (if table_references(kf, svf, i) {
                    b0[i]
                } else {
                    None::<BodyView>
                })
        }),
    ensures
        ({
            let kf = crate::table::pad_table(sv0[number], b0.len() as int);
            let svf = sv0.subrange(0, number + 1);
            &&& table_ok(bf, kf)
            &&& forall|s: int| 0 <= s < svf.len() ==> snap_ok(bf, #[trigger] svf[s])
        }),
{
    let snap0 = sv0[number];
    let kf = crate::table::pad_table(snap0, b0.len() as int);
    let svf = sv0.subrange(0, number + 1);
    assert(snap_ok(b0, snap0));
    // Pointwise: every entry the sums can see is unchanged between
    // (b0, .) and (bf, .) wherever the table is active.
    assert forall|i: int| 0 <= i < kf.len() && kf[i] is Some implies bf[i] == b0[i]
        && bf[i] is Some by {
        assert(0 <= i < snap0.len() && snap0[i] is Some);
        assert(table_references(kf, svf, i));
    }
    assert forall|i: int| 0 <= i < kf.len() && kf[i] is Some implies valid_kinemat(
        #[trigger] kf[i]->0,
    ) by {
        assert(snap0[i] is Some && kf[i] == snap0[i]);
    }
    assert forall|i: int| #[trigger] entry_weight(bf, kf, i, fmass()) == entry_weight(
        b0,
        snap0,
        i,
        fmass(),
    ) && entry_weight(bf, kf, i, fvol()) == entry_weight(b0, snap0, i, fvol()) by {
        if 0 <= i < snap0.len() && snap0[i] is Some {
            assert(kf[i] == snap0[i]);
            assert(table_references(kf, svf, i));
            assert(bf[i] == b0[i]);
        } else {
            if 0 <= i < kf.len() {
                assert(kf[i] is None);
            }
        }
    }
    crate::table::lemma_table_sum_agree(bf, kf, b0, kf, kf.len() as int, fmass());
    crate::table::lemma_table_sum_agree(bf, kf, b0, kf, kf.len() as int, fvol());
    crate::table::lemma_table_sum_pad(b0, snap0, b0.len() as int, b0.len() as int, fmass());
    crate::table::lemma_table_sum_pad(b0, snap0, b0.len() as int, b0.len() as int, fvol());
    assert forall|i: int| #[trigger] entry_weight(bf, kf, i, fmass()) == entry_weight(
        b0,
        kf,
        i,
        fmass(),
    ) by {}
    assert(active_mass(bf, kf) == active_mass(b0, snap0));
    assert(active_volume(bf, kf) == active_volume(b0, snap0));
    assert(table_ok(bf, kf));
    // The surviving snapshots still resolve and keep their sums.
    assert forall|s: int| 0 <= s < svf.len() implies snap_ok(bf, #[trigger] svf[s]) by {
        let sn = svf[s];
        assert(sn == sv0[s]);
        assert(snap_ok(b0, sn));
        assert forall|i: int| 0 <= i < sn.len() && sn[i] is Some implies bf[i] == b0[i]
            && bf[i] is Some by {
            assert(table_references(kf, svf, i));
        }
        assert forall|i: int| #[trigger] entry_weight(bf, sn, i, fmass()) == entry_weight(
            b0,
            sn,
            i,
            fmass(),
        ) && entry_weight(bf, sn, i, fvol()) == entry_weight(b0, sn, i, fvol()) by {
            if 0 <= i < sn.len() && sn[i] is Some {
                assert(bf[i] == b0[i]);
            }
        }
        crate::table::lemma_table_sum_agree(bf, sn, b0, sn, sn.len() as int, fmass());
        crate::table::lemma_table_sum_agree(bf, sn, b0, sn, sn.len() as int, fvol());
    }
}

/// Shape of the seed sequences at one index.
proof fn lemma_seed_at(os: Seq<Orbiter>, i: int)
    requires
        0 <= i < os.len(),
    ensures
        seed_bodies(os).len() == os.len(),
        seed_kinemats(os).len() == os.len(),
        seed_bodies(os)[i] == Some(os[i].0@),
        seed_kinemats(os)[i] == Some(os[i].1),
{
}

/// The partial seed sums stay under the full seed sums.
proof fn lemma_seed_prefix_sums(
    sb: Seq<Option<BodyView>>,
    sk: Seq<Option<Kinemat>>,
    i: int,
)
    requires
        table_ok(sb, sk),
        0 <= i < sk.len(),
    ensures
        table_sum(sb, sk, i, fmass()) + entry_weight(
            sb,
            sk,
            i,
            fmass(),
        ) <= MASS_LIMIT,
        table_sum(sb, sk, i, fvol()) + entry_weight(
            sb,
            sk,
            i,
            fvol(),
        ) <= VOLUME_LIMIT,
{
    let fm = fmass();
    let fv = fvol();
    assert forall|k: int| #[trigger] entry_weight(sb, sk, k, fm) >= 0 by {
        if 0 <= k < sk.len() && sk[k] is Some && k < sb.len() && sb[k] is Some {
            assert(valid_body(sb[k]->0));
        }
    }
    assert forall|k: int| #[trigger] entry_weight(sb, sk, k, fv) >= 0 by {
        if 0 <= k < sk.len() && sk[k] is Some && k < sb.len() && sb[k] is Some {
            let b = sb[k]->0;
            assert(valid_body(b));
            assert(b.radius * b.radius * b.radius >= 1) by (nonlinear_arith)
                requires
                    b.radius >= 1,
            ;
        }
    }
    lemma_seed_sum_step(sb, sk, i);
    crate::table::lemma_table_sum_mono(sb, sk, i + 1, sk.len() as int, fm);
    crate::table::lemma_table_sum_mono(sb, sk, i + 1, sk.len() as int, fv);
}

/// Unfolding one step of the seed sums.
proof fn lemma_seed_sum_step(sb: Seq<Option<BodyView>>, sk: Seq<Option<Kinemat>>, i: int)
    requires
        0 <= i,
    ensures
        table_sum(sb, sk, i + 1, fmass()) == table_sum(
            sb,
            sk,
            i,
            fmass(),
        ) + entry_weight(sb, sk, i, fmass()),
        table_sum(sb, sk, i + 1, fvol()) == table_sum(
            sb,
            sk,
            i,
            fvol(),
        ) + entry_weight(sb, sk, i, fvol()),
{
}

} // verus!
