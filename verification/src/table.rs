//! Sums over the active entries of a kinematic table.
//!
//! The engine's registry is a sequence of optional bodies and its table
//! a sequence of optional kinematic entries; an id is *active* when its
//! table entry is present. The overflow arguments of the engine rest on
//! two conserved quantities — the total mass and the total cubed radius
//! of the active bodies — and this module defines those sums and the
//! lemmas that track them through updates.

use vstd::prelude::*;

use crate::bodies::BodyView;
use crate::bodies::Kinemat;

verus! {

/// What id `i` contributes to a sum weighted by `f`: the weight of its
/// body if it is active, zero otherwise.
pub open spec fn entry_weight(
    bodies: Seq<Option<BodyView>>,
    kmats: Seq<Option<Kinemat>>,
    i: int,
    f: spec_fn(BodyView) -> int,
) -> int {
    if 0 <= i < kmats.len() && kmats[i] is Some && 0 <= i < bodies.len() && bodies[i] is Some {
        f(bodies[i]->0)
    } else {
        0
    }
}

/// The sum of `f` over the active ids below `n`.
pub open spec fn table_sum(
    bodies: Seq<Option<BodyView>>,
    kmats: Seq<Option<Kinemat>>,
    n: int,
    f: spec_fn(BodyView) -> int,
) -> int
    decreases n,
{
    if n <= 0 {
        0
    } else {
        table_sum(bodies, kmats, n - 1, f) + entry_weight(bodies, kmats, n - 1, f)
    }
}

/// The mass of a body, as a weight.
pub open spec fn mass_of(b: BodyView) -> int {
    b.mass
}

/// The cubed radius of a body, as a weight.
pub open spec fn volume_of(b: BodyView) -> int {
    b.radius * b.radius * b.radius
}

/// The mass weight, as a function value.
pub open spec fn fmass() -> spec_fn(BodyView) -> int {
    |b: BodyView| mass_of(b)
}

/// The cubed-radius weight, as a function value.
pub open spec fn fvol() -> spec_fn(BodyView) -> int {
    |b: BodyView| volume_of(b)
}

/// Total mass of the active ids of a table.
pub open spec fn active_mass(bodies: Seq<Option<BodyView>>, kmats: Seq<Option<Kinemat>>) -> int {
    table_sum(bodies, kmats, kmats.len() as int, fmass())
}

/// Total cubed radius of the active ids of a table.
pub open spec fn active_volume(bodies: Seq<Option<BodyView>>, kmats: Seq<Option<Kinemat>>) -> int {
    table_sum(bodies, kmats, kmats.len() as int, fvol())
}

/// A sum of nonnegative weights dominates every partial sum.
pub proof fn lemma_table_sum_nonneg(
    bodies: Seq<Option<BodyView>>,
    kmats: Seq<Option<Kinemat>>,
    n: int,
    f: spec_fn(BodyView) -> int,
)
    requires
        forall|i: int| #[trigger] entry_weight(bodies, kmats, i, f) >= 0,
    ensures
        table_sum(bodies, kmats, n, f) >= 0,
    decreases n,
{
    if n > 0 {
        lemma_table_sum_nonneg(bodies, kmats, n - 1, f);
    }
}

/// Growing the range of a sum of nonnegative weights never shrinks it.
pub proof fn lemma_table_sum_mono(
    bodies: Seq<Option<BodyView>>,
    kmats: Seq<Option<Kinemat>>,
    n1: int,
    n2: int,
    f: spec_fn(BodyView) -> int,
)
    requires
        forall|i: int| #[trigger] entry_weight(bodies, kmats, i, f) >= 0,
        n1 <= n2,
    ensures
        table_sum(bodies, kmats, n1, f) <= table_sum(bodies, kmats, n2, f),
    decreases n2 - n1,
{
    if n1 < n2 {
        lemma_table_sum_mono(bodies, kmats, n1, n2 - 1, f);
    }
}

/// A single active entry never outweighs the whole sum.
pub proof fn lemma_table_sum_entry_le(
    bodies: Seq<Option<BodyView>>,
    kmats: Seq<Option<Kinemat>>,
    n: int,
    i: int,
    f: spec_fn(BodyView) -> int,
)
    requires
        forall|k: int| #[trigger] entry_weight(bodies, kmats, k, f) >= 0,
        0 <= i < n,
    ensures
        entry_weight(bodies, kmats, i, f) <= table_sum(bodies, kmats, n, f),
    decreases n,
{
    if i == n - 1 {
        lemma_table_sum_nonneg(bodies, kmats, n - 1, f);
    } else {
        lemma_table_sum_entry_le(bodies, kmats, n - 1, i, f);
    }
}

/// Two distinct active entries never outweigh the whole sum together.
pub proof fn lemma_table_sum_pair_le(
    bodies: Seq<Option<BodyView>>,
    kmats: Seq<Option<Kinemat>>,
    n: int,
    i: int,
    j: int,
    f: spec_fn(BodyView) -> int,
)
    requires
        forall|k: int| #[trigger] entry_weight(bodies, kmats, k, f) >= 0,
        0 <= i < n,
        0 <= j < n,
        i != j,
    ensures
        entry_weight(bodies, kmats, i, f) + entry_weight(bodies, kmats, j, f)
            <= table_sum(bodies, kmats, n, f),
    decreases n,
{
    if i == n - 1 {
        lemma_table_sum_entry_le(bodies, kmats, n - 1, j, f);
    } else if j == n - 1 {
        lemma_table_sum_entry_le(bodies, kmats, n - 1, i, f);
    } else {
        lemma_table_sum_pair_le(bodies, kmats, n - 1, i, j, f);
    }
}

/// Blanking one table entry removes exactly its contribution.
pub proof fn lemma_table_sum_update_none(
    bodies: Seq<Option<BodyView>>,
    kmats: Seq<Option<Kinemat>>,
    n: int,
    i: int,
    f: spec_fn(BodyView) -> int,
)
    requires
        0 <= i < kmats.len(),
    ensures
        table_sum(bodies, kmats.update(i, None), n, f) == table_sum(bodies, kmats, n, f) - (
        if i < n {
            entry_weight(bodies, kmats, i, f)
        } else {
            0
        }),
    decreases n,
{
    if n > 0 {
        lemma_table_sum_update_none(bodies, kmats, n - 1, i, f);
        if i != n - 1 {
            assert(entry_weight(bodies, kmats.update(i, None), n - 1, f) == entry_weight(
                bodies,
                kmats,
                n - 1,
                f,
            ));
        }
    }
}

/// A sum over the first `n` ids reads nothing beyond them: sequences
/// that agree there give the same sum.
pub proof fn lemma_table_sum_agree(
    bodies1: Seq<Option<BodyView>>,
    kmats1: Seq<Option<Kinemat>>,
    bodies2: Seq<Option<BodyView>>,
    kmats2: Seq<Option<Kinemat>>,
    n: int,
    f: spec_fn(BodyView) -> int,
)
    requires
        forall|i: int|
            0 <= i < n ==> entry_weight(bodies1, kmats1, i, f) == entry_weight(
                bodies2,
                kmats2,
                i,
                f,
            ),
    ensures
        table_sum(bodies1, kmats1, n, f) == table_sum(bodies2, kmats2, n, f),
    decreases n,
{
    if n > 0 {
        lemma_table_sum_agree(bodies1, kmats1, bodies2, kmats2, n - 1, f);
    }
}

/// Appending an active body and entry adds exactly its weight.
pub proof fn lemma_table_sum_push(
    bodies: Seq<Option<BodyView>>,
    kmats: Seq<Option<Kinemat>>,
    b: BodyView,
    k: Kinemat,
    f: spec_fn(BodyView) -> int,
)
    requires
        bodies.len() == kmats.len(),
    ensures
        table_sum(
            bodies.push(Some(b)),
            kmats.push(Some(k)),
            kmats.len() + 1 as int,
            f,
        ) == table_sum(bodies, kmats, kmats.len() as int, f) + f(b),
{
    let bodies2 = bodies.push(Some(b));
    let kmats2 = kmats.push(Some(k));
    let n = kmats.len() as int;
    assert forall|i: int| 0 <= i < n implies entry_weight(bodies2, kmats2, i, f)
        == entry_weight(bodies, kmats, i, f) by {
        assert(bodies2[i] == bodies[i]);
        assert(kmats2[i] == kmats[i]);
    }
    lemma_table_sum_agree(bodies2, kmats2, bodies, kmats, n, f);
    assert(entry_weight(bodies2, kmats2, n, f) == f(b));
}

/// A table padded with empty entries up to a length.
pub open spec fn pad_table(snap: Seq<Option<Kinemat>>, n: int) -> Seq<Option<Kinemat>> {
    Seq::new(
        n as nat,
        |i: int|
            if 0 <= i < snap.len() {
                snap[i]
            } else {
                None
            },
    )
}

/// Padding a table with empty entries changes no sum.
pub proof fn lemma_table_sum_pad(
    bodies: Seq<Option<BodyView>>,
    snap: Seq<Option<Kinemat>>,
    n: int,
    m: int,
    f: spec_fn(BodyView) -> int,
)
    requires
        snap.len() <= m <= n,
    ensures
        table_sum(bodies, pad_table(snap, n), m, f) == table_sum(
            bodies,
            snap,
            snap.len() as int,
            f,
        ),
    decreases m,
{
    let padded = pad_table(snap, n);
    if m == snap.len() {
        assert forall|i: int| 0 <= i < m implies entry_weight(bodies, padded, i, f)
            == entry_weight(bodies, snap, i, f) by {
            assert(padded[i] == snap[i]);
        }
        lemma_table_sum_agree(bodies, padded, bodies, snap, m, f);
    } else {
        lemma_table_sum_pad(bodies, snap, n, m - 1, f);
        assert(entry_weight(bodies, padded, m - 1, f) == 0);
    }
}

} // verus!
