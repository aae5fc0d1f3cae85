//! Prefabricated bodies: the Sun, the planets, and a few guests.
//!
//! Masses are kilograms, radii millimetres, colors 0xRRGGBB.

use vstd::prelude::*;

use vstd::string::StrSliceExecFns;

use crate::bodies::{valid_body, Body, BodyView};

verus! {

/// Whether two strings hold the same characters.
#[verifier::loop_isolation(false)]
fn str_eq(a: &str, b: &str) -> (r: bool)
    ensures
        r == (a@ == b@),
{
    let n = a.unicode_len();
    let m = b.unicode_len();
    if n != m {
        proof {
            if a@ == b@ {
                assert(a@.len() == b@.len());
            }
        }
        return false;
    }
    let mut i: usize = 0;
    while i < n
        invariant
            i <= n,
            n == a@.len(),
            n == b@.len(),
            forall|k: int| 0 <= k < i ==> a@[k] == b@[k],
        decreases n - i,
    {
        if a.get_char(i) != b.get_char(i) {
            proof {
                if a@ == b@ {
                    assert(a@[i as int] == b@[i as int]);
                }
            }
            return false;
        }
        i = i + 1;
    }
    proof {
        assert(a@ =~= b@);
    }
    true
}

/// Our Sun. Will not move.
pub open spec fn spec_sol() -> BodyView {
    BodyView {
        mass: 1988400000000000000000000000000,
        radius: 695700000000,
        color: 0xFFDF22,
        outline: 0xE87513,
        name: "Sol"@,
        immovable: true,
    }
}

/// Returns our Sun. Will not move.
pub fn sol() -> (b: Body)
    ensures
        b@ == spec_sol(),
        valid_body(b@),
{
    Body {
        mass: 1988400000000000000000000000000,
        radius: 695700000000,
        color: 0xFFDF22,
        outline: 0xE87513,
        name: "Sol".to_owned(),
        immovable: true,
    }
}

/// Mercury. Its orbit is going to be a little off.
pub open spec fn spec_mercury() -> BodyView {
    BodyView {
        mass: 330110000000000000000000,
        radius: 1439700000,
        color: 0xa79ea1,
        outline: 0x737375,
        name: "Mercury"@,
        immovable: false,
    }
}

/// Returns Mercury.
pub fn mercury() -> (b: Body)
    ensures
        b@ == spec_mercury(),
        valid_body(b@),
{
    Body {
        mass: 330110000000000000000000,
        radius: 1439700000,
        color: 0xa79ea1,
        outline: 0x737375,
        name: "Mercury".to_owned(),
        immovable: false,
    }
}

/// Venus.
pub open spec fn spec_venus() -> BodyView {
    BodyView {
        mass: 4867500000000000000000000,
        radius: 6051800000,
        color: 0xfcd172,
        outline: 0xaf5a23,
        name: "Venus"@,
        immovable: false,
    }
}

/// Returns Venus.
pub fn venus() -> (b: Body)
    ensures
        b@ == spec_venus(),
        valid_body(b@),
{
    Body {
        mass: 4867500000000000000000000,
        radius: 6051800000,
        color: 0xfcd172,
        outline: 0xaf5a23,
        name: "Venus".to_owned(),
        immovable: false,
    }
}

/// The Earth.
pub open spec fn spec_earth() -> BodyView {
    BodyView {
        mass: 5972370000000000000000000,
        radius: 6371000000,
        color: 0x3669FF,
        outline: 0x56FF2D,
        name: "Earth"@,
        immovable: false,
    }
}

/// Returns the Earth.
pub fn earth() -> (b: Body)
    ensures
        b@ == spec_earth(),
        valid_body(b@),
{
    Body {
        mass: 5972370000000000000000000,
        radius: 6371000000,
        color: 0x3669FF,
        outline: 0x56FF2D,
        name: "Earth".to_owned(),
        immovable: false,
    }
}

/// Our Moon. Does not come with Wire.
pub open spec fn spec_luna() -> BodyView {
    BodyView {
        mass: 73420000000000000000000,
        radius: 1737400000,
        color: 0x3c3a38,
        outline: 0xadaca9,
        name: "Luna"@,
        immovable: false,
    }
}

/// Returns our Moon.
pub fn luna() -> (b: Body)
    ensures
        b@ == spec_luna(),
        valid_body(b@),
{
    Body {
        mass: 73420000000000000000000,
        radius: 1737400000,
        color: 0x3c3a38,
        outline: 0xadaca9,
        name: "Luna".to_owned(),
        immovable: false,
    }
}

/// Mars.
pub open spec fn spec_mars() -> BodyView {
    BodyView {
        mass: 641710000000000000000000,
        radius: 3398500000,
        color: 0xff5c26,
        outline: 0xc9af9e,
        name: "Mars"@,
        immovable: false,
    }
}

/// Returns Mars.
pub fn mars() -> (b: Body)
    ensures
        b@ == spec_mars(),
        valid_body(b@),
{
    Body {
        mass: 641710000000000000000000,
        radius: 3398500000,
        color: 0xff5c26,
        outline: 0xc9af9e,
        name: "Mars".to_owned(),
        immovable: false,
    }
}

/// A generic anonymous moon of the given mass and radius.
pub open spec fn spec_moon(mass: int, radius: int) -> BodyView {
    BodyView {
        mass: mass,
        radius: radius,
        color: 0xe8b374,
        outline: 0x71401d,
        name: "Anonymous Moon"@,
        immovable: false,
    }
}

/// Returns a generic moon.
pub fn moon(mass: u128, radius: u128) -> (b: Body)
    requires
        1 <= mass <= crate::nums::MASS_LIMIT,
        1 <= radius,
        radius * radius * radius <= crate::nums::VOLUME_LIMIT,
    ensures
        b@ == spec_moon(mass as int, radius as int),
        valid_body(b@),
{
    Body {
        mass,
        radius,
        color: 0xe8b374,
        outline: 0x71401d,
        name: "Anonymous Moon".to_owned(),
        immovable: false,
    }
}

/// Phobos.
pub fn phobos() -> (b: Body)
    ensures
        b@ == spec_moon(10800000000000000, 11100000),
        valid_body(b@),
{
    moon(10800000000000000, 11100000)
}

/// Deimos.
pub fn deimos() -> (b: Body)
    ensures
        b@ == spec_moon(1500000000000000, 6300000),
        valid_body(b@),
{
    moon(1500000000000000, 6300000)
}

/// Jupiter.
pub open spec fn spec_jupiter() -> BodyView {
    BodyView {
        mass: 1898200000000000000000000000,
        radius: 69911000000,
        color: 0x977569,
        outline: 0x8b5b45,
        name: "Jupiter"@,
        immovable: false,
    }
}

/// Returns Jupiter.
pub fn jupiter() -> (b: Body)
    ensures
        b@ == spec_jupiter(),
        valid_body(b@),
{
    Body {
        mass: 1898200000000000000000000000,
        radius: 69911000000,
        color: 0x977569,
        outline: 0x8b5b45,
        name: "Jupiter".to_owned(),
        immovable: false,
    }
}

/// Saturn.
pub open spec fn spec_saturn() -> BodyView {
    BodyView {
        mass: 568340000000000000000000000,
        radius: 58232000000,
        color: 0xf5b92f,
        outline: 0x8c8109,
        name: "Saturn"@,
        immovable: false,
    }
}

/// Returns Saturn.
pub fn saturn() -> (b: Body)
    ensures
        b@ == spec_saturn(),
        valid_body(b@),
{
    Body {
        mass: 568340000000000000000000000,
        radius: 58232000000,
        color: 0xf5b92f,
        outline: 0x8c8109,
        name: "Saturn".to_owned(),
        immovable: false,
    }
}

/// Uranus.
pub open spec fn spec_uranus() -> BodyView {
    BodyView {
        mass: 868100000000000000000000000000,
        radius: 25632000000,
        color: 0x48faff,
        outline: 0x62e4f9,
        name: "Uranus"@,
        immovable: false,
    }
}

/// Returns Uranus.
pub fn uranus() -> (b: Body)
    ensures
        b@ == spec_uranus(),
        valid_body(b@),
{
    Body {
        mass: 868100000000000000000000000000,
        radius: 25632000000,
        color: 0x48faff,
        outline: 0x62e4f9,
        name: "Uranus".to_owned(),
        immovable: false,
    }
}

/// Neptune.
pub open spec fn spec_neptune() -> BodyView {
    BodyView {
        mass: 102413000000000000000000000,
        radius: 24622000000,
        color: 0x6e8add,
        outline: 0xc3ddff,
        name: "Neptune"@,
        immovable: false,
    }
}

/// Returns Neptune.
pub fn neptune() -> (b: Body)
    ensures
        b@ == spec_neptune(),
        valid_body(b@),
{
    Body {
        mass: 102413000000000000000000000,
        radius: 24622000000,
        color: 0x6e8add,
        outline: 0xc3ddff,
        name: "Neptune".to_owned(),
        immovable: false,
    }
}

/// Halley's Comet.
pub open spec fn spec_halleys_comet() -> BodyView {
    BodyView {
        mass: 220000000000000,
        radius: 11000000,
        color: 0xddddff,
        outline: 0x80b09b,
        name: "Halley's Comet"@,
        immovable: false,
    }
}

/// Returns Halley's Comet.
pub fn halleys_comet() -> (b: Body)
    ensures
        b@ == spec_halleys_comet(),
        valid_body(b@),
{
    Body {
        mass: 220000000000000,
        radius: 11000000,
        color: 0xddddff,
        outline: 0x80b09b,
        name: "Halley's Comet".to_owned(),
        immovable: false,
    }
}

/// Roshar, from The Stormlight Archive.
pub open spec fn spec_roshar() -> BodyView {
    BodyView {
        mass: 3387000000000000000000000,
        radius: 5633000000,
        color: 0x015089,
        outline: 0xc1d8e6,
        name: "Roshar"@,
        immovable: false,
    }
}

/// Returns Roshar.
pub fn roshar() -> (b: Body)
    ensures
        b@ == spec_roshar(),
        valid_body(b@),
{
    Body {
        mass: 3387000000000000000000000,
        radius: 5633000000,
        color: 0x015089,
        outline: 0xc1d8e6,
        name: "Roshar".to_owned(),
        immovable: false,
    }
}

/// The premade body a name refers to, if any.
pub open spec fn spec_prefab_lookup(s: Seq<char>) -> Option<BodyView> {
    if s == "sol"@ {
        Some(spec_sol())
    } else if s == "mercury"@ {
        Some(spec_mercury())
    } else if s == "venus"@ {
        Some(spec_venus())
    } else if s == "earth"@ {
        Some(spec_earth())
    } else if s == "luna"@ {
        Some(spec_luna())
    } else if s == "mars"@ {
        Some(spec_mars())
    } else if s == "phobos"@ {
        Some(spec_moon(10800000000000000, 11100000))
    } else if s == "deimos"@ {
        Some(spec_moon(1500000000000000, 6300000))
    } else if s == "jupiter"@ {
        Some(spec_jupiter())
    } else if s == "saturn"@ {
        Some(spec_saturn())
    } else if s == "uranus"@ {
        Some(spec_uranus())
    } else if s == "neptune"@ {
        Some(spec_neptune())
    } else if s == "halleys_comet"@ {
        Some(spec_halleys_comet())
    } else {
        None
    }
}

/// Looks a premade body up by name.
pub fn find_prefab(id: &str) -> (r: Option<Body>)
    ensures
        match r {
            Some(b) => spec_prefab_lookup(id@) == Some(b@) && valid_body(b@),
            None => spec_prefab_lookup(id@) is None,
        },
{
    if str_eq(id, "sol") {
        Some(sol())
    } else if str_eq(id, "mercury") {
        Some(mercury())
    } else if str_eq(id, "venus") {
        Some(venus())
    } else if str_eq(id, "earth") {
        Some(earth())
    } else if str_eq(id, "luna") {
        Some(luna())
    } else if str_eq(id, "mars") {
        Some(mars())
    } else if str_eq(id, "phobos") {
        Some(phobos())
    } else if str_eq(id, "deimos") {
        Some(deimos())
    } else if str_eq(id, "jupiter") {
        Some(jupiter())
    } else if str_eq(id, "saturn") {
        Some(saturn())
    } else if str_eq(id, "uranus") {
        Some(uranus())
    } else if str_eq(id, "neptune") {
        Some(neptune())
    } else if str_eq(id, "halleys_comet") {
        Some(halleys_comet())
    } else {
        None
    }
}

/// Gets a premade Body from a string naming it.
pub fn get_body_from_id(id: String) -> (b: Body)
    requires
        spec_prefab_lookup(id@) is Some,
    ensures
        Some(b@) == spec_prefab_lookup(id@),
        valid_body(b@),
{
    let r = find_prefab(id.as_str());
    r.unwrap()
}

} // verus!
