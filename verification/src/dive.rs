//! The dive: steam from boiling, spray from the splash, and the readout of a
//! craft that falls from orbit into the ocean.
//!
//! Masses are micrograms, speeds millimetres per second, times microseconds. An
//! intensity is counted in the unit of what it comes from, so that no part of it is
//! lost: that of steam out of [`STEAM_MASS_FULL`], that of a splash out of
//! [`SPLASH_RANGE`].

use crate::flight::medium_label;
use crate::flight::medium_name;
use crate::flight::MediumKind;
use crate::readout::field;
use crate::readout::show;
use crate::readout::shown;
use crate::readout::Field;
use crate::text::lemma_says_its_end;
use crate::text::lemma_says_itself;
use crate::text::lemma_says_on;
use crate::text::says;
use vstd::prelude::*;

verus! {

/// The steam mass at which the plume is at its fullest.
pub const STEAM_MASS_FULL: u64 = 200_000_000;

/// The most puffs at once.
pub const STEAM_MAX: usize = 80;

/// Puffs per second at full intensity.
pub const STEAM_RATE: u64 = 40;

/// The entry speed up to which there is no spray.
pub const SPLASH_ONSET: u64 = 20_000;

/// The entry speed at which the spray is at its fullest.
pub const SPLASH_FULL: u64 = 200_000;

/// How far the fullest spray is from the first.
pub const SPLASH_RANGE: u64 = 180_000;

/// The droplets of a full burst.
pub const SPLASH_DROPLETS: u64 = 60;

/// The most droplets at once.
pub const SPLASH_MAX: usize = 140;

/// How long a puff of steam lives.
pub const STEAM_LIFETIME: u64 = 1_600_000;

/// How long a droplet lives.
pub const SPLASH_LIFETIME: u64 = 1_200_000;

/// The depth at which the craft comes to rest, in millimetres below sea level.
pub const REST_DEPTH: i64 = 3_500_000;

/// How much of a range is reached: none up to its start, all from its end on.
pub open spec fn part(v: int, from: int, to: int) -> int {
    if v <= from {
        0
    } else if v >= to {
        to - from
    } else {
        v - from
    }
}

/// What is reached of a range grows with the value, and is within the range.
pub proof fn lemma_parts_grow(a: int, b: int, from: int, to: int)
    requires
        from < to,
        a <= b,
    ensures
        0 <= part(a, from, to) <= part(b, from, to) <= to - from,
{
}

/// How strongly a craft steams, from the mass that boiled off, out of
/// [`STEAM_MASS_FULL`].
pub fn steam_intensity(steam_mass: u64) -> (r: u64)
    ensures
        r == part(steam_mass as int, 0, STEAM_MASS_FULL as int),
        r <= STEAM_MASS_FULL,
{
    if steam_mass >= STEAM_MASS_FULL {
        STEAM_MASS_FULL
    } else {
        steam_mass
    }
}

/// How strongly a craft splashes, from its entry speed, out of [`SPLASH_RANGE`].
pub fn splash_intensity(speed: u64) -> (r: u64)
    ensures
        r == part(speed as int, SPLASH_ONSET as int, SPLASH_FULL as int),
        r <= SPLASH_RANGE,
{
    if speed <= SPLASH_ONSET {
        0
    } else if speed >= SPLASH_FULL {
        SPLASH_RANGE
    } else {
        speed - SPLASH_ONSET
    }
}

/// The next scatter seed.
pub open spec fn next_seed(seed: u32) -> u32 {
    ((seed as int * 1_664_525 + 1_013_904_223) % 0x1_0000_0000) as u32
}

/// The next scatter seed.
fn advance_seed(seed: u32) -> (r: u32)
    ensures
        r == next_seed(seed),
{
    assert(seed as int * 1_664_525 <= 0xffff_ffff * 1_664_525);
    let wide: u64 = seed as u64 * 1_664_525 + 1_013_904_223;
    (wide % 0x1_0000_0000) as u32
}

/// A byte of a seed, from one of its bits on.
pub open spec fn byte_at(seed: u32, shift: int) -> int
    recommends
        0 <= shift <= 24,
{
    (seed as int / vstd::arithmetic::power2::pow2(shift as nat) as int) % 256
}

/// A centred scatter: from -255 to 255, in units of 1/510.
pub open spec fn scatter(seed: u32, shift: int) -> int {
    2 * byte_at(seed, shift) - 255
}

/// A centred scatter.
fn scatter_of(seed: u32, shift: u32) -> (r: i32)
    requires
        shift == 0 || shift == 4 || shift == 8 || shift == 16 || shift == 24,
    ensures
        r == scatter(seed, shift as int),
        -255 <= r <= 255,
{
    let unit: u32 = match shift {
        0 => 1,
        4 => 16,
        8 => 256,
        16 => 65_536,
        _ => 16_777_216,
    };
    proof {
        vstd::arithmetic::power2::lemma2_to64();
    }
    let byte: u32 = (seed / unit) % 256;
    2 * byte as i32 - 255
}

/// A puff of steam: where it starts beside the craft and how fast it goes, each in
/// 1/510 of a metre (per second).
#[derive(Clone, Copy, Debug, PartialEq, Eq, Structural)]
pub struct Puff {
    pub offset_x: i32,
    pub offset_z: i32,
    pub vel_x: i32,
    pub vel_y: i32,
    pub vel_z: i32,
}

/// The puff that a seed gives.
pub open spec fn puff_of(seed: u32) -> Puff {
    Puff {
        offset_x: (4 * scatter(seed, 0)) as i32,
        offset_z: (4 * scatter(seed, 8)) as i32,
        vel_x: (2 * scatter(seed, 16)) as i32,
        vel_y: (3_060 + 3 * scatter(seed, 4)) as i32,
        vel_z: (2 * scatter(seed, 24)) as i32,
    }
}

/// The puff that a seed gives.
fn puff_from(seed: u32) -> (p: Puff)
    ensures
        p == puff_of(seed),
{
    Puff {
        offset_x: 4 * scatter_of(seed, 0),
        offset_z: 4 * scatter_of(seed, 8),
        vel_x: 2 * scatter_of(seed, 16),
        vel_y: 3_060 + 3 * scatter_of(seed, 4),
        vel_z: 2 * scatter_of(seed, 24),
    }
}

/// One puff, in the accumulator's unit: the microseconds of a second times the steam
/// mass of a full plume.
pub const ONE_PUFF: u64 = 200_000_000_000_000;

/// The plume's state: what has built up towards the next puff, and the seed.
#[derive(Clone, Copy, Debug, PartialEq, Eq, Structural)]
pub struct Plume {
    pub accum: u64,
    pub seed: u32,
}

/// The seed after `k` puffs.
pub open spec fn seed_after(seed: u32, k: nat) -> u32
    decreases k,
{
    if k == 0 {
        seed
    } else {
        next_seed(seed_after(seed, (k - 1) as nat))
    }
}

/// The puffs of `k` seeds in a row.
pub open spec fn puffs(seed: u32, k: nat) -> Seq<Puff>
    decreases k,
{
    if k == 0 {
        Seq::empty()
    } else {
        puffs(seed, (k - 1) as nat).push(puff_of(seed_after(seed, k)))
    }
}

/// What has built up after a frame.
pub open spec fn built_up(plume: Plume, dt: int, intensity: int) -> int {
    plume.accum + dt * intensity * STEAM_RATE
}

/// How many puffs a frame emits: as many as have built up, and no more than the
/// pool has room for.
pub open spec fn puffed(total: int, existing: int) -> int {
    let due = total / ONE_PUFF as int;
    let room = if existing < STEAM_MAX {
        STEAM_MAX - existing
    } else {
        0
    };
    if due < room {
        due
    } else {
        room
    }
}

/// Emits a frame's steam: at a rate that follows the intensity, no more than the
/// pool has room for, and none while no craft is there. Puffs that find no room
/// are not made up for later, and steam that dies down forgets what had built up.
pub fn emit_steam(
    plume: &mut Plume,
    dt: u32,
    steam_mass: u64,
    craft_present: bool,
    existing: usize,
) -> (out: Vec<Puff>)
    requires
        old(plume).accum < ONE_PUFF,
    ensures
        final(plume).accum < ONE_PUFF,
        ({
            let intensity = part(steam_mass as int, 0, STEAM_MASS_FULL as int);
            let total = built_up(*old(plume), dt as int, intensity);
            if intensity == 0 {
                out@.len() == 0 && final(plume).accum == 0 && final(plume).seed == old(plume).seed
            } else if !craft_present || existing >= STEAM_MAX {
                out@.len() == 0 && *final(plume) == *old(plume)
            } else {
                let k = puffed(total, existing as int) as nat;
                existing + out@.len() <= STEAM_MAX && out@ == puffs(old(plume).seed, k)
                    && final(plume).accum == total % ONE_PUFF as int && final(plume).seed
                    == seed_after(old(plume).seed, k)
            }
        }),
{
    let ghost start = *plume;
    let mut out: Vec<Puff> = Vec::new();
    let intensity: u64 = steam_intensity(steam_mass);
    if intensity == 0 {
        plume.accum = 0;
        return out;
    }
    if !craft_present || existing >= STEAM_MAX {
        return out;
    }
    let (time, strength): (u128, u128) = (dt as u128, intensity as u128);
    assert(0 <= time * strength <= 0xffff_ffff * 200_000_000) by (nonlinear_arith)
        requires
            0 <= time <= 0xffff_ffff,
            0 <= strength <= 200_000_000,
    ;
    let product: u128 = time * strength;
    assert(product * STEAM_RATE <= 0xffff_ffff * 200_000_000 * 40);
    let total: u128 = plume.accum as u128 + product * STEAM_RATE as u128;
    let due: u128 = total / ONE_PUFF as u128;
    let room: u64 = (STEAM_MAX - existing) as u64;
    let count: u64 = if due < room as u128 {
        due as u64
    } else {
        room
    };
    plume.accum = (total % ONE_PUFF as u128) as u64;
    let mut i: u64 = 0;
    while i < count
        invariant
            i <= count,
            plume.accum == total % ONE_PUFF as u128,
            plume.seed == seed_after(start.seed, i as nat),
            out@.len() == i,
            out@ == puffs(start.seed, i as nat),
        decreases count - i,
    {
        plume.seed = advance_seed(plume.seed);
        i += 1;
        out.push(puff_from(plume.seed));
    }
    out
}

/// A droplet: the bytes that scatter its direction, its lift and its distance,
/// each centred and in units of 1/510.
#[derive(Clone, Copy, Debug, PartialEq, Eq, Structural)]
pub struct Droplet {
    pub dir_x: i32,
    pub dir_z: i32,
    pub lift: i32,
    pub reach: i32,
}

/// The droplet that a seed gives.
pub open spec fn droplet_of(seed: u32) -> Droplet {
    Droplet {
        dir_x: scatter(seed, 0) as i32,
        dir_z: scatter(seed, 8) as i32,
        lift: scatter(seed, 16) as i32,
        reach: scatter(seed, 24) as i32,
    }
}

/// The droplets of `k` seeds in a row.
pub open spec fn droplets(seed: u32, k: nat) -> Seq<Droplet>
    decreases k,
{
    if k == 0 {
        Seq::empty()
    } else {
        droplets(seed, (k - 1) as nat).push(droplet_of(seed_after(seed, k)))
    }
}

/// The spray's state: the medium of the frame before, and the seed.
#[derive(Clone, Copy, Debug, PartialEq, Eq, Structural)]
pub struct Spray {
    pub previous: Option<MediumKind>,
    pub seed: u32,
}

/// How many droplets a burst throws up: as many as its strength asks for, and no
/// more than the pool has room for.
pub open spec fn burst(speed: int, existing: int) -> int {
    let want = SPLASH_DROPLETS * part(speed, SPLASH_ONSET as int, SPLASH_FULL as int)
        / SPLASH_RANGE as int;
    let room = if existing < SPLASH_MAX {
        SPLASH_MAX - existing
    } else {
        0
    };
    if want < room {
        want
    } else {
        room
    }
}

/// How many droplets a frame throws up: a burst in the frame in which the craft
/// enters the ocean, none in any other.
pub open spec fn splashed(
    previous: Option<MediumKind>,
    now: MediumKind,
    speed: int,
    craft_present: bool,
    existing: int,
) -> int {
    if previous != Some(MediumKind::Liquid) && now == MediumKind::Liquid && craft_present {
        burst(speed, existing)
    } else {
        0
    }
}

/// Throws up spray in the frame in which the craft enters the ocean, once per
/// entry.
pub fn emit_splash(
    spray: &mut Spray,
    now: MediumKind,
    speed: u64,
    craft_present: bool,
    existing: usize,
) -> (out: Vec<Droplet>)
    ensures
        final(spray).previous == Some(now),
        ({
            let k = splashed(
                old(spray).previous,
                now,
                speed as int,
                craft_present,
                existing as int,
            ) as nat;
            out@ == droplets(old(spray).seed, k) && final(spray).seed == seed_after(
                old(spray).seed,
                k,
            )
        }),
{
    let ghost start = *spray;
    let mut out: Vec<Droplet> = Vec::new();
    let was_in: bool = match spray.previous {
        Some(MediumKind::Liquid) => true,
        _ => false,
    };
    let entering: bool = !was_in && now == MediumKind::Liquid;
    spray.previous = Some(now);
    if !entering || !craft_present {
        return out;
    }
    let want: u64 = SPLASH_DROPLETS * splash_intensity(speed) / SPLASH_RANGE;
    let room: u64 = if existing < SPLASH_MAX {
        (SPLASH_MAX - existing) as u64
    } else {
        0
    };
    let count: u64 = if want < room {
        want
    } else {
        room
    };
    let mut i: u64 = 0;
    while i < count
        invariant
            i <= count,
            spray.previous == Some(now),
            spray.seed == seed_after(start.seed, i as nat),
            out@ == droplets(start.seed, i as nat),
        decreases count - i,
    {
        spray.seed = advance_seed(spray.seed);
        i += 1;
        out.push(
            Droplet {
                dir_x: scatter_of(spray.seed, 0),
                dir_z: scatter_of(spray.seed, 8),
                lift: scatter_of(spray.seed, 16),
                reach: scatter_of(spray.seed, 24),
            },
        );
    }
    out
}

/// A frame's steam never overfills the pool.
pub proof fn lemma_steam_pool_is_bounded(total: int, existing: int)
    requires
        0 <= total,
        0 <= existing <= STEAM_MAX,
    ensures
        0 <= puffed(total, existing),
        existing + puffed(total, existing) <= STEAM_MAX,
{
}

/// A burst never overfills the pool.
pub proof fn lemma_spray_pool_is_bounded(speed: int, existing: int)
    requires
        0 <= existing <= SPLASH_MAX,
    ensures
        0 <= burst(speed, existing),
        existing + burst(speed, existing) <= SPLASH_MAX,
{
    lemma_parts_grow(speed, speed, SPLASH_ONSET as int, SPLASH_FULL as int);
}

/// A craft that stays in the ocean, or out of it, throws up no spray.
pub proof fn lemma_one_splash_per_entry(
    medium: MediumKind,
    speed: int,
    craft_present: bool,
    existing: int,
)
    ensures
        splashed(Some(medium), medium, speed, craft_present, existing) == 0,
{
}

/// Ages a particle: its new age, or nothing once its life is over.
pub fn aged(age: u64, dt: u64, lifetime: u64) -> (r: Option<u64>)
    requires
        age + dt <= u64::MAX,
    ensures
        r == (if age + dt < lifetime {
            Some((age + dt) as u64)
        } else {
            None
        }),
        r == age_after(age, dt, lifetime),
{
    if age + dt < lifetime {
        Some(age + dt)
    } else {
        None
    }
}

/// Whether the craft rests: the dive pauses once it is deep enough.
pub fn rests(altitude: i64) -> (b: bool)
    ensures
        b == (altitude <= -REST_DEPTH),
        b == deep_enough(altitude as int),
{
    altitude <= -REST_DEPTH
}

/// What the dive shows: lengths in micrometres, speeds in micrometres per second,
/// pressures in thousandths of a pascal, temperatures in millionths of a kelvin,
/// shares in millionths.
#[derive(Clone, Copy, Debug, PartialEq, Eq, Structural)]
pub struct DiveReadout {
    pub active: bool,
    pub altitude: i64,
    pub speed: i64,
    pub medium: MediumKind,
    pub pressure: i64,
    pub ram: i64,
    pub skin_temp: i64,
    pub over_limit: bool,
    pub ablator_remaining: Option<u32>,
}

/// The dive's readout.
pub open spec fn dive_text(r: DiveReadout) -> Seq<char> {
    "gear:     "@ + (if r.active {
            "active"@
        } else {
            "on-rails"@
        }) + "\naltitude: "@ + shown(
            r.altitude as int,
            (Field { width: 8, digits: 0, plus: false }),
        ) + " m\nspeed:    "@ + shown(
            r.speed as int,
            (Field { width: 7, digits: 1, plus: false }),
        ) + " m/s\nmedium:   "@ + medium_name(r.medium) + "\nhull P:   "@ + shown(
            r.pressure as int,
            (Field { width: 8, digits: 1, plus: false }),
        ) + " kPa\nram P:    "@ + shown(
            r.ram as int,
            (Field { width: 8, digits: 1, plus: false }),
        ) + " kPa\nskin T:   "@ + shown(
            r.skin_temp as int,
            (Field { width: 8, digits: 0, plus: false }),
        ) + " K"@ + (if r.over_limit {
            "  *** OVERHEAT ***"@
        } else {
            ""@
        }) + (match r.ablator_remaining {
            Some(f) => "\nshield:   "@ + shown(
                f * 100,
                (Field { width: 7, digits: 0, plus: false }),
            ) + " %"@,
            None => Seq::empty(),
        })
}

/// The dive's readout.
pub fn dive_hud(r: &DiveReadout) -> (s: String)
    ensures
        s@ == "gear:     "@ + (if r.active {
            "active"@
        } else {
            "on-rails"@
        }) + "\naltitude: "@ + shown(
            r.altitude as int,
            (Field { width: 8, digits: 0, plus: false }),
        ) + " m\nspeed:    "@ + shown(
            r.speed as int,
            (Field { width: 7, digits: 1, plus: false }),
        ) + " m/s\nmedium:   "@ + medium_name(r.medium) + "\nhull P:   "@ + shown(
            r.pressure as int,
            (Field { width: 8, digits: 1, plus: false }),
        ) + " kPa\nram P:    "@ + shown(
            r.ram as int,
            (Field { width: 8, digits: 1, plus: false }),
        ) + " kPa\nskin T:   "@ + shown(
            r.skin_temp as int,
            (Field { width: 8, digits: 0, plus: false }),
        ) + " K"@ + (if r.over_limit {
            "  *** OVERHEAT ***"@
        } else {
            ""@
        }) + (match r.ablator_remaining {
            Some(f) => "\nshield:   "@ + shown(
                f * 100,
                (Field { width: 7, digits: 0, plus: false }),
            ) + " %"@,
            None => Seq::empty(),
        }),
        s@ == dive_text(*r),
{
    let mut s: String = "gear:     ".to_owned();
    s.append(
        if r.active {
            "active"
        } else {
            "on-rails"
        },
    );
    s.append("\naltitude: ");
    show(&mut s, r.altitude, field(8, 0));
    s.append(" m\nspeed:    ");
    show(&mut s, r.speed, field(7, 1));
    s.append(" m/s\nmedium:   ");
    s.append(medium_label(r.medium));
    s.append("\nhull P:   ");
    show(&mut s, r.pressure, field(8, 1));
    s.append(" kPa\nram P:    ");
    show(&mut s, r.ram, field(8, 1));
    s.append(" kPa\nskin T:   ");
    show(&mut s, r.skin_temp, field(8, 0));
    s.append(" K");
    s.append(
        if r.over_limit {
            "  *** OVERHEAT ***"
        } else {
            ""
        },
    );
    let ghost head = s@;
    if let Some(f) = r.ablator_remaining {
        s.append("\nshield:   ");
        show(&mut s, f as i64 * 100, field(7, 0));
        s.append(" %");
        assert(s@ =~= head + ("\nshield:   "@ + shown(
            f * 100,
            (Field { width: 7, digits: 0, plus: false }),
        ) + " %"@));
    } else {
        assert(s@ =~= head + Seq::<char>::empty());
    }
    s
}

/// A part of a range is what is reached of it: none up to its start, what has passed since
/// within it, and all of it from its end on.
pub proof fn lemma_parts_are_what_has_passed(v: int, from: int, to: int)
    requires
        from < to,
    ensures
        v <= from ==> part(v, from, to) == 0,
        from <= v <= to ==> part(v, from, to) + from == v,
        v >= to ==> part(v, from, to) + from == to,
{
}

/// A full plume puffs forty times a second and a fainter one in proportion: the puffs that
/// a frame builds up are forty times its seconds times its share of a full plume.
pub proof fn lemma_steam_puffs_at_its_rate(plume: Plume, dt: int, intensity: int)
    ensures
        (built_up(plume, dt, intensity) - plume.accum) * 1_000_000 * 200_000_000 == 40 * (dt
            * intensity) * 200_000_000_000_000,
{
    assert(dt * intensity * 40 == 40 * (dt * intensity)) by (nonlinear_arith);
}

/// A frame emits every whole puff that has built up while there is room, and fills the room
/// where there are more.
pub proof fn lemma_puffs_fill_the_room(total: int, existing: int)
    requires
        total >= 0,
        0 <= existing <= 80,
    ensures
        ({
            let k = puffed(total, existing);
            &&& k * 200_000_000_000_000 <= total
            &&& k < 80 - existing ==> total < (k + 1) * 200_000_000_000_000
            &&& k <= 80 - existing
        }),
{
}

/// There are as many puffs and droplets as are asked for, each from the next seed, and the
/// seed moves on once for each.
pub proof fn lemma_each_particle_has_its_seed(seed: u32, k: nat, i: int)
    requires
        0 <= i < k,
    ensures
        puffs(seed, k).len() == k,
        droplets(seed, k).len() == k,
        puffs(seed, k)[i] == puff_of(seed_after(seed, (i + 1) as nat)),
        droplets(seed, k)[i] == droplet_of(seed_after(seed, (i + 1) as nat)),
        seed_after(seed, k) == next_seed(seed_after(seed, (k - 1) as nat)),
    decreases k,
{
    lemma_particle_counts(seed, (k - 1) as nat);
    if i < k - 1 {
        lemma_each_particle_has_its_seed(seed, (k - 1) as nat, i);
    }
}

proof fn lemma_particle_counts(seed: u32, k: nat)
    ensures
        puffs(seed, k).len() == k,
        droplets(seed, k).len() == k,
    decreases k,
{
    if k > 0 {
        lemma_particle_counts(seed, (k - 1) as nat);
    }
}

/// A puff starts within two metres of the craft to either side and always rises, at four and
/// a half to seven and a half metres a second; it drifts at most one sideways.
pub proof fn lemma_puffs_rise_beside_the_craft(seed: u32)
    ensures
        ({
            let p = puff_of(seed);
            &&& -2 * 510 <= p.offset_x <= 2 * 510 && -2 * 510 <= p.offset_z <= 2 * 510
            &&& -510 <= p.vel_x <= 510 && -510 <= p.vel_z <= 510
            &&& 9 * 510 <= 2 * p.vel_y <= 15 * 510
        }),
{
}

/// A burst has no droplets up to twenty metres a second and sixty from two hundred on, and
/// between them the share of sixty that its speed is of the range, rounded down; never more
/// than there is room for.
pub proof fn lemma_a_burst_grows_with_the_speed(speed: int, existing: int)
    requires
        0 <= existing <= 140,
    ensures
        ({
            let k = burst(speed, existing);
            let room = 140 - existing;
            &&& 0 <= k <= 60 && k <= room
            &&& speed <= 20_000 ==> k == 0
            &&& speed >= 200_000 && room >= 60 ==> k == 60
            &&& 20_000 <= speed <= 200_000 && k < room ==> k * 180_000 <= 60 * (speed - 20_000) < (k
                + 1) * 180_000
        }),
{
}

/// Spray is thrown up by a craft in the frame in which it comes into the ocean, and in no
/// other: not while it stays in it, not in any other medium, and not without a craft.
pub proof fn lemma_spray_marks_the_entry(
    previous: Option<MediumKind>,
    now: MediumKind,
    speed: int,
    craft_present: bool,
    existing: int,
)
    requires
        0 <= existing <= 80,
    ensures
        now != MediumKind::Liquid || !craft_present ==> splashed(
            previous,
            now,
            speed,
            craft_present,
            existing,
        ) == 0,
        previous == Some(MediumKind::Liquid) ==> splashed(
            previous,
            now,
            speed,
            craft_present,
            existing,
        ) == 0,
        now == MediumKind::Liquid && craft_present && previous != Some(MediumKind::Liquid) && speed
            >= 200_000 ==> splashed(previous, now, speed, craft_present, existing) == 60,
        now == MediumKind::Liquid && craft_present && previous != Some(MediumKind::Liquid) && speed
            >= 23_000 ==> splashed(previous, now, speed, craft_present, existing) > 0,
{
}

/// The seeds follow one another by the usual rule of multiplying and adding, within
/// thirty-two bits.
pub proof fn lemma_seeds_stay_in_range(seed: u32)
    ensures
        (next_seed(seed) - 1_664_525 * seed - 1_013_904_223) % 0x1_0000_0000 == 0,
{
    let w = seed as int * 1_664_525 + 1_013_904_223;
    assert(next_seed(seed) == w % 0x1_0000_0000);
}

/// Every measure stands behind its own label in the dive's readout.
pub proof fn lemma_the_dive_readout_labels_its_measures(
    r: DiveReadout,
)
    ensures
        says(
            dive_text(r),
            "gear:     "@ + (if r.active { "active"@ } else { "on-rails"@ }),
        ),
        says(
            dive_text(r),
            "\naltitude: "@ + shown(r.altitude as int, (Field { width: 8, digits: 0, plus: false })),
        ),
        says(
            dive_text(r),
            " m\nspeed:    "@ + shown(r.speed as int, (Field { width: 7, digits: 1, plus: false })),
        ),
        says(
            dive_text(r),
            " m/s\nmedium:   "@ + medium_name(r.medium),
        ),
        says(
            dive_text(r),
            "\nhull P:   "@ + shown(r.pressure as int, (Field { width: 8, digits: 1, plus: false })),
        ),
        says(
            dive_text(r),
            " kPa\nram P:    "@ + shown(r.ram as int, (Field { width: 8, digits: 1, plus: false })),
        ),
        says(
            dive_text(r),
            " kPa\nskin T:   "@ + shown(r.skin_temp as int, (Field { width: 8, digits: 0, plus: false })),
        ),
        says(
            dive_text(r),
            " K"@ + (if r.over_limit { "  *** OVERHEAT ***"@ } else { ""@ }),
        ),
{
    let text = dive_text(r);
    let t0 = "gear:     "@;
    let t1 = (if r.active { "active"@ } else { "on-rails"@ });
    let t2 = "\naltitude: "@;
    let t3 = shown(r.altitude as int, (Field { width: 8, digits: 0, plus: false }));
    let t4 = " m\nspeed:    "@;
    let t5 = shown(r.speed as int, (Field { width: 7, digits: 1, plus: false }));
    let t6 = " m/s\nmedium:   "@;
    let t7 = medium_name(r.medium);
    let t8 = "\nhull P:   "@;
    let t9 = shown(r.pressure as int, (Field { width: 8, digits: 1, plus: false }));
    let t10 = " kPa\nram P:    "@;
    let t11 = shown(r.ram as int, (Field { width: 8, digits: 1, plus: false }));
    let t12 = " kPa\nskin T:   "@;
    let t13 = shown(r.skin_temp as int, (Field { width: 8, digits: 0, plus: false }));
    let t14 = " K"@;
    let t15 = (if r.over_limit { "  *** OVERHEAT ***"@ } else { ""@ });
    let t16 = (match r.ablator_remaining { Some(f) => "\nshield:   "@ + shown(f * 100, (Field { width: 7, digits: 0, plus: false })) + " %"@, None => Seq::empty(), });
    let a1 = t0 + t1;
    lemma_says_itself(a1);
    let a2 = a1 + t2;
    lemma_says_on(a1, t2);
    let a3 = a2 + t3;
    lemma_says_on(a2, t3);
    lemma_says_its_end(a1, t2, t3);
    let a4 = a3 + t4;
    lemma_says_on(a3, t4);
    let a5 = a4 + t5;
    lemma_says_on(a4, t5);
    lemma_says_its_end(a3, t4, t5);
    let a6 = a5 + t6;
    lemma_says_on(a5, t6);
    let a7 = a6 + t7;
    lemma_says_on(a6, t7);
    lemma_says_its_end(a5, t6, t7);
    let a8 = a7 + t8;
    lemma_says_on(a7, t8);
    let a9 = a8 + t9;
    lemma_says_on(a8, t9);
    lemma_says_its_end(a7, t8, t9);
    let a10 = a9 + t10;
    lemma_says_on(a9, t10);
    let a11 = a10 + t11;
    lemma_says_on(a10, t11);
    lemma_says_its_end(a9, t10, t11);
    let a12 = a11 + t12;
    lemma_says_on(a11, t12);
    let a13 = a12 + t13;
    lemma_says_on(a12, t13);
    lemma_says_its_end(a11, t12, t13);
    let a14 = a13 + t14;
    lemma_says_on(a13, t14);
    let a15 = a14 + t15;
    lemma_says_on(a14, t15);
    lemma_says_its_end(a13, t14, t15);
    let a16 = a15 + t16;
    lemma_says_on(a15, t16);
    assert(text == a16);
}

/// The age of a particle after some time, while it lives.
pub open spec fn age_after(age: u64, dt: u64, lifetime: u64) -> Option<u64> {
    if age + dt < lifetime {
        Some((age + dt) as u64)
    } else {
        None
    }
}

/// A particle grows older by the time that passes, all at once or in two parts, and is gone
/// exactly when its life is over.
pub proof fn lemma_particles_age_with_time(age: u64, first: u64, second: u64, lifetime: u64)
    requires
        age + first + second <= u64::MAX,
    ensures
        age_after(age, first, lifetime) is Some <==> age + first < lifetime,
        age_after(age, first, lifetime) is Some ==> age_after(age, first, lifetime)->0 - age
            == first,
        age_after(age, first, lifetime) is Some ==> age_after(
            age_after(age, first, lifetime)->0,
            second,
            lifetime,
        ) == age_after(age, (first + second) as u64, lifetime),
{
}

/// Whether a craft is deep enough for the dive to rest.
pub open spec fn deep_enough(altitude: int) -> bool {
    altitude <= -REST_DEPTH
}

/// The dive rests three and a half metres below the surface and deeper, never above it.
pub proof fn lemma_the_dive_rests_at_depth(altitude: int, deeper: int)
    requires
        deeper <= altitude,
    ensures
        deep_enough(-3_500_000),
        !deep_enough(-3_499_999),
        altitude >= 0 ==> !deep_enough(altitude),
        deep_enough(altitude) ==> deep_enough(deeper),
{
}

/// The four bytes of a seed scatter a puff independently: the lowest sets it off to one side,
/// the next to the other, the two highest drive it along the same two axes, and it always
/// rises. A droplet has its direction from the two lowest, then its lift and its reach.
pub proof fn lemma_bytes_scatter_a_puff(seed: u32, b0: int, b1: int, b2: int, b3: int)
    requires
        0 <= b0 < 256,
        0 <= b1 < 256,
        0 <= b2 < 256,
        0 <= b3 < 256,
        seed == b0 + 256 * b1 + 65_536 * b2 + 16_777_216 * b3,
    ensures
        ({
            let p = puff_of(seed);
            &&& p.offset_x == 4 * (2 * b0 - 255)
            &&& p.offset_z == 4 * (2 * b1 - 255)
            &&& p.vel_x == 2 * (2 * b2 - 255)
            &&& p.vel_z == 2 * (2 * b3 - 255)
            &&& p.vel_y > 0
        }),
        ({
            let d = droplet_of(seed);
            &&& d.dir_x == 2 * b0 - 255
            &&& d.dir_z == 2 * b1 - 255
            &&& d.lift == 2 * b2 - 255
            &&& d.reach == 2 * b3 - 255
        }),
{
    vstd::arithmetic::power2::lemma2_to64();
    let n = seed as int;
    assert(n / 1 == n && n % 256 == b0);
    assert(n / 256 == b1 + 256 * b2 + 65_536 * b3);
    assert((b1 + 256 * b2 + 65_536 * b3) % 256 == b1);
    assert(n / 65_536 == b2 + 256 * b3);
    assert((b2 + 256 * b3) % 256 == b2);
    assert(n / 16_777_216 == b3);
    assert(scatter(seed, 0) == 2 * b0 - 255);
    assert(scatter(seed, 8) == 2 * b1 - 255);
    assert(scatter(seed, 16) == 2 * b2 - 255);
    assert(scatter(seed, 24) == 2 * b3 - 255);
    assert(scatter(seed, 4) >= -255);
}

} // verus!
