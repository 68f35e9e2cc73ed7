use vstd::prelude::*;
use vstd::math::abs;
use vstd::arithmetic::div_mod::{lemma_div_pos_is_pos, lemma_fundamental_div_mod};
use crate::motion::{in_unit, particle_wf, Particle, Point, Velocity, UNIT};

verus! {

/// The speed that every point is given: the length of its velocity in
/// fixed-point units (0.002 of the square's side per step). Rounding each
/// component toward zero shortens it by less than 2 units.
pub const SPEED: i64 = 2000;

/// The number of distinct values of a random sample.
pub const SAMPLE_RANGE: u64 = 0x1_0000_0000;

/// Relies on `rand::random::<u32>`: a sample from the thread-local generator.
/// Every `u32` can come back, so nothing is stated of it.
#[verifier::external_body]
pub(crate) fn random_sample() -> (r: u32) {
    rand::random::<u32>()
}

/// Scales a sample in `0..2^32` to a coordinate on the closed unit interval.
pub open spec fn unit_of(r: u32) -> int {
    (r as int) * (UNIT + 1) / (SAMPLE_RANGE as int)
}

/// Scales a sample to a direction component on the closed interval from -1 to 1.
pub open spec fn signed_of(r: u32) -> int {
    2 * unit_of(r) - UNIT
}

/// `r` is the largest natural number whose square is at most `n`.
pub open spec fn is_floor_sqrt(n: int, r: int) -> bool {
    0 <= r && r * r <= n && n < (r + 1) * (r + 1)
}

/// The rounded-down square root of `n`.
pub open spec fn floor_sqrt_of(n: int) -> int {
    choose|r: int| is_floor_sqrt(n, r)
}

/// A number whose square exceeds every `u64`: 2 to the 32nd.
pub const ROOT_BOUND: u64 = 0x1_0000_0000;

/// `c` is the direction component `d` scaled by `SPEED` over the direction's
/// length `sqrt(n)`, rounded toward zero: `c` has the sign of `d`, and its
/// magnitude `m` is the largest with `m * m * n <= d * d * SPEED * SPEED`.
pub open spec fn is_scaled(c: int, d: int, n: int) -> bool {
    let m = abs(c) as int;
    (if d < 0 { c <= 0 } else { 0 <= c }) && m * m * n <= d * d * (SPEED * SPEED) && d * d * (
    SPEED * SPEED) < (m + 1) * (m + 1) * n
}

/// The component `d` scaled to `SPEED` over the length `sqrt(n)`, rounded
/// toward zero.
pub open spec fn scaled_of(d: int, n: int) -> int {
    choose|c: int| is_scaled(c, d, n)
}

/// The velocity that a random direction `(dx, dy)` gives: the direction
/// normalised and scaled to length `SPEED`, each component rounded toward
/// zero; `(SPEED, 0)` where the direction has no length.
pub open spec fn velocity_of_direction(dx: int, dy: int) -> (int, int) {
    if dx == 0 && dy == 0 {
        (SPEED as int, 0)
    } else {
        (scaled_of(dx, dx * dx + dy * dy), scaled_of(dy, dx * dx + dy * dy))
    }
}

/// The velocity's length is `SPEED` less at most 2 units: its squared length
/// lies between `(SPEED - 2)` squared and `SPEED` squared.
pub open spec fn at_speed(v: Velocity) -> bool {
    -SPEED <= v.x <= SPEED && -SPEED <= v.y <= SPEED && (SPEED - 2) * (SPEED - 2) <= v.x * v.x
        + v.y * v.y <= SPEED * SPEED
}

/// Maps a random sample to a coordinate on the closed unit interval.
pub fn unit_from_sample(r: u32) -> (c: i64)
    ensures
        c as int == unit_of(r),
        in_unit(c as int),
{
    proof {
        assert((r as int) * (UNIT + 1) < (SAMPLE_RANGE as int) * (UNIT + 1)) by (nonlinear_arith)
            requires
                (r as int) < SAMPLE_RANGE as int,
        ;
    }
    let wide: u64 = (r as u64) * ((UNIT + 1) as u64);
    proof {
        lemma_fundamental_div_mod(wide as int, SAMPLE_RANGE as int);
        lemma_div_pos_is_pos(wide as int, SAMPLE_RANGE as int);
        assert(wide as int / SAMPLE_RANGE as int <= UNIT) by (nonlinear_arith)
            requires
                wide as int == (SAMPLE_RANGE as int) * (wide as int / SAMPLE_RANGE as int) + wide as int % SAMPLE_RANGE as int,
                0 <= wide as int % SAMPLE_RANGE as int,
                (wide as int) < (SAMPLE_RANGE as int) * (UNIT + 1),
                SAMPLE_RANGE > 0,
        ;
    }
    (wide / SAMPLE_RANGE) as i64
}

/// Maps a random sample to a direction component from -1 to 1.
pub fn signed_from_sample(r: u32) -> (d: i64)
    ensures
        d as int == signed_of(r),
        -UNIT <= d <= UNIT,
{
    2 * unit_from_sample(r) - UNIT
}

/// Squaring, and then multiplying by a natural, keeps the order of naturals.
proof fn lemma_square_monotone(a: int, b: int, n: int)
    requires
        0 <= a <= b,
        0 <= n,
    ensures
        a * a <= b * b,
        a * a * n <= b * b * n,
{
    assert(a * a <= b * b) by (nonlinear_arith)
        requires
            0 <= a <= b,
    ;
    assert(a * a * n <= b * b * n) by (nonlinear_arith)
        requires
            a * a <= b * b,
            0 <= n,
    ;
}

/// The rounded-down square root is unique.
proof fn lemma_floor_sqrt_unique(n: int, a: int, b: int)
    requires
        is_floor_sqrt(n, a),
        is_floor_sqrt(n, b),
    ensures
        a == b,
{
    if a < b {
        lemma_square_monotone(a + 1, b, 1);
    } else if b < a {
        lemma_square_monotone(b + 1, a, 1);
    }
}

/// The scaled component is unique.
proof fn lemma_scaled_unique(d: int, n: int, c1: int, c2: int)
    requires
        0 < n,
        is_scaled(c1, d, n),
        is_scaled(c2, d, n),
    ensures
        c1 == c2,
{
    let m1 = abs(c1) as int;
    let m2 = abs(c2) as int;
    if m1 < m2 {
        lemma_square_monotone(m1 + 1, m2, n);
    } else if m2 < m1 {
        lemma_square_monotone(m2 + 1, m1, n);
    }
}

/// The rounded-down square root of `n`, found by bisection.
pub fn floor_sqrt(n: u64) -> (r: u64)
    ensures
        is_floor_sqrt(n as int, r as int),
        r as int == floor_sqrt_of(n as int),
        r < ROOT_BOUND,
{
    let mut lo: u64 = 0;
    let mut hi: u64 = ROOT_BOUND;
    assert((n as int) < (ROOT_BOUND as int) * (ROOT_BOUND as int));
    while hi - lo > 1
        invariant
            lo < hi <= ROOT_BOUND,
            (lo as int) * (lo as int) <= n as int,
            (n as int) < (hi as int) * (hi as int),
        decreases hi - lo,
    {
        let mid: u64 = lo + (hi - lo) / 2;
        proof {
            lemma_square_monotone(mid as int, ROOT_BOUND as int, 1);
        }
        let square: u128 = (mid as u128) * (mid as u128);
        if square <= n as u128 {
            lo = mid;
        } else {
            hi = mid;
        }
    }
    proof {
        assert(is_floor_sqrt(n as int, lo as int));
        lemma_floor_sqrt_unique(n as int, lo as int, floor_sqrt_of(n as int));
    }
    lo
}

/// Scales one direction component `d` of a direction whose squared length is
/// `n` to `SPEED` over the length, rounding toward zero.
fn scale(d: i64, n: u64) -> (c: i64)
    requires
        -UNIT <= d <= UNIT,
        0 < n,
        d * d <= n,
    ensures
        is_scaled(c as int, d as int, n as int),
        c as int == scaled_of(d as int, n as int),
        -SPEED <= c <= SPEED,
{
    let mag: u64 = if d < 0 { (-d) as u64 } else { d as u64 };
    let ghost x: int = d * d * (SPEED * SPEED);
    proof {
        assert(mag * mag == d * d) by (nonlinear_arith)
            requires
                mag == d || mag == -d,
        ;
        assert(mag * mag * 4_000_000 <= 4_000_000_000_000_000_000) by (nonlinear_arith)
            requires
                0 <= mag <= 1_000_000,
        ;
    }
    let wide: u64 = mag * mag * ((SPEED * SPEED) as u64);
    let q: u64 = wide / n;
    let m: u64 = floor_sqrt(q);
    proof {
        let qi = q as int;
        let mi = m as int;
        let ni = n as int;
        assert(wide as int == x);
        lemma_fundamental_div_mod(x, ni);
        assert(x == ni * qi + x % ni);
        assert(0 <= x % ni < ni);
        assert(mi * mi * ni <= qi * ni) by (nonlinear_arith)
            requires
                mi * mi <= qi,
                0 < ni,
        ;
        assert(x < (mi + 1) * (mi + 1) * ni) by (nonlinear_arith)
            requires
                qi + 1 <= (mi + 1) * (mi + 1),
                x < ni * qi + ni,
                0 < ni,
        ;
        assert(qi <= SPEED * SPEED) by (nonlinear_arith)
            requires
                x == ni * qi + x % ni,
                0 <= x % ni,
                x == d * d * (SPEED * SPEED),
                d * d <= ni,
                0 < ni,
        ;
        if mi > SPEED {
            lemma_square_monotone(SPEED + 1, mi, 1);
        }
    }
    let c: i64 = if d < 0 { -(m as i64) } else { m as i64 };
    proof {
        assert(is_scaled(c as int, d as int, n as int));
        lemma_scaled_unique(d as int, n as int, c as int, scaled_of(d as int, n as int));
    }
    c
}

/// Two components, each scaled to `SPEED` and rounded toward zero, give a
/// velocity whose squared length lies between `(SPEED - 2)` squared and
/// `SPEED` squared.
proof fn lemma_scaled_length(a: int, b: int, dx: int, dy: int)
    requires
        0 <= a,
        0 <= b,
        0 < dx * dx + dy * dy,
        a * a * (dx * dx + dy * dy) <= dx * dx * (SPEED * SPEED),
        b * b * (dx * dx + dy * dy) <= dy * dy * (SPEED * SPEED),
        dx * dx * (SPEED * SPEED) < (a + 1) * (a + 1) * (dx * dx + dy * dy),
        dy * dy * (SPEED * SPEED) < (b + 1) * (b + 1) * (dx * dx + dy * dy),
    ensures
        (SPEED - 2) * (SPEED - 2) <= a * a + b * b <= SPEED * SPEED,
{
    let n = dx * dx + dy * dy;
    let s2 = SPEED * SPEED;
    assert((a * a + b * b) * n <= s2 * n) by (nonlinear_arith)
        requires
            a * a * n <= dx * dx * s2,
            b * b * n <= dy * dy * s2,
            n == dx * dx + dy * dy,
    ;
    assert(a * a + b * b <= s2) by (nonlinear_arith)
        requires
            (a * a + b * b) * n <= s2 * n,
            0 < n,
    ;
    assert(s2 * n < ((a + 1) * (a + 1) + (b + 1) * (b + 1)) * n) by (nonlinear_arith)
        requires
            dx * dx * s2 < (a + 1) * (a + 1) * n,
            dy * dy * s2 < (b + 1) * (b + 1) * n,
            n == dx * dx + dy * dy,
    ;
    assert(s2 < (a + 1) * (a + 1) + (b + 1) * (b + 1)) by (nonlinear_arith)
        requires
            s2 * n < ((a + 1) * (a + 1) + (b + 1) * (b + 1)) * n,
            0 < n,
    ;
    assert((a + b) * (a + b) <= 2 * (a * a + b * b)) by (nonlinear_arith);
    if a + b > 2 * SPEED - 3 {
        lemma_square_monotone(2 * SPEED - 2, a + b, 1);
    }
    assert(a + b <= 2 * SPEED - 3);
    assert((SPEED - 2) * (SPEED - 2) <= a * a + b * b) by (nonlinear_arith)
        requires
            s2 < (a + 1) * (a + 1) + (b + 1) * (b + 1),
            a + b <= 2 * SPEED - 3,
            s2 == SPEED * SPEED,
    ;
}

/// The velocity for a random direction: the direction normalised and scaled
/// to length `SPEED`, each component rounded toward zero, or `(SPEED, 0)`
/// where the direction has no length.
pub fn velocity_from_direction(dx: i64, dy: i64) -> (v: Velocity)
    requires
        -UNIT <= dx <= UNIT,
        -UNIT <= dy <= UNIT,
    ensures
        (v.x as int, v.y as int) == velocity_of_direction(dx as int, dy as int),
        at_speed(v),
{
    if dx == 0 && dy == 0 {
        return Velocity { x: SPEED, y: 0 };
    }
    proof {
        assert(dx * dx <= UNIT * UNIT) by (nonlinear_arith)
            requires
                -UNIT <= dx <= UNIT,
        ;
        assert(dy * dy <= UNIT * UNIT) by (nonlinear_arith)
            requires
                -UNIT <= dy <= UNIT,
        ;
        assert(dx * dx + dy * dy > 0) by (nonlinear_arith)
            requires
                dx != 0 || dy != 0,
        ;
        assert(0 <= dx * dx && 0 <= dy * dy) by (nonlinear_arith);
    }
    let n: u64 = (dx * dx + dy * dy) as u64;
    let vx = scale(dx, n);
    let vy = scale(dy, n);
    proof {
        let a = abs(vx as int) as int;
        let b = abs(vy as int) as int;
        lemma_scaled_length(a, b, dx as int, dy as int);
        assert(vx * vx == a * a) by (nonlinear_arith)
            requires
                a == vx || a == -vx,
        ;
        assert(vy * vy == b * b) by (nonlinear_arith)
            requires
                b == vy || b == -vy,
        ;
    }
    Velocity { x: vx, y: vy }
}

/// The particle that four samples give: a position from the first two and a
/// direction from the last two.
pub open spec fn particle_of_samples(r: [u32; 4]) -> Particle {
    let dx = signed_of(r[2]);
    let dy = signed_of(r[3]);
    let v = velocity_of_direction(dx, dy);
    Particle {
        position: Point { x: unit_of(r[0]) as i64, y: unit_of(r[1]) as i64 },
        velocity: Velocity { x: v.0 as i64, y: v.1 as i64 },
    }
}

/// The particle is the one that some four samples give.
pub open spec fn from_some_samples(q: Particle) -> bool {
    exists|r: [u32; 4]| q == #[trigger] particle_of_samples(r)
}

/// Builds a particle from four random samples.
pub fn particle_from_samples(r: [u32; 4]) -> (q: Particle)
    ensures
        q == particle_of_samples(r),
        particle_wf(q),
        at_speed(q.velocity),
{
    let x = unit_from_sample(r[0]);
    let y = unit_from_sample(r[1]);
    let dx = signed_from_sample(r[2]);
    let dy = signed_from_sample(r[3]);
    let v = velocity_from_direction(dx, dy);
    Particle { position: Point { x, y }, velocity: v }
}

/// Draws a particle at random: a position uniform on the square and a
/// direction uniform on the square from -1 to 1, scaled to `SPEED`.
pub fn random_particle() -> (q: Particle)
    ensures
        from_some_samples(q),
        particle_wf(q),
        at_speed(q.velocity),
{
    let a = random_sample();
    let b = random_sample();
    let c = random_sample();
    let d = random_sample();
    let q = particle_from_samples([a, b, c, d]);
    assert(q == particle_of_samples([a, b, c, d]));
    q
}

} // verus!
