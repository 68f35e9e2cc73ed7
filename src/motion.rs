use vstd::prelude::*;

verus! {

/// The fixed-point value of 1.0: the side of the square that points move in.
pub const UNIT: i64 = 1_000_000;

/// A position in the square, in fixed-point units (`0..=UNIT` on each axis).
#[derive(Clone, Copy, Debug, PartialEq, Eq, Structural)]
pub struct Point {
    pub x: i64,
    pub y: i64,
}

/// The displacement of a point per step, in fixed-point units.
#[derive(Clone, Copy, Debug, PartialEq, Eq, Structural)]
pub struct Velocity {
    pub x: i64,
    pub y: i64,
}

/// A point together with its velocity.
#[derive(Clone, Copy, Debug, PartialEq, Eq, Structural)]
pub struct Particle {
    pub position: Point,
    pub velocity: Velocity,
}

/// A coordinate lies on the closed interval from 0 to 1.
pub open spec fn in_unit(c: int) -> bool {
    0 <= c <= UNIT
}

/// Both coordinates of `p` lie in the closed unit square.
pub open spec fn in_unit_square(p: Point) -> bool {
    in_unit(p.x as int) && in_unit(p.y as int)
}

/// A velocity component can be negated without leaving `i64`.
pub open spec fn negatable(c: i64) -> bool {
    c != i64::MIN
}

/// A particle that a step can advance: its point is in the square and each
/// velocity component can be negated.
pub open spec fn particle_wf(q: Particle) -> bool {
    in_unit_square(q.position) && negatable(q.velocity.x) && negatable(q.velocity.y)
}

/// One axis of one step: the coordinate moves by the velocity; where it
/// passes 0 or 1 it is clamped there and the velocity is negated.
/// The result is the new coordinate and the new velocity component.
pub open spec fn bounce(c: int, v: int) -> (int, int) {
    let moved = c + v;
    if moved < 0 {
        (0, -v)
    } else if moved > UNIT {
        (UNIT as int, -v)
    } else {
        (moved, v)
    }
}

/// One step of one particle: the x axis, then the y axis.
pub open spec fn step_particle(q: Particle) -> Particle {
    let bx = bounce(q.position.x as int, q.velocity.x as int);
    let by = bounce(q.position.y as int, q.velocity.y as int);
    Particle {
        position: Point { x: bx.0 as i64, y: by.0 as i64 },
        velocity: Velocity { x: bx.1 as i64, y: by.1 as i64 },
    }
}

/// A step keeps a particle's point in the square and its velocity
/// components negatable.
pub proof fn lemma_step_keeps_wf(q: Particle)
    requires
        particle_wf(q),
    ensures
        particle_wf(step_particle(q)),
{
}

/// Moves one coordinate by one velocity component and bounces it off the
/// ends of the unit interval.
pub fn bounce_axis(c: i64, v: i64) -> (r: (i64, i64))
    requires
        in_unit(c as int),
        negatable(v),
    ensures
        r.0 as int == bounce(c as int, v as int).0,
        r.1 as int == bounce(c as int, v as int).1,
        in_unit(r.0 as int),
        negatable(r.1),
{
    if v < 0 && c < -v {
        (0, -v)
    } else if v > 0 && c > UNIT - v {
        (UNIT, -v)
    } else {
        (c + v, v)
    }
}

impl Particle {
    /// Advances the particle by one step, x axis first.
    pub fn step(&mut self)
        requires
            particle_wf(*old(self)),
        ensures
            *final(self) == step_particle(*old(self)),
            particle_wf(*final(self)),
    {
        let (px, vx) = bounce_axis(self.position.x, self.velocity.x);
        let (py, vy) = bounce_axis(self.position.y, self.velocity.y);
        self.position = Point { x: px, y: py };
        self.velocity = Velocity { x: vx, y: vy };
    }
}

} // verus!
