use vstd::prelude::*;
use crate::motion::{Particle, Point, Velocity, lemma_step_keeps_wf, particle_wf, step_particle};
use crate::sampling::{from_some_samples, random_particle, at_speed};

verus! {

/// The number of points that move in the square.
pub const POINT_COUNT: usize = 100;

/// Each particle of `ps` advanced by one step.
pub open spec fn step_all(ps: Seq<Particle>) -> Seq<Particle> {
    ps.map_values(|q: Particle| step_particle(q))
}

/// The particles of `ps` after `n` steps.
pub open spec fn steps(ps: Seq<Particle>, n: nat) -> Seq<Particle>
    decreases n,
{
    if n == 0 {
        ps
    } else {
        step_all(steps(ps, (n - 1) as nat))
    }
}

/// The particles that two parallel arrays describe.
pub open spec fn pair_up(positions: [Point; POINT_COUNT], velocities: [Velocity; POINT_COUNT]) -> Seq<Particle> {
    Seq::new(
        POINT_COUNT as nat,
        |i: int| Particle { position: positions@[i], velocity: velocities@[i] },
    )
}

/// Every particle of `ps` can be stepped: its point lies in the square.
pub open spec fn all_wf(ps: Seq<Particle>) -> bool {
    forall|i: int| 0 <= i < ps.len() ==> #[trigger] particle_wf(ps[i])
}

/// The points and their velocities, index by index: point `i` moves with
/// velocity `i`. The positions are kept as one array, ready to be handed on
/// as they are.
pub struct Simulator {
    positions: [Point; POINT_COUNT],
    velocities: [Velocity; POINT_COUNT],
}

impl View for Simulator {
    type V = Seq<Particle>;

    closed spec fn view(&self) -> Seq<Particle> {
        Seq::new(
            POINT_COUNT as nat,
            |i: int| Particle { position: self.positions@[i], velocity: self.velocities@[i] },
        )
    }
}

impl Simulator {
    /// There are `POINT_COUNT` particles, every point lies in the square and
    /// every velocity can be reflected.
    pub open spec fn wf(&self) -> bool {
        self@.len() == POINT_COUNT && all_wf(self@)
    }

    /// A simulator over the given state, or `None` where a point lies outside
    /// the square or a velocity component is `i64::MIN`.
    pub fn from_state(positions: [Point; POINT_COUNT], velocities: [Velocity; POINT_COUNT]) -> (r:
        Option<Simulator>)
        ensures
            match r {
                Some(s) => s.wf() && s@ == pair_up(positions, velocities),
                None => !(forall|i: int|
                    0 <= i < POINT_COUNT ==> #[trigger] particle_wf(
                        Particle { position: positions@[i], velocity: velocities@[i] },
                    )),
            },
    {
        let mut i: usize = 0;
        while i < POINT_COUNT
            invariant
                i <= POINT_COUNT,
                forall|j: int|
                    0 <= j < i ==> #[trigger] particle_wf(
                        Particle { position: positions@[j], velocity: velocities@[j] },
                    ),
            decreases POINT_COUNT - i,
        {
            let p = positions[i];
            let v = velocities[i];
            if p.x < 0 || p.x > crate::motion::UNIT || p.y < 0 || p.y > crate::motion::UNIT
                || v.x == i64::MIN || v.y == i64::MIN {
                assert(!particle_wf(Particle { position: positions@[i as int], velocity: velocities@[i as int] }));
                return None;
            }
            i = i + 1;
        }
        let s = Simulator { positions, velocities };
        assert forall|j: int| 0 <= j < s@.len() implies #[trigger] particle_wf(s@[j]) by {
            assert(particle_wf(Particle { position: positions@[j], velocity: velocities@[j] }));
        }
        assert(s@ =~= pair_up(positions, velocities));
        Some(s)
    }

    /// Draws every point uniformly on the square and every velocity as a
    /// random direction scaled to `SPEED`.
    pub fn initialize() -> (s: Simulator)
        ensures
            s.wf(),
            forall|i: int| 0 <= i < POINT_COUNT ==> at_speed(#[trigger] s@[i].velocity),
            forall|i: int| 0 <= i < POINT_COUNT ==> from_some_samples(#[trigger] s@[i]),
    {
        let mut positions = [Point { x: 0, y: 0 }; POINT_COUNT];
        let mut velocities = [Velocity { x: 0, y: 0 }; POINT_COUNT];
        let mut i: usize = 0;
        while i < POINT_COUNT
            invariant
                i <= POINT_COUNT,
                forall|j: int|
                    0 <= j < i ==> #[trigger] particle_wf(
                        Particle { position: positions@[j], velocity: velocities@[j] },
                    ) && at_speed(velocities@[j]) && from_some_samples(
                        Particle { position: positions@[j], velocity: velocities@[j] },
                    ),
            decreases POINT_COUNT - i,
        {
            let q = random_particle();
            positions[i] = q.position;
            velocities[i] = q.velocity;
            i = i + 1;
        }
        let s = Simulator { positions, velocities };
        assert forall|j: int|
            #![trigger s@[j]]
            0 <= j < POINT_COUNT implies particle_wf(s@[j]) && at_speed(s@[j].velocity)
                && from_some_samples(s@[j]) by {
            assert(particle_wf(Particle { position: positions@[j], velocity: velocities@[j] }));
        }
        s
    }

    /// Advances every point by its velocity, reflecting it off the edges of
    /// the square: point `i` is read and written with velocity `i` alone.
    pub fn step(&mut self)
        requires
            old(self).wf(),
        ensures
            final(self)@ == step_all(old(self)@),
            final(self).wf(),
    {
        let ghost start = self@;
        let mut i: usize = 0;
        while i < POINT_COUNT
            invariant
                i <= POINT_COUNT,
                all_wf(start),
                start.len() == POINT_COUNT,
                forall|j: int| 0 <= j < i ==> #[trigger] self@[j] == step_particle(start[j]),
                forall|j: int| i <= j < POINT_COUNT ==> #[trigger] self@[j] == start[j],
            decreases POINT_COUNT - i,
        {
            let mut q = Particle { position: self.positions[i], velocity: self.velocities[i] };
            assert(q == start[i as int]) by {
                assert(self@[i as int] == start[i as int]);
            }
            let ghost before = self@;
            q.step();
            self.positions[i] = q.position;
            self.velocities[i] = q.velocity;
            assert(self@ =~= before.update(i as int, q));
            i = i + 1;
        }
        assert(self@ =~= step_all(start));
        assert forall|j: int| 0 <= j < self@.len() implies #[trigger] particle_wf(self@[j]) by {
            lemma_step_keeps_wf(start[j]);
        }
    }

    /// Particle `i`, or `None` past the last one.
    pub fn particle(&self, i: usize) -> (r: Option<Particle>)
        ensures
            r == (if i < POINT_COUNT { Some(self@[i as int]) } else { None::<Particle> }),
    {
        if i < POINT_COUNT {
            Some(Particle { position: self.positions[i], velocity: self.velocities[i] })
        } else {
            None
        }
    }

    /// The positions of all points, in order.
    pub fn positions(&self) -> (r: [Point; POINT_COUNT])
        ensures
            forall|i: int| 0 <= i < POINT_COUNT ==> #[trigger] r@[i] == self@[i].position,
    {
        self.positions
    }

    /// The velocities of all points, in order.
    pub fn velocities(&self) -> (r: [Velocity; POINT_COUNT])
        ensures
            forall|i: int| 0 <= i < POINT_COUNT ==> #[trigger] r@[i] == self@[i].velocity,
    {
        self.velocities
    }
}

} // verus!
