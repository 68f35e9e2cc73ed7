use vstd::prelude::*;
use vstd::math::abs;
use crate::motion::{Particle, UNIT, in_unit_square, lemma_step_keeps_wf, particle_wf, step_particle};
use crate::simulator::{all_wf, steps};

verus! {

/// One particle after `n` steps taken on its own.
pub open spec fn particle_after(q: Particle, n: nat) -> Particle
    decreases n,
{
    if n == 0 {
        q
    } else {
        step_particle(particle_after(q, (n - 1) as nat))
    }
}

/// Stepping the whole set `n` times moves each particle as if it were
/// alone: particle `i` after `n` steps depends on particle `i` before them
/// and on nothing else.
pub proof fn lemma_steps_pointwise(ps: Seq<Particle>, n: nat)
    ensures
        steps(ps, n).len() == ps.len(),
        forall|i: int| 0 <= i < ps.len() ==> #[trigger] steps(ps, n)[i] == particle_after(ps[i], n),
    decreases n,
{
    if n > 0 {
        lemma_steps_pointwise(ps, (n - 1) as nat);
    }
}

/// A particle that can be stepped stays so after any number of steps.
pub proof fn lemma_particle_after_wf(q: Particle, n: nat)
    requires
        particle_wf(q),
    ensures
        particle_wf(particle_after(q, n)),
    decreases n,
{
    if n > 0 {
        lemma_particle_after_wf(q, (n - 1) as nat);
        lemma_step_keeps_wf(particle_after(q, (n - 1) as nat));
    }
}

/// Every point stays in the closed unit square, on both axes, after any
/// number of steps from a state whose points all lie in it.
pub proof fn lemma_boundary_invariant(ps: Seq<Particle>, n: nat)
    requires
        all_wf(ps),
    ensures
        steps(ps, n).len() == ps.len(),
        all_wf(steps(ps, n)),
        forall|i: int|
            0 <= i < ps.len() ==> in_unit_square(#[trigger] steps(ps, n)[i].position),
{
    lemma_steps_pointwise(ps, n);
    assert forall|i: int| 0 <= i < ps.len() implies #[trigger] particle_wf(steps(ps, n)[i]) by {
        lemma_particle_after_wf(ps[i], n);
    }
    assert forall|i: int| 0 <= i < ps.len() implies in_unit_square(
        #[trigger] steps(ps, n)[i].position,
    ) by {
        assert(particle_wf(steps(ps, n)[i]));
    }
}

/// A coordinate that a step would carry below 0 is clamped to 0 and its
/// velocity component changes sign; one that it would carry above 1 is
/// clamped to 1 and its velocity component changes sign. So on both axes.
pub proof fn lemma_reflection(q: Particle)
    requires
        particle_wf(q),
    ensures
        q.position.x + q.velocity.x < 0 ==> step_particle(q).position.x == 0
            && step_particle(q).velocity.x == -q.velocity.x && q.velocity.x < 0
            && step_particle(q).velocity.x > 0,
        q.position.x + q.velocity.x > UNIT ==> step_particle(q).position.x == UNIT
            && step_particle(q).velocity.x == -q.velocity.x && q.velocity.x > 0
            && step_particle(q).velocity.x < 0,
        q.position.y + q.velocity.y < 0 ==> step_particle(q).position.y == 0
            && step_particle(q).velocity.y == -q.velocity.y && q.velocity.y < 0
            && step_particle(q).velocity.y > 0,
        q.position.y + q.velocity.y > UNIT ==> step_particle(q).position.y == UNIT
            && step_particle(q).velocity.y == -q.velocity.y && q.velocity.y > 0
            && step_particle(q).velocity.y < 0,
{
}

/// The magnitude of each velocity component, and so the velocity's length,
/// is the same after any number of steps.
pub proof fn lemma_speed_conserved(q: Particle, n: nat)
    requires
        particle_wf(q),
    ensures
        abs(particle_after(q, n).velocity.x as int) == abs(q.velocity.x as int),
        abs(particle_after(q, n).velocity.y as int) == abs(q.velocity.y as int),
        particle_after(q, n).velocity.x * particle_after(q, n).velocity.x
            + particle_after(q, n).velocity.y * particle_after(q, n).velocity.y
            == q.velocity.x * q.velocity.x + q.velocity.y * q.velocity.y,
    decreases n,
{
    if n > 0 {
        let prev = particle_after(q, (n - 1) as nat);
        lemma_speed_conserved(q, (n - 1) as nat);
        lemma_particle_after_wf(q, (n - 1) as nat);
        let next = step_particle(prev);
        assert(next.velocity.x == prev.velocity.x || next.velocity.x == -prev.velocity.x);
        assert(next.velocity.y == prev.velocity.y || next.velocity.y == -prev.velocity.y);
        assert(next.velocity.x * next.velocity.x == prev.velocity.x * prev.velocity.x)
            by (nonlinear_arith)
            requires
                next.velocity.x == prev.velocity.x || next.velocity.x == -prev.velocity.x,
        ;
        assert(next.velocity.y * next.velocity.y == prev.velocity.y * prev.velocity.y)
            by (nonlinear_arith)
            requires
                next.velocity.y == prev.velocity.y || next.velocity.y == -prev.velocity.y,
        ;
    }
}

/// Two states that differ in particle `i` alone give, after any number of
/// steps, the same trajectory for every other particle.
pub proof fn lemma_independence(ps: Seq<Particle>, qs: Seq<Particle>, i: int, n: nat)
    requires
        ps.len() == qs.len(),
        0 <= i < ps.len(),
        forall|j: int| 0 <= j < ps.len() && j != i ==> ps[j] == qs[j],
    ensures
        forall|j: int|
            0 <= j < ps.len() && j != i ==> #[trigger] steps(ps, n)[j] == steps(qs, n)[j],
{
    lemma_steps_pointwise(ps, n);
    lemma_steps_pointwise(qs, n);
}

} // verus!
