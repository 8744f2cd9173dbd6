//! Particles, the flat buffer that carries them across the host boundary,
//! and the per-particle update as a map over that buffer.

use vstd::prelude::*;
use crate::error::ChladniError;

verus! {

/// A position on the plate, in plate-local physical coordinates.
///
/// A particle has no identity beyond its index in the sequence that holds it.
#[derive(Debug, PartialEq)]
pub struct Particle<T> {
    pub x: T,
    pub y: T,
}

impl<T: Copy> Clone for Particle<T> {
    fn clone(&self) -> (copy: Self)
        ensures
            copy == *self,
    {
        *self
    }
}

impl<T: Copy> Copy for Particle<T> {

}

/// The flat buffer of a particle sequence: `x0, y0, x1, y1, ...`.
pub open spec fn interleave<T>(particles: Seq<Particle<T>>) -> Seq<T> {
    Seq::new(
        2 * particles.len(),
        |k: int|
            if k % 2 == 0 {
                particles[k / 2].x
            } else {
                particles[k / 2].y
            },
    )
}

/// The particles that a flat buffer holds, reading coordinates two by two.
/// A trailing odd coordinate belongs to no particle.
pub open spec fn pair_up<T>(flat: Seq<T>) -> Seq<Particle<T>> {
    Seq::new(flat.len() / 2, |i: int| Particle { x: flat[2 * i], y: flat[2 * i + 1] })
}

/// Pairing up an interleaved buffer gives the particles back.
pub proof fn lemma_pair_up_interleave<T>(particles: Seq<Particle<T>>)
    ensures
        pair_up(interleave(particles)) == particles,
{
    assert(pair_up(interleave(particles)) =~= particles);
}

/// Interleaving the particles of a buffer of even length gives the buffer back.
pub proof fn lemma_interleave_pair_up<T>(flat: Seq<T>)
    requires
        flat.len() % 2 == 0,
    ensures
        interleave(pair_up(flat)) == flat,
{
    assert(interleave(pair_up(flat)) =~= flat);
}

/// An interleaved buffer has two coordinates per particle.
pub proof fn lemma_interleave_len<T>(particles: Seq<Particle<T>>)
    ensures
        interleave(particles).len() == 2 * particles.len(),
        interleave(particles).len() % 2 == 0,
{
}

/// Lays particles out as interleaved coordinates, in order.
pub fn to_flat<T: Copy>(particles: &Vec<Particle<T>>) -> (flat: Vec<T>)
    ensures
        flat@ == interleave(particles@),
{
    let mut flat: Vec<T> = Vec::new();
    let mut i: usize = 0;
    while i < particles.len()
        invariant
            i <= particles.len(),
            flat@ == interleave(particles@.take(i as int)),
        decreases particles.len() - i,
    {
        let p = particles[i];
        flat.push(p.x);
        flat.push(p.y);
        assert(flat@ =~= interleave(particles@.take(i + 1)));
        i += 1;
    }
    assert(particles@.take(i as int) =~= particles@);
    flat
}

/// Reads a flat buffer as particles. A buffer of odd length holds no whole
/// number of pairs and is refused.
pub fn from_flat<T: Copy>(flat: &Vec<T>) -> (r: Result<Vec<Particle<T>>, ChladniError>)
    ensures
        flat.len() % 2 == 0 ==> r is Ok,
        flat.len() % 2 != 0 ==> r == Err::<Vec<Particle<T>>, ChladniError>(
            ChladniError::LengthMismatch,
        ),
        r matches Ok(particles) ==> particles@ == pair_up(flat@),
{
    let n = flat.len();
    if n % 2 != 0 {
        return Err(ChladniError::LengthMismatch);
    }
    let mut particles: Vec<Particle<T>> = Vec::new();
    let mut i: usize = 0;
    while i < n
        invariant
            n == flat.len(),
            n % 2 == 0,
            i % 2 == 0,
            i <= n,
            particles@ == pair_up(flat@.take(i as int)),
        decreases n - i,
    {
        particles.push(Particle { x: flat[i], y: flat[i + 1] });
        assert(particles@ =~= pair_up(flat@.take(i + 2)));
        i += 2;
    }
    assert(flat@.take(i as int) =~= flat@);
    Ok(particles)
}

/// Moves every particle of a flat buffer by `step`, in buffer order, and
/// returns the moved particles in a buffer of the same length.
///
/// Particles do not interact: the new position at an index is an output of
/// `step` on the old position at that index and on nothing else. A buffer of
/// odd length is refused with `LengthMismatch`, and an empty buffer gives an
/// empty buffer. A `step` that leaves every particle where it is gives the
/// input back.
pub fn update_particles<T: Copy, F: Fn(Particle<T>) -> Particle<T>>(
    current_particles_flat: Vec<T>,
    step: F,
) -> (r: Result<Vec<T>, ChladniError>)
    requires
        forall|i: int|
            0 <= i < pair_up(current_particles_flat@).len() ==> step.requires(
                (#[trigger] pair_up(current_particles_flat@)[i],),
            ),
    ensures
        current_particles_flat.len() % 2 == 0 ==> r is Ok,
        current_particles_flat.len() % 2 != 0 ==> r == Err::<Vec<T>, ChladniError>(
            ChladniError::LengthMismatch,
        ),
        r matches Ok(moved) ==> {
            &&& moved.len() == current_particles_flat.len()
            &&& forall|i: int|
                0 <= i < pair_up(current_particles_flat@).len() ==> step.ensures(
                    (pair_up(current_particles_flat@)[i],),
                    #[trigger] pair_up(moved@)[i],
                )
        },
        r matches Ok(moved) ==> (forall|p: Particle<T>, q: Particle<T>|
            step.ensures((p,), q) ==> q == p) ==> moved@ == current_particles_flat@,
{
    let n = current_particles_flat.len();
    if n % 2 != 0 {
        return Err(ChladniError::LengthMismatch);
    }
    let ghost before = pair_up(current_particles_flat@);
    let mut moved: Vec<T> = Vec::new();
    let mut i: usize = 0;
    while i < n
        invariant
            n == current_particles_flat.len(),
            n % 2 == 0,
            i % 2 == 0,
            i <= n,
            before == pair_up(current_particles_flat@),
            forall|k: int| 0 <= k < before.len() ==> step.requires((#[trigger] before[k],)),
            moved.len() == i,
            forall|k: int|
                0 <= k < i / 2 ==> step.ensures((before[k],), #[trigger] pair_up(moved@)[k]),
        decreases n - i,
    {
        let p = Particle { x: current_particles_flat[i], y: current_particles_flat[i + 1] };
        assert(p == before[(i / 2) as int]);
        let q = step(p);
        let ghost earlier = moved@;
        moved.push(q.x);
        moved.push(q.y);
        assert forall|k: int| 0 <= k < (i + 2) / 2 implies step.ensures(
            (before[k],),
            #[trigger] pair_up(moved@)[k],
        ) by {
            if k < i / 2 {
                assert(pair_up(moved@)[k] == pair_up(earlier)[k]);
            } else {
                assert(pair_up(moved@)[k] == q);
            }
        }
        i += 2;
    }
    proof {
        if forall|p: Particle<T>, q: Particle<T>| step.ensures((p,), q) ==> q == p {
            assert forall|k: int| 0 <= k < n implies moved@[k] == current_particles_flat@[k] by {
                assert(pair_up(moved@)[k / 2] == before[k / 2]);
            }
            assert(moved@ =~= current_particles_flat@);
        }
    }
    Ok(moved)
}

} // verus!
