//! Bounded rejection sampling of initial particle positions.
//!
//! A host draws candidates from the bounding rectangle of the plate and tests
//! each against the plate's acceptance rule. What is decided here is which
//! candidates are kept, when enough have been kept, and when to give up.

use vstd::prelude::*;
use crate::error::ChladniError;
use crate::particles::{interleave, lemma_pair_up_interleave, pair_up, to_flat, Particle};
use crate::shape::{Acceptance, PlateShape};

verus! {

/// A position drawn from the bounding rectangle, with the verdict of the
/// rule's test on it. Under `Acceptance::Always` the verdict means nothing.
#[derive(Debug, PartialEq)]
pub struct Candidate<T> {
    pub position: Particle<T>,
    pub inside: bool,
}

impl<T: Copy> Clone for Candidate<T> {
    fn clone(&self) -> (copy: Self)
        ensures
            copy == *self,
    {
        *self
    }
}

impl<T: Copy> Copy for Candidate<T> {

}

/// What the sampler asks of its driver next.
#[derive(Clone, Copy, Debug, PartialEq, Eq, Structural)]
pub enum SamplerAction {
    /// Draw one more candidate and offer it.
    Draw,
    /// As many candidates as were asked for have been kept.
    Complete,
    /// The attempts are used up and particles are still missing.
    Exhausted,
}

/// The mathematical state of a sampler.
pub struct SamplerState<T> {
    /// The test that candidates have to pass.
    pub rule: Acceptance,
    /// How many particles are wanted.
    pub target: nat,
    /// How many candidates may be drawn at most.
    pub limit: nat,
    /// How many candidates have been drawn so far.
    pub attempts: nat,
    /// The positions kept so far, oldest first.
    pub kept: Seq<Particle<T>>,
}

impl<T> SamplerState<T> {
    /// The state before any candidate was drawn.
    pub open spec fn fresh(rule: Acceptance, target: nat, limit: nat) -> Self {
        SamplerState { rule, target, limit, attempts: 0, kept: Seq::empty() }
    }

    /// No more is kept than wanted or drawn, and no more drawn than allowed.
    pub open spec fn wf(self) -> bool {
        &&& self.kept.len() <= self.target
        &&& self.kept.len() <= self.attempts
        &&& self.attempts <= self.limit
    }

    /// Completion is tested first: a sampler that has all its particles is
    /// complete even when its last attempt produced the last of them.
    pub open spec fn action(self) -> SamplerAction {
        if self.kept.len() >= self.target {
            SamplerAction::Complete
        } else if self.attempts >= self.limit {
            SamplerAction::Exhausted
        } else {
            SamplerAction::Draw
        }
    }

    /// The state after a candidate was offered. While the sampler asks for a
    /// draw, the offer counts as an attempt and the position is kept if the
    /// rule admits it. After that, offers change nothing.
    pub open spec fn offer(self, candidate: Candidate<T>) -> Self {
        if self.action() == SamplerAction::Draw {
            SamplerState {
                attempts: self.attempts + 1,
                kept: if self.rule.spec_admits(candidate.inside) {
                    self.kept.push(candidate.position)
                } else {
                    self.kept
                },
                ..self
            }
        } else {
            self
        }
    }

    /// The state after a whole sequence of candidates was offered in order.
    pub open spec fn feed(self, candidates: Seq<Candidate<T>>) -> Self
        decreases candidates.len(),
    {
        if candidates.len() == 0 {
            self
        } else {
            self.feed(candidates.drop_last()).offer(candidates.last())
        }
    }
}

/// The positions of the candidates that a rule admits, in the order they
/// were drawn.
pub open spec fn admitted<T>(rule: Acceptance, candidates: Seq<Candidate<T>>) -> Seq<
    Particle<T>,
> {
    candidates.filter(|c: Candidate<T>| rule.spec_admits(c.inside)).map_values(
        |c: Candidate<T>| c.position,
    )
}

/// The position of every candidate, in the order they were drawn.
pub open spec fn positions<T>(candidates: Seq<Candidate<T>>) -> Seq<Particle<T>> {
    candidates.map_values(|c: Candidate<T>| c.position)
}

/// The first `n` elements of a sequence, or all of it where it is shorter.
pub open spec fn first_n<A>(s: Seq<A>, n: nat) -> Seq<A> {
    if n <= s.len() {
        s.take(n as int)
    } else {
        s
    }
}

/// No candidates, no admitted positions.
pub proof fn lemma_admitted_empty<T>(rule: Acceptance)
    ensures
        admitted(rule, Seq::<Candidate<T>>::empty()) == Seq::<Particle<T>>::empty(),
{
    reveal(Seq::filter);
    assert(admitted(rule, Seq::<Candidate<T>>::empty()) =~= Seq::<Particle<T>>::empty());
}

/// One more candidate adds its position to the admitted ones exactly when
/// the rule admits it.
pub proof fn lemma_admitted_push<T>(
    rule: Acceptance,
    candidates: Seq<Candidate<T>>,
    c: Candidate<T>,
)
    ensures
        admitted(rule, candidates.push(c)) == if rule.spec_admits(c.inside) {
            admitted(rule, candidates).push(c.position)
        } else {
            admitted(rule, candidates)
        },
{
    let pred = |c: Candidate<T>| rule.spec_admits(c.inside);
    candidates.lemma_filter_push(c, pred);
    if rule.spec_admits(c.inside) {
        assert(admitted(rule, candidates.push(c)) =~= admitted(rule, candidates).push(
            c.position,
        ));
    }
}

/// Every admitted position is the position of a candidate that was drawn
/// and that the rule admits.
pub proof fn lemma_admitted_members<T>(
    rule: Acceptance,
    candidates: Seq<Candidate<T>>,
    i: int,
)
    requires
        0 <= i < admitted(rule, candidates).len(),
    ensures
        exists|j: int|
            0 <= j < candidates.len() && rule.spec_admits((#[trigger] candidates[j]).inside)
                && candidates[j].position == admitted(rule, candidates)[i],
    decreases candidates.len(),
{
    if candidates.len() == 0 {
        lemma_admitted_empty::<T>(rule);
        assert(candidates =~= Seq::<Candidate<T>>::empty());
    } else {
        let earlier = candidates.drop_last();
        let c = candidates.last();
        lemma_admitted_push(rule, earlier, c);
        assert(earlier.push(c) =~= candidates);
        if i < admitted(rule, earlier).len() {
            lemma_admitted_members(rule, earlier, i);
            let j = choose|j: int|
                0 <= j < earlier.len() && rule.spec_admits((#[trigger] earlier[j]).inside)
                    && earlier[j].position == admitted(rule, earlier)[i];
            assert(candidates[j] == earlier[j]);
        } else {
            assert(candidates[candidates.len() - 1] == c);
        }
    }
}

/// Where the rule admits every candidate, every position is admitted. This
/// is so for all candidates under `Acceptance::Always`.
pub proof fn lemma_admitted_all<T>(rule: Acceptance, candidates: Seq<Candidate<T>>)
    requires
        forall|i: int|
            0 <= i < candidates.len() ==> rule.spec_admits((#[trigger] candidates[i]).inside),
    ensures
        admitted(rule, candidates) == positions(candidates),
    decreases candidates.len(),
{
    if candidates.len() == 0 {
        lemma_admitted_empty::<T>(rule);
        assert(candidates =~= Seq::<Candidate<T>>::empty());
        assert(positions(candidates) =~= Seq::<Particle<T>>::empty());
    } else {
        let earlier = candidates.drop_last();
        lemma_admitted_all(rule, earlier);
        lemma_admitted_push(rule, earlier, candidates.last());
        assert(earlier.push(candidates.last()) =~= candidates);
        assert(positions(candidates) =~= positions(earlier).push(candidates.last().position));
    }
}

/// Where the rule admits no candidate, no position is admitted.
pub proof fn lemma_admitted_none<T>(rule: Acceptance, candidates: Seq<Candidate<T>>)
    requires
        forall|i: int|
            0 <= i < candidates.len() ==> !rule.spec_admits((#[trigger] candidates[i]).inside),
    ensures
        admitted(rule, candidates).len() == 0,
    decreases candidates.len(),
{
    if candidates.len() == 0 {
        lemma_admitted_empty::<T>(rule);
        assert(candidates =~= Seq::<Candidate<T>>::empty());
    } else {
        let earlier = candidates.drop_last();
        lemma_admitted_none(rule, earlier);
        lemma_admitted_push(rule, earlier, candidates.last());
        assert(earlier.push(candidates.last()) =~= candidates);
    }
}

/// Offering a candidate keeps a well-formed state well formed, changes
/// neither the rule nor the bounds, and never loses a kept position.
pub proof fn lemma_offer_preserves<T>(state: SamplerState<T>, candidate: Candidate<T>)
    requires
        state.wf(),
    ensures
        state.offer(candidate).wf(),
        state.offer(candidate).rule == state.rule,
        state.offer(candidate).target == state.target,
        state.offer(candidate).limit == state.limit,
        state.kept.is_prefix_of(state.offer(candidate).kept),
{
}

/// Feeding any sequence of candidates to a fresh sampler keeps exactly the
/// first `target` admitted positions among the first `limit` candidates. The
/// sampler ends complete exactly when there are `target` of them, and
/// exhausted exactly when there are fewer and `limit` candidates were fed.
pub proof fn lemma_feed_selects<T>(
    rule: Acceptance,
    target: nat,
    limit: nat,
    candidates: Seq<Candidate<T>>,
)
    ensures
        ({
            let end = SamplerState::<T>::fresh(rule, target, limit).feed(candidates);
            let passing = admitted(rule, first_n(candidates, limit));
            &&& end.wf()
            &&& end.rule == rule
            &&& end.target == target
            &&& end.limit == limit
            &&& end.kept == first_n(passing, target)
            &&& end.kept.len() < target ==> end.attempts == first_n(candidates, limit).len()
            &&& end.action() == SamplerAction::Complete <==> passing.len() >= target
            &&& end.action() == SamplerAction::Exhausted <==> passing.len() < target
                && candidates.len() >= limit
        }),
    decreases candidates.len(),
{
    let start = SamplerState::<T>::fresh(rule, target, limit);
    if candidates.len() == 0 {
        lemma_admitted_empty::<T>(rule);
        assert(first_n(candidates, limit) =~= Seq::<Candidate<T>>::empty());
        assert(first_n(Seq::<Particle<T>>::empty(), target) =~= Seq::<Particle<T>>::empty());
    } else {
        let earlier = candidates.drop_last();
        let c = candidates.last();
        lemma_feed_selects(rule, target, limit, earlier);
        let mid = start.feed(earlier);
        let passing_mid = admitted(rule, first_n(earlier, limit));
        let passing = admitted(rule, first_n(candidates, limit));
        if earlier.len() >= limit {
            assert(first_n(candidates, limit) =~= first_n(earlier, limit));
        } else {
            assert(first_n(earlier, limit) =~= earlier);
            assert(first_n(candidates, limit) =~= earlier.push(c));
            lemma_admitted_push(rule, earlier, c);
            if mid.kept.len() >= target {
                assert(first_n(passing, target) =~= first_n(passing_mid, target));
            } else {
                assert(first_n(passing_mid, target) =~= passing_mid);
                assert(first_n(passing, target) =~= passing);
            }
        }
    }
}

/// How many candidates may be drawn for each particle that is asked for,
/// unless the caller sets another bound.
pub const ATTEMPTS_PER_PARTICLE: usize = 1_000_000;

/// The customary bound on draws for a request of `num_particles`:
/// `ATTEMPTS_PER_PARTICLE` for each particle, or as many as can be counted
/// where that is less.
pub open spec fn spec_attempt_budget(num_particles: usize) -> usize {
    if num_particles * ATTEMPTS_PER_PARTICLE <= usize::MAX {
        (num_particles * ATTEMPTS_PER_PARTICLE) as usize
    } else {
        usize::MAX
    }
}

/// The customary bound on draws for a request of `num_particles`. It is
/// never below `num_particles`, so that a request under
/// `Acceptance::Always` stays within it.
#[verifier::when_used_as_spec(spec_attempt_budget)]
pub fn attempt_budget(num_particles: usize) -> (budget: usize)
    ensures
        budget == spec_attempt_budget(num_particles),
        budget >= num_particles,
{
    assert(num_particles * ATTEMPTS_PER_PARTICLE >= num_particles) by (nonlinear_arith)
        requires
            ATTEMPTS_PER_PARTICLE >= 1,
    ;
    match num_particles.checked_mul(ATTEMPTS_PER_PARTICLE) {
        Some(budget) => budget,
        None => usize::MAX,
    }
}

/// A rejection sampler that counts its attempts.
///
/// The driver asks for the `action`, draws a candidate while the action is
/// `Draw`, and offers it. The sampler never draws and never tests: it keeps
/// what its rule admits and stops the driver in time.
pub struct Sampler<T> {
    rule: Acceptance,
    target: usize,
    limit: usize,
    attempts: usize,
    kept: Vec<Particle<T>>,
}

impl<T> View for Sampler<T> {
    type V = SamplerState<T>;

    closed spec fn view(&self) -> SamplerState<T> {
        SamplerState {
            rule: self.rule,
            target: self.target as nat,
            limit: self.limit as nat,
            attempts: self.attempts as nat,
            kept: self.kept@,
        }
    }
}

impl<T: Copy> Sampler<T> {
    /// A sampler that wants `target` particles of `shape` and allows `limit`
    /// draws.
    pub fn new(shape: PlateShape, target: usize, limit: usize) -> (sampler: Self)
        ensures
            sampler@ == SamplerState::<T>::fresh(
                shape.spec_acceptance(),
                target as nat,
                limit as nat,
            ),
            sampler@.wf(),
    {
        Sampler { rule: shape.acceptance(), target, limit, attempts: 0, kept: Vec::new() }
    }

    /// What the driver has to do next.
    pub fn action(&self) -> (action: SamplerAction)
        ensures
            action == self@.action(),
    {
        if self.kept.len() >= self.target {
            SamplerAction::Complete
        } else if self.attempts >= self.limit {
            SamplerAction::Exhausted
        } else {
            SamplerAction::Draw
        }
    }

    /// The test that candidates have to pass.
    pub fn rule(&self) -> (rule: Acceptance)
        ensures
            rule == self@.rule,
    {
        self.rule
    }

    /// The number of candidates drawn so far.
    pub fn attempts(&self) -> (n: usize)
        ensures
            n == self@.attempts,
    {
        self.attempts
    }

    /// The number of positions kept so far.
    pub fn kept(&self) -> (n: usize)
        ensures
            n == self@.kept.len(),
    {
        self.kept.len()
    }

    /// Takes one drawn candidate and says what to do next.
    ///
    /// While the sampler asks for a draw, the candidate counts as an attempt
    /// and its position is kept if the rule admits it. A candidate offered to
    /// a sampler that is complete or exhausted is ignored.
    pub fn offer(&mut self, candidate: Candidate<T>) -> (next: SamplerAction)
        ensures
            final(self)@ == old(self)@.offer(candidate),
            next == final(self)@.action(),
            old(self)@.wf() ==> final(self)@.wf(),
    {
        if self.kept.len() < self.target && self.attempts < self.limit {
            self.attempts = self.attempts + 1;
            if self.rule.admits(candidate.inside) {
                self.kept.push(candidate.position);
            }
        }
        self.action()
    }

    /// Hands out the kept positions as a flat buffer, oldest first.
    pub fn into_flat(self) -> (flat: Vec<T>)
        ensures
            flat@ == interleave(self@.kept),
    {
        to_flat(&self.kept)
    }
}

/// Samples `num_particles` initial positions on a plate of `shape` by
/// rejection, within `max_attempts` draws.
///
/// `probe` draws one candidate from the bounding rectangle of the plate and
/// reports the verdict of the test that `shape.acceptance()` names. It is
/// called once per attempt, and no more once enough candidates were admitted.
///
/// The result is `Ok` exactly when the candidates that were drawn hold
/// `num_particles` admitted ones; the last of them is then the last that was
/// drawn, and the buffer holds their positions in the order they were drawn,
/// as interleaved coordinates. Otherwise all `max_attempts` draws were made,
/// fewer than `num_particles` of them were admitted, and the result is
/// `SamplingExceeded`.
///
/// Asking for no particle always succeeds. Under `Acceptance::Always`, and
/// wherever `probe` finds all it draws inside, a request succeeds exactly
/// when `num_particles <= max_attempts`. Where the rule has a test and
/// `probe` finds nothing inside, only the request for no particle succeeds.
pub fn init_particles<T: Copy, F: Fn() -> Candidate<T>>(
    num_particles: usize,
    shape: PlateShape,
    max_attempts: usize,
    probe: F,
) -> (r: Result<Vec<T>, ChladniError>)
    requires
        probe.requires(()),
    ensures
        r matches Ok(flat) ==> exists|draws: Seq<Candidate<T>>|
            {
                &&& forall|i: int| 0 <= i < draws.len() ==> probe.ensures((), #[trigger] draws[i])
                &&& draws.len() <= max_attempts
                &&& admitted(shape.spec_acceptance(), draws).len() == num_particles
                &&& draws.len() > 0 ==> shape.spec_acceptance().spec_admits(draws.last().inside)
                &&& flat@ == interleave(admitted(shape.spec_acceptance(), draws))
            },
        r matches Err(e) ==> e == ChladniError::SamplingExceeded && exists|
            draws: Seq<Candidate<T>>,
        |
            {
                &&& forall|i: int| 0 <= i < draws.len() ==> probe.ensures((), #[trigger] draws[i])
                &&& draws.len() == max_attempts
                &&& admitted(shape.spec_acceptance(), draws).len() < num_particles
            },
        r matches Ok(flat) ==> flat.len() == 2 * num_particles,
        r matches Ok(flat) ==> forall|i: int|
            0 <= i < num_particles ==> exists|c: Candidate<T>|
                probe.ensures((), c) && shape.spec_acceptance().spec_admits(c.inside)
                    && c.position == #[trigger] pair_up(flat@)[i],
        num_particles == 0 ==> r is Ok,
        num_particles > max_attempts ==> r is Err,
        num_particles <= max_attempts && (shape.spec_acceptance() == Acceptance::Always || (
        forall|c: Candidate<T>| probe.ensures((), c) ==> c.inside)) ==> r is Ok,
        num_particles > 0 && shape.spec_acceptance() != Acceptance::Always && (forall|
            c: Candidate<T>,
        |
            probe.ensures((), c) ==> !c.inside) ==> r is Err,
{
    let mut sampler: Sampler<T> = Sampler::new(shape, num_particles, max_attempts);
    let ghost rule = shape.spec_acceptance();
    let ghost mut draws: Seq<Candidate<T>> = Seq::empty();
    let mut next = sampler.action();
    proof {
        lemma_admitted_empty::<T>(rule);
    }
    while next == SamplerAction::Draw
        invariant
            probe.requires(()),
            sampler@.rule == rule,
            sampler@.target == num_particles,
            sampler@.limit == max_attempts,
            sampler@.wf(),
            sampler@.kept == admitted(rule, draws),
            sampler@.attempts == draws.len(),
            next == sampler@.action(),
            forall|i: int| 0 <= i < draws.len() ==> probe.ensures((), #[trigger] draws[i]),
            next == SamplerAction::Complete && draws.len() > 0 ==> rule.spec_admits(
                draws.last().inside,
            ),
        decreases max_attempts - sampler@.attempts,
    {
        let candidate = probe();
        proof {
            lemma_admitted_push(rule, draws, candidate);
            draws = draws.push(candidate);
        }
        next = sampler.offer(candidate);
    }
    proof {
        if rule == Acceptance::Always || (forall|c: Candidate<T>|
            probe.ensures((), c) ==> c.inside) {
            lemma_admitted_all(rule, draws);
        }
        if rule != Acceptance::Always && (forall|c: Candidate<T>|
            probe.ensures((), c) ==> !c.inside) {
            lemma_admitted_none(rule, draws);
        }
    }
    match next {
        SamplerAction::Complete => {
            let flat = sampler.into_flat();
            proof {
                let kept = admitted(rule, draws);
                assert(kept.len() == num_particles);
                assert(flat@ == interleave(kept));
                lemma_pair_up_interleave(kept);
                assert forall|i: int| 0 <= i < num_particles implies exists|c: Candidate<T>|
                    probe.ensures((), c) && rule.spec_admits(c.inside) && c.position
                        == #[trigger] pair_up(flat@)[i] by {
                    lemma_admitted_members(rule, draws, i);
                    let j = choose|j: int|
                        0 <= j < draws.len() && rule.spec_admits((#[trigger] draws[j]).inside)
                            && draws[j].position == kept[i];
                    assert(probe.ensures((), draws[j]));
                }
            }
            Ok(flat)
        },
        _ => {
            proof {
                assert(draws.len() == max_attempts);
                assert(admitted(rule, draws).len() < num_particles);
            }
            Err(ChladniError::SamplingExceeded)
        },
    }
}

} // verus!
