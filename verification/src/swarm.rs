//! Particle swarm search for the thresholds of the strategy.

use vstd::prelude::*;
use crate::market::StrategyParams;
use crate::number::{dec, Number, Quantity};

verus! {

/// A point in the space of thresholds, on the move.
#[derive(Debug, Clone, Copy)]
pub struct Particle<S> {
    pub position: [S; 3],
    pub velocity: [S; 3],
    pub best_position: [S; 3],
    pub best_score: S,
}

/// What a [`Particle`] holds.
pub ghost struct ParticleModel<S> {
    pub position: Seq<S>,
    pub velocity: Seq<S>,
    pub best_position: Seq<S>,
    pub best_score: S,
}

impl<S> View for Particle<S> {
    type V = ParticleModel<S>;

    open spec fn view(&self) -> ParticleModel<S> {
        ParticleModel {
            position: self.position@,
            velocity: self.velocity@,
            best_position: self.best_position@,
            best_score: self.best_score,
        }
    }
}

/// The lowest value of a threshold: smallest return, that of a butterfly, and that of an exit.
pub open spec fn lowest<S: Quantity>(j: int) -> S {
    if j == 0 {
        dec::<S>(5, 3)
    } else if j == 1 {
        dec::<S>(2, 2)
    } else {
        dec::<S>(1, 2)
    }
}

/// The highest value of a threshold.
pub open spec fn highest<S: Quantity>(j: int) -> S {
    if j == 0 {
        dec::<S>(15, 2)
    } else if j == 1 {
        dec::<S>(20, 2)
    } else {
        dec::<S>(10, 2)
    }
}

/// The lowest values of the thresholds.
pub fn bounds_min<S: Number>() -> (r: [S; 3])
    ensures
        r@ == seq![lowest::<S>(0), lowest::<S>(1), lowest::<S>(2)],
{
    let r = [S::decimal(5, 3), S::decimal(2, 2), S::decimal(1, 2)];
    assert(r@ =~= seq![lowest::<S>(0), lowest::<S>(1), lowest::<S>(2)]);
    r
}

/// The highest values of the thresholds.
pub fn bounds_max<S: Number>() -> (r: [S; 3])
    ensures
        r@ == seq![highest::<S>(0), highest::<S>(1), highest::<S>(2)],
{
    let r = [S::decimal(15, 2), S::decimal(20, 2), S::decimal(10, 2)];
    assert(r@ =~= seq![highest::<S>(0), highest::<S>(1), highest::<S>(2)]);
    r
}

/// A value held between two others.
pub open spec fn held_between<S: Quantity>(v: S, low: S, high: S) -> S {
    if v < low {
        low
    } else if high < v {
        high
    } else {
        v
    }
}

/// The thresholds that a position stands for. That of butterflies is fixed.
pub fn params_at<S: Number>(position: &[S; 3]) -> (r: StrategyParams<S>)
    ensures
        r == (StrategyParams {
            min_return: position@[0],
            min_return_butterfly: dec::<S>(1, 1),
            min_exit_return: position@[2],
        }),
{
    StrategyParams {
        min_return: position[0],
        min_return_butterfly: S::decimal(1, 1),
        min_exit_return: position[2],
    }
}

/// A particle at rest, with no score yet.
pub fn resting<S: Number>(position: [S; 3]) -> (r: Particle<S>)
    ensures
        r.position == position,
        r.best_position == position,
        r.velocity@ == seq![dec::<S>(0, 0), dec::<S>(0, 0), dec::<S>(0, 0)],
        r.best_score == dec::<S>(-1, 0),
{
    let nothing = S::decimal(0, 0);
    let velocity = [nothing, nothing, nothing];
    assert(velocity@ =~= seq![dec::<S>(0, 0), dec::<S>(0, 0), dec::<S>(0, 0)]);
    Particle { position, velocity, best_position: position, best_score: S::decimal(-1, 0) }
}

/// The velocity in one direction: half of what it was, drawn to the best place of the particle
/// and of all, as strongly as chance has it.
pub open spec fn next_velocity<S: Quantity>(v: S, x: S, own: S, all: S, r1: S, r2: S) -> S {
    dec::<S>(5, 1) * v + dec::<S>(15, 1) * r1 * (own - x) + dec::<S>(15, 1) * r2 * (all - x)
}

/// The best score of all and where it was found.
pub ghost struct BestModel<S> {
    pub position: Seq<S>,
    pub score: S,
}

/// The best of all after the score of a particle is known.
pub open spec fn with_score<S: Quantity>(best: BestModel<S>, position: Seq<S>, score: S) -> BestModel<
    S,
> {
    if best.score < score {
        BestModel { position, score }
    } else {
        best
    }
}

/// A particle after a step: it remembers its place if the score is its best, then moves within
/// the bounds.
pub open spec fn moved<S: Quantity>(
    p: ParticleModel<S>,
    score: S,
    all: Seq<S>,
    draws: Seq<(S, S)>,
) -> ParticleModel<S> {
    let (own, own_score) = if p.best_score < score {
        (p.position, score)
    } else {
        (p.best_position, p.best_score)
    };
    let velocity = Seq::new(
        3,
        |j: int|
            next_velocity(p.velocity[j], p.position[j], own[j], all[j], draws[j].0, draws[j].1),
    );
    ParticleModel {
        position: Seq::new(
            3,
            |j: int| held_between(p.position[j] + velocity[j], lowest::<S>(j), highest::<S>(j)),
        ),
        velocity,
        best_position: own,
        best_score: own_score,
    }
}

/// The particles and the best of all after the first `n` particles have made their step.
pub open spec fn swarm_after<S: Quantity>(
    particles: Seq<ParticleModel<S>>,
    best: BestModel<S>,
    scores: Seq<S>,
    draws: Seq<[(S, S); 3]>,
    n: nat,
) -> (Seq<ParticleModel<S>>, BestModel<S>)
    decreases n,
{
    if n == 0 {
        (Seq::empty(), best)
    } else {
        let (rest, before) = swarm_after(particles, best, scores, draws, (n - 1) as nat);
        let now = with_score(before, particles[n - 1].position, scores[n - 1]);
        (rest.push(moved(particles[n - 1], scores[n - 1], now.position, draws[n - 1]@)), now)
    }
}

/// A swarm of particles.
#[derive(Debug)]
pub struct Swarm<S> {
    pub particles: Vec<Particle<S>>,
    pub best_position: [S; 3],
    pub best_score: S,
}

/// What a list of particles holds.
pub open spec fn particle_models<S>(list: Seq<Particle<S>>) -> Seq<ParticleModel<S>> {
    list.map_values(|p: Particle<S>| p@)
}

fn hold<S: Number>(v: S, low: S, high: S) -> (r: S)
    ensures
        r == held_between(v, low, high),
{
    if v.lt(low) {
        low
    } else if high.lt(v) {
        high
    } else {
        v
    }
}

fn turn<S: Number>(v: S, x: S, own: S, all: S, draw: (S, S)) -> (r: S)
    ensures
        r == next_velocity(v, x, own, all, draw.0, draw.1),
{
    let pull = S::decimal(15, 1);
    S::decimal(5, 1).times(v).plus(pull.times(draw.0).times(own.minus(x))).plus(
        pull.times(draw.1).times(all.minus(x)),
    )
}

fn step<S: Number>(p: &Particle<S>, score: S, all: &[S; 3], draws: &[(S, S); 3]) -> (r: Particle<
    S,
>)
    ensures
        r@ == moved(p@, score, all@, draws@),
{
    let (own, own_score) = if p.best_score.lt(score) {
        (p.position, score)
    } else {
        (p.best_position, p.best_score)
    };
    let (low, high) = (bounds_min::<S>(), bounds_max::<S>());
    let v0 = turn(p.velocity[0], p.position[0], own[0], all[0], draws[0]);
    let v1 = turn(p.velocity[1], p.position[1], own[1], all[1], draws[1]);
    let v2 = turn(p.velocity[2], p.position[2], own[2], all[2], draws[2]);
    let r = Particle {
        position: [
            hold(p.position[0].plus(v0), low[0], high[0]),
            hold(p.position[1].plus(v1), low[1], high[1]),
            hold(p.position[2].plus(v2), low[2], high[2]),
        ],
        velocity: [v0, v1, v2],
        best_position: own,
        best_score: own_score,
    };
    let ghost model = moved(p@, score, all@, draws@);
    assert(r@.velocity =~= model.velocity);
    assert(r@.position =~= model.position);
    r
}

impl<S: Number> Swarm<S> {
    /// Moves every particle by one step, given the score of each and the chance draws of each
    /// direction.
    pub fn advance(&mut self, scores: &Vec<S>, draws: &Vec<[(S, S); 3]>)
        requires
            scores@.len() == old(self).particles@.len(),
            draws@.len() == old(self).particles@.len(),
        ensures
            (
                particle_models(final(self).particles@),
                (BestModel { position: final(self).best_position@, score: final(self).best_score }),
            ) == swarm_after(
                particle_models(old(self).particles@),
                BestModel { position: old(self).best_position@, score: old(self).best_score },
                scores@,
                draws@,
                scores@.len(),
            ),
    {
        let ghost models = particle_models(self.particles@);
        let ghost start = BestModel { position: self.best_position@, score: self.best_score };
        let n = self.particles.len();
        let mut next: Vec<Particle<S>> = Vec::with_capacity(n);
        let mut best_position = self.best_position;
        let mut best_score = self.best_score;
        assert(particle_models(next@) =~= Seq::empty());
        let mut i: usize = 0;
        while i < n
            invariant
                i <= n,
                n == self.particles@.len(),
                scores@.len() == n,
                draws@.len() == n,
                models == particle_models(self.particles@),
                (
                    particle_models(next@),
                    (BestModel { position: best_position@, score: best_score }),
                ) == swarm_after(models, start, scores@, draws@, i as nat),
            decreases n - i,
        {
            let p = &self.particles[i];
            assert(models[i as int] == p@);
            let score = scores[i];
            if best_score.lt(score) {
                best_score = score;
                best_position = p.position;
            }
            let q = step(p, score, &best_position, &draws[i]);
            let ghost before = next@;
            let ghost model = q@;
            next.push(q);
            assert(particle_models(next@) =~= particle_models(before).push(model));
            i = i + 1;
        }
        self.particles = next;
        self.best_position = best_position;
        self.best_score = best_score;
    }
}

} // verus!
