//! What holds of the simulation, of the swarm search and of the reports in exact arithmetic.

use vstd::prelude::*;
use crate::calendar::in_session;
use crate::exact::{exact, lemma_whole_value, pow10, real_decimal};
use crate::market::StrategyParams;
use crate::optimizer::{
    close_at, final_value, has_kind, settle_all, settle_last, sim_enter_fly, sim_enter_long, sim_enter_short,
    sim_entries, sim_exit, sim_exits, sim_tick, sim_ticks, tick_quote, tick_setting,
    Dataset, IndexedCtx, IndexedTick, Sim, SimKind, SimSetting, SimplePos,
};
use crate::report::{in_order, place_above};
use crate::swarm::{highest, lowest, moved, swarm_after, BestModel, ParticleModel};
use crate::trader::swap_removed;

verus! {

// ---- The simulation ----

/// Sum of the margins of simulated positions.
pub open spec fn sim_margin_sum<S>(
    value: spec_fn(S) -> real,
    positions: Seq<SimplePos<S>>,
) -> real
    decreases positions.len(),
{
    if positions.len() == 0 {
        0real
    } else {
        sim_margin_sum(value, positions.drop_last()) + value(positions.last().margin_rmb)
    }
}

/// The locked margin is what the positions lock, long boxes lock none, and there is at most one
/// position of each kind.
pub open spec fn sim_sound<S>(value: spec_fn(S) -> real, sim: Sim<S>) -> bool {
    &&& value(sim.margin) == sim_margin_sum(value, sim.positions)
    &&& forall|n: int|
        0 <= n < sim.positions.len() && (#[trigger] sim.positions[n]).kind == SimKind::LongBox
            ==> value(sim.positions[n].margin_rmb) == 0real
    &&& forall|m: int, n: int|
        0 <= m < n < sim.positions.len() ==> (#[trigger] sim.positions[m]).kind != (
        #[trigger] sim.positions[n]).kind
}

proof fn lemma_sum_update<S>(
    value: spec_fn(S) -> real,
    positions: Seq<SimplePos<S>>,
    i: int,
    p: SimplePos<S>,
)
    requires
        0 <= i < positions.len(),
    ensures
        sim_margin_sum(value, positions.update(i, p)) == sim_margin_sum(value, positions)
            - value(positions[i].margin_rmb) + value(p.margin_rmb),
    decreases positions.len(),
{
    let changed = positions.update(i, p);
    if i == positions.len() - 1 {
        assert(changed.drop_last() =~= positions.drop_last());
    } else {
        lemma_sum_update(value, positions.drop_last(), i, p);
        assert(changed.drop_last() =~= positions.drop_last().update(i, p));
    }
}

proof fn lemma_close_at<S: crate::number::Quantity>(
    value: spec_fn(S) -> real,
    sim: Sim<S>,
    i: int,
    price: S,
)
    requires
        exact(value),
        sim_sound(value, sim),
        0 <= i < sim.positions.len(),
    ensures
        sim_sound(value, close_at(sim, i, price)),
{
    let before = sim.positions;
    let last = before.len() - 1;
    lemma_sum_update(value, before, i, before.last());
    let changed = before.update(i, before.last());
    assert(changed.last() == before.last());
    let left = swap_removed(before, i);
    assert forall|n: int| 0 <= n < left.len() implies left[n] == before[if n == i {
        last
    } else {
        n
    }] by {}
    assert forall|n: int|
        0 <= n < left.len() && (#[trigger] left[n]).kind == SimKind::LongBox implies value(
        left[n].margin_rmb,
    ) == 0real by {
        assert(left[n] == before[if n == i {
            last
        } else {
            n
        }]);
    }
    assert forall|m: int, n: int| 0 <= m < n < left.len() implies (#[trigger] left[m]).kind != (
    #[trigger] left[n]).kind by {
        let a = if m == i {
            last
        } else {
            m
        };
        let b = if n == i {
            last
        } else {
            n
        };
        assert(left[m] == before[a] && left[n] == before[b]);
        if a < b {
            assert(before[a].kind != before[b].kind);
        } else {
            assert(before[b].kind != before[a].kind);
        }
    }
}

proof fn lemma_exits<S: crate::number::Quantity>(
    value: spec_fn(S) -> real,
    sim: Sim<S>,
    s: SimSetting<S>,
    i: int,
)
    requires
        exact(value),
        sim_sound(value, sim),
    ensures
        sim_sound(value, sim_exits(sim, s, i)),
    decreases sim.positions.len() - i,
{
    if 0 <= i < sim.positions.len() {
        match sim_exit(s, sim.quotes, sim.positions[i]) {
            Some(price) => {
                lemma_close_at(value, sim, i, price);
                lemma_exits(value, close_at(sim, i, price), s, i);
            },
            None => {
                lemma_exits(value, sim, s, i + 1);
            },
        }
    }
}

proof fn lemma_settle<S: crate::number::Quantity>(value: spec_fn(S) -> real, sim: Sim<S>)
    requires
        exact(value),
        sim_sound(value, sim),
    ensures
        sim_sound(value, settle_all(sim)),
        settle_all(sim).positions.len() == 0,
    decreases sim.positions.len(),
{
    if sim.positions.len() > 0 {
        let next = settle_last(sim);
        let last = sim.positions[sim.positions.len() - 1];
        assert(last == sim.positions.last());
        assert forall|n: int|
            0 <= n < next.positions.len() && (#[trigger] next.positions[n]).kind
                == SimKind::LongBox implies value(next.positions[n].margin_rmb) == 0real by {
            assert(next.positions[n] == sim.positions[n]);
        }
        assert forall|m: int, n: int| 0 <= m < n < next.positions.len() implies (
        #[trigger] next.positions[m]).kind != (#[trigger] next.positions[n]).kind by {
            assert(sim.positions[m].kind != sim.positions[n].kind);
        }
        lemma_settle(value, next);
    }
}

proof fn lemma_push<S: crate::number::Quantity>(
    value: spec_fn(S) -> real,
    sim: Sim<S>,
    p: SimplePos<S>,
    after: Sim<S>,
)
    requires
        exact(value),
        sim_sound(value, sim),
        !has_kind(sim.positions, p.kind),
        p.kind == SimKind::LongBox ==> value(p.margin_rmb) == 0real,
        after.positions == sim.positions.push(p),
        value(after.margin) == value(sim.margin) + value(p.margin_rmb),
    ensures
        sim_sound(value, after),
{
    let all = sim.positions.push(p);
    assert(all.drop_last() =~= sim.positions);
    assert forall|n: int|
        0 <= n < all.len() && (#[trigger] all[n]).kind == SimKind::LongBox implies value(
        all[n].margin_rmb,
    ) == 0real by {
        if n < sim.positions.len() {
            assert(all[n] == sim.positions[n]);
        }
    }
    assert forall|m: int, n: int| 0 <= m < n < all.len() implies (#[trigger] all[m]).kind != (
    #[trigger] all[n]).kind by {
        assert(all[m] == sim.positions[m]);
        if n < sim.positions.len() {
            assert(all[n] == sim.positions[n]);
        }
    }
}

proof fn lemma_entries<S: crate::number::Quantity>(
    value: spec_fn(S) -> real,
    sim: Sim<S>,
    s: SimSetting<S>,
)
    requires
        exact(value),
        sim_sound(value, sim),
    ensures
        sim_sound(value, sim_entries(sim, s)),
{
    lemma_whole_value(value, 0);
    let a = sim_enter_long(sim, s);
    if a.positions.len() > sim.positions.len() {
        lemma_push(value, sim, a.positions.last(), a);
    }
    assert(sim_sound(value, a));
    let b = sim_enter_short(a, s);
    if b.positions.len() > a.positions.len() {
        lemma_push(value, a, b.positions.last(), b);
    }
    assert(sim_sound(value, b));
    let c = sim_enter_fly(b, s);
    if c.positions.len() > b.positions.len() {
        lemma_push(value, b, c.positions.last(), c);
    }
}

/// A tick of the simulation keeps the locked margin equal to what the positions lock, and at most
/// one position of each kind.
pub proof fn law_simulation_stays_sound<S: crate::number::Quantity>(
    value: spec_fn(S) -> real,
    sim: Sim<S>,
    ctx: IndexedCtx<S>,
    params: StrategyParams<S>,
    t: IndexedTick<S>,
)
    requires
        exact(value),
        sim_sound(value, sim),
    ensures
        sim_sound(value, sim_tick(sim, ctx, params, t)),
{
    let s = tick_setting(ctx, params, t);
    let begun = Sim {
        quotes: sim.quotes.update(t.oid_idx as int, tick_quote(t)),
        last_ts: t.timestamp,
        ..sim
    };
    assert(sim_sound(value, begun));
    lemma_settle(value, begun);
    let settled = if t.dte == 0 {
        settle_all(begun)
    } else {
        begun
    };
    lemma_exits(value, settled, s, 0);
    lemma_entries(value, sim_exits(settled, s, 0), s);
}

/// The whole simulation keeps them.
pub proof fn law_whole_simulation_sound<S: crate::number::Quantity>(
    value: spec_fn(S) -> real,
    data: Dataset<S>,
    params: StrategyParams<S>,
    n: nat,
)
    requires
        exact(value),
        n <= data.ticks@.len(),
    ensures
        sim_sound(value, sim_ticks(data, params, n)),
    decreases n,
{
    lemma_whole_value(value, 0);
    if n > 0 {
        law_whole_simulation_sound(value, data, params, (n - 1) as nat);
        law_simulation_stays_sound(
            value,
            sim_ticks(data, params, (n - 1) as nat),
            data.ctx,
            params,
            data.ticks@[n - 1],
        );
    }
}

/// What a simulation is worth: cash and margin, and the open positions at their payout.
pub open spec fn worth<S: crate::number::Quantity>(value: spec_fn(S) -> real, sim: Sim<S>) -> real {
    value(final_value(sim, sim.positions.len()))
}

proof fn lemma_worth_of_first<S: crate::number::Quantity>(
    value: spec_fn(S) -> real,
    a: Sim<S>,
    b: Sim<S>,
    n: nat,
)
    requires
        exact(value),
        n <= a.positions.len(),
        n <= b.positions.len(),
        forall|k: int| 0 <= k < n ==> a.positions[k] == #[trigger] b.positions[k],
    ensures
        value(final_value(b, n)) - value(final_value(a, n)) == value(b.cash) + value(b.margin)
            - value(a.cash) - value(a.margin),
    decreases n,
{
    if n > 0 {
        lemma_worth_of_first(value, a, b, (n - 1) as nat);
        assert(a.positions[n - 1] == b.positions[n - 1]);
    }
}

/// Settling the open positions at maturity changes nothing of what the simulation is worth, and
/// leaves none open.
pub proof fn law_settling_keeps_worth<S: crate::number::Quantity>(
    value: spec_fn(S) -> real,
    sim: Sim<S>,
)
    requires
        exact(value),
    ensures
        worth(value, settle_all(sim)) == worth(value, sim),
        settle_all(sim).positions.len() == 0,
    decreases sim.positions.len(),
{
    if sim.positions.len() > 0 {
        let next = settle_last(sim);
        lemma_worth_of_first(value, sim, next, next.positions.len());
        assert(sim.positions[sim.positions.len() - 1] == sim.positions.last());
        law_settling_keeps_worth(value, next);
    }
}

proof fn lemma_close_keeps_time<S: crate::number::Quantity>(sim: Sim<S>, s: SimSetting<S>, i: int)
    ensures
        sim_exits(sim, s, i).last_ts == sim.last_ts,
    decreases sim.positions.len() - i,
{
    if 0 <= i < sim.positions.len() {
        match sim_exit(s, sim.quotes, sim.positions[i]) {
            Some(price) => {
                lemma_close_keeps_time(close_at(sim, i, price), s, i);
            },
            None => {
                lemma_close_keeps_time(sim, s, i + 1);
            },
        }
    }
}

proof fn lemma_settle_keeps_time<S: crate::number::Quantity>(sim: Sim<S>)
    ensures
        settle_all(sim).last_ts == sim.last_ts,
    decreases sim.positions.len(),
{
    if sim.positions.len() > 0 {
        lemma_settle_keeps_time(settle_last(sim));
    }
}

/// The time of the simulation is that of one of its ticks, or nothing.
proof fn lemma_time<S: crate::number::Quantity>(
    data: Dataset<S>,
    params: StrategyParams<S>,
    n: nat,
    later: i64,
)
    requires
        n <= data.ticks@.len(),
        later > 0,
        forall|k: int| 0 <= k < n ==> (#[trigger] data.ticks@[k]).timestamp < later,
    ensures
        sim_ticks(data, params, n).last_ts < later,
    decreases n,
{
    if n > 0 {
        lemma_time(data, params, (n - 1) as nat, later);
        let sim = sim_ticks(data, params, (n - 1) as nat);
        let t = data.ticks@[n - 1];
        let s = tick_setting(data.ctx, params, t);
        let begun = Sim {
            quotes: sim.quotes.update(t.oid_idx as int, tick_quote(t)),
            last_ts: t.timestamp,
            ..sim
        };
        lemma_settle_keeps_time(begun);
        let settled = if t.dte == 0 {
            settle_all(begun)
        } else {
            begun
        };
        lemma_close_keeps_time(settled, s, 0);
    }
}

proof fn lemma_same_start<S: crate::number::Quantity>(
    data: Dataset<S>,
    longer: Dataset<S>,
    params: StrategyParams<S>,
    n: nat,
)
    requires
        n <= data.ticks@.len() <= longer.ticks@.len(),
        longer.ctx == data.ctx,
        longer.num_oids == data.num_oids,
        forall|k: int| 0 <= k < n ==> longer.ticks@[k] == #[trigger] data.ticks@[k],
    ensures
        sim_ticks(longer, params, n) == sim_ticks(data, params, n),
    decreases n,
{
    if n > 0 {
        lemma_same_start(data, longer, params, (n - 1) as nat);
        assert(longer.ticks@[n - 1] == data.ticks@[n - 1]);
    }
}

/// A last tick at maturity, which settles the open positions, changes nothing of what the whole
/// simulation is worth: no position is counted twice and none is lost.
pub proof fn law_settling_at_the_end_changes_nothing<S: crate::number::Quantity>(
    value: spec_fn(S) -> real,
    data: Dataset<S>,
    longer: Dataset<S>,
    t: IndexedTick<S>,
    params: StrategyParams<S>,
)
    requires
        exact(value),
        longer.ctx == data.ctx,
        longer.num_oids == data.num_oids,
        longer.ticks@ == data.ticks@.push(t),
        t.dte == 0,
        in_session(t.timestamp as int),
        t.timestamp > 0,
        forall|k: int|
            0 <= k < data.ticks@.len() ==> (#[trigger] data.ticks@[k]).timestamp < t.timestamp,
    ensures
        worth(value, sim_ticks(longer, params, longer.ticks@.len())) == worth(
            value,
            sim_ticks(data, params, data.ticks@.len()),
        ),
{
    let n = data.ticks@.len();
    lemma_same_start(data, longer, params, n);
    lemma_time(data, params, n, t.timestamp);
    let sim = sim_ticks(data, params, n);
    let begun = Sim {
        quotes: sim.quotes.update(t.oid_idx as int, tick_quote(t)),
        last_ts: t.timestamp,
        ..sim
    };
    assert(longer.ticks@[n as int] == t);
    assert(sim_ticks(longer, params, n + 1) == sim_tick(sim, data.ctx, params, t));
    law_settling_keeps_worth(value, begun);
    lemma_worth_of_first(value, sim, begun, sim.positions.len());
    let s = tick_setting(data.ctx, params, t);
    assert(sim_exits(settle_all(begun), s, 0) == settle_all(begun));
}

// ---- The swarm ----

proof fn lemma_bounds(j: int)
    ensures
        lowest::<real>(j) <= highest::<real>(j),
{
    reveal_with_fuel(pow10, 4);
    assert(pow10(3) == 1000);
    assert(pow10(2) == 100);
    assert(real_decimal(5, 3) == (5int as real) / (1000int as real));
    assert(real_decimal(15, 2) == (15int as real) / (100int as real));
    assert(real_decimal(2, 2) == (2int as real) / (100int as real));
    assert(real_decimal(20, 2) == (20int as real) / (100int as real));
    assert(real_decimal(1, 2) == (1int as real) / (100int as real));
    assert(real_decimal(10, 2) == (10int as real) / (100int as real));
}

/// A particle that has moved lies within the bounds, and its best score has not fallen.
pub proof fn law_particle_stays_in_bounds(
    p: ParticleModel<real>,
    score: real,
    all: Seq<real>,
    draws: Seq<(real, real)>,
    j: int,
)
    requires
        0 <= j < 3,
    ensures
        lowest::<real>(j) <= moved(p, score, all, draws).position[j] <= highest::<real>(j),
        p.best_score <= moved(p, score, all, draws).best_score,
        score <= moved(p, score, all, draws).best_score,
{
    lemma_bounds(j);
}

/// The best score of all never falls, and is at least every score that was seen.
pub proof fn law_swarm_best_never_falls(
    particles: Seq<ParticleModel<real>>,
    best: BestModel<real>,
    scores: Seq<real>,
    draws: Seq<[(real, real); 3]>,
    n: nat,
)
    requires
        n <= scores.len(),
    ensures
        best.score <= swarm_after(particles, best, scores, draws, n).1.score,
        forall|i: int|
            0 <= i < n ==> #[trigger] scores[i] <= swarm_after(
                particles,
                best,
                scores,
                draws,
                n,
            ).1.score,
    decreases n,
{
    if n > 0 {
        law_swarm_best_never_falls(particles, best, scores, draws, (n - 1) as nat);
    }
}

// ---- Reports ----

proof fn lemma_place_above(list: Seq<real>, v: real, from: int)
    requires
        0 <= from <= list.len(),
    ensures
        from <= place_above(list, v, from) <= list.len(),
        forall|i: int| from <= i < place_above(list, v, from) ==> #[trigger] list[i] <= v,
        place_above(list, v, from) < list.len() ==> v < list[place_above(list, v, from)],
    decreases list.len() - from,
{
    if from < list.len() && list[from] <= v {
        lemma_place_above(list, v, from + 1);
    }
}

/// Values put in order do not fall, and are the same values.
pub proof fn law_in_order_sorts(list: Seq<real>, n: nat)
    requires
        n <= list.len(),
    ensures
        forall|i: int, j: int|
            0 <= i < j < in_order(list, n).len() ==> #[trigger] in_order(list, n)[i]
                <= #[trigger] in_order(list, n)[j],
        in_order(list, n).to_multiset() == list.take(n as int).to_multiset(),
        in_order(list, n).len() == n,
    decreases n,
{
    broadcast use vstd::seq_lib::group_to_multiset_ensures;

    if n == 0 {
        assert(list.take(0) =~= in_order(list, 0));
    } else {
        let m = (n - 1) as nat;
        law_in_order_sorts(list, m);
        let rest = in_order(list, m);
        let v = list[n - 1];
        let at = place_above(rest, v, 0);
        lemma_place_above(rest, v, 0);
        let all = in_order(list, n);
        assert(all == rest.insert(at, v));
        assert forall|i: int, j: int| 0 <= i < j < all.len() implies #[trigger] all[i]
            <= #[trigger] all[j] by {
            if i < at {
                assert(all[i] == rest[i]);
            } else if i > at {
                assert(all[i] == rest[i - 1]);
            }
            if j < at {
                assert(all[j] == rest[j]);
            } else if j > at {
                assert(all[j] == rest[j - 1]);
                if at < rest.len() && at < j - 1 {
                    assert(rest[at] <= rest[j - 1]);
                }
            }
        }
        assert(list.take(n as int) =~= list.take(m as int).push(v));
        assert(all.to_multiset() =~= rest.to_multiset().insert(v)) by {
            assert(all.remove(at) =~= rest);
            assert(all[at] == v);
            assert(all.to_multiset().remove(v) =~= rest.to_multiset());
            assert(all.contains(v));
        }
    }
}

} // verus!
