//! What the box and butterfly portfolio keeps from quote to quote.

use vstd::multiset::Multiset;
use vstd::prelude::*;
use crate::exact::{exact, lemma_whole, lemma_whole_value};
use crate::instruments::{
    above_place, slot_place, strike_text_of, strike_value_of, with_strike, LiveModel, SlotModel,
};
use crate::market::{
    spec_contract_size, BoxContext, PosType, PositionModel, StrategyParams, TickData,
};
use crate::ranking::{law_best_of_is_first_best, lemma_best_of_keeps};
use crate::scanner::{
    all_open_strikes, best_box, best_fly, box_counts, box_offer, box_offers, box_offers_from, box_ret,
    BoxOffer, OpenStrike,
};
use crate::trader::{
    after_exits, closed_at, context_turn, contexts_turn, enter_fly, enter_long, enter_short,
    exit_of, exit_phase, holds, lemma_closed_rising, lemma_without_keeps, rising, same_trade,
    setting_at, swap_removed, without, EventModel, PortfolioModel, Setting, Turn,
};

verus! {

// ---- Which positions are left ----

/// The entries at the given places.
pub open spec fn entries_at<T>(list: Seq<T>, places: Seq<int>) -> Multiset<T>
    decreases places.len(),
{
    if places.len() == 0 {
        Multiset::empty()
    } else {
        entries_at(list, places.drop_last()).insert(list[places.last()])
    }
}

proof fn lemma_swap_removed_multiset<T>(list: Seq<T>, i: int)
    requires
        0 <= i < list.len(),
    ensures
        swap_removed(list, i).to_multiset() =~= list.to_multiset().remove(list[i]),
{
    broadcast use vstd::seq_lib::group_to_multiset_ensures;

    let changed = list.update(i, list.last());
    let last = list.len() - 1;
    if i == last {
        assert(changed =~= list);
        assert(swap_removed(list, i) =~= list.remove(last));
    } else {
        assert(changed.to_multiset() =~= list.to_multiset().insert(list.last()).remove(list[i]))
            by {
            vstd::seq_lib::to_multiset_update(list, i, list.last());
        }
        assert(swap_removed(list, i) =~= changed.remove(last));
        assert(changed[last] == list.last());
    }
}

proof fn lemma_entries_same<T>(a: Seq<T>, b: Seq<T>, places: Seq<int>)
    requires
        forall|k: int| 0 <= k < places.len() ==> a[#[trigger] places[k]] == b[places[k]],
    ensures
        entries_at(a, places) == entries_at(b, places),
    decreases places.len(),
{
    if places.len() > 0 {
        let fewer = places.drop_last();
        assert forall|k: int| 0 <= k < fewer.len() implies a[#[trigger] fewer[k]]
            == b[fewer[k]] by {
            assert(a[places[k]] == b[places[k]]);
        }
        lemma_entries_same(a, b, fewer);
        assert(places[places.len() - 1] == places.last());
    }
}

proof fn lemma_without_multiset<T>(list: Seq<T>, places: Seq<int>)
    requires
        rising(places, list.len()),
    ensures
        without(list, places).to_multiset().add(entries_at(list, places)) =~= list.to_multiset(),
    decreases places.len(),
{
    broadcast use vstd::seq_lib::group_to_multiset_ensures;

    if places.len() > 0 {
        let at = places.last();
        assert(places[places.len() - 1] == places.last());
        let next = swap_removed(list, at);
        let fewer = places.drop_last();
        lemma_swap_removed_multiset(list, at);
        assert forall|k: int| 0 <= k < fewer.len() implies 0 <= #[trigger] fewer[k] < next.len() by {
            assert(places[k] < places[places.len() - 1]);
        }
        assert(rising(fewer, next.len()));
        lemma_without_multiset(next, fewer);
        assert forall|k: int| 0 <= k < fewer.len() implies list[#[trigger] fewer[k]]
            == next[fewer[k]] by {
            assert(places[k] < places[places.len() - 1]);
        }
        lemma_entries_same(list, next, fewer);
        assert(list.to_multiset().count(list[at]) > 0) by {
            assert(list.contains(list[at]));
        }
        let kept = without(next, fewer).to_multiset();
        let gone = entries_at(list, fewer);
        assert(kept.add(gone) =~= list.to_multiset().remove(list[at]));
        assert(kept.add(gone.insert(list[at])) =~= kept.add(gone).insert(list[at]));
    }
}

/// Sum of the margins of positions.
pub open spec fn margin_sum<S>(value: spec_fn(S) -> real, positions: Seq<PositionModel<S>>) -> real
    decreases positions.len(),
{
    if positions.len() == 0 {
        0real
    } else {
        margin_sum(value, positions.drop_last()) + value(positions.last().margin_rmb)
    }
}

proof fn lemma_margin_update<S>(
    value: spec_fn(S) -> real,
    positions: Seq<PositionModel<S>>,
    i: int,
    p: PositionModel<S>,
)
    requires
        0 <= i < positions.len(),
    ensures
        margin_sum(value, positions.update(i, p)) == margin_sum(value, positions) - value(
            positions[i].margin_rmb,
        ) + value(p.margin_rmb),
    decreases positions.len(),
{
    let changed = positions.update(i, p);
    if i == positions.len() - 1 {
        assert(changed.drop_last() =~= positions.drop_last());
    } else {
        lemma_margin_update(value, positions.drop_last(), i, p);
        assert(changed.drop_last() =~= positions.drop_last().update(i, p));
    }
}

proof fn lemma_margin_swap_removed<S>(
    value: spec_fn(S) -> real,
    positions: Seq<PositionModel<S>>,
    i: int,
)
    requires
        0 <= i < positions.len(),
    ensures
        margin_sum(value, swap_removed(positions, i)) == margin_sum(value, positions) - value(
            positions[i].margin_rmb,
        ),
{
    lemma_margin_update(value, positions, i, positions.last());
    let changed = positions.update(i, positions.last());
    assert(changed.last() == positions.last());
}

/// Sum of the margins at the given places.
spec fn margins_at<S>(
    value: spec_fn(S) -> real,
    positions: Seq<PositionModel<S>>,
    places: Seq<int>,
) -> real
    decreases places.len(),
{
    if places.len() == 0 {
        0real
    } else {
        margins_at(value, positions, places.drop_last()) + value(
            positions[places.last()].margin_rmb,
        )
    }
}

proof fn lemma_margins_same<S>(
    value: spec_fn(S) -> real,
    a: Seq<PositionModel<S>>,
    b: Seq<PositionModel<S>>,
    places: Seq<int>,
)
    requires
        forall|k: int| 0 <= k < places.len() ==> a[#[trigger] places[k]] == b[places[k]],
    ensures
        margins_at(value, a, places) == margins_at(value, b, places),
    decreases places.len(),
{
    if places.len() > 0 {
        let fewer = places.drop_last();
        assert forall|k: int| 0 <= k < fewer.len() implies a[#[trigger] fewer[k]]
            == b[fewer[k]] by {
            assert(a[places[k]] == b[places[k]]);
        }
        lemma_margins_same(value, a, b, fewer);
        assert(places[places.len() - 1] == places.last());
    }
}

proof fn lemma_margin_without<S>(
    value: spec_fn(S) -> real,
    positions: Seq<PositionModel<S>>,
    places: Seq<int>,
)
    requires
        rising(places, positions.len()),
    ensures
        margin_sum(value, without(positions, places)) == margin_sum(value, positions) - margins_at(
            value,
            positions,
            places,
        ),
    decreases places.len(),
{
    if places.len() > 0 {
        let at = places.last();
        assert(places[places.len() - 1] == places.last());
        let next = swap_removed(positions, at);
        let fewer = places.drop_last();
        lemma_margin_swap_removed(value, positions, at);
        assert forall|k: int| 0 <= k < fewer.len() implies 0 <= #[trigger] fewer[k] < next.len() by {
            assert(places[k] < places[places.len() - 1]);
        }
        assert(rising(fewer, next.len()));
        lemma_margin_without(value, next, fewer);
        assert forall|k: int| 0 <= k < fewer.len() implies positions[#[trigger] fewer[k]]
            == next[fewer[k]] by {
            assert(places[k] < places[places.len() - 1]);
        }
        lemma_margins_same(value, positions, next, fewer);
    }
}

// ---- Margin ----

/// Long boxes lock no margin.
pub open spec fn long_boxes_unmargined<S>(
    value: spec_fn(S) -> real,
    positions: Seq<PositionModel<S>>,
) -> bool {
    forall|n: int|
        0 <= n < positions.len() && (#[trigger] positions[n]).pos_type == PosType::LongBox
            ==> value(positions[n].margin_rmb) == 0real
}

/// The locked margin is the sum of the margins of the open positions, and long boxes lock
/// none.
pub open spec fn margin_kept<S>(value: spec_fn(S) -> real, book: PortfolioModel<S>) -> bool {
    &&& value(book.margin) == margin_sum(value, book.positions)
    &&& long_boxes_unmargined(value, book.positions)
}

proof fn lemma_exits_margin<S: crate::number::Quantity>(
    value: spec_fn(S) -> real,
    turn: Turn<S>,
    s: Setting<S>,
    n: nat,
)
    requires
        exact(value),
        n <= turn.book.positions.len(),
        margin_kept(value, turn.book),
    ensures
        value(after_exits(turn, s, n).book.margin) == value(turn.book.margin) - margins_at(
            value,
            turn.book.positions,
            closed_at(s, turn.book.positions, n),
        ),
        after_exits(turn, s, n).book.positions == turn.book.positions,
    decreases n,
{
    if n > 0 {
        lemma_exits_margin(value, turn, s, (n - 1) as nat);
        let positions = turn.book.positions;
        let before = closed_at(s, positions, (n - 1) as nat);
        if exit_of(s, positions[n - 1]) is Some {
            assert(closed_at(s, positions, n).drop_last() =~= before);
            assert(positions[n - 1].pos_type == PosType::LongBox ==> value(
                positions[n - 1].margin_rmb,
            ) == 0real);
        }
    }
}

proof fn lemma_exit_phase_margin<S: crate::number::Quantity>(
    value: spec_fn(S) -> real,
    turn: Turn<S>,
    s: Setting<S>,
)
    requires
        exact(value),
        margin_kept(value, turn.book),
    ensures
        margin_kept(value, exit_phase(turn, s).book),
{
    let positions = turn.book.positions;
    let places = closed_at(s, positions, positions.len());
    lemma_closed_rising(s, positions, positions.len());
    lemma_exits_margin(value, turn, s, positions.len());
    lemma_margin_without(value, positions, places);
    let good = |p: PositionModel<S>|
        p.pos_type == PosType::LongBox ==> value(p.margin_rmb) == 0real;
    assert forall|n: int| 0 <= n < positions.len() implies good(#[trigger] positions[n]) by {}
    lemma_without_keeps(positions, places, good);
    let left = without(positions, places);
    assert forall|n: int|
        0 <= n < left.len() && (#[trigger] left[n]).pos_type == PosType::LongBox implies value(
        left[n].margin_rmb,
    ) == 0real by {
        assert(good(left[n]));
    }
}

proof fn lemma_margin_push<S>(
    value: spec_fn(S) -> real,
    book: PortfolioModel<S>,
    p: PositionModel<S>,
)
    requires
        margin_kept(value, book),
        p.pos_type == PosType::LongBox ==> value(p.margin_rmb) == 0real,
    ensures
        margin_sum(value, book.positions.push(p)) == value(book.margin) + value(p.margin_rmb),
        long_boxes_unmargined(value, book.positions.push(p)),
{
    let all = book.positions.push(p);
    assert(all.drop_last() =~= book.positions);
    assert forall|n: int|
        0 <= n < all.len() && (#[trigger] all[n]).pos_type == PosType::LongBox implies value(
        all[n].margin_rmb,
    ) == 0real by {
        if n < book.positions.len() {
            assert(all[n] == book.positions[n]);
        }
    }
}

/// Working on a context keeps the locked margin equal to what the open positions lock.
pub proof fn law_locked_margin_is_kept<S: crate::number::Quantity>(
    value: spec_fn(S) -> real,
    turn: Turn<S>,
    s: Setting<S>,
)
    requires
        exact(value),
        margin_kept(value, turn.book),
    ensures
        margin_kept(value, context_turn(turn, s).book),
{
    lemma_whole_value(value, 0);
    lemma_exit_phase_margin(value, turn, s);
    let t0 = exit_phase(turn, s);
    let t1 = enter_long(t0, s);
    if t1.book.positions.len() > t0.book.positions.len() {
        lemma_margin_push(value, t0.book, t1.book.positions.last());
        assert(t1.book.positions =~= t0.book.positions.push(t1.book.positions.last()));
    }
    assert(margin_kept(value, t1.book));
    let t2 = enter_short(t1, s);
    if t2.book.positions.len() > t1.book.positions.len() {
        lemma_margin_push(value, t1.book, t2.book.positions.last());
        assert(t2.book.positions =~= t1.book.positions.push(t2.book.positions.last()));
    }
    assert(margin_kept(value, t2.book));
    let t3 = enter_fly(t2, s);
    if t3.book.positions.len() > t2.book.positions.len() {
        lemma_margin_push(value, t2.book, t3.book.positions.last());
        assert(t3.book.positions =~= t2.book.positions.push(t3.book.positions.last()));
    }
}

// ---- Exits ----

/// The positions that are left, and those that were closed, are all that there were.
pub proof fn law_exits_part_positions<S: crate::number::Quantity>(turn: Turn<S>, s: Setting<S>)
    ensures
        ({
            let before = turn.book.positions;
            let closed = entries_at(before, closed_at(s, before, before.len()));
            exit_phase(turn, s).book.positions.to_multiset().add(closed) == before.to_multiset()
        }),
{
    let before = turn.book.positions;
    lemma_closed_rising(s, before, before.len());
    lemma_without_multiset(before, closed_at(s, before, before.len()));
}

// ---- Entries ----

/// No two positions are the same trade.
pub open spec fn no_trade_twice<S>(positions: Seq<PositionModel<S>>) -> bool {
    forall|m: int, n: int|
        0 <= m < n < positions.len() ==> !same_trade(
            #[trigger] positions[m],
            (#[trigger] positions[n]).ctx_idx,
            positions[n].pos_type,
            positions[n].strike_i,
            positions[n].strike_j,
            Some(positions[n].strike_k),
        )
}

proof fn lemma_no_trade_twice_push<S>(
    positions: Seq<PositionModel<S>>,
    p: PositionModel<S>,
    k: Option<usize>,
)
    requires
        no_trade_twice(positions),
        !holds(positions, p.ctx_idx, p.pos_type, p.strike_i, p.strike_j, k),
        k is Some ==> k == Some(p.strike_k),
    ensures
        no_trade_twice(positions.push(p)),
{
    let all = positions.push(p);
    assert forall|m: int, n: int| 0 <= m < n < all.len() implies !same_trade(
        #[trigger] all[m],
        (#[trigger] all[n]).ctx_idx,
        all[n].pos_type,
        all[n].strike_i,
        all[n].strike_j,
        Some(all[n].strike_k),
    ) by {
        assert(all[m] == positions[m]);
        if n < positions.len() {
            assert(all[n] == positions[n]);
        } else {
            assert(!same_trade(positions[m], p.ctx_idx, p.pos_type, p.strike_i, p.strike_j, k));
        }
    }
}

proof fn lemma_no_trade_twice_swap_removed<S>(positions: Seq<PositionModel<S>>, i: int)
    requires
        no_trade_twice(positions),
        0 <= i < positions.len(),
    ensures
        no_trade_twice(swap_removed(positions, i)),
{
    let left = swap_removed(positions, i);
    let last = positions.len() - 1;
    assert forall|m: int, n: int| 0 <= m < n < left.len() implies !same_trade(
        #[trigger] left[m],
        (#[trigger] left[n]).ctx_idx,
        left[n].pos_type,
        left[n].strike_i,
        left[n].strike_j,
        Some(left[n].strike_k),
    ) by {
        let a = if m == i {
            last
        } else {
            m
        };
        let b = if n == i {
            last
        } else {
            n
        };
        assert(left[m] == positions[a] && left[n] == positions[b]);
        if a < b {
            assert(!same_trade(
                positions[a],
                positions[b].ctx_idx,
                positions[b].pos_type,
                positions[b].strike_i,
                positions[b].strike_j,
                Some(positions[b].strike_k),
            ));
        } else {
            assert(!same_trade(
                positions[b],
                positions[a].ctx_idx,
                positions[a].pos_type,
                positions[a].strike_i,
                positions[a].strike_j,
                Some(positions[a].strike_k),
            ));
        }
    }
}

proof fn lemma_no_trade_twice_without<S>(
    positions: Seq<PositionModel<S>>,
    places: Seq<int>,
)
    requires
        no_trade_twice(positions),
        rising(places, positions.len()),
    ensures
        no_trade_twice(without(positions, places)),
    decreases places.len(),
{
    if places.len() > 0 {
        let at = places.last();
        assert(places[places.len() - 1] == places.last());
        let next = swap_removed(positions, at);
        let fewer = places.drop_last();
        lemma_no_trade_twice_swap_removed(positions, at);
        assert forall|k: int| 0 <= k < fewer.len() implies 0 <= #[trigger] fewer[k] < next.len() by {
            assert(places[k] < places[places.len() - 1]);
        }
        assert(rising(fewer, next.len()));
        lemma_no_trade_twice_without(next, fewer);
    }
}

/// Boxes name no third strike.
pub open spec fn boxes_have_two_strikes<S>(positions: Seq<PositionModel<S>>) -> bool {
    forall|n: int|
        0 <= n < positions.len() && ((#[trigger] positions[n]).pos_type == PosType::LongBox
            || positions[n].pos_type == PosType::ShortBox) ==> positions[n].strike_k == 0
}

/// Working on a context never opens a trade that is already open.
pub proof fn law_no_trade_is_opened_twice<S: crate::number::Quantity>(turn: Turn<S>, s: Setting<S>)
    requires
        no_trade_twice(turn.book.positions),
        boxes_have_two_strikes(turn.book.positions),
    ensures
        no_trade_twice(context_turn(turn, s).book.positions),
        boxes_have_two_strikes(context_turn(turn, s).book.positions),
{
    let positions = turn.book.positions;
    let places = closed_at(s, positions, positions.len());
    lemma_closed_rising(s, positions, positions.len());
    lemma_no_trade_twice_without(positions, places);
    let good = |p: PositionModel<S>|
        p.pos_type == PosType::LongBox || p.pos_type == PosType::ShortBox ==> p.strike_k == 0;
    assert forall|n: int| 0 <= n < positions.len() implies good(#[trigger] positions[n]) by {}
    lemma_without_keeps(positions, places, good);
    let t0 = exit_phase(turn, s);
    assert(boxes_have_two_strikes(t0.book.positions)) by {
        assert forall|n: int| 0 <= n < t0.book.positions.len() implies good(
            #[trigger] t0.book.positions[n],
        ) by {}
    }
    let t1 = enter_long(t0, s);
    if t1.book.positions.len() > t0.book.positions.len() {
        let p = t1.book.positions.last();
        lemma_no_trade_twice_push(t0.book.positions, p, None);
        assert(t1.book.positions =~= t0.book.positions.push(p));
    }
    assert(boxes_have_two_strikes(t1.book.positions));
    let t2 = enter_short(t1, s);
    if t2.book.positions.len() > t1.book.positions.len() {
        let p = t2.book.positions.last();
        lemma_no_trade_twice_push(t1.book.positions, p, None);
        assert(t2.book.positions =~= t1.book.positions.push(p));
    }
    assert(boxes_have_two_strikes(t2.book.positions));
    let t3 = enter_fly(t2, s);
    if t3.book.positions.len() > t2.book.positions.len() {
        let p = t3.book.positions.last();
        lemma_no_trade_twice_push(t2.book.positions, p, Some(p.strike_k));
        assert(t3.book.positions =~= t2.book.positions.push(p));
    }
}

// ---- Events ----

/// Whether an event says that a position was opened.
pub open spec fn opens<S>(e: EventModel<S>) -> bool {
    match e {
        EventModel::Exit { .. } => false,
        EventModel::EntryLong { is_new, .. } => is_new,
        EventModel::EntryShort { is_new, .. } => is_new,
        EventModel::EntryButterfly { is_new, .. } => is_new,
    }
}

/// How many positions the events say were opened.
pub open spec fn opened_in<S>(events: Seq<EventModel<S>>) -> int
    decreases events.len(),
{
    if events.len() == 0 {
        0
    } else {
        opened_in(events.drop_last()) + if opens(events.last()) {
            1int
        } else {
            0int
        }
    }
}

/// How many positions the events say were closed.
pub open spec fn closed_in<S>(events: Seq<EventModel<S>>) -> int
    decreases events.len(),
{
    if events.len() == 0 {
        0
    } else {
        closed_in(events.drop_last()) + if events.last() is Exit {
            1int
        } else {
            0int
        }
    }
}

/// Whether a position is the one that an event says was opened at a time.
pub open spec fn opened_by<S>(p: PositionModel<S>, e: EventModel<S>, now: i64) -> bool {
    &&& p.entry_ts == now
    &&& match e {
        EventModel::Exit { .. } => false,
        EventModel::EntryLong { ctx_idx, strike_i, strike_j, .. } => same_trade(
            p,
            ctx_idx,
            PosType::LongBox,
            strike_i,
            strike_j,
            None,
        ),
        EventModel::EntryShort { ctx_idx, strike_i, strike_j, .. } => same_trade(
            p,
            ctx_idx,
            PosType::ShortBox,
            strike_i,
            strike_j,
            None,
        ),
        EventModel::EntryButterfly { ctx_idx, flavor, strike_i, strike_j, strike_k, .. } => same_trade(
            p,
            ctx_idx,
            flavor.spec_pos_type(),
            strike_i,
            strike_j,
            Some(strike_k),
        ),
    }
}

/// Whether the position that an event says was opened is there.
pub open spec fn is_there<S>(positions: Seq<PositionModel<S>>, e: EventModel<S>, now: i64) -> bool {
    exists|n: int| 0 <= n < positions.len() && opened_by(#[trigger] positions[n], e, now)
}

/// Every position that the events say was opened is there.
pub open spec fn all_there<S>(turn: Turn<S>, now: i64) -> bool {
    forall|k: int|
        0 <= k < turn.events.len() && opens(#[trigger] turn.events[k]) ==> is_there(
            turn.book.positions,
            turn.events[k],
            now,
        )
}

/// The positions that there are, less those that were opened, with those that were closed.
pub open spec fn before_events<S>(turn: Turn<S>) -> int {
    turn.book.positions.len() - opened_in(turn.events) + closed_in(turn.events)
}

proof fn lemma_without_len<T>(list: Seq<T>, places: Seq<int>)
    requires
        rising(places, list.len()),
    ensures
        without(list, places).len() == list.len() - places.len(),
    decreases places.len(),
{
    if places.len() > 0 {
        let at = places.last();
        assert(places[places.len() - 1] == at);
        let next = swap_removed(list, at);
        let fewer = places.drop_last();
        assert forall|k: int| 0 <= k < fewer.len() implies 0 <= #[trigger] fewer[k] < next.len() by {
            assert(places[k] < places[places.len() - 1]);
        }
        lemma_without_len(next, fewer);
    }
}

/// An entry that is not taken out is still there.
proof fn lemma_without_retains<T>(list: Seq<T>, places: Seq<int>, i: int)
    requires
        rising(places, list.len()),
        0 <= i < list.len(),
        !places.contains(i),
    ensures
        exists|m: int|
            0 <= m < without(list, places).len() && #[trigger] without(list, places)[m] == list[i],
    decreases places.len(),
{
    if places.len() > 0 {
        let at = places.last();
        assert(places[places.len() - 1] == at);
        let next = swap_removed(list, at);
        let fewer = places.drop_last();
        assert forall|k: int| 0 <= k < fewer.len() implies 0 <= #[trigger] fewer[k] < next.len() by {
            assert(places[k] < places[places.len() - 1]);
        }
        let here = if i == list.len() - 1 {
            at
        } else {
            i
        };
        assert(i != at);
        assert(!fewer.contains(here)) by {
            if fewer.contains(here) {
                let k = choose|k: int| 0 <= k < fewer.len() && fewer[k] == here;
                assert(places[k] < places[places.len() - 1]);
                assert(places[k] == here);
            }
        }
        assert(next[here] == list[i]);
        lemma_without_retains(next, fewer, here);
        assert(without(list, places) == without(next, fewer));
        let m = choose|m: int|
            0 <= m < without(next, fewer).len() && #[trigger] without(next, fewer)[m] == next[here];
        assert(without(list, places)[m] == list[i]);
    } else {
        assert(without(list, places)[i] == list[i]);
    }
}

proof fn lemma_closed_are_exits<S: crate::number::Quantity>(
    s: Setting<S>,
    positions: Seq<PositionModel<S>>,
    n: nat,
)
    requires
        n <= positions.len(),
    ensures
        forall|k: int|
            0 <= k < closed_at(s, positions, n).len() ==> exit_of(
                s,
                positions[#[trigger] closed_at(s, positions, n)[k]],
            ) is Some,
    decreases n,
{
    if n > 0 {
        lemma_closed_are_exits(s, positions, (n - 1) as nat);
        let before = closed_at(s, positions, (n - 1) as nat);
        let now = closed_at(s, positions, n);
        assert forall|k: int| 0 <= k < now.len() implies exit_of(
            s,
            positions[#[trigger] now[k]],
        ) is Some by {
            if k < before.len() {
                assert(now[k] == before[k]);
            }
        }
    }
}

proof fn lemma_exit_events<S: crate::number::Quantity>(turn: Turn<S>, s: Setting<S>, n: nat)
    requires
        n <= turn.book.positions.len(),
    ensures
        ({
            let done = after_exits(turn, s, n);
            &&& done.book.positions == turn.book.positions
            &&& opened_in(done.events) == opened_in(turn.events)
            &&& closed_in(done.events) == closed_in(turn.events) + closed_at(
                s,
                turn.book.positions,
                n,
            ).len()
            &&& done.events.len() >= turn.events.len()
            &&& forall|k: int|
                0 <= k < turn.events.len() ==> #[trigger] done.events[k] == turn.events[k]
            &&& forall|k: int|
                turn.events.len() <= k < done.events.len() ==> (#[trigger] done.events[k]) is Exit
        }),
    decreases n,
{
    if n > 0 {
        lemma_exit_events(turn, s, (n - 1) as nat);
        let before = after_exits(turn, s, (n - 1) as nat);
        let done = after_exits(turn, s, n);
        if exit_of(s, turn.book.positions[n - 1]) is Some {
            assert(done.events.drop_last() =~= before.events);
        }
    }
}

proof fn lemma_there_after_push<S>(
    positions: Seq<PositionModel<S>>,
    p: PositionModel<S>,
    e: EventModel<S>,
    now: i64,
)
    ensures
        is_there(positions, e, now) ==> is_there(positions.push(p), e, now),
        opened_by(p, e, now) ==> is_there(positions.push(p), e, now),
{
    let all = positions.push(p);
    if is_there(positions, e, now) {
        let n = choose|n: int| 0 <= n < positions.len() && opened_by(#[trigger] positions[n], e, now);
        assert(opened_by(all[n], e, now));
    }
    if opened_by(p, e, now) {
        assert(opened_by(all[positions.len() as int], e, now));
    }
}

/// One step of entering: an event at most, and a position just where the event says so.
spec fn is_entry<S>(before: Turn<S>, after: Turn<S>, now: i64) -> bool {
    ||| after.events == before.events && after.book.positions == before.book.positions
    ||| {
        let e = after.events.last();
        &&& after.events == before.events.push(e)
        &&& !(e is Exit)
        &&& if opens(e) {
            let p = after.book.positions.last();
            after.book.positions == before.book.positions.push(p) && opened_by(p, e, now)
        } else {
            after.book.positions == before.book.positions
        }
    }
}

proof fn lemma_entry_keeps<S>(before: Turn<S>, after: Turn<S>, now: i64)
    requires
        is_entry(before, after, now),
        all_there(before, now),
    ensures
        all_there(after, now),
        before_events(after) == before_events(before),
{
    if after.events != before.events {
        let e = after.events.last();
        let p = after.book.positions.last();
        assert(after.events.drop_last() =~= before.events);
        assert forall|k: int|
            0 <= k < after.events.len() && opens(#[trigger] after.events[k]) implies is_there(
            after.book.positions,
            after.events[k],
            now,
        ) by {
            if k < before.events.len() {
                assert(after.events[k] == before.events[k]);
            }
            if opens(e) {
                lemma_there_after_push(before.book.positions, p, after.events[k], now);
            }
        }
    }
}

proof fn lemma_exit_phase_counts<S: crate::number::Quantity>(turn: Turn<S>, s: Setting<S>)
    requires
        all_there(turn, s.now),
    ensures
        all_there(exit_phase(turn, s), s.now),
        before_events(exit_phase(turn, s)) == before_events(turn),
{
    let positions = turn.book.positions;
    let places = closed_at(s, positions, positions.len());
    lemma_closed_rising(s, positions, positions.len());
    lemma_closed_are_exits(s, positions, positions.len());
    lemma_exit_events(turn, s, positions.len());
    lemma_without_len(positions, places);
    let done = exit_phase(turn, s);
    let left = done.book.positions;
    assert forall|k: int|
        0 <= k < done.events.len() && opens(#[trigger] done.events[k]) implies is_there(
        left,
        done.events[k],
        s.now,
    ) by {
        assert(k < turn.events.len());
        let e = turn.events[k];
        assert(done.events[k] == e);
        assert(is_there(positions, e, s.now));
        let n = choose|n: int|
            0 <= n < positions.len() && opened_by(#[trigger] positions[n], e, s.now);
        assert(!places.contains(n)) by {
            if places.contains(n) {
                let j = choose|j: int| 0 <= j < places.len() && places[j] == n;
                assert(exit_of(s, positions[places[j]]) is Some);
            }
        }
        lemma_without_retains(positions, places, n);
        let m = choose|m: int| 0 <= m < left.len() && #[trigger] left[m] == positions[n];
        assert(opened_by(left[m], e, s.now));
    }
}

/// Working on a context adds just the positions that its events say were opened, each of which
/// is then there, and takes out just as many as they say were closed.
pub proof fn law_events_tell_positions<S: crate::number::Quantity>(turn: Turn<S>, s: Setting<S>)
    requires
        all_there(turn, s.now),
    ensures
        all_there(context_turn(turn, s), s.now),
        before_events(context_turn(turn, s)) == before_events(turn),
{
    lemma_exit_phase_counts(turn, s);
    let t0 = exit_phase(turn, s);
    if s.ctx.dte > 5 {
        let t1 = enter_long(t0, s);
        assert(is_entry(t0, t1, s.now));
        lemma_entry_keeps(t0, t1, s.now);
        let t2 = enter_short(t1, s);
        assert(is_entry(t1, t2, s.now));
        lemma_entry_keeps(t1, t2, s.now);
        let t3 = enter_fly(t2, s);
        assert(is_entry(t2, t3, s.now));
        lemma_entry_keeps(t2, t3, s.now);
    }
}

/// Where no position was opened, cash, margin and positions are as they were.
pub open spec fn moved_if_opened<S>(before: Turn<S>, after: Turn<S>) -> bool {
    ||| after.events.len() > before.events.len() && opens(after.events.last())
    ||| {
        &&& after.book.cash == before.book.cash
        &&& after.book.margin == before.book.margin
        &&& after.book.positions == before.book.positions
    }
}

/// An entry that is only signalled moves no cash and no margin and opens nothing.
pub proof fn law_signal_alone_moves_nothing<S: crate::number::Quantity>(
    turn: Turn<S>,
    s: Setting<S>,
)
    ensures
        moved_if_opened(turn, enter_long(turn, s)),
        moved_if_opened(turn, enter_short(turn, s)),
        moved_if_opened(turn, enter_fly(turn, s)),
{
}

// ---- Cash and margin ----

/// What an event adds to cash and margin together: the value of a long box that was closed,
/// less that of a short one; for a position that was opened, what it brought, less what it
/// cost.
pub open spec fn worth_of<S>(value: spec_fn(S) -> real, e: EventModel<S>) -> real {
    match e {
        EventModel::Exit { pos_type, value: price, .. } => if pos_type == PosType::LongBox {
            10_000real * value(price)
        } else {
            -(10_000real * value(price))
        },
        EventModel::EntryLong { cost, is_new, .. } => if is_new {
            -(10_000real * value(cost))
        } else {
            0real
        },
        EventModel::EntryShort { gain, is_new, .. } => if is_new {
            10_000real * value(gain)
        } else {
            0real
        },
        EventModel::EntryButterfly { profit, is_new, .. } => if is_new {
            10_000real * value(profit)
        } else {
            0real
        },
    }
}

/// What events add to cash and margin together.
pub open spec fn worth_in<S>(value: spec_fn(S) -> real, events: Seq<EventModel<S>>) -> real
    decreases events.len(),
{
    if events.len() == 0 {
        0real
    } else {
        worth_in(value, events.drop_last()) + worth_of(value, events.last())
    }
}

/// Cash and margin, less what the events added.
pub open spec fn funds_before<S>(value: spec_fn(S) -> real, turn: Turn<S>) -> real {
    value(turn.book.cash) + value(turn.book.margin) - worth_in(value, turn.events)
}

proof fn lemma_contract_size<S: crate::number::Quantity>(value: spec_fn(S) -> real, price: S)
    requires
        exact(value),
    ensures
        value(price * spec_contract_size::<S>()) == 10_000real * value(price),
{
    lemma_whole_value(value, 10_000);
    lemma_product_swap(value(price), 10_000real);
}

proof fn lemma_product_swap(a: real, b: real)
    by (nonlinear_arith)
    ensures
        a * b == b * a,
{
}

proof fn lemma_exits_funds<S: crate::number::Quantity>(
    value: spec_fn(S) -> real,
    turn: Turn<S>,
    s: Setting<S>,
    n: nat,
)
    requires
        exact(value),
        n <= turn.book.positions.len(),
    ensures
        funds_before(value, after_exits(turn, s, n)) == funds_before(value, turn),
    decreases n,
{
    if n > 0 {
        lemma_exits_funds(value, turn, s, (n - 1) as nat);
        let before = after_exits(turn, s, (n - 1) as nat);
        let done = after_exits(turn, s, n);
        if let Some(exit) = exit_of(s, turn.book.positions[n - 1]) {
            assert(done.events.drop_last() =~= before.events);
            lemma_contract_size(value, exit.value);
        }
    }
}

/// Working on a context changes cash and margin together by what its events tell.
pub proof fn law_events_tell_funds<S: crate::number::Quantity>(
    value: spec_fn(S) -> real,
    turn: Turn<S>,
    s: Setting<S>,
)
    requires
        exact(value),
    ensures
        funds_before(value, context_turn(turn, s)) == funds_before(value, turn),
{
    lemma_exits_funds(value, turn, s, turn.book.positions.len());
    let t0 = exit_phase(turn, s);
    assert(funds_before(value, t0) == funds_before(value, turn));
    if s.ctx.dte > 5 {
        let t1 = enter_long(t0, s);
        if let Some(o) = best_box(true, s.ctx, s.quotes, s.now, s.params.min_return) {
            lemma_contract_size(value, o.outlay);
            if t1.events != t0.events {
                assert(t1.events.drop_last() =~= t0.events);
            }
        }
        assert(funds_before(value, t1) == funds_before(value, t0));
        let t2 = enter_short(t1, s);
        if let Some(o) = best_box(false, s.ctx, s.quotes, s.now, s.params.min_return) {
            lemma_contract_size(value, o.proceeds);
            if t2.events != t1.events {
                assert(t2.events.drop_last() =~= t1.events);
            }
        }
        assert(funds_before(value, t2) == funds_before(value, t1));
        let t3 = enter_fly(t2, s);
        if let Some(o) = best_fly(s.ctx, s.quotes, s.now, s.params.min_return_butterfly) {
            lemma_contract_size(value, o.profit);
            if t3.events != t2.events {
                assert(t3.events.drop_last() =~= t2.events);
            }
        }
        assert(funds_before(value, t3) == funds_before(value, t2));
    }
}

// ---- A whole quote ----

/// Taking in a quote, which works on a list of contexts, opens no trade that is already open;
/// it adds just the positions that its events say were opened, each of which is then there,
/// and takes out just as many as they say were closed.
pub proof fn law_update_keeps_positions_sound<S: crate::number::Quantity>(
    book: PortfolioModel<S>,
    list: Seq<usize>,
    n: nat,
    contexts: Seq<BoxContext<S>>,
    quotes: Map<Seq<char>, TickData<S>>,
    params: StrategyParams<S>,
    now: i64,
    time: Seq<char>,
)
    ensures
        ({
            let start = Turn { book, events: Seq::empty() };
            let done = contexts_turn(start, list, n, contexts, quotes, params, now, time);
            &&& no_trade_twice(book.positions) && boxes_have_two_strikes(book.positions)
                ==> no_trade_twice(done.book.positions) && boxes_have_two_strikes(
                done.book.positions,
            )
            &&& all_there(done, now)
            &&& done.book.positions.len() == book.positions.len() + opened_in(done.events)
                - closed_in(done.events)
        }),
    decreases n,
{
    let start = Turn { book, events: Seq::empty() };
    if n > 0 {
        let m = (n - 1) as nat;
        law_update_keeps_positions_sound(book, list, m, contexts, quotes, params, now, time);
        let before = contexts_turn(start, list, m, contexts, quotes, params, now, time);
        let s = setting_at(list, n - 1, contexts, quotes, params, now, time);
        if no_trade_twice(book.positions) && boxes_have_two_strikes(book.positions) {
            law_no_trade_is_opened_twice(before, s);
        }
        law_events_tell_positions(before, s);
    }
}

/// Taking in a quote, in exact arithmetic, keeps the locked margin equal to what the open
/// positions lock, and changes cash and margin together by what its events tell.
pub proof fn law_update_keeps_funds_sound<S: crate::number::Quantity>(
    value: spec_fn(S) -> real,
    book: PortfolioModel<S>,
    list: Seq<usize>,
    n: nat,
    contexts: Seq<BoxContext<S>>,
    quotes: Map<Seq<char>, TickData<S>>,
    params: StrategyParams<S>,
    now: i64,
    time: Seq<char>,
)
    requires
        exact(value),
    ensures
        ({
            let start = Turn { book, events: Seq::empty() };
            let done = contexts_turn(start, list, n, contexts, quotes, params, now, time);
            &&& margin_kept(value, book) ==> margin_kept(value, done.book)
            &&& value(done.book.cash) + value(done.book.margin) == value(book.cash) + value(
                book.margin,
            ) + worth_in(value, done.events)
        }),
    decreases n,
{
    let start = Turn { book, events: Seq::empty() };
    if n > 0 {
        let m = (n - 1) as nat;
        law_update_keeps_funds_sound(value, book, list, m, contexts, quotes, params, now, time);
        let before = contexts_turn(start, list, m, contexts, quotes, params, now, time);
        let s = setting_at(list, n - 1, contexts, quotes, params, now, time);
        if margin_kept(value, book) {
            law_locked_margin_is_kept(value, before, s);
        }
        law_events_tell_funds(value, before, s);
    }
}

/// An offer is what its strikes offer, and it counts.
spec fn is_offer(long: bool, strikes: Seq<real>, o: BoxOffer<real>) -> bool {
    box_counts(long, strikes, o.lo, o.hi) && o == box_offer(long, strikes, o.lo, o.hi)
}

proof fn lemma_offers_from(
    long: bool,
    strikes: Seq<real>,
    open: Seq<OpenStrike<real>>,
    a: int,
    b: int,
)
    ensures
        forall|k: int|
            0 <= k < box_offers_from(long, strikes, open, a, b).len() ==> is_offer(
                long,
                strikes,
                #[trigger] box_offers_from(long, strikes, open, a, b)[k],
            ),
    decreases b,
{
    if b <= a + 1 || b <= 0 {
    } else {
        lemma_offers_from(long, strikes, open, a, b - 1);
        let rest = box_offers_from(long, strikes, open, a, b - 1);
        let all = box_offers_from(long, strikes, open, a, b);
        assert forall|k: int| 0 <= k < all.len() implies is_offer(
            long,
            strikes,
            #[trigger] all[k],
        ) by {
            if k < rest.len() {
                assert(all[k] == rest[k]);
            }
        }
    }
}

proof fn lemma_offers(long: bool, strikes: Seq<real>, open: Seq<OpenStrike<real>>, a: int)
    ensures
        forall|k: int|
            0 <= k < box_offers(long, strikes, open, a).len() ==> is_offer(
                long,
                strikes,
                #[trigger] box_offers(long, strikes, open, a)[k],
            ),
    decreases a,
{
    if a > 0 {
        lemma_offers(long, strikes, open, a - 1);
        lemma_offers_from(long, strikes, open, a - 1, open.len() as int);
        let rest = box_offers(long, strikes, open, a - 1);
        let more = box_offers_from(long, strikes, open, a - 1, open.len() as int);
        let all = box_offers(long, strikes, open, a);
        assert forall|k: int| 0 <= k < all.len() implies is_offer(
            long,
            strikes,
            #[trigger] all[k],
        ) by {
            if k < rest.len() {
                assert(all[k] == rest[k]);
            } else {
                assert(all[k] == more[k - rest.len()]);
            }
        }
    }
}

proof fn lemma_quotient(a: real, b: real)
    by (nonlinear_arith)
    requires
        b != 0real,
    ensures
        (a / b) * b == a,
{
}

proof fn lemma_above(floor: real, ret: real, cost: real)
    by (nonlinear_arith)
    requires
        floor < ret,
        0real < cost,
    ensures
        floor * cost < ret * cost,
{
}

/// A long box that is chosen pays its cost back with more than the smallest return on it,
/// whatever the spot price at expiry.
pub proof fn law_long_box_beats_threshold(
    ctx: BoxContext<real>,
    quotes: Map<Seq<char>, TickData<real>>,
    now: i64,
    floor: real,
)
    ensures
        best_box(true, ctx, quotes, now, floor) matches Some(o) ==> {
            &&& 0real < o.outlay
            &&& o.proceeds == ctx.strikes@[o.hi.index as int] - ctx.strikes@[o.lo.index as int]
            &&& o.proceeds - o.outlay > floor * o.outlay
        },
{
    lemma_whole(0);
    crate::exact::law_reals_strictly_ordered();
    let open = all_open_strikes(ctx, quotes, now);
    let offers = box_offers(true, ctx.strikes@, open, open.len() as int);
    lemma_offers(true, ctx.strikes@, open, open.len() as int);
    lemma_best_of_keeps(
        offers,
        box_ret(),
        floor,
        |o: BoxOffer<real>| is_offer(true, ctx.strikes@, o),
    );
    law_best_of_is_first_best(offers, box_ret(), floor);
    if let Some(o) = best_box(true, ctx, quotes, now, floor) {
        assert(floor < o.ret);
        lemma_quotient(o.proceeds - o.outlay, o.outlay);
        lemma_above(floor, o.ret, o.outlay);
    }
}

// ---- Contexts ----

/// The strikes of a group do not fall.
pub open spec fn slots_ascend(list: Seq<SlotModel<real>>) -> bool {
    forall|i: int, j: int|
        0 <= i < j < list.len() ==> (#[trigger] list[i]).value <= (#[trigger] list[j]).value
}

proof fn lemma_above_place(list: Seq<SlotModel<real>>, value: real, from: int)
    requires
        0 <= from <= list.len(),
    ensures
        from <= above_place(list, value, from) <= list.len(),
        forall|i: int|
            from <= i < above_place(list, value, from) ==> (#[trigger] list[i]).value <= value,
        above_place(list, value, from) < list.len() ==> value < list[above_place(
            list,
            value,
            from,
        )].value,
    decreases list.len() - from,
{
    if from < list.len() && list[from].value <= value {
        lemma_above_place(list, value, from + 1);
    }
}

proof fn lemma_slot_place(list: Seq<SlotModel<real>>, text: Seq<char>, from: int)
    requires
        0 <= from <= list.len(),
    ensures
        from <= slot_place(list, text, from) <= list.len(),
    decreases list.len() - from,
{
    if from < list.len() && list[from].text != text {
        lemma_slot_place(list, text, from + 1);
    }
}

/// Filing an option keeps the strikes of a group in ascending order.
pub proof fn law_strikes_stay_ascending(list: Seq<SlotModel<real>>, o: LiveModel<real>)
    requires
        slots_ascend(list),
    ensures
        with_strike(list, o) matches Some(next) ==> slots_ascend(next),
{
    if let Some(next) = with_strike(list, o) {
        let at = slot_place(list, strike_text_of(o), 0);
        lemma_slot_place(list, strike_text_of(o), 0);
        if at < list.len() {
            assert forall|i: int, j: int| 0 <= i < j < next.len() implies (
            #[trigger] next[i]).value <= (#[trigger] next[j]).value by {
                assert(next[i].value == list[i].value && next[j].value == list[j].value);
            }
        } else {
            let value = strike_value_of(o)->0;
            lemma_above_place(list, value, 0);
            let place = above_place(list, value, 0);
            assert(next[place].value == value);
            assert forall|i: int, j: int| 0 <= i < j < next.len() implies (
            #[trigger] next[i]).value <= (#[trigger] next[j]).value by {
                if i < place {
                    assert(next[i] == list[i]);
                } else if i > place {
                    assert(next[i] == list[i - 1]);
                }
                if j < place {
                    assert(next[j] == list[j]);
                } else if j > place {
                    assert(next[j] == list[j - 1]);
                    if place < list.len() {
                        assert(list[place].value <= list[j - 1].value || place == j - 1);
                    }
                }
            }
        }
    }
}

} // verus!
