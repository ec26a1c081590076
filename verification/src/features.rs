//! The price history of contracts, the running state of the surface, and the feature
//! records with their forward returns.

use vstd::prelude::*;
use vstd::string::*;
use crate::activation::{
    execution_gap, extract_candidate_features, is_candidate, put_indicator, FeatureVector,
};
use crate::calendar::{moment_of_date, parse_date, whole_seconds, Moment, SECOND_NANOS};
use crate::calibration::CalibrationSurface;
use crate::ingestion::{OptionGrid, OptionTick};
use crate::number::{zero, Analytic, Number, Quantity};
use crate::structures::{strike_micro, strike_micro_of};

verus! {

// ---- Contracts ----

/// What tells contracts apart.
#[derive(Debug, Clone)]
pub struct ContractKey {
    pub option_type: char,
    pub strike_micro: u64,
    pub expiry: String,
}

/// What a [`ContractKey`] holds.
pub ghost struct KeyModel {
    pub option_type: char,
    pub strike_micro: u64,
    pub expiry: Seq<char>,
}

impl View for ContractKey {
    type V = KeyModel;

    open spec fn view(&self) -> KeyModel {
        KeyModel {
            option_type: self.option_type,
            strike_micro: self.strike_micro,
            expiry: self.expiry@,
        }
    }
}

/// The key of the contract of a tick.
pub open spec fn key_of<S: Quantity>(tick: OptionTick<S>) -> KeyModel {
    KeyModel {
        option_type: tick.option_type,
        strike_micro: strike_micro_of(tick.strike),
        expiry: tick.expiry@,
    }
}

impl ContractKey {
    /// The key of the contract of a tick.
    pub fn from_tick<S: Number>(tick: &OptionTick<S>) -> (r: Self)
        ensures
            r@ == key_of(*tick),
    {
        ContractKey {
            option_type: tick.option_type,
            strike_micro: strike_micro(tick.strike),
            expiry: tick.expiry.clone(),
        }
    }

    /// Whether two keys are of the same contract.
    pub fn same(&self, other: &ContractKey) -> (r: bool)
        ensures
            r == (self@ == other@),
    {
        self.option_type == other.option_type && self.strike_micro == other.strike_micro
            && self.expiry == other.expiry
    }
}

/// A quote that counts: liquid, with a positive mid price.
pub open spec fn is_priced<S: Quantity>(tick: OptionTick<S>) -> bool {
    tick.is_liquid && !tick.mid.spec_is_nan() && zero::<S>() < tick.mid
}

/// Whether a quote counts: liquid, with a positive mid price.
pub fn has_price<S: Number>(tick: &OptionTick<S>) -> (r: bool)
    ensures
        r == is_priced(*tick),
{
    tick.is_liquid && !tick.mid.is_nan() && S::decimal(0, 0).lt(tick.mid)
}

// ---- Price history ----

/// The mid prices of a contract with their times, in the order of the ticks.
pub open spec fn prices_of<S: Quantity>(
    ticks: Seq<OptionTick<S>>,
    key: KeyModel,
    n: nat,
) -> Seq<(Moment, S)>
    decreases n,
{
    if n == 0 {
        Seq::empty()
    } else {
        let rest = prices_of(ticks, key, (n - 1) as nat);
        let tick = ticks[n - 1];
        match moment_of_date(tick.date@) {
            Some((day, second, nano)) => if is_priced(tick) && key_of(tick) == key {
                rest.push((Moment { day, second, nano }, tick.mid))
            } else {
                rest
            },
            None => rest,
        }
    }
}

/// The prices of all contracts over time.
#[verifier::reject_recursive_types(S)]
pub struct PriceHistory<S> {
    keys: Vec<ContractKey>,
    series: Vec<Vec<(Moment, S)>>,
}

/// The place of a key in a list, or its length.
spec fn place_of(keys: Seq<ContractKey>, key: KeyModel, from: int) -> int
    decreases keys.len() - from,
{
    if from >= keys.len() {
        keys.len() as int
    } else if keys[from]@ == key {
        from
    } else {
        place_of(keys, key, from + 1)
    }
}

proof fn lemma_place_of(keys: Seq<ContractKey>, key: KeyModel, from: int)
    requires
        0 <= from <= keys.len(),
    ensures
        from <= place_of(keys, key, from) <= keys.len(),
        place_of(keys, key, from) < keys.len() ==> keys[place_of(keys, key, from)]@ == key,
        forall|i: int| from <= i < place_of(keys, key, from) ==> (#[trigger] keys[i])@ != key,
    decreases keys.len() - from,
{
    if from < keys.len() && keys[from]@ != key {
        lemma_place_of(keys, key, from + 1);
    }
}

proof fn lemma_place_push(keys: Seq<ContractKey>, added: ContractKey, key: KeyModel, from: int)
    requires
        0 <= from <= keys.len(),
        place_of(keys, added@, from) == keys.len(),
    ensures
        place_of(keys.push(added), key, from) == if key == added@ {
            keys.len() as int
        } else if place_of(keys, key, from) < keys.len() {
            place_of(keys, key, from)
        } else {
            keys.len() as int + 1
        },
    decreases keys.len() - from,
{
    let all = keys.push(added);
    if from < keys.len() {
        assert(all[from] == keys[from]);
        lemma_place_push(keys, added, key, from + 1);
        lemma_place_of(keys, key, from + 1);
    } else {
        assert(all[from] == added);
        assert(place_of(all, key, from + 1) == all.len());
    }
}

impl<S> PriceHistory<S> {
    /// The prices of a contract.
    pub closed spec fn of(self, key: KeyModel) -> Seq<(Moment, S)> {
        let at = place_of(self.keys@, key, 0);
        if at < self.series@.len() {
            self.series@[at]@
        } else {
            Seq::empty()
        }
    }

    /// One series for each key, of times of their days; no key stands twice and no series
    /// is empty.
    pub closed spec fn wf(self) -> bool {
        &&& self.keys@.len() == self.series@.len()
        &&& forall|i: int| 0 <= i < self.series@.len() ==> times_wf(#[trigger] self.series@[i]@)
        &&& forall|i: int| 0 <= i < self.series@.len() ==> (#[trigger] self.series@[i])@.len() > 0
        &&& forall|i: int, j: int|
            0 <= i < j < self.keys@.len() ==> (#[trigger] self.keys@[i])@ != (
            #[trigger] self.keys@[j])@
    }

    /// The contracts that have a price.
    pub open spec fn priced(self) -> Set<KeyModel> {
        Set::new(|k: KeyModel| self.of(k).len() > 0)
    }

    /// The prices of every contract come one after the other in time.
    pub open spec fn in_order(self) -> bool {
        forall|k: KeyModel| chronological(#[trigger] self.of(k))
    }
}

impl<S: Number> PriceHistory<S> {
    fn find(&self, key: &ContractKey) -> (r: usize)
        ensures
            r == place_of(self.keys@, key@, 0),
    {
        let n = self.keys.len();
        let mut i: usize = 0;
        while i < n && !self.keys[i].same(key)
            invariant
                i <= n,
                n == self.keys@.len(),
                place_of(self.keys@, key@, 0) == place_of(self.keys@, key@, i as int),
            decreases n - i,
        {
            i = i + 1;
        }
        i
    }

    fn record(&mut self, key: ContractKey, moment: Moment, price: S)
        requires
            old(self).wf(),
            moment.wf(),
        ensures
            final(self).wf(),
            forall|k: KeyModel| #[trigger]
                final(self).of(k) == if k == key@ {
                    old(self).of(k).push((moment, price))
                } else {
                    old(self).of(k)
                },
    {
        let at = self.find(&key);
        proof {
            lemma_place_of(self.keys@, key@, 0);
        }
        if at < self.keys.len() {
            let ghost before = *self;
            self.series[at].push((moment, price));
            proof {
                assert forall|i: int| 0 <= i < self.series@.len() implies times_wf(
                    #[trigger] self.series@[i]@,
                ) by {
                    assert(times_wf(before.series@[i]@));
                }
                assert(self.keys@ == before.keys@);
                assert forall|k: KeyModel| #[trigger] self.of(k) == if k == key@ {
                    before.of(k).push((moment, price))
                } else {
                    before.of(k)
                } by {
                    lemma_place_of(before.keys@, k, 0);
                    lemma_place_of(before.keys@, key@, 0);
                }
            }
        } else {
            let ghost before = *self;
            let mut prices: Vec<(Moment, S)> = Vec::new();
            prices.push((moment, price));
            proof {
                assert(before.of(key@) =~= Seq::empty());
                assert(prices@ =~= before.of(key@).push((moment, price)));
                assert forall|k: KeyModel| true implies #[trigger] place_of(
                    before.keys@.push(key),
                    k,
                    0,
                ) == if k == key@ {
                    before.keys@.len() as int
                } else if place_of(before.keys@, k, 0) < before.keys@.len() {
                    place_of(before.keys@, k, 0)
                } else {
                    before.keys@.len() as int + 1
                } by {
                    lemma_place_push(before.keys@, key, k, 0);
                }
            }
            let ghost key_model = key@;
            self.keys.push(key);
            self.series.push(prices);
            proof {
                assert forall|i: int| 0 <= i < self.series@.len() implies times_wf(
                    #[trigger] self.series@[i]@,
                ) by {
                    if i < before.series@.len() {
                        assert(times_wf(before.series@[i]@));
                    }
                }
                assert forall|k: KeyModel| #[trigger] self.of(k) == if k == key_model {
                    before.of(k).push((moment, price))
                } else {
                    before.of(k)
                } by {
                    lemma_place_of(before.keys@, k, 0);
                    assert(place_of(self.keys@, k, 0) == place_of(self.keys@, k, 0));
                }
            }
        }
    }

    /// The number of contracts that have a price.
    pub fn contracts(&self) -> (r: usize)
        requires
            self.wf(),
        ensures
            self.priced().finite(),
            r == self.priced().len(),
    {
        proof {
            let models = self.keys@.map_values(|k: ContractKey| k@);
            models.unique_seq_to_set();
            assert forall|k: KeyModel| models.to_set().contains(k) == self.priced().contains(k) by {
                lemma_place_of(self.keys@, k, 0);
                let at = place_of(self.keys@, k, 0);
                if at < self.keys@.len() {
                    assert(models[at] == k);
                    assert(self.series@[at]@.len() > 0);
                }
            }
            assert(models.to_set() =~= self.priced());
            vstd::seq_lib::seq_to_set_is_finite(models);
        }
        self.keys.len()
    }

    /// The price history of ticks: the times and mid prices of the quotes that count and
    /// have a readable date.
    pub fn build(ticks: &[OptionTick<S>]) -> (r: Self)
        ensures
            r.wf(),
            forall|k: KeyModel| #[trigger] r.of(k) == prices_of(ticks@, k, ticks@.len()),
    {
        let n = ticks.len();
        let mut history = PriceHistory { keys: Vec::new(), series: Vec::new() };
        assert forall|k: KeyModel| #[trigger] history.of(k) == prices_of(ticks@, k, 0) by {
            assert(history.of(k) =~= Seq::empty());
        }
        let mut i: usize = 0;
        while i < n
            invariant
                i <= n,
                n == ticks@.len(),
                history.wf(),
                forall|k: KeyModel| #[trigger] history.of(k) == prices_of(ticks@, k, i as nat),
            decreases n - i,
        {
            let tick = &ticks[i];
            let ghost before = history;
            if has_price(tick) {
                if let Some(moment) = parse_date(tick.date.as_str()) {
                    history.record(ContractKey::from_tick(tick), moment, tick.mid);
                }
            }
            i = i + 1;
            assert forall|k: KeyModel| #[trigger] history.of(k) == prices_of(
                ticks@,
                k,
                i as nat,
            ) by {
                assert(before.of(k) == prices_of(ticks@, k, (i - 1) as nat));
            }
        }
        history
    }
}

// ---- Forward prices ----

/// The first price that is not before a time, looked for from `from` on.
pub open spec fn first_not_before<S>(history: Seq<(Moment, S)>, target: Moment, from: int) -> int
    decreases history.len() - from,
{
    if from < history.len() && history[from].0.before(target) {
        first_not_before(history, target, from + 1)
    } else {
        from
    }
}

/// The whole seconds between an entry of a history and a time.
pub open spec fn distance<S>(entry: (Moment, S), target: Moment) -> int {
    whole_seconds(entry.0.nanos_since(target))
}

/// The entry of a history that is nearest to a time among the first that is not before it
/// and the one in front of that, if it is within the tolerance. Of two at the same
/// distance the later one counts.
pub open spec fn nearest<S>(history: Seq<(Moment, S)>, target: Moment, tolerance: int) -> Option<
    int,
> {
    let i = first_not_before(history, target, 0);
    let after = i < history.len() && distance(history[i], target) <= tolerance;
    if i > 0 && distance(history[i - 1], target) <= tolerance && (!after || distance(
        history[i - 1],
        target,
    ) < distance(history[i], target)) {
        Some(i - 1)
    } else if after {
        Some(i)
    } else {
        None
    }
}

/// The entries come one after the other in time.
pub open spec fn chronological<S>(history: Seq<(Moment, S)>) -> bool {
    forall|i: int, j: int|
        0 <= i < j < history.len() ==> !(#[trigger] history[j]).0.before(
            (#[trigger] history[i]).0,
        )
}

/// The times of a history are times of their days.
pub open spec fn times_wf<S>(history: Seq<(Moment, S)>) -> bool {
    forall|i: int| 0 <= i < history.len() ==> (#[trigger] history[i]).0.wf()
}

proof fn lemma_before_chain(a: Moment, b: Moment, c: Moment)
    requires
        !b.before(a),
        b.before(c),
    ensures
        a.before(c),
{
}

proof fn lemma_first_not_before<S>(
    history: Seq<(Moment, S)>,
    target: Moment,
    from: int,
    at: int,
)
    requires
        0 <= from <= at <= history.len(),
        forall|i: int| from <= i < at ==> (#[trigger] history[i]).0.before(target),
        at < history.len() ==> !history[at].0.before(target),
    ensures
        first_not_before(history, target, from) == at,
    decreases at - from,
{
    if from < at {
        assert(history[from].0.before(target));
        lemma_first_not_before(history, target, from + 1, at);
    }
}

/// The number of entries before a time, by halving; in a chronological history they stand
/// in front of all others.
fn entries_before<S: Number>(history: &[(Moment, S)], target: &Moment) -> (r: usize)
    ensures
        r <= history@.len(),
        chronological(history@) ==> r == first_not_before(history@, *target, 0),
{
    let n = history.len();
    let mut low: usize = 0;
    let mut high: usize = n;
    while low < high
        invariant
            low <= high <= n,
            n == history@.len(),
            chronological(history@) ==> forall|i: int|
                0 <= i < low ==> (#[trigger] history@[i]).0.before(*target),
            chronological(history@) ==> forall|i: int|
                high <= i < n ==> !(#[trigger] history@[i]).0.before(*target),
        decreases high - low,
    {
        let middle = low + (high - low) / 2;
        if history[middle].0.is_before(target) {
            proof {
                if chronological(history@) {
                    assert forall|i: int| 0 <= i < middle + 1 implies (
                    #[trigger] history@[i]).0.before(*target) by {
                        if i < middle {
                            lemma_before_chain(
                                history@[i].0,
                                history@[middle as int].0,
                                *target,
                            );
                        }
                    }
                }
            }
            low = middle + 1;
        } else {
            proof {
                if chronological(history@) {
                    assert forall|i: int| middle <= i < n implies !(
                    #[trigger] history@[i]).0.before(*target) by {
                        if i > middle && history@[i].0.before(*target) {
                            lemma_before_chain(
                                history@[middle as int].0,
                                history@[i].0,
                                *target,
                            );
                        }
                    }
                }
            }
            high = middle;
        }
    }
    proof {
        if chronological(history@) {
            lemma_first_not_before(history@, *target, 0, low as int);
        }
    }
    low
}

fn seconds_apart(a: &Moment, b: &Moment) -> (r: i64)
    requires
        a.wf(),
        b.wf(),
    ensures
        r == whole_seconds(a.nanos_since(*b)),
        0 <= r < i64::MAX,
{
    let nanos: i128 = a.since(b);
    assert(-86_400 <= a.seconds_after(*b) <= 86_400);
    let size: i128 = if nanos < 0 {
        -nanos
    } else {
        nanos
    };
    let seconds: i128 = size / SECOND_NANOS;
    seconds as i64
}

/// The price of the nearest entry of a history, if there is one.
pub open spec fn nearest_price_of<S>(
    history: Seq<(Moment, S)>,
    target: Moment,
    tolerance: int,
) -> Option<S> {
    match nearest(history, target, tolerance) {
        Some(i) => Some(history[i].1),
        None => None,
    }
}

/// Finds the price nearest to a time within a tolerance in seconds. Of a history that is
/// not in order of time only the tolerance is promised.
pub fn nearest_price<S: Number>(
    history: &[(Moment, S)],
    target_time: Moment,
    tolerance_seconds: i64,
) -> (r: Option<S>)
    requires
        times_wf(history@),
        target_time.wf(),
    ensures
        chronological(history@) ==> r == nearest_price_of(
            history@,
            target_time,
            tolerance_seconds as int,
        ),
        r matches Some(price) ==> exists|i: int|
            0 <= i < history@.len() && (#[trigger] history@[i]).1 == price && distance(
                history@[i],
                target_time,
            ) <= tolerance_seconds,
{
    let idx = entries_before(history, &target_time);
    let mut best_price: Option<S> = None;
    let mut min_diff = i64::MAX;
    let ghost mut chosen: int = 0;
    if idx < history.len() {
        let diff = seconds_apart(&history[idx].0, &target_time);
        if diff <= tolerance_seconds && diff < min_diff {
            min_diff = diff;
            best_price = Some(history[idx].1);
            proof {
                chosen = idx as int;
            }
        }
    }
    if idx > 0 {
        let diff = seconds_apart(&history[idx - 1].0, &target_time);
        if diff <= tolerance_seconds && diff < min_diff {
            best_price = Some(history[idx - 1].1);
            proof {
                chosen = idx - 1;
            }
        }
    }
    assert(best_price matches Some(price) ==> history@[chosen].1 == price);
    best_price
}

/// Finds the price of a contract nearest to a time within a tolerance in seconds. Of a
/// history that is not in order of time only the tolerance is promised.
pub fn find_future_price_hist<S: Number>(
    price_history: &PriceHistory<S>,
    key: &ContractKey,
    target_time: Moment,
    tolerance_seconds: i64,
) -> (r: Option<S>)
    requires
        price_history.wf(),
        target_time.wf(),
    ensures
        chronological(price_history.of(key@)) ==> r == nearest_price_of(
            price_history.of(key@),
            target_time,
            tolerance_seconds as int,
        ),
        r matches Some(price) ==> exists|i: int|
            0 <= i < price_history.of(key@).len() && (#[trigger] price_history.of(key@)[i]).1
                == price && distance(price_history.of(key@)[i], target_time) <= tolerance_seconds,
{
    let at = price_history.find(key);
    proof {
        lemma_place_of(price_history.keys@, key@, 0);
    }
    if at < price_history.series.len() {
        assert(times_wf(price_history.series@[at as int]@));
        nearest_price(price_history.series[at].as_slice(), target_time, tolerance_seconds)
    } else {
        None
    }
}

/// In a history without leap seconds that is in order of time, no entry is nearer to the
/// time, in whole seconds, than the one that is found; and one is found if any is within
/// the tolerance.
pub proof fn law_nearest_is_nearest<S>(
    history: Seq<(Moment, S)>,
    target: Moment,
    tolerance: int,
    j: int,
)
    requires
        chronological(history),
        times_wf(history),
        target.wf(),
        !target.in_leap_second(),
        forall|i: int| 0 <= i < history.len() ==> !(#[trigger] history[i]).0.in_leap_second(),
        0 <= j < history.len(),
    ensures
        match nearest(history, target, tolerance) {
            Some(i) => 0 <= i < history.len() && distance(history[i], target) <= tolerance
                && distance(history[i], target) <= distance(history[j], target),
            None => distance(history[j], target) > tolerance,
        },
{
    let i = first_not_before(history, target, 0);
    lemma_partition(history, target, 0);
    if j >= i {
        lemma_order_and_distance(history[i].0, history[j].0, target);
    } else {
        lemma_order_and_distance(history[j].0, history[i - 1].0, target);
    }
}

proof fn lemma_partition<S>(history: Seq<(Moment, S)>, target: Moment, from: int)
    requires
        0 <= from <= history.len(),
        chronological(history),
    ensures
        from <= first_not_before(history, target, from) <= history.len(),
        forall|i: int|
            from <= i < first_not_before(history, target, from) ==> (
            #[trigger] history[i]).0.before(target),
        forall|i: int|
            first_not_before(history, target, from) <= i < history.len() ==> !(
            #[trigger] history[i]).0.before(target),
    decreases history.len() - from,
{
    if from < history.len() && history[from].0.before(target) {
        lemma_partition(history, target, from + 1);
    } else {
        assert forall|i: int| from <= i < history.len() implies !(#[trigger] history[i]).0.before(
            target,
        ) by {
            if i > from && history[i].0.before(target) {
                lemma_before_chain(history[from].0, history[i].0, target);
            }
        }
    }
}

/// Of two moments on the same side of a third, the one nearer in order is not further away
/// in seconds.
proof fn lemma_order_and_distance(a: Moment, b: Moment, target: Moment)
    requires
        a.wf(),
        b.wf(),
        target.wf(),
        !a.in_leap_second(),
        !b.in_leap_second(),
        !target.in_leap_second(),
        !b.before(a),
    ensures
        !a.before(target) ==> whole_seconds(a.nanos_since(target)) <= whole_seconds(
            b.nanos_since(target),
        ),
        b.before(target) ==> whole_seconds(b.nanos_since(target)) <= whole_seconds(
            a.nanos_since(target),
        ),
{
    assert(a.nanos_since(target) <= b.nanos_since(target));
    if !a.before(target) {
        assert(a.nanos_since(target) >= 0);
    }
    if b.before(target) {
        assert(b.nanos_since(target) < 0);
    }
}

// ---- The running state of the surface ----

/// The place of the last quote of a contract, or the length of the list.
pub open spec fn quote_place<S: Quantity>(
    ticks: Seq<OptionTick<S>>,
    key: KeyModel,
    from: int,
) -> int
    decreases ticks.len() - from,
{
    if from >= ticks.len() {
        ticks.len() as int
    } else if key_of(ticks[from]) == key {
        from
    } else {
        quote_place(ticks, key, from + 1)
    }
}

/// The last quotes with a new one: it takes the place of that of its contract, or comes
/// last.
pub open spec fn with_quote<S: Quantity>(ticks: Seq<OptionTick<S>>, tick: OptionTick<S>) -> Seq<
    OptionTick<S>,
> {
    let at = quote_place(ticks, key_of(tick), 0);
    if at < ticks.len() {
        ticks.update(at, tick)
    } else {
        ticks.push(tick)
    }
}

/// The last quotes with the first `n` contracts of a grid, as far as they count.
pub open spec fn with_grid<S: Quantity>(
    ticks: Seq<OptionTick<S>>,
    contracts: Seq<OptionTick<S>>,
    n: nat,
) -> Seq<OptionTick<S>>
    decreases n,
{
    if n == 0 {
        ticks
    } else {
        let rest = with_grid(ticks, contracts, (n - 1) as nat);
        if is_priced(contracts[n - 1]) {
            with_quote(rest, contracts[n - 1])
        } else {
            rest
        }
    }
}

/// No contract is quoted twice.
pub open spec fn distinct_contracts<S: Quantity>(ticks: Seq<OptionTick<S>>) -> bool {
    forall|i: int, j: int|
        0 <= i < j < ticks.len() ==> key_of(#[trigger] ticks[i]) != key_of(#[trigger] ticks[j])
}

proof fn lemma_quote_place<S: Quantity>(ticks: Seq<OptionTick<S>>, key: KeyModel, from: int)
    requires
        0 <= from <= ticks.len(),
    ensures
        from <= quote_place(ticks, key, from) <= ticks.len(),
        quote_place(ticks, key, from) < ticks.len() ==> key_of(
            ticks[quote_place(ticks, key, from)],
        ) == key,
        forall|i: int|
            from <= i < quote_place(ticks, key, from) ==> key_of(#[trigger] ticks[i]) != key,
    decreases ticks.len() - from,
{
    if from < ticks.len() && key_of(ticks[from]) != key {
        lemma_quote_place(ticks, key, from + 1);
    }
}

/// The last quote of every contract.
pub struct RunningCache<S> {
    pub ticks: Vec<OptionTick<S>>,
}

impl<S: Quantity> RunningCache<S> {
    /// No contract is quoted twice.
    pub open spec fn wf(self) -> bool {
        distinct_contracts(self.ticks@)
    }
}

impl<S: Number> RunningCache<S> {
    /// No quotes yet.
    pub fn new() -> (r: Self)
        ensures
            r.wf(),
            r.ticks@.len() == 0,
    {
        RunningCache { ticks: Vec::new() }
    }

    /// The place of the last quote of a contract, or the number of quotes.
    pub fn find(&self, key: &ContractKey) -> (r: usize)
        ensures
            r == quote_place(self.ticks@, key@, 0),
    {
        let n = self.ticks.len();
        let mut i: usize = 0;
        while i < n && !ContractKey::from_tick(&self.ticks[i]).same(key)
            invariant
                i <= n,
                n == self.ticks@.len(),
                quote_place(self.ticks@, key@, 0) == quote_place(self.ticks@, key@, i as int),
            decreases n - i,
        {
            i = i + 1;
        }
        i
    }

    /// Takes over the contracts of a grid that count.
    pub fn update(&mut self, grid: &OptionGrid<S>)
        requires
            old(self).wf(),
        ensures
            final(self).wf(),
            final(self).ticks@ == with_grid(
                old(self).ticks@,
                grid.contracts@,
                grid.contracts@.len(),
            ),
    {
        let ghost start = self.ticks@;
        let n = grid.contracts.len();
        let mut i: usize = 0;
        while i < n
            invariant
                i <= n,
                n == grid.contracts@.len(),
                self.wf(),
                self.ticks@ == with_grid(start, grid.contracts@, i as nat),
            decreases n - i,
        {
            let c = &grid.contracts[i];
            if has_price(c) {
                let at = self.find(&ContractKey::from_tick(c));
                proof {
                    lemma_quote_place(self.ticks@, key_of(*c), 0);
                }
                if at < self.ticks.len() {
                    self.ticks.set(at, c.clone());
                } else {
                    self.ticks.push(c.clone());
                }
            }
            i = i + 1;
        }
    }

    /// The grid of all last quotes at the date and the spot price of a grid.
    pub fn dense_grid(&self, grid: &OptionGrid<S>) -> (r: OptionGrid<S>)
        ensures
            r.date@ == grid.date@,
            r.s_t == grid.s_t,
            r.contracts@ == at_spot(self.ticks@, grid.s_t),
    {
        let n = self.ticks.len();
        let mut contracts: Vec<OptionTick<S>> = Vec::with_capacity(n);
        let mut i: usize = 0;
        while i < n
            invariant
                i <= n,
                n == self.ticks@.len(),
                contracts@ == at_spot(self.ticks@, grid.s_t).take(i as int),
            decreases n - i,
        {
            let mut tick = self.ticks[i].clone();
            tick.s_t = grid.s_t;
            contracts.push(tick);
            i = i + 1;
            assert(contracts@ =~= at_spot(self.ticks@, grid.s_t).take(i as int));
        }
        assert(contracts@ =~= at_spot(self.ticks@, grid.s_t));
        OptionGrid { date: grid.date.clone(), s_t: grid.s_t, contracts }
    }
}

/// Quotes with the spot price replaced.
pub open spec fn at_spot<S>(ticks: Seq<OptionTick<S>>, s_t: S) -> Seq<OptionTick<S>> {
    ticks.map_values(|t: OptionTick<S>| OptionTick { s_t, ..t })
}

// ---- Records ----

/// The heading of the records.
pub fn record_heading() -> (r: String)
    ensures
        r@
            == "date,option_type,strike,expiry,immediate_execution_gap,spot,moneyness,tau,is_put,spread,target_1m,target_3m,target_5m,target_10m"@,
{
    String::from_str(
        "date,option_type,strike,expiry,immediate_execution_gap,spot,moneyness,tau,is_put,spread,target_1m,target_3m,target_5m,target_10m",
    )
}

/// The change from a price to a later one, nothing where that is not known.
pub open spec fn change_to<S: Quantity>(later: Option<S>, mid: S) -> S {
    match later {
        Some(f) => f - mid,
        None => zero::<S>(),
    }
}

/// The prices of a contract one, three, five and ten minutes on, within half a minute.
pub open spec fn forward_prices<S>(history: Seq<(Moment, S)>, now: Moment) -> (
    Option<S>,
    Option<S>,
    Option<S>,
    Option<S>,
) {
    (
        nearest_price_of(history, now.later(60), 30),
        nearest_price_of(history, now.later(180), 30),
        nearest_price_of(history, now.later(300), 30),
        nearest_price_of(history, now.later(600), 30),
    )
}

/// The record of a contract: what it is, its gap from the fair price and its other
/// features, and its forward returns.
pub open spec fn record_text<S: Quantity>(
    date: Seq<char>,
    c: OptionTick<S>,
    gap: S,
    forward: (Option<S>, Option<S>, Option<S>, Option<S>),
) -> Seq<char> {
    date + ","@ + seq![c.option_type] + ","@ + c.strike.spec_text(4) + ","@ + c.expiry@ + ","@
        + gap.spec_text(5) + ","@ + c.s_t.spec_text(4) + ","@ + (c.strike - c.s_t).spec_text(4)
        + ","@ + c.tau.spec_text(5) + ","@ + put_indicator::<S>(c.option_type).spec_text(0) + ","@
        + c.spread.spec_text(5) + ","@ + change_to(forward.0, c.mid).spec_text(5) + ","@
        + change_to(forward.1, c.mid).spec_text(5) + ","@ + change_to(forward.2, c.mid).spec_text(5)
        + ","@ + change_to(forward.3, c.mid).spec_text(5)
}

/// The record of a contract, if it counts, is a candidate and has a known price further
/// on.
pub open spec fn record_of<S: Quantity>(
    date: Seq<char>,
    now: Moment,
    c: OptionTick<S>,
    surface: CalibrationSurface<S>,
    lambda: S,
    history: Seq<(Moment, S)>,
) -> Option<Seq<char>> {
    let forward = forward_prices(history, now);
    let known = forward.0 is Some || forward.1 is Some || forward.2 is Some || forward.3 is Some;
    if is_priced(c) && is_candidate(c, surface, lambda) && known {
        let gap = execution_gap(surface.spec_evaluate_contract(c), c.p_a, c.p_b);
        Some(record_text(date, c, gap, forward))
    } else {
        None
    }
}

fn change<S: Number>(later: Option<S>, mid: S) -> (r: S)
    ensures
        r == change_to(later, mid),
{
    match later {
        Some(f) => f.minus(mid),
        None => S::decimal(0, 0),
    }
}

fn push_number<S: Number>(line: &mut String, value: S, places: u32)
    ensures
        final(line)@ == old(line)@ + ","@ + value.spec_text(places as nat),
{
    line.append(",");
    line.append(value.text(places).as_str());
}

fn record_line<S: Number>(
    date: &String,
    c: &OptionTick<S>,
    f: &FeatureVector<S>,
    forward: (Option<S>, Option<S>, Option<S>, Option<S>),
) -> (r: String)
    requires
        f.spot == c.s_t,
        f.moneyness == c.strike - c.s_t,
        f.tau == c.tau,
        f.is_put == put_indicator::<S>(c.option_type),
        f.spread == c.spread,
    ensures
        r@ == record_text(date@, *c, f.immediate_execution_gap, forward),
{
    let mut line = date.clone();
    line.append(",");
    let ghost before = line@;
    line.push(c.option_type);
    assert(line@ =~= before + seq![c.option_type]);
    push_number(&mut line, c.strike, 4);
    line.append(",");
    line.append(c.expiry.as_str());
    push_number(&mut line, f.immediate_execution_gap, 5);
    push_number(&mut line, f.spot, 4);
    push_number(&mut line, f.moneyness, 4);
    push_number(&mut line, f.tau, 5);
    push_number(&mut line, f.is_put, 0);
    push_number(&mut line, f.spread, 5);
    push_number(&mut line, change(forward.0, c.mid), 5);
    push_number(&mut line, change(forward.1, c.mid), 5);
    push_number(&mut line, change(forward.2, c.mid), 5);
    push_number(&mut line, change(forward.3, c.mid), 5);
    line
}

/// The record of a contract that ticked, if the liquidity gate lets it pass and one of its
/// prices further on is known.
pub fn feature_record<S: Analytic>(
    date: &String,
    now: Moment,
    c: &OptionTick<S>,
    surface: &CalibrationSurface<S>,
    lambda: S,
    price_history: &PriceHistory<S>,
) -> (r: Option<String>)
    requires
        now.wf(),
        now.day < 100_000_000,
        price_history.wf(),
    ensures
        chronological(price_history.of(key_of(*c))) ==> record_of(
            date@,
            now,
            *c,
            *surface,
            lambda,
            price_history.of(key_of(*c)),
        ) == match r {
            Some(line) => Some(line@),
            None => None,
        },
        r is Some ==> is_priced(*c) && is_candidate(*c, *surface, lambda),
{
    if !has_price(c) {
        return None;
    }
    match extract_candidate_features(c, surface, lambda) {
        Some(f) => {
            let key = ContractKey::from_tick(c);
            let forward = (
                find_future_price_hist(price_history, &key, now.plus_seconds(60), 30),
                find_future_price_hist(price_history, &key, now.plus_seconds(180), 30),
                find_future_price_hist(price_history, &key, now.plus_seconds(300), 30),
                find_future_price_hist(price_history, &key, now.plus_seconds(600), 30),
            );
            if forward.0.is_some() || forward.1.is_some() || forward.2.is_some()
                || forward.3.is_some() {
                Some(record_line(date, c, &f, forward))
            } else {
                None
            }
        },
        None => None,
    }
}

/// The records of the first `n` contracts of a grid.
pub open spec fn records_of<S: Quantity>(
    date: Seq<char>,
    now: Moment,
    contracts: Seq<OptionTick<S>>,
    surface: CalibrationSurface<S>,
    lambda: S,
    history: spec_fn(KeyModel) -> Seq<(Moment, S)>,
    n: nat,
) -> Seq<Seq<char>>
    decreases n,
{
    if n == 0 {
        Seq::empty()
    } else {
        let rest = records_of(date, now, contracts, surface, lambda, history, (n - 1) as nat);
        let c = contracts[n - 1];
        match record_of(date, now, c, surface, lambda, history(key_of(c))) {
            Some(line) => rest.push(line),
            None => rest,
        }
    }
}

/// The records of the contracts of a grid that ticked at a time.
pub fn grid_records<S: Analytic>(
    grid: &OptionGrid<S>,
    now: Moment,
    surface: &CalibrationSurface<S>,
    lambda: S,
    price_history: &PriceHistory<S>,
) -> (r: Vec<String>)
    requires
        now.wf(),
        now.day < 100_000_000,
        price_history.wf(),
    ensures
        price_history.in_order() ==> r@.map_values(|s: String| s@) == records_of(
            grid.date@,
            now,
            grid.contracts@,
            *surface,
            lambda,
            |k: KeyModel| price_history.of(k),
            grid.contracts@.len(),
        ),
        r@.len() <= grid.contracts@.len(),
{
    let n = grid.contracts.len();
    let ghost history = |k: KeyModel| price_history.of(k);
    let mut lines: Vec<String> = Vec::new();
    let mut i: usize = 0;
    assert(lines@.map_values(|s: String| s@) =~= Seq::empty());
    while i < n
        invariant
            i <= n,
            n == grid.contracts@.len(),
            now.wf(),
            now.day < 100_000_000,
            price_history.wf(),
            history == (|k: KeyModel| price_history.of(k)),
            lines@.len() <= i,
            price_history.in_order() ==> lines@.map_values(|s: String| s@) == records_of(
                grid.date@,
                now,
                grid.contracts@,
                *surface,
                lambda,
                history,
                i as nat,
            ),
        decreases n - i,
    {
        let c = &grid.contracts[i];
        let ghost before = lines@;
        assert(price_history.in_order() ==> chronological(price_history.of(key_of(*c))));
        if let Some(line) = feature_record(&grid.date, now, c, surface, lambda, price_history) {
            let ghost text = line@;
            lines.push(line);
            assert(lines@.map_values(|s: String| s@) =~= before.map_values(|s: String| s@).push(
                text,
            ));
        }
        i = i + 1;
    }
    lines
}

} // verus!
