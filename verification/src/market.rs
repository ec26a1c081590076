//! Quotes, box contexts, positions and trades of the box and butterfly engine.

use vstd::hash_map::StringHashMap;
use vstd::prelude::*;
use vstd::string::*;
use crate::number::{dec, zero, Number, Quantity};

verus! {

/// Seconds after which a quote no longer serves a new entry.
pub const MAX_STALE_SECONDS: i64 = 2;

/// Seconds for which a last known price counts as recent. An exit takes older ones too, up to
/// [`EXIT_STALE_SECONDS`].
pub const MAX_STALE_SECONDS_EXIT: i64 = 60;

/// Seconds after which a quote no longer serves an exit.
pub const EXIT_STALE_SECONDS: i64 = 3600;

/// Seconds that a position is held before it may be closed early.
pub const MIN_HOLDING_TIME: i64 = 10;

/// Slippage and commission of one leg, in price per unit.
pub open spec fn spec_commission_per_leg<S: Quantity>() -> S {
    dec(2, 4)
}

/// Commission of the four legs of a box.
pub open spec fn spec_box_commission<S: Quantity>() -> S {
    dec::<S>(4, 0) * spec_commission_per_leg()
}

/// Commission of the four contracts of a butterfly.
pub open spec fn spec_butterfly_commission<S: Quantity>() -> S {
    dec::<S>(4, 0) * spec_commission_per_leg()
}

/// Quoted volume that counts as liquid.
pub open spec fn spec_min_vol<S: Quantity>() -> S {
    dec(3, 0)
}

/// How far the exit threshold moves close to expiry.
pub open spec fn spec_early_exit_adjustment<S: Quantity>() -> S {
    dec(4, 2)
}

/// Units of the underlying in one contract.
pub open spec fn spec_contract_size<S: Quantity>() -> S {
    dec(10_000, 0)
}

/// Cash at the start.
pub open spec fn spec_initial_cash<S: Quantity>() -> S {
    dec(100_000, 0)
}

/// Cash below which no new position is entered.
pub open spec fn spec_min_cash_threshold<S: Quantity>() -> S {
    dec(10_000, 0)
}

pub fn commission_per_leg<S: Number>() -> (r: S)
    ensures
        r == spec_commission_per_leg::<S>(),
{
    S::decimal(2, 4)
}

pub fn box_commission<S: Number>() -> (r: S)
    ensures
        r == spec_box_commission::<S>(),
{
    S::decimal(4, 0).times(commission_per_leg())
}

pub fn butterfly_commission<S: Number>() -> (r: S)
    ensures
        r == spec_butterfly_commission::<S>(),
{
    S::decimal(4, 0).times(commission_per_leg())
}

pub fn min_vol<S: Number>() -> (r: S)
    ensures
        r == spec_min_vol::<S>(),
{
    S::decimal(3, 0)
}

pub fn early_exit_adjustment<S: Number>() -> (r: S)
    ensures
        r == spec_early_exit_adjustment::<S>(),
{
    S::decimal(4, 2)
}

pub fn contract_size<S: Number>() -> (r: S)
    ensures
        r == spec_contract_size::<S>(),
{
    S::decimal(10_000, 0)
}

pub fn initial_cash<S: Number>() -> (r: S)
    ensures
        r == spec_initial_cash::<S>(),
{
    S::decimal(100_000, 0)
}

pub fn min_cash_threshold<S: Number>() -> (r: S)
    ensures
        r == spec_min_cash_threshold::<S>(),
{
    S::decimal(10_000, 0)
}

/// Whether `then` lies at most `limit` seconds before `now`.
pub fn within(now: i64, then: i64, limit: i64) -> (r: bool)
    ensures
        r == (now - then <= limit),
{
    now as i128 - then as i128 <= limit as i128
}

/// Thresholds of the strategy, as fractions of the capital that a trade binds.
#[derive(Debug, Clone, Copy)]
pub struct StrategyParams<S> {
    pub min_return: S,
    pub min_return_butterfly: S,
    pub min_exit_return: S,
}

impl<S: Number> Default for StrategyParams<S> {
    fn default() -> (r: Self)
        ensures
            r.min_return == dec::<S>(2, 1),
            r.min_return_butterfly == dec::<S>(9, 1),
            r.min_exit_return == dec::<S>(2, 1),
    {
        StrategyParams {
            min_return: S::decimal(2, 1),
            min_return_butterfly: S::decimal(9, 1),
            min_exit_return: S::decimal(2, 1),
        }
    }
}

/// A listed option.
#[derive(Debug, Clone)]
pub struct OptionMeta<S> {
    pub oid: String,
    pub underlying: String,
    pub maturity: String,
    pub opt_type: String,
    pub strike: S,
}

/// The best ask and bid of an instrument, with their volumes.
#[derive(Debug, Clone, Copy)]
pub struct TickData<S> {
    pub a1: S,
    pub b1: S,
    pub a1_v: S,
    pub b1_v: S,
    pub timestamp: i64,
}

/// No quote: all prices and volumes nothing, at the epoch.
pub open spec fn no_quote<S: Quantity>() -> TickData<S> {
    TickData { a1: zero(), b1: zero(), a1_v: zero(), b1_v: zero(), timestamp: 0 }
}

impl<S: Number> Default for TickData<S> {
    fn default() -> (r: Self)
        ensures
            r == no_quote::<S>(),
    {
        TickData {
            a1: S::decimal(0, 0),
            b1: S::decimal(0, 0),
            a1_v: S::decimal(0, 0),
            b1_v: S::decimal(0, 0),
            timestamp: 0,
        }
    }
}

/// A new quote of one instrument.
#[derive(Debug, Clone)]
pub struct TickUpdate<S> {
    pub oid: String,
    pub a1: S,
    pub b1: S,
    pub a1_v: S,
    pub b1_v: S,
}

impl<S: Quantity> TickUpdate<S> {
    /// The quote as it is kept, stamped with the time `now`.
    pub open spec fn quote_at(self, now: i64) -> TickData<S> {
        TickData {
            a1: self.a1,
            b1: self.b1,
            a1_v: self.a1_v,
            b1_v: self.b1_v,
            timestamp: now,
        }
    }
}

/// The strikes of one underlying and expiry, each with its call and its put.
#[derive(Debug, Clone)]
pub struct BoxContext<S> {
    pub prefix: String,
    pub dte: u8,
    pub strikes: Vec<S>,
    pub call_oids: Vec<String>,
    pub put_oids: Vec<String>,
}

impl<S> BoxContext<S> {
    /// Every strike has a call and a put.
    pub open spec fn wf(self) -> bool {
        &&& self.strikes@.len() <= self.call_oids@.len()
        &&& self.strikes@.len() <= self.put_oids@.len()
    }
}

/// The latest quote of each instrument.
#[verifier::reject_recursive_types(S)]
pub struct QuoteBook<S> {
    quotes: StringHashMap<TickData<S>>,
}

impl<S> View for QuoteBook<S> {
    type V = Map<Seq<char>, TickData<S>>;

    closed spec fn view(&self) -> Map<Seq<char>, TickData<S>> {
        self.quotes@
    }
}

impl<S: Number> QuoteBook<S> {
    pub fn new() -> (r: Self)
        ensures
            r@ == Map::<Seq<char>, TickData<S>>::empty(),
    {
        QuoteBook { quotes: StringHashMap::new() }
    }

    pub fn insert(&mut self, oid: String, quote: TickData<S>)
        ensures
            final(self)@ == old(self)@.insert(oid@, quote),
    {
        self.quotes.insert(oid, quote);
    }

    pub fn get(&self, oid: &str) -> (r: Option<TickData<S>>)
        ensures
            match r {
                Some(q) => self@.contains_key(oid@) && q == self@[oid@],
                None => !self@.contains_key(oid@),
            },
    {
        match self.quotes.get(oid) {
            Some(q) => Some(*q),
            None => None,
        }
    }
}

/// For each instrument, the contexts that it is part of.
pub struct ContextIndex {
    contexts: StringHashMap<Vec<usize>>,
}

impl View for ContextIndex {
    type V = Map<Seq<char>, Seq<usize>>;

    closed spec fn view(&self) -> Map<Seq<char>, Seq<usize>> {
        self.contexts@.map_values(|v: Vec<usize>| v@)
    }
}

impl ContextIndex {
    pub fn new() -> (r: Self)
        ensures
            r@ == Map::<Seq<char>, Seq<usize>>::empty(),
    {
        let r = ContextIndex { contexts: StringHashMap::new() };
        assert(r@ =~= Map::<Seq<char>, Seq<usize>>::empty());
        r
    }

    /// The contexts of the instrument, if it is part of any.
    pub fn get(&self, oid: &str) -> (r: Option<&Vec<usize>>)
        ensures
            match r {
                Some(v) => self@.contains_key(oid@) && v@ == self@[oid@],
                None => !self@.contains_key(oid@),
            },
    {
        self.contexts.get(oid)
    }

    /// Adds a context to those of the instrument.
    pub fn add(&mut self, oid: &str, context: usize)
        ensures
            final(self)@ == old(self)@.insert(
                oid@,
                (if old(self)@.contains_key(oid@) {
                    old(self)@[oid@]
                } else {
                    Seq::empty()
                }).push(context),
            ),
    {
        let mut list: Vec<usize> = Vec::new();
        match self.contexts.get(oid) {
            Some(v) => {
                let n = v.len();
                let mut i: usize = 0;
                while i < n
                    invariant
                        i <= n,
                        n == v@.len(),
                        list@ == v@.subrange(0, i as int),
                    decreases n - i,
                {
                    list.push(v[i]);
                    i = i + 1;
                    assert(v@.subrange(0, i as int) =~= v@.subrange(0, i - 1).push(v@[i - 1]));
                }
                assert(v@.subrange(0, n as int) =~= v@);
            },
            None => {},
        }
        list.push(context);
        self.contexts.insert(String::from_str(oid), list);
        assert(self@ =~= old(self)@.insert(
            oid@,
            (if old(self)@.contains_key(oid@) {
                old(self)@[oid@]
            } else {
                Seq::empty()
            }).push(context),
        ));
    }
}

/// The kind of a position.
#[derive(Debug, Clone, Copy, PartialEq, Eq, Structural)]
pub enum PosType {
    LongBox,
    ShortBox,
    ButterflyCall,
    ButterflyPut,
}

impl PosType {
    /// The name of the kind.
    pub open spec fn spec_name(self) -> Seq<char> {
        match self {
            PosType::LongBox => "LongBox"@,
            PosType::ShortBox => "ShortBox"@,
            PosType::ButterflyCall => "ButterflyCall"@,
            PosType::ButterflyPut => "ButterflyPut"@,
        }
    }

    /// The name of the kind.
    pub fn name(&self) -> (r: String)
        ensures
            r@ == self.spec_name(),
    {
        match self {
            PosType::LongBox => String::from_str("LongBox"),
            PosType::ShortBox => String::from_str("ShortBox"),
            PosType::ButterflyCall => String::from_str("ButterflyCall"),
            PosType::ButterflyPut => String::from_str("ButterflyPut"),
        }
    }
}

/// Whether a butterfly is made of calls or of puts.
#[derive(Debug, Clone, Copy, PartialEq, Eq, Structural)]
pub enum Flavor {
    Call,
    Put,
}

impl Flavor {
    /// The kind of position that a butterfly of this flavor is.
    pub open spec fn spec_pos_type(self) -> PosType {
        match self {
            Flavor::Call => PosType::ButterflyCall,
            Flavor::Put => PosType::ButterflyPut,
        }
    }

    /// The kind of position that a butterfly of this flavor is.
    pub fn pos_type(self) -> (r: PosType)
        ensures
            r == self.spec_pos_type(),
    {
        match self {
            Flavor::Call => PosType::ButterflyCall,
            Flavor::Put => PosType::ButterflyPut,
        }
    }
}

/// An open virtual position, recorded when a signal fires.
#[derive(Debug, Clone)]
pub struct OpenPosition<S> {
    pub pos_type: PosType,
    pub ctx_idx: usize,
    /// Index of the lower strike.
    pub strike_i: usize,
    /// Index of the middle strike, of the upper one for a box.
    pub strike_j: usize,
    /// Index of the upper strike of a butterfly.
    pub strike_k: usize,
    /// Price per unit: paid for a long box, received for the others.
    pub entry_cost: S,
    /// Distance of the strikes, per unit.
    pub payout: S,
    /// Cash locked as margin.
    pub margin_rmb: S,
    pub dte_at_entry: u8,
    pub _entry_ts: i64,
    pub entry_time_str: String,
}

/// What an [`OpenPosition`] holds.
pub ghost struct PositionModel<S> {
    pub pos_type: PosType,
    pub ctx_idx: usize,
    pub strike_i: usize,
    pub strike_j: usize,
    pub strike_k: usize,
    pub entry_cost: S,
    pub payout: S,
    pub margin_rmb: S,
    pub dte_at_entry: u8,
    pub entry_ts: i64,
    pub entry_time: Seq<char>,
}

impl<S> View for OpenPosition<S> {
    type V = PositionModel<S>;

    open spec fn view(&self) -> PositionModel<S> {
        PositionModel {
            pos_type: self.pos_type,
            ctx_idx: self.ctx_idx,
            strike_i: self.strike_i,
            strike_j: self.strike_j,
            strike_k: self.strike_k,
            entry_cost: self.entry_cost,
            payout: self.payout,
            margin_rmb: self.margin_rmb,
            dte_at_entry: self.dte_at_entry,
            entry_ts: self._entry_ts,
            entry_time: self.entry_time_str@,
        }
    }
}

/// A closed trade, as it is written to the trade log.
#[derive(Debug, Clone)]
pub struct TradeRecord<S> {
    pub pos_type: String,
    pub prefix: String,
    pub strike_lo: S,
    pub strike_hi: S,
    pub dte_at_entry: u8,
    pub entry_time: String,
    pub exit_time: String,
    pub entry_cost: S,
    pub payout: S,
    pub exit_value: S,
    pub pnl_rmb: S,
    /// "early" or "maturity".
    pub exit_type: String,
    pub holding_time_sec: i64,
}

/// What a [`TradeRecord`] holds.
pub ghost struct TradeModel<S> {
    pub pos_type: Seq<char>,
    pub prefix: Seq<char>,
    pub strike_lo: S,
    pub strike_hi: S,
    pub dte_at_entry: u8,
    pub entry_time: Seq<char>,
    pub exit_time: Seq<char>,
    pub entry_cost: S,
    pub payout: S,
    pub exit_value: S,
    pub pnl_rmb: S,
    pub exit_type: Seq<char>,
    pub holding_time_sec: int,
}

impl<S> View for TradeRecord<S> {
    type V = TradeModel<S>;

    open spec fn view(&self) -> TradeModel<S> {
        TradeModel {
            pos_type: self.pos_type@,
            prefix: self.prefix@,
            strike_lo: self.strike_lo,
            strike_hi: self.strike_hi,
            dte_at_entry: self.dte_at_entry,
            entry_time: self.entry_time@,
            exit_time: self.exit_time@,
            entry_cost: self.entry_cost,
            payout: self.payout,
            exit_value: self.exit_value,
            pnl_rmb: self.pnl_rmb,
            exit_type: self.exit_type@,
            holding_time_sec: self.holding_time_sec as int,
        }
    }
}

} // verus!
