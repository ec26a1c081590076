//! Options-only structures over a grid: boxes, butterflies and iron condors.

use vstd::prelude::*;
use vstd::string::*;
use crate::ingestion::{OptionGrid, OptionTick};
use crate::number::{dec, zero, Number, Quantity};

verus! {

/// One leg of a structure, by contract.
#[derive(Debug, Clone)]
pub struct LegConfig<S> {
    pub expiry: String,
    pub strike: S,
    /// 'C' or 'P'.
    pub option_type: char,
    /// Positive to buy, negative to sell.
    pub weight: S,
}

/// A structure by its contracts.
#[derive(Debug, Clone)]
pub struct ArbitrageStructure<S> {
    pub name: String,
    pub legs: Vec<LegConfig<S>>,
    pub expected_fee: S,
}

/// A structure by the places of its contracts in a grid.
#[derive(Debug)]
pub struct ActiveStructure<S> {
    pub name: String,
    /// The place of each contract and its weight.
    pub legs: Vec<(usize, S)>,
    pub expected_fee: S,
}

/// What an [`ActiveStructure`] holds.
pub ghost struct StructureModel<S> {
    pub name: Seq<char>,
    pub legs: Seq<(usize, S)>,
    pub expected_fee: S,
}

impl<S> View for ActiveStructure<S> {
    type V = StructureModel<S>;

    open spec fn view(&self) -> StructureModel<S> {
        StructureModel { name: self.name@, legs: self.legs@, expected_fee: self.expected_fee }
    }
}

impl<S: Copy> Clone for ActiveStructure<S> {
    fn clone(&self) -> (r: Self)
        ensures
            r@ == self@,
    {
        let n = self.legs.len();
        let mut legs: Vec<(usize, S)> = Vec::with_capacity(n);
        let mut i: usize = 0;
        while i < n
            invariant
                i <= n,
                n == self.legs@.len(),
                legs@ == self.legs@.take(i as int),
            decreases n - i,
        {
            let leg = self.legs[i];
            legs.push(leg);
            i = i + 1;
            assert(legs@ =~= self.legs@.take(i as int));
        }
        assert(self.legs@.take(n as int) =~= self.legs@);
        ActiveStructure { name: self.name.clone(), legs, expected_fee: self.expected_fee }
    }
}

/// What a list of structures holds.
pub open spec fn structure_models<S>(list: Seq<ActiveStructure<S>>) -> Seq<StructureModel<S>> {
    list.map_values(|a: ActiveStructure<S>| a@)
}

proof fn lemma_structure_models_push<S>(list: Seq<ActiveStructure<S>>, a: ActiveStructure<S>)
    ensures
        structure_models(list.push(a)) == structure_models(list).push(a@),
{
    assert(structure_models(list.push(a)) =~= structure_models(list).push(a@));
}

// ---- Strikes ----

/// A strike in millionths, with the places of its call and its put.
#[derive(Debug, Clone, Copy)]
pub struct StrikeInfo {
    pub strike_micro: u64,
    pub call_idx: Option<usize>,
    pub put_idx: Option<usize>,
}

/// The strike of a contract in millionths.
pub open spec fn strike_micro_of<S: Quantity>(strike: S) -> u64 {
    (strike * dec::<S>(1_000_000, 0)).spec_round_u64()
}

/// The strike of a contract in millionths.
pub fn strike_micro<S: Number>(strike: S) -> (r: u64)
    ensures
        r == strike_micro_of(strike),
{
    strike.times(S::decimal(1_000_000, 0)).round_u64()
}

/// How many strikes of an ascending list lie below `micro`.
pub open spec fn below(list: Seq<StrikeInfo>, micro: u64) -> int
    decreases list.len(),
{
    if list.len() == 0 {
        0
    } else if list.last().strike_micro < micro {
        list.len() as int
    } else {
        below(list.drop_last(), micro)
    }
}

/// The list with the contract at place `idx` filed under its strike. The first
/// contract of a strike is filed as a call or a put by its type; a later one takes
/// the place of the call if it is one, of the put otherwise.
pub open spec fn filed(
    list: Seq<StrikeInfo>,
    micro: u64,
    idx: usize,
    option_type: char,
) -> Seq<StrikeInfo> {
    let at = below(list, micro);
    if at < list.len() && list[at].strike_micro == micro {
        list.update(
            at,
            if option_type == 'C' {
                StrikeInfo { call_idx: Some(idx), ..list[at] }
            } else {
                StrikeInfo { put_idx: Some(idx), ..list[at] }
            },
        )
    } else {
        list.insert(
            at,
            StrikeInfo {
                strike_micro: micro,
                call_idx: if option_type == 'C' {
                    Some(idx)
                } else {
                    None
                },
                put_idx: if option_type == 'P' {
                    Some(idx)
                } else {
                    None
                },
            },
        )
    }
}

/// The strikes of one expiry among the first `n` contracts, in ascending order.
pub open spec fn strike_table<S: Quantity>(
    contracts: Seq<OptionTick<S>>,
    expiry: Seq<char>,
    n: nat,
) -> Seq<StrikeInfo>
    decreases n,
{
    if n == 0 {
        Seq::empty()
    } else {
        let rest = strike_table(contracts, expiry, (n - 1) as nat);
        let c = contracts[n - 1];
        if c.expiry@ == expiry {
            filed(rest, strike_micro_of(c.strike), (n - 1) as usize, c.option_type)
        } else {
            rest
        }
    }
}

/// The expiries of the first `n` contracts, in the order in which they appear.
pub open spec fn expiry_order<S>(contracts: Seq<OptionTick<S>>, n: nat) -> Seq<Seq<char>>
    decreases n,
{
    if n == 0 {
        Seq::empty()
    } else {
        let rest = expiry_order(contracts, (n - 1) as nat);
        if rest.contains(contracts[n - 1].expiry@) {
            rest
        } else {
            rest.push(contracts[n - 1].expiry@)
        }
    }
}

/// The strikes rise.
pub open spec fn ascending(list: Seq<StrikeInfo>) -> bool {
    forall|i: int, j: int|
        0 <= i < j < list.len() ==> (#[trigger] list[i]).strike_micro < (
        #[trigger] list[j]).strike_micro
}

/// The places that a strike names lie within the first `n` contracts.
pub open spec fn places_below(list: Seq<StrikeInfo>, n: nat) -> bool {
    forall|i: int|
        0 <= i < list.len() ==> ((#[trigger] list[i]).call_idx is Some ==> list[i].call_idx->0 < n)
            && (list[i].put_idx is Some ==> list[i].put_idx->0 < n)
}

proof fn lemma_below(list: Seq<StrikeInfo>, micro: u64)
    requires
        ascending(list),
    ensures
        0 <= below(list, micro) <= list.len(),
        forall|i: int| 0 <= i < below(list, micro) ==> (#[trigger] list[i]).strike_micro < micro,
        forall|i: int|
            below(list, micro) <= i < list.len() ==> (#[trigger] list[i]).strike_micro >= micro,
    decreases list.len(),
{
    if list.len() > 0 {
        if list.last().strike_micro < micro {
            assert(list.last() == list[list.len() - 1]);
        } else {
            let rest = list.drop_last();
            assert(ascending(rest));
            lemma_below(rest, micro);
            assert forall|i: int| 0 <= i < below(list, micro) implies (
            #[trigger] list[i]).strike_micro < micro by {
                assert(rest[i].strike_micro < micro);
            }
            assert forall|i: int| below(list, micro) <= i < list.len() implies (
            #[trigger] list[i]).strike_micro >= micro by {
                if i < rest.len() {
                    assert(rest[i].strike_micro >= micro);
                }
            }
        }
    }
}

proof fn lemma_filed(
    list: Seq<StrikeInfo>,
    micro: u64,
    idx: usize,
    option_type: char,
    n: nat,
)
    requires
        ascending(list),
        places_below(list, n),
        idx < n,
    ensures
        ascending(filed(list, micro, idx, option_type)),
        places_below(filed(list, micro, idx, option_type), n),
{
    lemma_below(list, micro);
    let at = below(list, micro);
    let next = filed(list, micro, idx, option_type);
    if at < list.len() && list[at].strike_micro == micro {
        assert forall|i: int, j: int| 0 <= i < j < next.len() implies (
        #[trigger] next[i]).strike_micro < (#[trigger] next[j]).strike_micro by {
            assert(list[i].strike_micro < list[j].strike_micro);
        }
    } else {
        assert forall|i: int, j: int| 0 <= i < j < next.len() implies (
        #[trigger] next[i]).strike_micro < (#[trigger] next[j]).strike_micro by {
            if i < at {
                assert(next[i] == list[i]);
            } else if i > at {
                assert(next[i] == list[i - 1]);
            }
            if j < at {
                assert(next[j] == list[j]);
            } else if j > at {
                assert(next[j] == list[j - 1]);
            }
        }
        assert forall|i: int| 0 <= i < next.len() implies ((#[trigger] next[i]).call_idx is Some
            ==> next[i].call_idx->0 < n) && (next[i].put_idx is Some ==> next[i].put_idx->0
            < n) by {
            if i < at {
                assert(next[i] == list[i]);
            } else if i > at {
                assert(next[i] == list[i - 1]);
            }
        }
    }
}

/// The strikes of an expiry rise, each once, and name contracts of the grid.
pub proof fn law_strike_table_ascending<S: Quantity>(
    contracts: Seq<OptionTick<S>>,
    expiry: Seq<char>,
    n: nat,
)
    requires
        n <= contracts.len(),
        n <= usize::MAX,
    ensures
        ascending(strike_table(contracts, expiry, n)),
        places_below(strike_table(contracts, expiry, n), n),
    decreases n,
{
    if n > 0 {
        law_strike_table_ascending(contracts, expiry, (n - 1) as nat);
        let rest = strike_table(contracts, expiry, (n - 1) as nat);
        assert(places_below(rest, n));
        let c = contracts[n - 1];
        if c.expiry@ == expiry {
            lemma_filed(rest, strike_micro_of(c.strike), (n - 1) as usize, c.option_type, n);
        }
    }
}

/// The places that a strike names hold a call and a put of the given expiry with that
/// strike.
pub open spec fn places_match<S: Quantity>(
    contracts: Seq<OptionTick<S>>,
    expiry: Seq<char>,
    k: StrikeInfo,
) -> bool {
    &&& k.call_idx matches Some(c) ==> {
        &&& contracts[c as int].expiry@ == expiry
        &&& strike_micro_of(contracts[c as int].strike) == k.strike_micro
        &&& contracts[c as int].option_type == 'C'
    }
    &&& k.put_idx matches Some(p) ==> {
        &&& contracts[p as int].expiry@ == expiry
        &&& strike_micro_of(contracts[p as int].strike) == k.strike_micro
        &&& contracts[p as int].option_type != 'C'
    }
}

/// Each strike of an expiry names contracts of that expiry with that strike, a call
/// as the call and another as the put.
pub proof fn law_strike_table_matches<S: Quantity>(
    contracts: Seq<OptionTick<S>>,
    expiry: Seq<char>,
    n: nat,
)
    requires
        n <= contracts.len(),
        n <= usize::MAX,
    ensures
        forall|i: int|
            0 <= i < strike_table(contracts, expiry, n).len() ==> places_match(
                contracts,
                expiry,
                #[trigger] strike_table(contracts, expiry, n)[i],
            ),
    decreases n,
{
    if n > 0 {
        law_strike_table_matches(contracts, expiry, (n - 1) as nat);
        law_strike_table_ascending(contracts, expiry, (n - 1) as nat);
        let rest = strike_table(contracts, expiry, (n - 1) as nat);
        let all = strike_table(contracts, expiry, n);
        let c = contracts[n - 1];
        if c.expiry@ == expiry {
            let micro = strike_micro_of(c.strike);
            let at = below(rest, micro);
            lemma_below(rest, micro);
            assert forall|i: int| 0 <= i < all.len() implies places_match(
                contracts,
                expiry,
                #[trigger] all[i],
            ) by {
                if at < rest.len() && rest[at].strike_micro == micro {
                    assert(places_match(contracts, expiry, rest[i]));
                } else if i < at {
                    assert(all[i] == rest[i]);
                } else if i > at {
                    assert(all[i] == rest[i - 1]);
                }
            }
        }
    }
}

fn file_contract(list: &mut Vec<StrikeInfo>, micro: u64, idx: usize, option_type: char)
    requires
        ascending(old(list)@),
    ensures
        final(list)@ == filed(old(list)@, micro, idx, option_type),
{
    let mut at: usize = 0;
    proof {
        lemma_below(list@, micro);
    }
    while at < list.len() && list[at].strike_micro < micro
        invariant
            ascending(list@),
            0 <= at <= below(list@, micro) <= list@.len(),
            forall|i: int|
                below(list@, micro) <= i < list@.len() ==> (#[trigger] list@[i]).strike_micro
                    >= micro,
            forall|i: int|
                0 <= i < below(list@, micro) ==> (#[trigger] list@[i]).strike_micro < micro,
            list@ == old(list)@,
        decreases list@.len() - at,
    {
        at = at + 1;
    }
    let is_call = option_type == 'C';
    if at < list.len() && list[at].strike_micro == micro {
        let here = list[at];
        if is_call {
            list.set(
                at,
                StrikeInfo {
                    strike_micro: here.strike_micro,
                    call_idx: Some(idx),
                    put_idx: here.put_idx,
                },
            );
        } else {
            list.set(
                at,
                StrikeInfo {
                    strike_micro: here.strike_micro,
                    call_idx: here.call_idx,
                    put_idx: Some(idx),
                },
            );
        }
    } else {
        list.insert(
            at,
            StrikeInfo {
                strike_micro: micro,
                call_idx: if is_call {
                    Some(idx)
                } else {
                    None
                },
                put_idx: if option_type == 'P' {
                    Some(idx)
                } else {
                    None
                },
            },
        );
    }
}

fn build_strike_table<S: Number>(contracts: &Vec<OptionTick<S>>, expiry: &String) -> (r: Vec<
    StrikeInfo,
>)
    ensures
        r@ == strike_table(contracts@, expiry@, contracts@.len()),
        ascending(r@),
        places_below(r@, contracts@.len()),
{
    let n = contracts.len();
    let mut list: Vec<StrikeInfo> = Vec::with_capacity(32);
    let mut i: usize = 0;
    while i < n
        invariant
            i <= n,
            n == contracts@.len(),
            list@ == strike_table(contracts@, expiry@, i as nat),
            ascending(list@),
        decreases n - i,
    {
        let c = &contracts[i];
        if c.expiry == *expiry {
            file_contract(&mut list, strike_micro(c.strike), i, c.option_type);
        }
        i = i + 1;
        proof {
            law_strike_table_ascending(contracts@, expiry@, i as nat);
        }
    }
    proof {
        law_strike_table_ascending(contracts@, expiry@, n as nat);
    }
    list
}

fn find_expiries<S: Number>(contracts: &Vec<OptionTick<S>>) -> (r: Vec<String>)
    ensures
        r@.map_values(|s: String| s@) == expiry_order(contracts@, contracts@.len()),
{
    let n = contracts.len();
    let mut list: Vec<String> = Vec::with_capacity(4);
    let mut i: usize = 0;
    assert(list@.map_values(|s: String| s@) =~= Seq::empty());
    while i < n
        invariant
            i <= n,
            n == contracts@.len(),
            list@.map_values(|s: String| s@) == expiry_order(contracts@, i as nat),
        decreases n - i,
    {
        let expiry = &contracts[i].expiry;
        let ghost texts = list@.map_values(|s: String| s@);
        let mut found = false;
        let mut k: usize = 0;
        while k < list.len() && !found
            invariant
                k <= list@.len(),
                texts == list@.map_values(|s: String| s@),
                found ==> texts.contains(expiry@),
                !found ==> forall|m: int| 0 <= m < k ==> #[trigger] texts[m] != expiry@,
            decreases list@.len() - k + (if found {
                0int
            } else {
                1
            }),
        {
            if list[k] == *expiry {
                found = true;
                assert(texts[k as int] == expiry@);
            } else {
                k = k + 1;
            }
        }
        if !found {
            assert(!texts.contains(expiry@));
            list.push(expiry.clone());
            assert(list@.map_values(|s: String| s@) =~= texts.push(expiry@));
        }
        i = i + 1;
    }
    list
}

// ---- Structures ----

/// The smaller of the two.
pub open spec fn lesser(a: int, b: int) -> int {
    if a < b {
        a
    } else {
        b
    }
}

/// A strike as it is written in the name of a structure.
pub open spec fn strike_text<S: Quantity>(k: StrikeInfo) -> Seq<char> {
    dec::<S>(k.strike_micro as int, 6).spec_text(3)
}

/// The box over two strikes: long the lower call and the upper put, short the
/// others.
pub open spec fn box_structure<S: Quantity>(
    expiry: Seq<char>,
    fee: S,
    k1: StrikeInfo,
    k2: StrikeInfo,
) -> StructureModel<S> {
    StructureModel {
        name: "Box_"@ + expiry + "_"@ + strike_text::<S>(k1) + "_"@ + strike_text::<S>(k2),
        legs: seq![
            (k1.call_idx->0, dec::<S>(1, 0)),
            (k2.call_idx->0, dec::<S>(-1, 0)),
            (k2.put_idx->0, dec::<S>(1, 0)),
            (k1.put_idx->0, dec::<S>(-1, 0)),
        ],
        expected_fee: dec::<S>(4, 0) * fee,
    }
}

/// A box needs a call and a put at both strikes.
pub open spec fn box_possible(k1: StrikeInfo, k2: StrikeInfo) -> bool {
    k1.call_idx is Some && k2.call_idx is Some && k1.put_idx is Some && k2.put_idx is Some
}

/// The boxes with the lower strike `t[i]` and the upper one among `t[i + 1 .. j]`.
pub open spec fn boxes_over<S: Quantity>(
    t: Seq<StrikeInfo>,
    expiry: Seq<char>,
    fee: S,
    i: int,
    j: int,
) -> Seq<StructureModel<S>>
    decreases j,
{
    if j <= i + 1 || j <= 0 {
        Seq::empty()
    } else {
        let rest = boxes_over(t, expiry, fee, i, j - 1);
        if box_possible(t[i], t[j - 1]) {
            rest.push(box_structure(expiry, fee, t[i], t[j - 1]))
        } else {
            rest
        }
    }
}

/// The boxes with the lower strike among the first `i`, the upper one at most two
/// strikes above it.
pub open spec fn boxes<S: Quantity>(t: Seq<StrikeInfo>, expiry: Seq<char>, fee: S, i: int) -> Seq<
    StructureModel<S>,
>
    decreases i,
{
    if i <= 0 {
        Seq::empty()
    } else {
        boxes(t, expiry, fee, i - 1) + boxes_over(
            t,
            expiry,
            fee,
            i - 1,
            lesser(i + 2, t.len() as int),
        )
    }
}

/// The place of the call, or of the put, of a strike.
pub open spec fn option_at(k: StrikeInfo, call: bool) -> Option<usize> {
    if call {
        k.call_idx
    } else {
        k.put_idx
    }
}

/// The butterfly over three strikes: long the wings, short the body twice.
pub open spec fn fly_structure<S: Quantity>(
    expiry: Seq<char>,
    fee: S,
    call: bool,
    k1: StrikeInfo,
    k2: StrikeInfo,
    k3: StrikeInfo,
) -> StructureModel<S> {
    StructureModel {
        name: (if call {
            "C_Fly_"@
        } else {
            "P_Fly_"@
        }) + expiry + "_"@ + strike_text::<S>(k1) + "_"@ + strike_text::<S>(k2) + "_"@
            + strike_text::<S>(k3),
        legs: seq![
            (option_at(k1, call)->0, dec::<S>(1, 0)),
            (option_at(k2, call)->0, dec::<S>(-2, 0)),
            (option_at(k3, call)->0, dec::<S>(1, 0)),
        ],
        expected_fee: dec::<S>(4, 0) * fee,
    }
}

/// A butterfly needs equal distances and its option at all three strikes.
pub open spec fn fly_possible(
    call: bool,
    k1: StrikeInfo,
    k2: StrikeInfo,
    k3: StrikeInfo,
) -> bool {
    &&& k2.strike_micro - k1.strike_micro == k3.strike_micro - k2.strike_micro
    &&& option_at(k1, call) is Some
    &&& option_at(k2, call) is Some
    &&& option_at(k3, call) is Some
}

/// `list` with the butterfly over three strikes, where it is possible.
pub open spec fn with_fly_structure<S: Quantity>(
    list: Seq<StructureModel<S>>,
    expiry: Seq<char>,
    fee: S,
    call: bool,
    k1: StrikeInfo,
    k2: StrikeInfo,
    k3: StrikeInfo,
) -> Seq<StructureModel<S>> {
    if fly_possible(call, k1, k2, k3) {
        list.push(fly_structure(expiry, fee, call, k1, k2, k3))
    } else {
        list
    }
}

/// The butterflies with the lower strikes `t[i]` and `t[j]` and the upper one
/// among `t[j + 1 .. k]`: of each, calls before puts.
pub open spec fn flies_over<S: Quantity>(
    t: Seq<StrikeInfo>,
    expiry: Seq<char>,
    fee: S,
    i: int,
    j: int,
    k: int,
) -> Seq<StructureModel<S>>
    decreases k,
{
    if k <= j + 1 || k <= 0 {
        Seq::empty()
    } else {
        with_fly_structure(
            with_fly_structure(
                flies_over(t, expiry, fee, i, j, k - 1),
                expiry,
                fee,
                true,
                t[i],
                t[j],
                t[k - 1],
            ),
            expiry,
            fee,
            false,
            t[i],
            t[j],
            t[k - 1],
        )
    }
}

/// The butterflies with the lowest strike `t[i]`, the middle one among
/// `t[i + 1 .. j]` and the upper one below `limit`.
pub open spec fn flies_from<S: Quantity>(
    t: Seq<StrikeInfo>,
    expiry: Seq<char>,
    fee: S,
    i: int,
    j: int,
    limit: int,
) -> Seq<StructureModel<S>>
    decreases j,
{
    if j <= i + 1 || j <= 0 {
        Seq::empty()
    } else {
        flies_from(t, expiry, fee, i, j - 1, limit) + flies_over(
            t,
            expiry,
            fee,
            i,
            j - 1,
            limit,
        )
    }
}

/// The butterflies with the lowest strike among the first `i`, the upper one at
/// most four strikes above it.
pub open spec fn flies<S: Quantity>(t: Seq<StrikeInfo>, expiry: Seq<char>, fee: S, i: int) -> Seq<
    StructureModel<S>,
>
    decreases i,
{
    if i <= 0 {
        Seq::empty()
    } else {
        let limit = lesser(i + 4, t.len() as int);
        flies(t, expiry, fee, i - 1) + flies_from(t, expiry, fee, i - 1, limit, limit)
    }
}

/// The iron condor over four strikes: a bought and a sold put below, a sold and a
/// bought call above.
pub open spec fn condor_structure<S: Quantity>(
    expiry: Seq<char>,
    fee: S,
    k1: StrikeInfo,
    k2: StrikeInfo,
    k3: StrikeInfo,
    k4: StrikeInfo,
) -> StructureModel<S> {
    StructureModel {
        name: "Condor_"@ + expiry + "_"@ + strike_text::<S>(k1) + "_"@ + strike_text::<S>(k2)
            + "_"@ + strike_text::<S>(k3) + "_"@ + strike_text::<S>(k4),
        legs: seq![
            (k1.put_idx->0, dec::<S>(1, 0)),
            (k2.put_idx->0, dec::<S>(-1, 0)),
            (k3.call_idx->0, dec::<S>(-1, 0)),
            (k4.call_idx->0, dec::<S>(1, 0)),
        ],
        expected_fee: dec::<S>(4, 0) * fee,
    }
}

/// A condor needs puts at the lower two strikes and calls at the upper two.
pub open spec fn condor_possible(
    k1: StrikeInfo,
    k2: StrikeInfo,
    k3: StrikeInfo,
    k4: StrikeInfo,
) -> bool {
    k1.put_idx is Some && k2.put_idx is Some && k3.call_idx is Some && k4.call_idx is Some
}

/// The condors with the lower strikes `t[i]`, `t[j]`, `t[k]` and the upper one
/// among `t[k + 1 .. l]`.
pub open spec fn condors_over<S: Quantity>(
    t: Seq<StrikeInfo>,
    expiry: Seq<char>,
    fee: S,
    i: int,
    j: int,
    k: int,
    l: int,
) -> Seq<StructureModel<S>>
    decreases l,
{
    if l <= k + 1 || l <= 0 {
        Seq::empty()
    } else {
        let rest = condors_over(t, expiry, fee, i, j, k, l - 1);
        if condor_possible(t[i], t[j], t[k], t[l - 1]) {
            rest.push(condor_structure(expiry, fee, t[i], t[j], t[k], t[l - 1]))
        } else {
            rest
        }
    }
}

/// The condors with the lower strikes `t[i]`, `t[j]`, the third among
/// `t[j + 1 .. k]` and the upper one below `limit`.
pub open spec fn condors_third<S: Quantity>(
    t: Seq<StrikeInfo>,
    expiry: Seq<char>,
    fee: S,
    i: int,
    j: int,
    k: int,
    limit: int,
) -> Seq<StructureModel<S>>
    decreases k,
{
    if k <= j + 1 || k <= 0 {
        Seq::empty()
    } else {
        condors_third(t, expiry, fee, i, j, k - 1, limit) + condors_over(
            t,
            expiry,
            fee,
            i,
            j,
            k - 1,
            limit,
        )
    }
}

/// The condors with the lowest strike `t[i]`, the second among `t[i + 1 .. j]` and
/// the others below `limit`.
pub open spec fn condors_from<S: Quantity>(
    t: Seq<StrikeInfo>,
    expiry: Seq<char>,
    fee: S,
    i: int,
    j: int,
    limit: int,
) -> Seq<StructureModel<S>>
    decreases j,
{
    if j <= i + 1 || j <= 0 {
        Seq::empty()
    } else {
        condors_from(t, expiry, fee, i, j - 1, limit) + condors_third(
            t,
            expiry,
            fee,
            i,
            j - 1,
            limit,
            limit,
        )
    }
}

/// The condors with the lowest strike among the first `i`, the upper one at most
/// five strikes above it.
pub open spec fn condors<S: Quantity>(
    t: Seq<StrikeInfo>,
    expiry: Seq<char>,
    fee: S,
    i: int,
) -> Seq<StructureModel<S>>
    decreases i,
{
    if i <= 0 {
        Seq::empty()
    } else {
        let limit = lesser(i + 5, t.len() as int);
        condors(t, expiry, fee, i - 1) + condors_from(t, expiry, fee, i - 1, limit, limit)
    }
}

/// All structures of one expiry: boxes, then butterflies, then condors.
pub open spec fn structures_of_expiry<S: Quantity>(
    t: Seq<StrikeInfo>,
    expiry: Seq<char>,
    fee: S,
) -> Seq<StructureModel<S>> {
    let n = t.len() as int;
    boxes(t, expiry, fee, n) + flies(t, expiry, fee, n) + condors(t, expiry, fee, n)
}

/// The structures of the first `n` expiries of a grid.
pub open spec fn structures_of_expiries<S: Quantity>(
    contracts: Seq<OptionTick<S>>,
    fee: S,
    n: nat,
) -> Seq<StructureModel<S>>
    decreases n,
{
    if n == 0 {
        Seq::empty()
    } else {
        let expiry = expiry_order(contracts, contracts.len())[n - 1];
        structures_of_expiries(contracts, fee, (n - 1) as nat) + structures_of_expiry(
            strike_table(contracts, expiry, contracts.len()),
            expiry,
            fee,
        )
    }
}

/// All structures of a grid.
pub open spec fn active_structures<S: Quantity>(contracts: Seq<OptionTick<S>>, fee: S) -> Seq<
    StructureModel<S>,
> {
    structures_of_expiries(contracts, fee, expiry_order(contracts, contracts.len()).len())
}

/// The legs of every structure name one of the first `n` contracts.
pub open spec fn legs_below<S>(list: Seq<StructureModel<S>>, n: nat) -> bool {
    forall|p: int, q: int|
        0 <= p < list.len() && 0 <= q < list[p].legs.len() ==> (#[trigger] list[p].legs[q]).0 < n
}

proof fn lemma_legs_push<S>(list: Seq<StructureModel<S>>, a: StructureModel<S>, n: nat)
    requires
        legs_below(list, n),
        forall|q: int| 0 <= q < a.legs.len() ==> (#[trigger] a.legs[q]).0 < n,
    ensures
        legs_below(list.push(a), n),
{
    let all = list.push(a);
    assert forall|p: int, q: int| 0 <= p < all.len() && 0 <= q < all[p].legs.len() implies (
    #[trigger] all[p].legs[q]).0 < n by {
        if p < list.len() {
            assert(list[p].legs[q].0 < n);
        } else {
            assert(a.legs[q].0 < n);
        }
    }
}

proof fn lemma_legs_join<S>(a: Seq<StructureModel<S>>, b: Seq<StructureModel<S>>, n: nat)
    requires
        legs_below(a, n),
        legs_below(b, n),
    ensures
        legs_below(a + b, n),
{
    let all = a + b;
    assert forall|p: int, q: int| 0 <= p < all.len() && 0 <= q < all[p].legs.len() implies (
    #[trigger] all[p].legs[q]).0 < n by {
        if p < a.len() {
            assert(a[p].legs[q].0 < n);
        } else {
            assert(b[p - a.len()].legs[q].0 < n);
        }
    }
}

proof fn lemma_boxes_legs<S: Quantity>(
    t: Seq<StrikeInfo>,
    expiry: Seq<char>,
    fee: S,
    i: int,
    n: nat,
)
    requires
        places_below(t, n),
        i <= t.len(),
    ensures
        legs_below(boxes(t, expiry, fee, i), n),
    decreases i,
{
    if i > 0 {
        lemma_boxes_legs(t, expiry, fee, i - 1, n);
        let limit = lesser(i + 2, t.len() as int);
        lemma_boxes_over_legs(t, expiry, fee, i - 1, limit, n);
        lemma_legs_join(
            boxes(t, expiry, fee, i - 1),
            boxes_over(t, expiry, fee, i - 1, limit),
            n,
        );
    }
}

proof fn lemma_boxes_over_legs<S: Quantity>(
    t: Seq<StrikeInfo>,
    expiry: Seq<char>,
    fee: S,
    i: int,
    j: int,
    n: nat,
)
    requires
        places_below(t, n),
        0 <= i,
        j <= t.len(),
    ensures
        legs_below(boxes_over(t, expiry, fee, i, j), n),
    decreases j,
{
    if j <= i + 1 || j <= 0 {
    } else {
        lemma_boxes_over_legs(t, expiry, fee, i, j - 1, n);
        let (k1, k2) = (t[i], t[j - 1]);
        if box_possible(k1, k2) {
            lemma_legs_push(
                boxes_over(t, expiry, fee, i, j - 1),
                box_structure(expiry, fee, k1, k2),
                n,
            );
        }
    }
}

proof fn lemma_fly_legs<S: Quantity>(
    list: Seq<StructureModel<S>>,
    expiry: Seq<char>,
    fee: S,
    call: bool,
    t: Seq<StrikeInfo>,
    i: int,
    j: int,
    k: int,
    n: nat,
)
    requires
        legs_below(list, n),
        places_below(t, n),
        0 <= i < t.len(),
        0 <= j < t.len(),
        0 <= k < t.len(),
    ensures
        legs_below(with_fly_structure(list, expiry, fee, call, t[i], t[j], t[k]), n),
{
    let (k1, k2, k3) = (t[i], t[j], t[k]);
    if fly_possible(call, k1, k2, k3) {
        lemma_legs_push(list, fly_structure(expiry, fee, call, k1, k2, k3), n);
    }
}

proof fn lemma_flies_over_legs<S: Quantity>(
    t: Seq<StrikeInfo>,
    expiry: Seq<char>,
    fee: S,
    i: int,
    j: int,
    k: int,
    n: nat,
)
    requires
        places_below(t, n),
        0 <= i < j,
        k <= t.len(),
    ensures
        legs_below(flies_over(t, expiry, fee, i, j, k), n),
    decreases k,
{
    if k <= j + 1 || k <= 0 {
    } else {
        lemma_flies_over_legs(t, expiry, fee, i, j, k - 1, n);
        let rest = flies_over(t, expiry, fee, i, j, k - 1);
        lemma_fly_legs(rest, expiry, fee, true, t, i, j, k - 1, n);
        let next = with_fly_structure(rest, expiry, fee, true, t[i], t[j], t[k - 1]);
        lemma_fly_legs(next, expiry, fee, false, t, i, j, k - 1, n);
    }
}

proof fn lemma_flies_from_legs<S: Quantity>(
    t: Seq<StrikeInfo>,
    expiry: Seq<char>,
    fee: S,
    i: int,
    j: int,
    limit: int,
    n: nat,
)
    requires
        places_below(t, n),
        0 <= i,
        limit <= t.len(),
    ensures
        legs_below(flies_from(t, expiry, fee, i, j, limit), n),
    decreases j,
{
    if j <= i + 1 || j <= 0 {
    } else {
        lemma_flies_from_legs(t, expiry, fee, i, j - 1, limit, n);
        lemma_flies_over_legs(t, expiry, fee, i, j - 1, limit, n);
        lemma_legs_join(
            flies_from(t, expiry, fee, i, j - 1, limit),
            flies_over(t, expiry, fee, i, j - 1, limit),
            n,
        );
    }
}

proof fn lemma_flies_legs<S: Quantity>(
    t: Seq<StrikeInfo>,
    expiry: Seq<char>,
    fee: S,
    i: int,
    n: nat,
)
    requires
        places_below(t, n),
        i <= t.len(),
    ensures
        legs_below(flies(t, expiry, fee, i), n),
    decreases i,
{
    if i > 0 {
        lemma_flies_legs(t, expiry, fee, i - 1, n);
        let limit = lesser(i + 4, t.len() as int);
        lemma_flies_from_legs(t, expiry, fee, i - 1, limit, limit, n);
        lemma_legs_join(
            flies(t, expiry, fee, i - 1),
            flies_from(t, expiry, fee, i - 1, limit, limit),
            n,
        );
    }
}

proof fn lemma_condors_over_legs<S: Quantity>(
    t: Seq<StrikeInfo>,
    expiry: Seq<char>,
    fee: S,
    i: int,
    j: int,
    k: int,
    l: int,
    n: nat,
)
    requires
        places_below(t, n),
        0 <= i < j < k,
        l <= t.len(),
    ensures
        legs_below(condors_over(t, expiry, fee, i, j, k, l), n),
    decreases l,
{
    if l <= k + 1 || l <= 0 {
    } else {
        lemma_condors_over_legs(t, expiry, fee, i, j, k, l - 1, n);
        let (k1, k2, k3, k4) = (t[i], t[j], t[k], t[l - 1]);
        if condor_possible(k1, k2, k3, k4) {
            lemma_legs_push(
                condors_over(t, expiry, fee, i, j, k, l - 1),
                condor_structure(expiry, fee, k1, k2, k3, k4),
                n,
            );
        }
    }
}

proof fn lemma_condors_third_legs<S: Quantity>(
    t: Seq<StrikeInfo>,
    expiry: Seq<char>,
    fee: S,
    i: int,
    j: int,
    k: int,
    limit: int,
    n: nat,
)
    requires
        places_below(t, n),
        0 <= i < j,
        limit <= t.len(),
    ensures
        legs_below(condors_third(t, expiry, fee, i, j, k, limit), n),
    decreases k,
{
    if k <= j + 1 || k <= 0 {
    } else {
        lemma_condors_third_legs(t, expiry, fee, i, j, k - 1, limit, n);
        lemma_condors_over_legs(t, expiry, fee, i, j, k - 1, limit, n);
        lemma_legs_join(
            condors_third(t, expiry, fee, i, j, k - 1, limit),
            condors_over(t, expiry, fee, i, j, k - 1, limit),
            n,
        );
    }
}

proof fn lemma_condors_from_legs<S: Quantity>(
    t: Seq<StrikeInfo>,
    expiry: Seq<char>,
    fee: S,
    i: int,
    j: int,
    limit: int,
    n: nat,
)
    requires
        places_below(t, n),
        0 <= i,
        limit <= t.len(),
    ensures
        legs_below(condors_from(t, expiry, fee, i, j, limit), n),
    decreases j,
{
    if j <= i + 1 || j <= 0 {
    } else {
        lemma_condors_from_legs(t, expiry, fee, i, j - 1, limit, n);
        lemma_condors_third_legs(t, expiry, fee, i, j - 1, limit, limit, n);
        lemma_legs_join(
            condors_from(t, expiry, fee, i, j - 1, limit),
            condors_third(t, expiry, fee, i, j - 1, limit, limit),
            n,
        );
    }
}

proof fn lemma_condors_legs<S: Quantity>(
    t: Seq<StrikeInfo>,
    expiry: Seq<char>,
    fee: S,
    i: int,
    n: nat,
)
    requires
        places_below(t, n),
        i <= t.len(),
    ensures
        legs_below(condors(t, expiry, fee, i), n),
    decreases i,
{
    if i > 0 {
        lemma_condors_legs(t, expiry, fee, i - 1, n);
        let limit = lesser(i + 5, t.len() as int);
        lemma_condors_from_legs(t, expiry, fee, i - 1, limit, limit, n);
        lemma_legs_join(
            condors(t, expiry, fee, i - 1),
            condors_from(t, expiry, fee, i - 1, limit, limit),
            n,
        );
    }
}

proof fn lemma_expiry_legs<S: Quantity>(t: Seq<StrikeInfo>, expiry: Seq<char>, fee: S, n: nat)
    requires
        places_below(t, n),
    ensures
        legs_below(structures_of_expiry(t, expiry, fee), n),
{
    let len = t.len() as int;
    lemma_boxes_legs(t, expiry, fee, len, n);
    lemma_flies_legs(t, expiry, fee, len, n);
    lemma_condors_legs(t, expiry, fee, len, n);
    lemma_legs_join(boxes(t, expiry, fee, len), flies(t, expiry, fee, len), n);
    lemma_legs_join(
        boxes(t, expiry, fee, len) + flies(t, expiry, fee, len),
        condors(t, expiry, fee, len),
        n,
    );
}

/// The legs of the structures of a grid name contracts of that grid.
pub proof fn law_structure_legs_in_grid<S: Quantity>(
    contracts: Seq<OptionTick<S>>,
    fee: S,
    n: nat,
)
    requires
        contracts.len() <= usize::MAX,
        n <= expiry_order(contracts, contracts.len()).len(),
    ensures
        legs_below(structures_of_expiries(contracts, fee, n), contracts.len()),
    decreases n,
{
    if n > 0 {
        let len = contracts.len();
        law_structure_legs_in_grid(contracts, fee, (n - 1) as nat);
        let expiry = expiry_order(contracts, len)[n - 1];
        law_strike_table_ascending(contracts, expiry, len);
        let t = strike_table(contracts, expiry, len);
        lemma_expiry_legs(t, expiry, fee, len);
        lemma_legs_join(
            structures_of_expiries(contracts, fee, (n - 1) as nat),
            structures_of_expiry(t, expiry, fee),
            len,
        );
    }
}

fn push_strike<S: Number>(name: &mut String, k: StrikeInfo)
    ensures
        final(name)@ == old(name)@ + "_"@ + strike_text::<S>(k),
{
    name.append("_");
    let text = S::decimal(k.strike_micro as i128, 6).text(3);
    name.append(text.as_str());
}

fn make_box<S: Number>(
    expiry: &String,
    fee: S,
    k1: StrikeInfo,
    k2: StrikeInfo,
    c1: usize,
    c2: usize,
    p1: usize,
    p2: usize,
) -> (r: ActiveStructure<S>)
    requires
        k1.call_idx == Some(c1),
        k2.call_idx == Some(c2),
        k1.put_idx == Some(p1),
        k2.put_idx == Some(p2),
    ensures
        r@ == box_structure(expiry@, fee, k1, k2),
{
    let mut name = String::from_str("Box_");
    name.append(expiry.as_str());
    push_strike::<S>(&mut name, k1);
    push_strike::<S>(&mut name, k2);
    let legs: Vec<(usize, S)> = vec![
        (c1, S::decimal(1, 0)),
        (c2, S::decimal(-1, 0)),
        (p2, S::decimal(1, 0)),
        (p1, S::decimal(-1, 0)),
    ];
    let r = ActiveStructure { name, legs, expected_fee: S::decimal(4, 0).times(fee) };
    assert(r@.legs =~= box_structure(expiry@, fee, k1, k2).legs);
    r
}

fn make_fly<S: Number>(
    expiry: &String,
    fee: S,
    call: bool,
    k1: StrikeInfo,
    k2: StrikeInfo,
    k3: StrikeInfo,
    c1: usize,
    c2: usize,
    c3: usize,
) -> (r: ActiveStructure<S>)
    requires
        option_at(k1, call) == Some(c1),
        option_at(k2, call) == Some(c2),
        option_at(k3, call) == Some(c3),
    ensures
        r@ == fly_structure(expiry@, fee, call, k1, k2, k3),
{
    let mut name = if call {
        String::from_str("C_Fly_")
    } else {
        String::from_str("P_Fly_")
    };
    name.append(expiry.as_str());
    push_strike::<S>(&mut name, k1);
    push_strike::<S>(&mut name, k2);
    push_strike::<S>(&mut name, k3);
    let legs: Vec<(usize, S)> = vec![
        (c1, S::decimal(1, 0)),
        (c2, S::decimal(-2, 0)),
        (c3, S::decimal(1, 0)),
    ];
    let r = ActiveStructure { name, legs, expected_fee: S::decimal(4, 0).times(fee) };
    assert(r@.legs =~= fly_structure(expiry@, fee, call, k1, k2, k3).legs);
    r
}

fn make_condor<S: Number>(
    expiry: &String,
    fee: S,
    k1: StrikeInfo,
    k2: StrikeInfo,
    k3: StrikeInfo,
    k4: StrikeInfo,
    p1: usize,
    p2: usize,
    c3: usize,
    c4: usize,
) -> (r: ActiveStructure<S>)
    requires
        k1.put_idx == Some(p1),
        k2.put_idx == Some(p2),
        k3.call_idx == Some(c3),
        k4.call_idx == Some(c4),
    ensures
        r@ == condor_structure(expiry@, fee, k1, k2, k3, k4),
{
    let mut name = String::from_str("Condor_");
    name.append(expiry.as_str());
    push_strike::<S>(&mut name, k1);
    push_strike::<S>(&mut name, k2);
    push_strike::<S>(&mut name, k3);
    push_strike::<S>(&mut name, k4);
    let legs: Vec<(usize, S)> = vec![
        (p1, S::decimal(1, 0)),
        (p2, S::decimal(-1, 0)),
        (c3, S::decimal(-1, 0)),
        (c4, S::decimal(1, 0)),
    ];
    let r = ActiveStructure { name, legs, expected_fee: S::decimal(4, 0).times(fee) };
    assert(r@.legs =~= condor_structure(expiry@, fee, k1, k2, k3, k4).legs);
    r
}

/// The end of the strikes that lie at most `reach - 1` above the one at `i`.
fn limit_of(i: usize, reach: usize, n: usize) -> (r: usize)
    requires
        i < n,
        reach < 10,
    ensures
        r == lesser(i + reach, n as int),
{
    if n - i < reach {
        n
    } else {
        i + reach
    }
}

fn push_boxes<S: Number>(
    list: &mut Vec<ActiveStructure<S>>,
    t: &Vec<StrikeInfo>,
    expiry: &String,
    fee: S,
)
    ensures
        structure_models(final(list)@) == structure_models(old(list)@) + boxes(
            t@,
            expiry@,
            fee,
            t@.len() as int,
        ),
{
    let n = t.len();
    let ghost start = structure_models(list@);
    assert(start =~= start + boxes(t@, expiry@, fee, 0));
    let mut i: usize = 0;
    while i < n
        invariant
            i <= n,
            n == t@.len(),
            structure_models(list@) == start + boxes(t@, expiry@, fee, i as int),
        decreases n - i,
    {
        let limit = limit_of(i, 3, n);
        let ghost before = structure_models(list@);
        assert(before =~= before + boxes_over(t@, expiry@, fee, i as int, i + 1));
        let mut j: usize = i + 1;
        while j < limit
            invariant
                i < j <= limit <= n,
                n == t@.len(),
                structure_models(list@) == before + boxes_over(
                    t@,
                    expiry@,
                    fee,
                    i as int,
                    j as int,
                ),
            decreases limit - j,
        {
            let (k1, k2) = (t[i], t[j]);
            let ghost last = structure_models(list@);
            if let (Some(c1), Some(c2), Some(p1), Some(p2)) = (
                k1.call_idx,
                k2.call_idx,
                k1.put_idx,
                k2.put_idx,
            ) {
                let a = make_box(expiry, fee, k1, k2, c1, c2, p1, p2);
                proof {
                    lemma_structure_models_push(list@, a);
                    assert(last.push(a@) =~= before + boxes_over(
                        t@,
                        expiry@,
                        fee,
                        i as int,
                        j + 1,
                    ));
                }
                list.push(a);
            }
            j = j + 1;
        }
        i = i + 1;
        assert(structure_models(list@) =~= start + boxes(t@, expiry@, fee, i as int));
    }
}

fn push_fly<S: Number>(
    list: &mut Vec<ActiveStructure<S>>,
    expiry: &String,
    fee: S,
    call: bool,
    k1: StrikeInfo,
    k2: StrikeInfo,
    k3: StrikeInfo,
)
    requires
        k1.strike_micro < k2.strike_micro < k3.strike_micro,
    ensures
        structure_models(final(list)@) == with_fly_structure(
            structure_models(old(list)@),
            expiry@,
            fee,
            call,
            k1,
            k2,
            k3,
        ),
{
    if k2.strike_micro - k1.strike_micro == k3.strike_micro - k2.strike_micro {
        let places = if call {
            (k1.call_idx, k2.call_idx, k3.call_idx)
        } else {
            (k1.put_idx, k2.put_idx, k3.put_idx)
        };
        if let (Some(c1), Some(c2), Some(c3)) = places {
            let a = make_fly(expiry, fee, call, k1, k2, k3, c1, c2, c3);
            proof {
                lemma_structure_models_push(list@, a);
            }
            list.push(a);
        }
    }
}

fn push_flies<S: Number>(
    list: &mut Vec<ActiveStructure<S>>,
    t: &Vec<StrikeInfo>,
    expiry: &String,
    fee: S,
)
    requires
        ascending(t@),
    ensures
        structure_models(final(list)@) == structure_models(old(list)@) + flies(
            t@,
            expiry@,
            fee,
            t@.len() as int,
        ),
{
    let n = t.len();
    let ghost start = structure_models(list@);
    assert(start =~= start + flies(t@, expiry@, fee, 0));
    let mut i: usize = 0;
    while i < n
        invariant
            i <= n,
            n == t@.len(),
            ascending(t@),
            structure_models(list@) == start + flies(t@, expiry@, fee, i as int),
        decreases n - i,
    {
        let limit = limit_of(i, 5, n);
        let ghost before = structure_models(list@);
        assert(before =~= before + flies_from(t@, expiry@, fee, i as int, i + 1, limit as int));
        let mut j: usize = i + 1;
        while j < limit
            invariant
                i < j <= limit <= n,
                n == t@.len(),
                ascending(t@),
                structure_models(list@) == before + flies_from(
                    t@,
                    expiry@,
                    fee,
                    i as int,
                    j as int,
                    limit as int,
                ),
            decreases limit - j,
        {
            let ghost before_j = structure_models(list@);
            assert(before_j =~= before_j + flies_over(
                t@,
                expiry@,
                fee,
                i as int,
                j as int,
                j + 1,
            ));
            let mut k: usize = j + 1;
            while k < limit
                invariant
                    i < j < k <= limit <= n,
                    n == t@.len(),
                    ascending(t@),
                    structure_models(list@) == before_j + flies_over(
                        t@,
                        expiry@,
                        fee,
                        i as int,
                        j as int,
                        k as int,
                    ),
                decreases limit - k,
            {
                let (k1, k2, k3) = (t[i], t[j], t[k]);
                push_fly(list, expiry, fee, true, k1, k2, k3);
                push_fly(list, expiry, fee, false, k1, k2, k3);
                assert(structure_models(list@) =~= before_j + flies_over(
                    t@,
                    expiry@,
                    fee,
                    i as int,
                    j as int,
                    k + 1,
                ));
                k = k + 1;
            }
            j = j + 1;
            assert(structure_models(list@) =~= before + flies_from(
                t@,
                expiry@,
                fee,
                i as int,
                j as int,
                limit as int,
            ));
        }
        i = i + 1;
        assert(structure_models(list@) =~= start + flies(t@, expiry@, fee, i as int));
    }
}

fn push_condors_over<S: Number>(
    list: &mut Vec<ActiveStructure<S>>,
    t: &Vec<StrikeInfo>,
    expiry: &String,
    fee: S,
    i: usize,
    j: usize,
    k: usize,
    limit: usize,
)
    requires
        i < j < k < limit <= t@.len(),
    ensures
        structure_models(final(list)@) == structure_models(old(list)@) + condors_over(
            t@,
            expiry@,
            fee,
            i as int,
            j as int,
            k as int,
            limit as int,
        ),
{
    let ghost start = structure_models(list@);
    assert(start =~= start + condors_over(
        t@,
        expiry@,
        fee,
        i as int,
        j as int,
        k as int,
        k + 1,
    ));
    let mut l: usize = k + 1;
    while l < limit
        invariant
            i < j < k < l <= limit <= t@.len(),
            structure_models(list@) == start + condors_over(
                t@,
                expiry@,
                fee,
                i as int,
                j as int,
                k as int,
                l as int,
            ),
        decreases limit - l,
    {
        let (k1, k2, k3, k4) = (t[i], t[j], t[k], t[l]);
        let ghost last = structure_models(list@);
        if let (Some(p1), Some(p2), Some(c3), Some(c4)) = (
            k1.put_idx,
            k2.put_idx,
            k3.call_idx,
            k4.call_idx,
        ) {
            let a = make_condor(expiry, fee, k1, k2, k3, k4, p1, p2, c3, c4);
            proof {
                lemma_structure_models_push(list@, a);
                assert(last.push(a@) =~= start + condors_over(
                    t@,
                    expiry@,
                    fee,
                    i as int,
                    j as int,
                    k as int,
                    l + 1,
                ));
            }
            list.push(a);
        }
        l = l + 1;
    }
}

fn push_condors<S: Number>(
    list: &mut Vec<ActiveStructure<S>>,
    t: &Vec<StrikeInfo>,
    expiry: &String,
    fee: S,
)
    ensures
        structure_models(final(list)@) == structure_models(old(list)@) + condors(
            t@,
            expiry@,
            fee,
            t@.len() as int,
        ),
{
    let n = t.len();
    let ghost start = structure_models(list@);
    assert(start =~= start + condors(t@, expiry@, fee, 0));
    let mut i: usize = 0;
    while i < n
        invariant
            i <= n,
            n == t@.len(),
            structure_models(list@) == start + condors(t@, expiry@, fee, i as int),
        decreases n - i,
    {
        let limit = limit_of(i, 6, n);
        let ghost before = structure_models(list@);
        assert(before =~= before + condors_from(t@, expiry@, fee, i as int, i + 1, limit as int));
        let mut j: usize = i + 1;
        while j < limit
            invariant
                i < j <= limit <= n,
                n == t@.len(),
                structure_models(list@) == before + condors_from(
                    t@,
                    expiry@,
                    fee,
                    i as int,
                    j as int,
                    limit as int,
                ),
            decreases limit - j,
        {
            let ghost before_j = structure_models(list@);
            assert(before_j =~= before_j + condors_third(
                t@,
                expiry@,
                fee,
                i as int,
                j as int,
                j + 1,
                limit as int,
            ));
            let mut k: usize = j + 1;
            while k < limit
                invariant
                    i < j < k <= limit <= n,
                    n == t@.len(),
                    structure_models(list@) == before_j + condors_third(
                        t@,
                        expiry@,
                        fee,
                        i as int,
                        j as int,
                        k as int,
                        limit as int,
                    ),
                decreases limit - k,
            {
                push_condors_over(list, t, expiry, fee, i, j, k, limit);
                k = k + 1;
                assert(structure_models(list@) =~= before_j + condors_third(
                    t@,
                    expiry@,
                    fee,
                    i as int,
                    j as int,
                    k as int,
                    limit as int,
                ));
            }
            j = j + 1;
            assert(structure_models(list@) =~= before + condors_from(
                t@,
                expiry@,
                fee,
                i as int,
                j as int,
                limit as int,
            ));
        }
        i = i + 1;
        assert(structure_models(list@) =~= start + condors(t@, expiry@, fee, i as int));
    }
}

/// Generates all options-only structures of a grid, expiry by expiry.
pub fn generate_active_structures<S: Number>(grid: &OptionGrid<S>, fee_per_contract: S) -> (r: Vec<
    ActiveStructure<S>,
>)
    ensures
        structure_models(r@) == active_structures(grid.contracts@, fee_per_contract),
        legs_scored(r@, grid.contracts@.len()),
{
    let expiries = find_expiries(&grid.contracts);
    let ghost order = expiry_order(grid.contracts@, grid.contracts@.len());
    let mut list: Vec<ActiveStructure<S>> = Vec::new();
    assert(structure_models(list@) =~= Seq::empty());
    let count = expiries.len();
    let mut e: usize = 0;
    while e < count
        invariant
            e <= count,
            count == expiries@.len(),
            expiries@.map_values(|s: String| s@) == order,
            order == expiry_order(grid.contracts@, grid.contracts@.len()),
            structure_models(list@) == structures_of_expiries(
                grid.contracts@,
                fee_per_contract,
                e as nat,
            ),
        decreases count - e,
    {
        let expiry = &expiries[e];
        assert(order[e as int] == expiry@);
        let t = build_strike_table(&grid.contracts, expiry);
        push_boxes(&mut list, &t, expiry, fee_per_contract);
        push_flies(&mut list, &t, expiry, fee_per_contract);
        push_condors(&mut list, &t, expiry, fee_per_contract);
        e = e + 1;
        assert(structure_models(list@) =~= structures_of_expiries(
            grid.contracts@,
            fee_per_contract,
            e as nat,
        ));
    }
    proof {
        assert(grid.contracts@.len() == grid.contracts.len());
        law_structure_legs_in_grid(grid.contracts@, fee_per_contract, count as nat);
        let models = structure_models(list@);
        assert forall|p: int, q: int| 0 <= p < list@.len() && 0 <= q < list@[p].legs@.len() implies (
        #[trigger] list@[p].legs@[q]).0 < grid.contracts@.len() by {
            assert(models[p].legs[q].0 < grid.contracts@.len());
        }
    }
    list
}

// ---- Scanning ----

/// Sum of the scores of the first `n` legs, each times its weight.
pub open spec fn leg_alpha<S: Quantity>(legs: Seq<(usize, S)>, scores: Seq<S>, n: nat) -> S
    decreases n,
{
    if n == 0 {
        zero::<S>()
    } else {
        leg_alpha(legs, scores, (n - 1) as nat) + legs[n - 1].1 * scores[legs[n - 1].0 as int]
    }
}

/// The fee in points of premium.
pub open spec fn fee_premium<S: Quantity>(expected_fee: S) -> S {
    expected_fee / dec::<S>(100, 0)
}

/// The side on which a structure is profitable, with its profit: bought where
/// that reaches the threshold, else sold where that does.
pub open spec fn profitable_side<S: Quantity>(
    a: StructureModel<S>,
    scores: Seq<S>,
    threshold: S,
) -> Option<(S, S)> {
    let alpha = leg_alpha(a.legs, scores, a.legs.len());
    let long_profit = alpha - fee_premium(a.expected_fee);
    let short_profit = -alpha - fee_premium(a.expected_fee);
    if threshold <= long_profit {
        Some((long_profit, dec::<S>(1, 0)))
    } else if threshold <= short_profit {
        Some((short_profit, dec::<S>(-1, 0)))
    } else {
        None
    }
}

/// The profitable ones of the first `n` structures.
pub open spec fn profitable<S: Quantity>(
    list: Seq<StructureModel<S>>,
    scores: Seq<S>,
    threshold: S,
    n: nat,
) -> Seq<(StructureModel<S>, S, S)>
    decreases n,
{
    if n == 0 {
        Seq::empty()
    } else {
        let rest = profitable(list, scores, threshold, (n - 1) as nat);
        match profitable_side(list[n - 1], scores, threshold) {
            Some((profit, side)) => rest.push((list[n - 1], profit, side)),
            None => rest,
        }
    }
}

/// The legs of every structure name contracts that have a score.
pub open spec fn legs_scored<S>(list: Seq<ActiveStructure<S>>, n: nat) -> bool {
    forall|p: int, q: int|
        0 <= p < list.len() && 0 <= q < list[p].legs@.len() ==> (
        #[trigger] list[p].legs@[q]).0 < n
}

/// The score of a structure: the scores of its legs, each times its weight.
pub fn structure_alpha<S: Number>(a: &ActiveStructure<S>, alpha_scores: &[S]) -> (r: S)
    requires
        forall|q: int| 0 <= q < a.legs@.len() ==> (#[trigger] a.legs@[q]).0 < alpha_scores@.len(),
    ensures
        r == leg_alpha(a.legs@, alpha_scores@, a.legs@.len()),
{
    let n = a.legs.len();
    let mut alpha = S::decimal(0, 0);
    let mut q: usize = 0;
    while q < n
        invariant
            q <= n,
            n == a.legs@.len(),
            forall|q: int|
                0 <= q < a.legs@.len() ==> (#[trigger] a.legs@[q]).0 < alpha_scores@.len(),
            alpha == leg_alpha(a.legs@, alpha_scores@, q as nat),
        decreases n - q,
    {
        let (idx, weight) = a.legs[q];
        alpha = alpha.plus(weight.times(alpha_scores[idx]));
        q = q + 1;
    }
    alpha
}

/// Picks the structures whose expected profit reaches the threshold, with that
/// profit and the side to take: one to buy, minus one to sell.
pub fn scan_strict_arbitrage<S: Number>(
    active_structs: &[ActiveStructure<S>],
    alpha_scores: &[S],
    profit_threshold: S,
) -> (r: Vec<(ActiveStructure<S>, S, S)>)
    requires
        legs_scored(active_structs@, alpha_scores@.len()),
    ensures
        r@.map_values(|t: (ActiveStructure<S>, S, S)| (t.0@, t.1, t.2)) == profitable(
            structure_models(active_structs@),
            alpha_scores@,
            profit_threshold,
            active_structs@.len(),
        ),
{
    let n = active_structs.len();
    let mut found: Vec<(ActiveStructure<S>, S, S)> = Vec::new();
    let ghost view = |t: (ActiveStructure<S>, S, S)| (t.0@, t.1, t.2);
    let ghost models = structure_models(active_structs@);
    assert(found@.map_values(view) =~= Seq::empty());
    let mut p: usize = 0;
    while p < n
        invariant
            p <= n,
            n == active_structs@.len(),
            models == structure_models(active_structs@),
            legs_scored(active_structs@, alpha_scores@.len()),
            view == (|t: (ActiveStructure<S>, S, S)| (t.0@, t.1, t.2)),
            found@.map_values(view) == profitable(
                models,
                alpha_scores@,
                profit_threshold,
                p as nat,
            ),
        decreases n - p,
    {
        let a = &active_structs[p];
        assert(models[p as int] == a@);
        assert forall|q: int| 0 <= q < a.legs@.len() implies (#[trigger] a.legs@[q]).0
            < alpha_scores@.len() by {
            assert(active_structs@[p as int].legs@[q].0 < alpha_scores@.len());
        }
        let alpha = structure_alpha(a, alpha_scores);
        let fee = a.expected_fee.over(S::decimal(100, 0));
        let long_profit = alpha.minus(fee);
        let short_profit = alpha.negated().minus(fee);
        let ghost before = found@;
        if profit_threshold.le(long_profit) {
            found.push((a.clone(), long_profit, S::decimal(1, 0)));
            assert(found@.map_values(view) =~= before.map_values(view).push(
                (a@, long_profit, dec::<S>(1, 0)),
            ));
        } else if profit_threshold.le(short_profit) {
            found.push((a.clone(), short_profit, S::decimal(-1, 0)));
            assert(found@.map_values(view) =~= before.map_values(view).push(
                (a@, short_profit, dec::<S>(-1, 0)),
            ));
        }
        p = p + 1;
    }
    found
}

} // verus!
