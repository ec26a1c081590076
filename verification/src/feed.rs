//! The live quote feed: what to subscribe to, and which messages carry a quote.

use vstd::prelude::*;
use vstd::string::*;
use crate::instruments::texts;
use crate::market::TickUpdate;
use crate::number::Number;

verus! {

/// How many channels one subscription names.
pub const BATCH: usize = 100;

/// Seconds from midnight to the end of the trading day, five minutes after the close.
pub const DAY_END: u32 = 54_300;

/// A message of the feed.
#[derive(Debug)]
pub struct FeedMessage<S> {
    pub action: String,
    pub order_book_id: String,
    pub ask: Vec<S>,
    pub bid: Vec<S>,
    pub ask_vol: Vec<S>,
    pub bid_vol: Vec<S>,
}

impl<S> FeedMessage<S> {
    /// The message carries a quote on both sides.
    pub open spec fn is_quote(self) -> bool {
        self.action@ == "feed"@ && self.ask@.len() > 0 && self.bid@.len() > 0
    }
}

/// The quote that a message of the feed carries, if it does: the best ask and bid with their
/// volumes.
pub fn quote_of_message<S: Number>(m: &FeedMessage<S>) -> (r: Option<TickUpdate<S>>)
    requires
        m.is_quote() ==> m.ask_vol@.len() > 0 && m.bid_vol@.len() > 0,
    ensures
        r is Some == m.is_quote(),
        r matches Some(t) ==> {
            &&& t.oid@ == m.order_book_id@
            &&& t.a1 == m.ask@[0]
            &&& t.b1 == m.bid@[0]
            &&& t.a1_v == m.ask_vol@[0]
            &&& t.b1_v == m.bid_vol@[0]
        },
{
    if m.action == String::from_str("feed") && m.ask.len() > 0 && m.bid.len() > 0 {
        Some(
            TickUpdate {
                oid: m.order_book_id.clone(),
                a1: m.ask[0],
                b1: m.bid[0],
                a1_v: m.ask_vol[0],
                b1_v: m.bid_vol[0],
            },
        )
    } else {
        None
    }
}

/// Whether the trading day is over at a second of the day.
pub fn day_is_over(second_of_day: u32, nanos: u32) -> (r: bool)
    ensures
        r == (second_of_day > 15 * 3600 + 5 * 60 || second_of_day == 15 * 3600 + 5 * 60 && nanos
            > 0),
{
    second_of_day > DAY_END || second_of_day == DAY_END && nanos > 0
}

/// The channel of an instrument.
pub open spec fn channel_of(oid: Seq<char>) -> Seq<char> {
    "tick_"@ + oid
}

/// What lists of channels hold, one list after the other.
pub open spec fn all_channels(batches: Seq<Vec<String>>) -> Seq<Seq<char>>
    decreases batches.len(),
{
    if batches.len() == 0 {
        Seq::empty()
    } else {
        all_channels(batches.drop_last()) + texts(batches.last()@)
    }
}

/// The channels of instruments in batches: all of them, in order, a hundred to a batch but for the
/// last, which is not empty.
pub fn subscription_batches(ids: &Vec<String>) -> (r: Vec<Vec<String>>)
    ensures
        all_channels(r@) == texts(ids@).map_values(|oid: Seq<char>| channel_of(oid)),
        forall|b: int| 0 <= b < r@.len() - 1 ==> (#[trigger] r@[b])@.len() == 100,
        forall|b: int| 0 <= b < r@.len() ==> 0 < (#[trigger] r@[b])@.len() <= 100,
{
    let n = ids.len();
    let ghost all = texts(ids@).map_values(|oid: Seq<char>| channel_of(oid));
    let mut batches: Vec<Vec<String>> = Vec::new();
    let mut batch: Vec<String> = Vec::new();
    let mut i: usize = 0;
    assert(all_channels(batches@) + texts(batch@) =~= all.take(0));
    while i < n
        invariant
            i <= n,
            n == ids@.len(),
            all == texts(ids@).map_values(|oid: Seq<char>| channel_of(oid)),
            all_channels(batches@) + texts(batch@) == all.take(i as int),
            forall|b: int| 0 <= b < batches@.len() ==> (#[trigger] batches@[b])@.len() == 100,
            batch@.len() <= 100,
            i > 0 ==> batch@.len() > 0,
            i == 0 ==> batches@.len() == 0 && batch@.len() == 0,
        decreases n - i,
    {
        if batch.len() == BATCH {
            let ghost before = batches@;
            let ghost full = batch@;
            batches.push(batch);
            batch = Vec::new();
            assert(batches@.drop_last() =~= before);
            assert(all_channels(batches@) + texts(batch@) =~= all_channels(before) + texts(full));
        }
        let mut channel = String::from_str("tick_");
        channel.append(ids[i].as_str());
        let ghost held = batch@;
        let ghost model = channel@;
        let ghost so_far = all_channels(batches@) + texts(batch@);
        assert(so_far =~= all.take(i as int));
        batch.push(channel);
        i = i + 1;
        assert(texts(batch@) =~= texts(held).push(model));
        assert(all[i - 1] == model);
        assert(all_channels(batches@) + texts(batch@) =~= so_far.push(model));
        assert(all.take(i as int) =~= all.take(i - 1).push(all[i - 1]));
    }
    assert(all.take(n as int) =~= all);
    if batch.len() > 0 {
        let ghost before = batches@;
        let ghost rest = batch@;
        batches.push(batch);
        assert(batches@.drop_last() =~= before);
        assert(all_channels(batches@) =~= all_channels(before) + texts(rest));
    } else {
        assert(texts(batch@) =~= Seq::empty());
    }
    batches
}

} // verus!
