//! The listed options: reading the instrument table, choosing the nearest expiry, and
//! grouping strikes into contexts.

use vstd::prelude::*;
use vstd::string::*;
use crate::calendar::{
    date_in_text, day_number, days_between, fourth_wednesday, get_4th_wednesday, parse_date_text,
    CalendarDate,
};
use crate::market::{BoxContext, ContextIndex, OptionMeta};
use crate::number::{zero, Number, Quantity};
use crate::text::{char_place, find_char};

verus! {

// ---- The instrument table ----

/// The heading and the rows that `csv::Reader` reads from a text, if all of it is well
/// formed.
pub uninterp spec fn csv_in_text(text: Seq<char>) -> Option<
    (Seq<Seq<char>>, Seq<Seq<Seq<char>>>),
>;

/// What a list of texts holds.
pub open spec fn texts(list: Seq<String>) -> Seq<Seq<char>> {
    list.map_values(|s: String| s@)
}

/// What a table holds.
pub open spec fn table(rows: Seq<Vec<String>>) -> Seq<Seq<Seq<char>>> {
    rows.map_values(|r: Vec<String>| texts(r@))
}

/// Reads a table by `csv::Reader` with its default settings, the first line as heading. What
/// is read is named by [`csv_in_text`]; nothing is read where any record is malformed.
#[verifier::external_body]
fn read_csv(text: &str) -> (r: Option<(Vec<String>, Vec<Vec<String>>)>)
    ensures
        csv_in_text(text@) == match r {
            Some((heading, rows)) => Some((texts(heading@), table(rows@))),
            None => None,
        },
{
    let mut reader = csv::Reader::from_reader(text.as_bytes());
    let heading = reader.headers().ok()?.iter().map(String::from).collect();
    let mut rows = Vec::new();
    for record in reader.records() {
        rows.push(record.ok()?.iter().map(String::from).collect());
    }
    Some((heading, rows))
}

/// The last place of a name in a heading, below `n`.
pub open spec fn column_of(heading: Seq<Seq<char>>, name: Seq<char>, n: nat) -> Option<int>
    decreases n,
{
    if n == 0 {
        None
    } else if heading[n - 1] == name {
        Some(n - 1)
    } else {
        column_of(heading, name, (n - 1) as nat)
    }
}

/// The cell of a row under a name, if the table has it.
pub open spec fn cell_of(
    heading: Seq<Seq<char>>,
    row: Seq<Seq<char>>,
    name: Seq<char>,
) -> Option<Seq<char>> {
    match column_of(heading, name, heading.len()) {
        Some(c) => if c < row.len() {
            Some(row[c])
        } else {
            None
        },
        None => None,
    }
}

/// The cell of a row under a name, empty where there is none.
pub open spec fn cell_or_empty(
    heading: Seq<Seq<char>>,
    row: Seq<Seq<char>>,
    name: Seq<char>,
) -> Seq<char> {
    match cell_of(heading, row, name) {
        Some(text) => text,
        None => Seq::empty(),
    }
}

/// Whether an underlying is one of those that are traded.
pub open spec fn is_target(underlying: Seq<char>) -> bool {
    underlying == "510300.XSHG"@ || underlying == "510500.XSHG"@ || underlying == "588000.XSHG"@
}

/// What an [`OptionMeta`] holds.
pub ghost struct MetaModel<S> {
    pub oid: Seq<char>,
    pub underlying: Seq<char>,
    pub maturity: Seq<char>,
    pub opt_type: Seq<char>,
    pub strike: S,
}

impl<S> View for OptionMeta<S> {
    type V = MetaModel<S>;

    open spec fn view(&self) -> MetaModel<S> {
        MetaModel {
            oid: self.oid@,
            underlying: self.underlying@,
            maturity: self.maturity@,
            opt_type: self.opt_type@,
            strike: self.strike,
        }
    }
}

/// The option that a row describes. A strike that can not be read counts as nothing.
pub open spec fn option_of_row<S: Quantity>(
    heading: Seq<Seq<char>>,
    row: Seq<Seq<char>>,
) -> MetaModel<S> {
    MetaModel {
        oid: cell_or_empty(heading, row, "order_book_id"@),
        underlying: cell_or_empty(heading, row, "underlying_symbol"@),
        maturity: cell_or_empty(heading, row, "maturity_date"@),
        opt_type: cell_or_empty(heading, row, "option_type"@),
        strike: match cell_of(heading, row, "strike_price"@) {
            Some(text) => match S::spec_parse(text) {
                Some(strike) => strike,
                None => zero::<S>(),
            },
            None => zero::<S>(),
        },
    }
}

/// The options of the first `n` rows whose underlying is traded.
pub open spec fn target_options<S: Quantity>(
    heading: Seq<Seq<char>>,
    rows: Seq<Seq<Seq<char>>>,
    n: nat,
) -> Seq<MetaModel<S>>
    decreases n,
{
    if n == 0 {
        Seq::empty()
    } else {
        let rest = target_options::<S>(heading, rows, (n - 1) as nat);
        let option = option_of_row::<S>(heading, rows[n - 1]);
        if is_target(option.underlying) {
            rest.push(option)
        } else {
            rest
        }
    }
}

/// What a list of options holds.
pub open spec fn meta_models<S>(list: Seq<OptionMeta<S>>) -> Seq<MetaModel<S>> {
    list.map_values(|o: OptionMeta<S>| o@)
}

/// Whether a text is the given one.
fn same_text(a: &String, b: &str) -> (r: bool)
    ensures
        r == (a@ == b@),
{
    *a == String::from_str(b)
}

fn find_column(heading: &Vec<String>, name: &str) -> (r: Option<usize>)
    ensures
        match r {
            Some(c) => column_of(texts(heading@), name@, heading@.len()) == Some(c as int),
            None => column_of(texts(heading@), name@, heading@.len()) is None,
        },
{
    let ghost all = texts(heading@);
    let mut n: usize = heading.len();
    while n > 0
        invariant
            n <= heading@.len(),
            all == texts(heading@),
            column_of(all, name@, heading@.len()) == column_of(all, name@, n as nat),
        decreases n,
    {
        assert(all[n - 1] == heading@[n - 1]@);
        if same_text(&heading[n - 1], name) {
            return Some(n - 1);
        }
        n = n - 1;
    }
    None
}

fn find_cell(heading: &Vec<String>, row: &Vec<String>, name: &str) -> (r: Option<String>)
    ensures
        cell_of(texts(heading@), texts(row@), name@) == match r {
            Some(text) => Some(text@),
            None => None,
        },
{
    match find_column(heading, name) {
        Some(c) => {
            if c < row.len() {
                assert(texts(row@)[c as int] == row@[c as int]@);
                Some(row[c].clone())
            } else {
                None
            }
        },
        None => None,
    }
}

fn cell_text(heading: &Vec<String>, row: &Vec<String>, name: &str) -> (r: String)
    ensures
        r@ == cell_or_empty(texts(heading@), texts(row@), name@),
{
    match find_cell(heading, row, name) {
        Some(text) => text,
        None => String::new(),
    }
}

/// Picks the options whose underlying is traded from the rows of the instrument table.
pub fn select_options<S: Number>(heading: &Vec<String>, rows: &Vec<Vec<String>>) -> (r: Vec<
    OptionMeta<S>,
>)
    ensures
        meta_models(r@) == target_options::<S>(texts(heading@), table(rows@), rows@.len()),
{
    let ghost all = table(rows@);
    let n = rows.len();
    let mut options: Vec<OptionMeta<S>> = Vec::new();
    assert(meta_models(options@) =~= Seq::empty());
    let mut i: usize = 0;
    while i < n
        invariant
            i <= n,
            n == rows@.len(),
            all == table(rows@),
            meta_models(options@) == target_options::<S>(texts(heading@), all, i as nat),
        decreases n - i,
    {
        let row = &rows[i];
        assert(all[i as int] == texts(row@));
        let underlying = cell_text(heading, row, "underlying_symbol");
        if same_text(&underlying, "510300.XSHG") || same_text(&underlying, "510500.XSHG")
            || same_text(&underlying, "588000.XSHG") {
            let strike = match find_cell(heading, row, "strike_price") {
                Some(text) => match S::parse(text.as_str()) {
                    Some(strike) => strike,
                    None => S::decimal(0, 0),
                },
                None => S::decimal(0, 0),
            };
            let option = OptionMeta {
                oid: cell_text(heading, row, "order_book_id"),
                underlying,
                maturity: cell_text(heading, row, "maturity_date"),
                opt_type: cell_text(heading, row, "option_type"),
                strike,
            };
            let ghost model = option@;
            let ghost before = options@;
            options.push(option);
            assert(meta_models(options@) =~= meta_models(before).push(model));
        }
        i = i + 1;
    }
    options
}

/// The traded options of an instrument table in its text form, unless it is malformed.
pub fn options_from_csv<S: Number>(text: &str) -> (r: Option<Vec<OptionMeta<S>>>)
    ensures
        match csv_in_text(text@) {
            Some((heading, rows)) => r matches Some(list) && meta_models(list@) == target_options::<
                S,
            >(heading, rows, rows.len()),
            None => r is None,
        },
{
    match read_csv(text) {
        Some((heading, rows)) => Some(select_options(&heading, &rows)),
        None => None,
    }
}

// ---- The nearest expiry ----

/// A listed option that expires within the next 255 days.
#[derive(Debug)]
pub struct LiveOption<S> {
    pub oid: String,
    pub prefix: String,
    pub expiry: CalendarDate,
    pub opt_type: String,
    pub strike: S,
    pub dte: u8,
}

/// What a [`LiveOption`] holds.
pub ghost struct LiveModel<S> {
    pub oid: Seq<char>,
    pub prefix: Seq<char>,
    pub expiry: CalendarDate,
    pub opt_type: Seq<char>,
    pub strike: S,
    pub dte: u8,
}

impl<S> View for LiveOption<S> {
    type V = LiveModel<S>;

    open spec fn view(&self) -> LiveModel<S> {
        LiveModel {
            oid: self.oid@,
            prefix: self.prefix@,
            expiry: self.expiry,
            opt_type: self.opt_type@,
            strike: self.strike,
            dte: self.dte,
        }
    }
}

/// The option as it is traded, if its maturity can be read and its expiry, the fourth
/// Wednesday of that month, is one to 255 days away. The part of the underlying in front of
/// the first point is its prefix.
pub open spec fn live_option<S>(o: MetaModel<S>, today: CalendarDate) -> Option<LiveModel<S>> {
    match date_in_text(o.maturity, "%Y-%m-%d"@) {
        None => None,
        Some((year, month, _)) => {
            let day = fourth_wednesday(year as int, month as int);
            let dte = day_number(year as int, month as int, day) - today.number();
            if 0 < dte <= 255 {
                Some(
                    LiveModel {
                        oid: o.oid,
                        prefix: o.underlying.take(char_place(o.underlying, '.', 0)),
                        expiry: CalendarDate { year, month, day: day as u32 },
                        opt_type: o.opt_type,
                        strike: o.strike,
                        dte: dte as u8,
                    },
                )
            } else {
                None
            }
        },
    }
}

/// The options among the first `n` that are traded.
pub open spec fn live_options<S>(list: Seq<MetaModel<S>>, today: CalendarDate, n: nat) -> Seq<
    LiveModel<S>,
>
    decreases n,
{
    if n == 0 {
        Seq::empty()
    } else {
        let rest = live_options(list, today, (n - 1) as nat);
        match live_option(list[n - 1], today) {
            Some(o) => rest.push(o),
            None => rest,
        }
    }
}

/// What a list of traded options holds.
pub open spec fn live_models<S>(list: Seq<LiveOption<S>>) -> Seq<LiveModel<S>> {
    list.map_values(|o: LiveOption<S>| o@)
}

/// The option as it is traded, if it is.
pub fn near_option<S: Number>(o: &OptionMeta<S>, today: CalendarDate) -> (r: Option<LiveOption<S>>)
    requires
        today.exists_in_calendar(),
    ensures
        live_option(o@, today) == match r {
            Some(l) => Some(l@),
            None => None,
        },
{
    match parse_date_text(o.maturity.as_str(), "%Y-%m-%d") {
        Some(date) => {
            let expiry = get_4th_wednesday(date.year, date.month);
            let dte = days_between(expiry, today);
            if dte > 0 && dte <= 255 {
                let end = find_char(o.underlying.as_str(), '.');
                let prefix = o.underlying.as_str().substring_char(0, end);
                assert(prefix@ =~= o.underlying@.take(end as int));
                Some(
                    LiveOption {
                        oid: o.oid.clone(),
                        prefix: String::from_str(prefix),
                        expiry,
                        opt_type: o.opt_type.clone(),
                        strike: o.strike,
                        dte: dte as u8,
                    },
                )
            } else {
                None
            }
        },
        None => None,
    }
}

/// The options of a list that are traded.
pub fn near_options<S: Number>(list: &Vec<OptionMeta<S>>, today: CalendarDate) -> (r: Vec<
    LiveOption<S>,
>)
    requires
        today.exists_in_calendar(),
    ensures
        live_models(r@) == live_options(meta_models(list@), today, list@.len()),
{
    let ghost all = meta_models(list@);
    let n = list.len();
    let mut live: Vec<LiveOption<S>> = Vec::new();
    assert(live_models(live@) =~= Seq::empty());
    let mut i: usize = 0;
    while i < n
        invariant
            i <= n,
            n == list@.len(),
            all == meta_models(list@),
            today.exists_in_calendar(),
            live_models(live@) == live_options(all, today, i as nat),
        decreases n - i,
    {
        assert(all[i as int] == list@[i as int]@);
        if let Some(o) = near_option(&list[i], today) {
            let ghost before = live@;
            let ghost model = o@;
            live.push(o);
            assert(live_models(live@) =~= live_models(before).push(model));
        }
        i = i + 1;
    }
    live
}

/// The fewest days to expiry among the first `n` options, of which there is at least one.
pub open spec fn fewest_days<S>(list: Seq<LiveModel<S>>, n: nat) -> u8
    decreases n,
{
    if n <= 1 {
        list[0].dte
    } else {
        let rest = fewest_days(list, (n - 1) as nat);
        if list[n - 1].dte < rest {
            list[n - 1].dte
        } else {
            rest
        }
    }
}

/// The fewest days to expiry of any option, if there is one.
pub fn min_dte<S: Number>(list: &Vec<LiveOption<S>>) -> (r: Option<u8>)
    ensures
        list@.len() == 0 ==> r is None,
        list@.len() > 0 ==> r == Some(fewest_days(live_models(list@), list@.len())),
{
    let ghost all = live_models(list@);
    let n = list.len();
    if n == 0 {
        return None;
    }
    assert(all[0] == list@[0]@);
    let mut least = list[0].dte;
    let mut i: usize = 1;
    while i < n
        invariant
            1 <= i <= n,
            n == list@.len(),
            all == live_models(list@),
            least == fewest_days(all, i as nat),
        decreases n - i,
    {
        assert(all[i as int] == list@[i as int]@);
        if list[i].dte < least {
            least = list[i].dte;
        }
        i = i + 1;
    }
    Some(least)
}

/// No option has fewer days to expiry than the fewest, and one has just as many.
pub proof fn law_fewest_days<S>(list: Seq<LiveModel<S>>, n: nat)
    requires
        1 <= n <= list.len(),
    ensures
        forall|i: int| 0 <= i < n ==> fewest_days(list, n) <= (#[trigger] list[i]).dte,
        exists|i: int| 0 <= i < n && fewest_days(list, n) == (#[trigger] list[i]).dte,
    decreases n,
{
    if n > 1 {
        law_fewest_days(list, (n - 1) as nat);
        let rest = fewest_days(list, (n - 1) as nat);
        if list[n - 1].dte < rest {
            assert(list[n - 1].dte == fewest_days(list, n));
        } else {
            let i = choose|i: int| 0 <= i < n - 1 && rest == (#[trigger] list[i]).dte;
            assert(list[i].dte == fewest_days(list, n));
        }
    } else {
        assert(list[0].dte == fewest_days(list, n));
    }
}

/// The identifiers of the options among the first `n` with the given days to expiry.
pub open spec fn ids_at<S>(list: Seq<LiveModel<S>>, dte: u8, n: nat) -> Seq<Seq<char>>
    decreases n,
{
    if n == 0 {
        Seq::empty()
    } else {
        let rest = ids_at(list, dte, (n - 1) as nat);
        if list[n - 1].dte == dte {
            rest.push(list[n - 1].oid)
        } else {
            rest
        }
    }
}

/// The identifiers of the options with the given days to expiry.
pub fn active_ids<S: Number>(list: &Vec<LiveOption<S>>, dte: u8) -> (r: Vec<String>)
    ensures
        texts(r@) == ids_at(live_models(list@), dte, list@.len()),
{
    let ghost all = live_models(list@);
    let n = list.len();
    let mut ids: Vec<String> = Vec::new();
    assert(texts(ids@) =~= Seq::empty());
    let mut i: usize = 0;
    while i < n
        invariant
            i <= n,
            n == list@.len(),
            all == live_models(list@),
            texts(ids@) == ids_at(all, dte, i as nat),
        decreases n - i,
    {
        assert(all[i as int] == list@[i as int]@);
        if list[i].dte == dte {
            let ghost before = ids@;
            let id = list[i].oid.clone();
            ids.push(id);
            assert(texts(ids@) =~= texts(before).push(id@));
        }
        i = i + 1;
    }
    ids
}

// ---- Contexts ----

/// A strike of one underlying and expiry, as it is written, with its call and its put.
pub struct StrikeSlot<S> {
    pub text: String,
    pub value: S,
    pub call: Option<String>,
    pub put: Option<String>,
}

/// What a [`StrikeSlot`] holds.
pub ghost struct SlotModel<S> {
    pub text: Seq<char>,
    pub value: S,
    pub call: Option<Seq<char>>,
    pub put: Option<Seq<char>>,
}

/// The text that may be there.
pub open spec fn text_of(value: Option<String>) -> Option<Seq<char>> {
    match value {
        Some(s) => Some(s@),
        None => None,
    }
}

impl<S> View for StrikeSlot<S> {
    type V = SlotModel<S>;

    open spec fn view(&self) -> SlotModel<S> {
        SlotModel {
            text: self.text@,
            value: self.value,
            call: text_of(self.call),
            put: text_of(self.put),
        }
    }
}

/// What a list of strikes holds.
pub open spec fn slot_models<S>(list: Seq<StrikeSlot<S>>) -> Seq<SlotModel<S>> {
    list.map_values(|s: StrikeSlot<S>| s@)
}

/// A strike with an option filed under its type.
pub open spec fn with_option<S>(s: SlotModel<S>, opt_type: Seq<char>, oid: Seq<char>) -> SlotModel<
    S,
> {
    SlotModel {
        call: if opt_type == "C"@ {
            Some(oid)
        } else {
            s.call
        },
        put: if opt_type == "P"@ {
            Some(oid)
        } else {
            s.put
        },
        ..s
    }
}

/// The place of the strike that is written so, or the length of the list.
pub open spec fn slot_place<S>(list: Seq<SlotModel<S>>, text: Seq<char>, from: int) -> int
    decreases list.len() - from,
{
    if from >= list.len() {
        list.len() as int
    } else if list[from].text == text {
        from
    } else {
        slot_place(list, text, from + 1)
    }
}

/// The place of the first strike above a value, or the length of the list.
pub open spec fn above_place<S: Quantity>(list: Seq<SlotModel<S>>, value: S, from: int) -> int
    decreases list.len() - from,
{
    if from >= list.len() {
        list.len() as int
    } else if value < list[from].value {
        from
    } else {
        above_place(list, value, from + 1)
    }
}

/// The strike of an option as it is written, to one place.
pub open spec fn strike_text_of<S: Quantity>(o: LiveModel<S>) -> Seq<char> {
    o.strike.spec_text(1)
}

/// What the written strike reads back as.
pub open spec fn strike_value_of<S: Quantity>(o: LiveModel<S>) -> Option<S> {
    S::spec_parse(strike_text_of(o))
}

/// The strikes, in ascending order, with one more option. Nothing comes of it where the strike
/// does not read back as a number, or where several strikes can not be put in order because
/// one is not a number.
pub open spec fn with_strike<S: Quantity>(list: Seq<SlotModel<S>>, o: LiveModel<S>) -> Option<
    Seq<SlotModel<S>>,
> {
    let text = strike_text_of(o);
    let at = slot_place(list, text, 0);
    if at < list.len() {
        Some(list.update(at, with_option(list[at], o.opt_type, o.oid)))
    } else {
        match strike_value_of(o) {
            None => None,
            Some(value) => {
                let slot = SlotModel { text, value, call: None, put: None };
                if list.len() > 0 && (value.spec_is_nan() || list[0].value.spec_is_nan()) {
                    None
                } else {
                    Some(
                        list.insert(
                            above_place(list, value, 0),
                            with_option(slot, o.opt_type, o.oid),
                        ),
                    )
                }
            },
        }
    }
}

/// The strikes of one underlying and expiry.
pub struct StrikeGroup<S> {
    pub prefix: String,
    pub expiry: CalendarDate,
    pub slots: Vec<StrikeSlot<S>>,
}

/// What a [`StrikeGroup`] holds.
pub ghost struct GroupModel<S> {
    pub prefix: Seq<char>,
    pub expiry: CalendarDate,
    pub slots: Seq<SlotModel<S>>,
}

impl<S> View for StrikeGroup<S> {
    type V = GroupModel<S>;

    open spec fn view(&self) -> GroupModel<S> {
        GroupModel {
            prefix: self.prefix@,
            expiry: self.expiry,
            slots: slot_models(self.slots@),
        }
    }
}

/// What a list of groups holds.
pub open spec fn group_models<S>(list: Seq<StrikeGroup<S>>) -> Seq<GroupModel<S>> {
    list.map_values(|g: StrikeGroup<S>| g@)
}

/// The place of the group of an underlying and expiry, or the length of the list.
pub open spec fn group_place<S>(
    list: Seq<GroupModel<S>>,
    prefix: Seq<char>,
    expiry: CalendarDate,
    from: int,
) -> int
    decreases list.len() - from,
{
    if from >= list.len() {
        list.len() as int
    } else if list[from].prefix == prefix && list[from].expiry == expiry {
        from
    } else {
        group_place(list, prefix, expiry, from + 1)
    }
}

/// The groups with one more option.
pub open spec fn with_live<S: Quantity>(list: Seq<GroupModel<S>>, o: LiveModel<S>) -> Option<
    Seq<GroupModel<S>>,
> {
    let at = group_place(list, o.prefix, o.expiry, 0);
    if at < list.len() {
        match with_strike(list[at].slots, o) {
            Some(slots) => Some(list.update(at, GroupModel { slots, ..list[at] })),
            None => None,
        }
    } else {
        match with_strike(Seq::empty(), o) {
            Some(slots) => Some(
                list.push(GroupModel { prefix: o.prefix, expiry: o.expiry, slots }),
            ),
            None => None,
        }
    }
}

/// The groups of the options among the first `n` with the given days to expiry, in the order
/// in which they appear.
pub open spec fn groups_of<S: Quantity>(list: Seq<LiveModel<S>>, dte: u8, n: nat) -> Option<
    Seq<GroupModel<S>>,
>
    decreases n,
{
    if n == 0 {
        Some(Seq::empty())
    } else {
        match groups_of(list, dte, (n - 1) as nat) {
            None => None,
            Some(groups) => if list[n - 1].dte == dte {
                with_live(groups, list[n - 1])
            } else {
                Some(groups)
            },
        }
    }
}

fn file_option<S>(slot: &mut StrikeSlot<S>, o: &LiveOption<S>)
    ensures
        final(slot)@ == with_option(old(slot)@, o.opt_type@, o.oid@),
{
    if same_text(&o.opt_type, "C") {
        slot.call = Some(o.oid.clone());
    }
    if same_text(&o.opt_type, "P") {
        slot.put = Some(o.oid.clone());
    }
}

fn file_strike<S: Number>(list: &mut Vec<StrikeSlot<S>>, o: &LiveOption<S>) -> (done: bool)
    ensures
        with_strike(slot_models(old(list)@), o@) == if done {
            Some(slot_models(final(list)@))
        } else {
            None
        },
{
    let text = o.strike.text(1);
    let n = list.len();
    let ghost models = slot_models(list@);
    let ghost before = list@;
    let mut at: usize = 0;
    while at < n && !(list[at].text == text)
        invariant
            at <= n,
            n == list@.len(),
            models == slot_models(list@),
            slot_place(models, text@, 0) == slot_place(models, text@, at as int),
        decreases n - at,
    {
        assert(models[at as int].text == list@[at as int].text@);
        at = at + 1;
    }
    if at < n {
        assert(models[at as int] == list@[at as int]@);
        file_option(&mut list[at], o);
        let ghost filed = list@[at as int]@;
        assert(slot_models(list@) =~= models.update(at as int, filed));
        return true;
    }
    let value = match S::parse(text.as_str()) {
        Some(v) => v,
        None => {
            return false;
        },
    };
    if n > 0 {
        assert(models[0] == list@[0]@);
        if value.is_nan() || list[0].value.is_nan() {
            return false;
        }
    }
    let mut place: usize = 0;
    while place < n && !value.lt(list[place].value)
        invariant
            place <= n,
            n == list@.len(),
            models == slot_models(list@),
            above_place(models, value, 0) == above_place(models, value, place as int),
        decreases n - place,
    {
        assert(models[place as int].value == list@[place as int].value);
        place = place + 1;
    }
    assert(place < n ==> models[place as int].value == list@[place as int].value);
    let mut slot = StrikeSlot { text, value, call: None, put: None };
    file_option(&mut slot, o);
    let ghost filed = slot@;
    list.insert(place, slot);
    assert(slot_models(list@) =~= models.insert(place as int, filed));
    true
}

fn file_live<S: Number>(groups: &mut Vec<StrikeGroup<S>>, o: &LiveOption<S>) -> (done: bool)
    ensures
        with_live(group_models(old(groups)@), o@) == if done {
            Some(group_models(final(groups)@))
        } else {
            None
        },
{
    let n = groups.len();
    let ghost models = group_models(groups@);
    let mut at: usize = 0;
    while at < n && !(groups[at].prefix == o.prefix && groups[at].expiry == o.expiry)
        invariant
            at <= n,
            n == groups@.len(),
            models == group_models(groups@),
            group_place(models, o.prefix@, o.expiry, 0) == group_place(
                models,
                o.prefix@,
                o.expiry,
                at as int,
            ),
        decreases n - at,
    {
        assert(models[at as int] == groups@[at as int]@);
        at = at + 1;
    }
    if at < n {
        assert(models[at as int] == groups@[at as int]@);
        let done = file_strike(&mut groups[at].slots, o);
        let ghost filed = groups@[at as int]@;
        assert(group_models(groups@) =~= models.update(at as int, filed));
        done
    } else {
        let mut slots: Vec<StrikeSlot<S>> = Vec::new();
        assert(slot_models(slots@) =~= Seq::empty());
        let done = file_strike(&mut slots, o);
        let group = StrikeGroup { prefix: o.prefix.clone(), expiry: o.expiry, slots };
        let ghost filed = group@;
        groups.push(group);
        assert(group_models(groups@) =~= models.push(filed));
        done
    }
}

fn build_groups<S: Number>(list: &Vec<LiveOption<S>>, dte: u8) -> (r: Option<Vec<StrikeGroup<S>>>)
    ensures
        groups_of(live_models(list@), dte, list@.len()) == match r {
            Some(groups) => Some(group_models(groups@)),
            None => None,
        },
{
    let ghost all = live_models(list@);
    let n = list.len();
    let mut groups: Vec<StrikeGroup<S>> = Vec::new();
    assert(group_models(groups@) =~= Seq::empty());
    let mut i: usize = 0;
    while i < n
        invariant
            i <= n,
            n == list@.len(),
            all == live_models(list@),
            groups_of(all, dte, i as nat) == Some(group_models(groups@)),
        decreases n - i,
    {
        assert(all[i as int] == list@[i as int]@);
        if list[i].dte == dte {
            if !file_live(&mut groups, &list[i]) {
                proof {
                    lemma_groups_stay_none(all, dte, i as nat + 1, n as nat);
                }
                return None;
            }
        }
        i = i + 1;
    }
    Some(groups)
}

proof fn lemma_groups_stay_none<S: Quantity>(list: Seq<LiveModel<S>>, dte: u8, m: nat, n: nat)
    requires
        m <= n,
        groups_of(list, dte, m) is None,
    ensures
        groups_of(list, dte, n) is None,
    decreases n,
{
    if m < n {
        lemma_groups_stay_none(list, dte, m, (n - 1) as nat);
    }
}

/// What a [`BoxContext`] holds.
pub ghost struct ContextModel<S> {
    pub prefix: Seq<char>,
    pub dte: u8,
    pub strikes: Seq<S>,
    pub call_oids: Seq<Seq<char>>,
    pub put_oids: Seq<Seq<char>>,
}

impl<S> View for BoxContext<S> {
    type V = ContextModel<S>;

    open spec fn view(&self) -> ContextModel<S> {
        ContextModel {
            prefix: self.prefix@,
            dte: self.dte,
            strikes: self.strikes@,
            call_oids: texts(self.call_oids@),
            put_oids: texts(self.put_oids@),
        }
    }
}

/// What a list of contexts holds.
pub open spec fn context_models<S>(list: Seq<BoxContext<S>>) -> Seq<ContextModel<S>> {
    list.map_values(|c: BoxContext<S>| c@)
}

/// A strike that has both its call and its put.
pub open spec fn is_pair<S>(s: SlotModel<S>) -> bool {
    s.call is Some && s.put is Some
}

/// The context of a group: those among its first `n` strikes that have both call and put.
pub open spec fn context_of<S>(g: GroupModel<S>, dte: u8, n: nat) -> ContextModel<S>
    decreases n,
{
    if n == 0 {
        ContextModel {
            prefix: g.prefix,
            dte,
            strikes: Seq::empty(),
            call_oids: Seq::empty(),
            put_oids: Seq::empty(),
        }
    } else {
        let rest = context_of(g, dte, (n - 1) as nat);
        let s = g.slots[n - 1];
        if is_pair(s) {
            ContextModel {
                strikes: rest.strikes.push(s.value),
                call_oids: rest.call_oids.push(s.call->0),
                put_oids: rest.put_oids.push(s.put->0),
                ..rest
            }
        } else {
            rest
        }
    }
}

/// The index with one more context of an instrument.
pub open spec fn indexed(index: Map<Seq<char>, Seq<usize>>, oid: Seq<char>, ctx: usize) -> Map<
    Seq<char>,
    Seq<usize>,
> {
    index.insert(
        oid,
        (if index.contains_key(oid) {
            index[oid]
        } else {
            Seq::empty()
        }).push(ctx),
    )
}

/// The index with the instruments of the first `n` strikes of a group.
pub open spec fn index_of<S>(
    index: Map<Seq<char>, Seq<usize>>,
    g: GroupModel<S>,
    ctx: usize,
    n: nat,
) -> Map<Seq<char>, Seq<usize>>
    decreases n,
{
    if n == 0 {
        index
    } else {
        let rest = index_of(index, g, ctx, (n - 1) as nat);
        let s = g.slots[n - 1];
        if is_pair(s) {
            indexed(indexed(rest, s.call->0, ctx), s.put->0, ctx)
        } else {
            rest
        }
    }
}

/// The contexts of the first `n` groups, and for each instrument the contexts it is part of. A
/// group with fewer than two strikes makes no context; its instruments then belong to the
/// context that comes next.
pub open spec fn contexts_and_index<S>(list: Seq<GroupModel<S>>, dte: u8, n: nat) -> (
    Seq<ContextModel<S>>,
    Map<Seq<char>, Seq<usize>>,
)
    decreases n,
{
    if n == 0 {
        (Seq::empty(), Map::empty())
    } else {
        let (contexts, index) = contexts_and_index(list, dte, (n - 1) as nat);
        let g = list[n - 1];
        let ctx = context_of(g, dte, g.slots.len());
        (
            if ctx.strikes.len() >= 2 {
                contexts.push(ctx)
            } else {
                contexts
            },
            index_of(index, g, contexts.len() as usize, g.slots.len()),
        )
    }
}

fn build_context<S: Number>(
    g: &StrikeGroup<S>,
    dte: u8,
    idx: usize,
    index: &mut ContextIndex,
) -> (r: BoxContext<S>)
    ensures
        r@ == context_of(g@, dte, g.slots@.len()),
        r.wf(),
        final(index)@ == index_of(old(index)@, g@, idx, g.slots@.len()),
{
    let ghost model = g@;
    let ghost start = index@;
    let n = g.slots.len();
    let mut ctx = BoxContext {
        prefix: g.prefix.clone(),
        dte,
        strikes: Vec::new(),
        call_oids: Vec::new(),
        put_oids: Vec::new(),
    };
    assert(texts(ctx.call_oids@) =~= Seq::empty());
    assert(texts(ctx.put_oids@) =~= Seq::empty());
    let mut i: usize = 0;
    while i < n
        invariant
            i <= n,
            n == g.slots@.len(),
            model == g@,
            ctx@ == context_of(model, dte, i as nat),
            ctx.strikes@.len() == ctx.call_oids@.len(),
            ctx.strikes@.len() == ctx.put_oids@.len(),
            index@ == index_of(start, model, idx, i as nat),
        decreases n - i,
    {
        let s = &g.slots[i];
        assert(model.slots[i as int] == s@);
        if let (Some(c), Some(p)) = (&s.call, &s.put) {
            let ghost before = ctx;
            ctx.strikes.push(s.value);
            ctx.call_oids.push(c.clone());
            ctx.put_oids.push(p.clone());
            assert(texts(ctx.call_oids@) =~= texts(before.call_oids@).push(c@));
            assert(texts(ctx.put_oids@) =~= texts(before.put_oids@).push(p@));
            index.add(c.as_str(), idx);
            index.add(p.as_str(), idx);
        }
        i = i + 1;
    }
    ctx
}

/// Groups the options with the given days to expiry into contexts, by underlying and expiry in
/// the order in which they appear, and strikes in ascending order. Nothing comes of it where
/// strikes can not be read or put in order.
pub fn build_contexts<S: Number>(list: &Vec<LiveOption<S>>, dte: u8) -> (r: Option<
    (Vec<BoxContext<S>>, ContextIndex),
>)
    ensures
        match groups_of(live_models(list@), dte, list@.len()) {
            None => r is None,
            Some(groups) => r matches Some((contexts, index)) && (
                context_models(contexts@),
                index@,
            ) == contexts_and_index(groups, dte, groups.len()),
        },
        r matches Some((contexts, index)) ==> forall|c: int|
            0 <= c < contexts@.len() ==> (#[trigger] contexts@[c]).wf(),
{
    let groups = match build_groups(list, dte) {
        Some(g) => g,
        None => {
            return None;
        },
    };
    let ghost models = group_models(groups@);
    let n = groups.len();
    let mut contexts: Vec<BoxContext<S>> = Vec::new();
    let mut index = ContextIndex::new();
    assert(context_models(contexts@) =~= Seq::empty());
    let mut i: usize = 0;
    while i < n
        invariant
            i <= n,
            n == groups@.len(),
            models == group_models(groups@),
            (context_models(contexts@), index@) == contexts_and_index(models, dte, i as nat),
            forall|c: int| 0 <= c < contexts@.len() ==> (#[trigger] contexts@[c]).wf(),
        decreases n - i,
    {
        let g = &groups[i];
        assert(models[i as int] == g@);
        assert(context_models(contexts@).len() == contexts@.len());
        let ctx = build_context(g, dte, contexts.len(), &mut index);
        if ctx.strikes.len() >= 2 {
            let ghost before = contexts@;
            let ghost model = ctx@;
            contexts.push(ctx);
            assert(context_models(contexts@) =~= context_models(before).push(model));
        }
        i = i + 1;
    }
    Some((contexts, index))
}

} // verus!
