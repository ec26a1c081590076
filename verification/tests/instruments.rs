use proarbitrage::calendar::CalendarDate;
use proarbitrage::decimal::Decimal;
use proarbitrage::feed::{day_is_over, quote_of_message, subscription_batches, FeedMessage};
use proarbitrage::instruments::{
    active_ids, build_contexts, min_dte, near_option, near_options, options_from_csv,
    select_options, LiveOption,
};
use proarbitrage::market::OptionMeta;
use proarbitrage::number::Number;

fn d(m: i128, places: u32) -> Decimal {
    Decimal::decimal(m, places)
}

const TABLE: &str = "order_book_id,underlying_symbol,maturity_date,option_type,strike_price\n\
    10001,510300.XSHG,2024-01-24,C,3.5\n\
    10002,159919.XSHE,2024-01-24,C,3.5\n\
    10003,510500.XSHG,2024-01-24,P,none\n\
    10004,588000.XSHG,2024-02-28,C,\"0.9\"\n";

#[test]
fn options_of_the_traded_underlyings() {
    let list: Vec<OptionMeta<Decimal>> = options_from_csv(TABLE).unwrap();
    let ids: Vec<&str> = list.iter().map(|o| o.oid.as_str()).collect();
    assert_eq!(ids, vec!["10001", "10003", "10004"]);
    assert_eq!(list[0].strike, d(35, 1));
    assert_eq!(list[0].maturity, "2024-01-24");
    // A strike that is no number counts as nothing.
    assert_eq!(list[1].strike, d(0, 0));
    assert_eq!(list[2].strike, d(9, 1));
    assert_eq!(list[2].opt_type, "C");
}

#[test]
fn malformed_tables() {
    assert!(options_from_csv::<Decimal>("a,b\n1\n").is_none());
    assert_eq!(options_from_csv::<Decimal>("").unwrap().len(), 0);
    assert_eq!(options_from_csv::<Decimal>("a,b\n1,2\n").unwrap().len(), 0);
}

#[test]
fn rows_by_their_heading() {
    let text = |s: &str| s.to_string();
    // The last column of a name counts.
    let heading = vec![text("underlying_symbol"), text("order_book_id"), text("order_book_id")];
    let rows = vec![vec![text("510300.XSHG"), text("first"), text("second")]];
    let list: Vec<OptionMeta<Decimal>> = select_options(&heading, &rows);
    assert_eq!(list.len(), 1);
    assert_eq!(list[0].oid, "second");
    assert_eq!(list[0].maturity, "");
    assert_eq!(list[0].strike, d(0, 0));
}

fn meta(oid: &str, underlying: &str, maturity: &str, opt_type: &str, strike: Decimal) -> OptionMeta<Decimal> {
    OptionMeta {
        oid: oid.to_string(),
        underlying: underlying.to_string(),
        maturity: maturity.to_string(),
        opt_type: opt_type.to_string(),
        strike,
    }
}

const TODAY: CalendarDate = CalendarDate { year: 2024, month: 1, day: 10 };

#[test]
fn days_to_the_fourth_wednesday() {
    let o = near_option(&meta("a", "510300.XSHG", "2024-01-03", "C", d(3, 0)), TODAY).unwrap();
    assert_eq!(o.expiry, CalendarDate { year: 2024, month: 1, day: 24 });
    assert_eq!(o.dte, 14);
    assert_eq!(o.prefix, "510300");
    let plain = near_option(&meta("a", "ETF", "2024-01-03", "C", d(3, 0)), TODAY).unwrap();
    assert_eq!(plain.prefix, "ETF");
    // Expired, too far away, or not a date.
    assert!(near_option(&meta("a", "x", "2023-12-27", "C", d(3, 0)), TODAY).is_none());
    assert!(near_option(&meta("a", "x", "2025-01-22", "C", d(3, 0)), TODAY).is_none());
    assert!(near_option(&meta("a", "x", "soon", "C", d(3, 0)), TODAY).is_none());
    // On the day of expiry itself the option is no longer traded.
    let last = CalendarDate { year: 2024, month: 1, day: 24 };
    assert!(near_option(&meta("a", "x", "2024-01-03", "C", d(3, 0)), last).is_none());
}

fn listed() -> Vec<LiveOption<Decimal>> {
    let jan = "2024-01-24";
    let list = vec![
        meta("c31", "510300.XSHG", jan, "C", d(31, 1)),
        meta("p31", "510300.XSHG", jan, "P", d(31, 1)),
        meta("c30", "510300.XSHG", jan, "C", d(30, 1)),
        meta("p30", "510300.XSHG", jan, "P", d(30, 1)),
        meta("c32", "510300.XSHG", jan, "C", d(32, 1)),
        meta("far", "510300.XSHG", "2024-02-28", "C", d(30, 1)),
        meta("c60", "510500.XSHG", jan, "C", d(60, 1)),
        meta("p60", "510500.XSHG", jan, "P", d(60, 1)),
        meta("c9", "588000.XSHG", jan, "C", d(9, 1)),
        meta("p9", "588000.XSHG", jan, "P", d(9, 1)),
        meta("c10", "588000.XSHG", jan, "C", d(10, 1)),
        meta("p10", "588000.XSHG", jan, "P", d(10, 1)),
    ];
    near_options(&list, TODAY)
}

#[test]
fn contexts_of_the_nearest_expiry() {
    let list = listed();
    let dte = min_dte(&list).unwrap();
    assert_eq!(dte, 14);
    assert_eq!(active_ids(&list, dte).len(), 11);
    let (contexts, index) = build_contexts(&list, dte).unwrap();
    // A single strike makes no context.
    assert_eq!(contexts.len(), 2);
    assert_eq!(contexts[0].prefix, "510300");
    assert_eq!(contexts[0].strikes, vec![d(30, 1), d(31, 1)]);
    assert_eq!(contexts[0].call_oids, vec!["c30", "c31"]);
    assert_eq!(contexts[0].put_oids, vec!["p30", "p31"]);
    assert_eq!(contexts[1].prefix, "588000");
    assert_eq!(contexts[1].dte, 14);
    assert_eq!(index.get("c30"), Some(&vec![0]));
    assert_eq!(index.get("p10"), Some(&vec![1]));
    // Without its put a strike is left out.
    assert!(index.get("c32").is_none());
    assert!(index.get("far").is_none());
    // The instruments of the group without a context belong to the next one.
    assert_eq!(index.get("c60"), Some(&vec![1]));
}

#[test]
fn no_options_no_expiry() {
    let none: Vec<LiveOption<Decimal>> = vec![];
    assert_eq!(min_dte(&none), None);
    let (contexts, _) = build_contexts(&none, 5).unwrap();
    assert!(contexts.is_empty());
}

#[test]
fn strikes_that_can_not_be_ordered() {
    let list = near_options(
        &vec![meta("a", "x", "2024-01-24", "C", Decimal::nan())],
        TODAY,
    );
    assert!(build_contexts(&list, 14).is_none());
}

fn message(action: &str, ask: Vec<Decimal>, bid: Vec<Decimal>) -> FeedMessage<Decimal> {
    FeedMessage {
        action: action.to_string(),
        order_book_id: "10001".to_string(),
        ask,
        bid,
        ask_vol: vec![d(7, 0)],
        bid_vol: vec![d(8, 0)],
    }
}

#[test]
fn quotes_of_the_feed() {
    let t = quote_of_message(&message("feed", vec![d(2, 1), d(3, 1)], vec![d(1, 1)])).unwrap();
    assert_eq!(t.oid, "10001");
    assert_eq!((t.a1, t.b1, t.a1_v, t.b1_v), (d(2, 1), d(1, 1), d(7, 0), d(8, 0)));
    assert!(quote_of_message(&message("auth", vec![d(2, 1)], vec![d(1, 1)])).is_none());
    assert!(quote_of_message(&message("feed", vec![], vec![d(1, 1)])).is_none());
    assert!(quote_of_message(&message("feed", vec![d(2, 1)], vec![])).is_none());
}

#[test]
fn subscriptions_in_batches() {
    let ids: Vec<String> = (0..250).map(|i| format!("{}", i)).collect();
    let batches = subscription_batches(&ids);
    let sizes: Vec<usize> = batches.iter().map(|b| b.len()).collect();
    assert_eq!(sizes, vec![100, 100, 50]);
    assert_eq!(batches[1][0], "tick_100");
    assert!(subscription_batches(&vec![]).is_empty());
    assert_eq!(subscription_batches(&ids[..100].to_vec()).len(), 1);
}

#[test]
fn end_of_the_day() {
    assert!(!day_is_over(15 * 3600 + 5 * 60, 0));
    assert!(day_is_over(15 * 3600 + 5 * 60, 1));
    assert!(day_is_over(15 * 3600 + 5 * 60 + 1, 0));
    assert!(!day_is_over(9 * 3600, 5));
}
