use exchange_rates::controller::{evaluate_cache, next_update_in, should_update, CacheDecision};
use exchange_rates::currency::Currency;
use exchange_rates::dataset::Dataset;
use exchange_rates::date::Date;
use exchange_rates::handle::SharedDataset;
use exchange_rates::parser::parse_dataset;
use exchange_rates::rate::Rate;

fn feed(body: &str) -> Vec<u8> {
    let mut s = String::new();
    s.push_str("<?xml version=\"1.0\"?><gesmes:Envelope><Cube>");
    s.push_str(body);
    s.push_str("</Cube></gesmes:Envelope>");
    s.into_bytes()
}

fn code(c: &str) -> Currency {
    Currency::from_str(c).unwrap()
}

fn date(y: u16, m: u8, d: u8) -> Date {
    Date::new(y, m, d).unwrap()
}

fn sparse_dataset() -> Dataset {
    // Days for January 2 and January 4 only, as over a weekend.
    parse_dataset(&feed("<Cube time=\"2024-01-04\"><Cube currency=\"USD\" rate=\"1.09\"/></Cube><Cube time=\"2024-01-02\"><Cube currency=\"USD\" rate=\"1.1\"/></Cube>"))
    .unwrap()
}

#[test]
fn lookup_on_or_before_rounds_back() {
    let ds = sparse_dataset();
    assert_eq!(ds.lookup_date_on_or_before(date(2024, 1, 3)), Some(0));
    assert_eq!(ds.days[0].date, date(2024, 1, 2));
}

#[test]
fn lookup_on_or_before_exact_hit() {
    let ds = sparse_dataset();
    assert_eq!(ds.lookup_date_on_or_before(date(2024, 1, 4)), Some(1));
}

#[test]
fn lookup_before_all_days_is_not_found() {
    let ds = sparse_dataset();
    assert_eq!(ds.lookup_date_on_or_before(date(2024, 1, 1)), None);
}

#[test]
fn lookup_after_all_days_gives_latest() {
    let ds = sparse_dataset();
    assert_eq!(ds.lookup_date_on_or_before(date(2024, 1, 5)), Some(1));
    assert_eq!(ds.days[1].date, date(2024, 1, 4));
}

#[test]
fn lookup_on_or_after_rounds_forward() {
    let ds = sparse_dataset();
    assert_eq!(ds.lookup_date_on_or_after(date(2024, 1, 3)), Some(1));
    assert_eq!(ds.lookup_date_on_or_after(date(2024, 1, 1)), Some(0));
    assert_eq!(ds.lookup_date_on_or_after(date(2024, 1, 5)), None);
}

#[test]
fn timeframe_reports_first_and_last() {
    let ds = sparse_dataset();
    assert_eq!(ds.timeframe(), Some((date(2024, 1, 2), date(2024, 1, 4))));
    let empty = parse_dataset(&feed("")).unwrap();
    assert_eq!(empty.timeframe(), None);
}

#[test]
fn from_validates_against_catalog() {
    let ds = sparse_dataset();
    assert_eq!(ds.from(code("USD")), Some(code("USD")));
    assert_eq!(ds.from(code("EUR")), Some(code("EUR")));
    assert_eq!(ds.from(code("GBP")), None);
}

#[test]
fn lookup_currency_finds_slot() {
    let ds = sparse_dataset();
    assert_eq!(ds.lookup_currency(code("EUR")), Some(0));
    assert_eq!(ds.lookup_currency(code("USD")), Some(1));
    assert_eq!(ds.lookup_currency(code("AAA")), None);
}

#[test]
fn convert_with_eur_is_identity() {
    let ds = sparse_dataset();
    let day = ds.days[0].duplicate();
    let expected = day.duplicate();
    let converted = day.convert(code("EUR"), &ds.currencies).unwrap();
    assert_eq!(converted.date, expected.date);
    assert_eq!(converted.rates, expected.rates);
}

#[test]
fn convert_unknown_currency_is_not_found() {
    let ds = sparse_dataset();
    let day = ds.days[0].duplicate();
    assert!(day.convert(code("GBP"), &ds.currencies).is_none());
}

#[test]
fn convert_absent_on_date_is_not_found() {
    // GBP exists in the catalog but has no rate on the first day.
    let ds = parse_dataset(&feed("<Cube time=\"2024-01-02\"><Cube currency=\"GBP\" rate=\"0.86\"/><Cube currency=\"USD\" rate=\"1.09\"/></Cube><Cube time=\"2024-01-01\"><Cube currency=\"USD\" rate=\"1.1\"/></Cube>"))
    .unwrap();
    assert!(ds.currencies.contains(&code("GBP")));
    let day = ds.days[0].duplicate();
    assert!(day.convert(code("GBP"), &ds.currencies).is_none());
}

#[test]
fn convert_zero_base_rate_is_not_found() {
    let ds = parse_dataset(&feed(
        "<Cube time=\"2024-01-02\"><Cube currency=\"XXX\" rate=\"0.0\"/></Cube>",
    ))
    .unwrap();
    let day = ds.days[0].duplicate();
    assert!(day.convert(code("XXX"), &ds.currencies).is_none());
}

#[test]
fn convert_self_rate_is_exactly_one() {
    let ds = sparse_dataset();
    let day = ds.days[1].duplicate();
    let converted = day.convert(code("USD"), &ds.currencies).unwrap();
    let usd = converted.rates[1].unwrap();
    assert_eq!(usd.num, usd.den);
}

#[test]
fn to_hashmap_keys_every_catalog_currency() {
    let ds = sparse_dataset();
    let m = ds.days[0].to_hashmap(&ds.currencies);
    assert_eq!(m.len(), 2);
    assert_eq!(m.get(&code("EUR").code), Some(&Some(Rate { num: 1, den: 1 })));
    assert_eq!(m.get(&code("USD").code), Some(&Some(Rate { num: 11, den: 10 })));
}

#[test]
fn select_range_full_and_partial() {
    let ds = sparse_dataset();
    assert_eq!(ds.select_range(None, None), Ok((0, 2)));
    // The end is exclusive: a present end day is not included.
    assert_eq!(ds.select_range(Some(date(2024, 1, 2)), Some(date(2024, 1, 4))), Ok((0, 1)));
    // An absent end rounds forward to the next available day.
    assert_eq!(ds.select_range(Some(date(2024, 1, 2)), Some(date(2024, 1, 3))), Ok((0, 1)));
    // A start before every day clamps to the oldest.
    assert_eq!(ds.select_range(Some(date(2023, 12, 1)), None), Ok((0, 2)));
}

#[test]
fn select_range_past_end_is_error() {
    let ds = sparse_dataset();
    assert!(ds.select_range(None, Some(date(2024, 2, 1))).is_err());
}

#[test]
fn select_range_inverted_is_error() {
    let ds = sparse_dataset();
    assert!(ds.select_range(Some(date(2024, 1, 4)), Some(date(2024, 1, 2))).is_err());
}

#[test]
fn evaluate_cache_missing_refetches() {
    assert!(matches!(evaluate_cache(None, date(2024, 1, 4)), CacheDecision::Refetch));
}

#[test]
fn evaluate_cache_malformed_refetches() {
    let bytes = b"garbage".to_vec();
    assert!(matches!(
        evaluate_cache(Some(&bytes), date(2024, 1, 4)),
        CacheDecision::Refetch
    ));
}

#[test]
fn evaluate_cache_fresh_is_used() {
    let bytes = feed("<Cube time=\"2024-01-04\"><Cube currency=\"USD\" rate=\"1.09\"/></Cube>");
    match evaluate_cache(Some(&bytes), date(2024, 1, 4)) {
        CacheDecision::Use(ds) => assert_eq!(ds.days[0].date, date(2024, 1, 4)),
        CacheDecision::Refetch => panic!("fresh cache was refetched"),
    }
}

#[test]
fn evaluate_cache_stale_refetches() {
    let bytes = feed("<Cube time=\"2024-01-04\"><Cube currency=\"USD\" rate=\"1.09\"/></Cube>");
    assert!(matches!(
        evaluate_cache(Some(&bytes), date(2024, 1, 5)),
        CacheDecision::Refetch
    ));
}

#[test]
fn evaluate_cache_empty_dataset_is_not_stale() {
    let bytes = feed("");
    assert!(matches!(
        evaluate_cache(Some(&bytes), date(2024, 1, 5)),
        CacheDecision::Use(_)
    ));
}

#[test]
fn next_update_in_before_and_after_target() {
    // At midnight, the default six-o'clock-in-the-evening target is 18 hours off.
    assert_eq!(next_update_in(0, 1080), 64800);
    // Exactly at the target the next run is a full day away.
    assert_eq!(next_update_in(1080, 1080), 86400);
    // Past the target, wait until tomorrow's occurrence.
    assert_eq!(next_update_in(1200, 1080), 79200);
}

#[test]
fn should_update_only_on_exact_minute() {
    assert!(should_update(1080, 1080));
    assert!(!should_update(1081, 1080));
}

#[test]
fn shared_handle_snapshot_and_replace() {
    let first = sparse_dataset();
    let handle = SharedDataset::new(first);
    let seen = handle.snapshot();
    assert_eq!(seen.days.len(), 2);
    let replacement = parse_dataset(&feed(
        "<Cube time=\"2024-01-05\"><Cube currency=\"USD\" rate=\"1.08\"/></Cube>",
    ))
    .unwrap();
    handle.replace(replacement);
    // The earlier snapshot is untouched by the swap; a new one sees the
    // new generation.
    assert_eq!(seen.days.len(), 2);
    let fresh = handle.snapshot();
    assert_eq!(fresh.days.len(), 1);
    assert_eq!(fresh.days[0].date, date(2024, 1, 5));
}

#[test]
fn date_validity_and_order() {
    assert!(Date::new(2024, 2, 29).is_some());
    assert!(Date::new(2023, 2, 29).is_none());
    assert!(Date::new(2024, 13, 1).is_none());
    assert!(Date::new(2024, 4, 31).is_none());
    assert!(Date::new(2000, 2, 29).is_some());
    assert!(Date::new(1900, 2, 29).is_none());
    assert!(date(2024, 1, 2).lt(&date(2024, 1, 3)));
    assert!(!date(2024, 1, 3).lt(&date(2024, 1, 3)));
    assert!(date(2024, 1, 3).le(&date(2024, 1, 3)));
}

#[test]
fn currency_codes_pack_and_unpack() {
    assert!(Currency::from_str("usd").is_none());
    assert!(Currency::from_str("US").is_none());
    assert!(Currency::from_str("USDX").is_none());
    let usd = code("USD");
    assert_eq!(usd.letters(), (b'U', b'S', b'D'));
    assert_eq!(Currency::eur(), code("EUR"));
    assert!(code("AAA").code < code("AAB").code);
}
