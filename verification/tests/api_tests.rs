use exchange_rates::api::{
    Api, ApiError, Conversion, ConversionParams, RatesRequest, TimeframeRequest,
};
use exchange_rates::currency::Currency;
use exchange_rates::dataset::Dataset;
use exchange_rates::date::Date;
use exchange_rates::parser::parse_dataset;
use exchange_rates::rate::Rate;

fn feed(body: &str) -> Vec<u8> {
    let mut s = String::new();
    s.push_str("<?xml version=\"1.0\"?><gesmes:Envelope><Cube>");
    s.push_str(body);
    s.push_str("</Cube></gesmes:Envelope>");
    s.into_bytes()
}

fn code(c: &str) -> Currency {
    Currency::from_str(c).unwrap()
}

fn date(y: u16, m: u8, d: u8) -> Date {
    Date::new(y, m, d).unwrap()
}

fn dataset() -> Dataset {
    parse_dataset(&feed("<Cube time=\"2024-01-04\"><Cube currency=\"GBP\" rate=\"0.86\"/><Cube currency=\"USD\" rate=\"1.09\"/></Cube><Cube time=\"2024-01-02\"><Cube currency=\"USD\" rate=\"1.1\"/></Cube>"))
    .unwrap()
}

#[test]
fn index_lists_currencies_and_timeframe() {
    let ds = dataset();
    let resp = Api.index(&ds).unwrap();
    assert_eq!(resp.currencies, vec![code("EUR"), code("GBP"), code("USD")]);
    assert_eq!(resp.timeframe, (date(2024, 1, 2), date(2024, 1, 4)));
}

#[test]
fn index_without_days_has_no_rates() {
    let empty = parse_dataset(&feed("")).unwrap();
    assert!(matches!(Api.index(&empty), Err(ApiError::NoRates)));
}

#[test]
fn rates_without_request_serves_newest_day() {
    let ds = dataset();
    let out = Api.rates_(&ds).unwrap();
    assert_eq!(out.date, date(2024, 1, 4));
    assert_eq!(out.rates.len(), 3);
    assert_eq!(out.rates.get(&code("EUR").code), Some(&Some(Rate { num: 1, den: 1 })));
    assert_eq!(out.rates.get(&code("USD").code), Some(&Some(Rate { num: 109, den: 100 })));
}

#[test]
fn rates_resolves_missing_date_backwards() {
    let ds = dataset();
    let req = RatesRequest { date: Some(date(2024, 1, 3)), conversion: None };
    let out = Api.rates(&ds, Some(req)).unwrap();
    assert_eq!(out.date, date(2024, 1, 2));
}

#[test]
fn rates_date_before_all_days_clamps_to_oldest() {
    let ds = dataset();
    let req = RatesRequest { date: Some(date(2023, 12, 1)), conversion: None };
    let out = Api.rates(&ds, Some(req)).unwrap();
    assert_eq!(out.date, date(2024, 1, 2));
}

#[test]
fn rates_converts_to_requested_base() {
    let ds = dataset();
    let req = RatesRequest {
        date: Some(date(2024, 1, 4)),
        conversion: Some(ConversionParams { from: Some(code("USD")), to: None }),
    };
    let out = Api.rates(&ds, Some(req)).unwrap();
    // EUR rebased onto USD: 1 / 1.09 = 100/109.
    assert_eq!(out.rates.get(&code("EUR").code), Some(&Some(Rate { num: 100, den: 109 })));
    let usd = out.rates.get(&code("USD").code).unwrap().unwrap();
    assert_eq!(usd.num, usd.den);
}

#[test]
fn rates_restricts_to_selection() {
    let ds = dataset();
    let req = RatesRequest {
        date: None,
        conversion: Some(ConversionParams { from: None, to: Some(vec![code("USD")]) }),
    };
    let out = Api.rates(&ds, Some(req)).unwrap();
    assert_eq!(out.rates.len(), 1);
    assert!(out.rates.contains_key(&code("USD").code));
}

#[test]
fn rates_unknown_base_reports_it() {
    let ds = dataset();
    let req = RatesRequest {
        date: None,
        conversion: Some(ConversionParams { from: Some(code("CHF")), to: None }),
    };
    match Api.rates(&ds, Some(req)) {
        Err(ApiError::CurrenciesNotFound(e)) => {
            assert_eq!(e.currencies_not_found, vec![code("CHF")]);
        },
        _ => panic!("unknown base was accepted"),
    }
}

#[test]
fn rates_base_absent_on_day_reports_it() {
    // GBP is in the catalog but has no rate on January 2.
    let ds = dataset();
    let req = RatesRequest {
        date: Some(date(2024, 1, 2)),
        conversion: Some(ConversionParams { from: Some(code("GBP")), to: None }),
    };
    match Api.rates(&ds, Some(req)) {
        Err(ApiError::CurrenciesNotFound(e)) => {
            assert_eq!(e.currencies_not_found, vec![code("GBP")]);
        },
        _ => panic!("historically absent base was accepted"),
    }
}

#[test]
fn rates_empty_dataset_has_no_rates() {
    let empty = parse_dataset(&feed("")).unwrap();
    assert!(matches!(Api.rates(&empty, None), Err(ApiError::NoRates)));
}

#[test]
fn from_params_keeps_known_selection() {
    let ds = dataset();
    let params = ConversionParams {
        from: Some(code("USD")),
        to: Some(vec![code("GBP"), code("EUR")]),
    };
    let c: Conversion = Conversion::from_params(&params, &ds).unwrap();
    assert_eq!(c.from, code("USD"));
    assert_eq!(c.to, vec![code("GBP"), code("EUR")]);
}

#[test]
fn from_params_defaults_to_eur_and_everything() {
    let ds = dataset();
    let params = ConversionParams { from: None, to: None };
    let c = Conversion::from_params(&params, &ds).unwrap();
    assert_eq!(c.from, Currency::eur());
    assert!(c.to.is_empty());
}

#[test]
fn from_params_lists_unknown_selection_in_order() {
    let ds = dataset();
    let params = ConversionParams {
        from: None,
        to: Some(vec![code("CHF"), code("USD"), code("JPY")]),
    };
    match Conversion::from_params(&params, &ds) {
        Err(e) => assert_eq!(e.currencies_not_found, vec![code("CHF"), code("JPY")]),
        Ok(_) => panic!("unknown selection was accepted"),
    }
}

#[test]
fn timeframe_serves_range_oldest_first() {
    let ds = dataset();
    let req = TimeframeRequest { timeframe: (None, None), conversion: None };
    let out = Api.timeframe(&ds, req).unwrap();
    assert_eq!(out.rates.len(), 2);
    assert_eq!(out.rates[0].date, date(2024, 1, 2));
    assert_eq!(out.rates[1].date, date(2024, 1, 4));
    assert_eq!(out.timeframe, (date(2024, 1, 2), date(2024, 1, 4)));
}

#[test]
fn timeframe_end_is_exclusive() {
    let ds = dataset();
    let req = TimeframeRequest {
        timeframe: (Some(date(2024, 1, 2)), Some(date(2024, 1, 4))),
        conversion: None,
    };
    let out = Api.timeframe(&ds, req).unwrap();
    assert_eq!(out.rates.len(), 1);
    assert_eq!(out.rates[0].date, date(2024, 1, 2));
}

#[test]
fn timeframe_skips_days_without_base_rate() {
    // GBP has a rate only on January 4, so that is the only day served.
    let ds = dataset();
    let req = TimeframeRequest {
        timeframe: (None, None),
        conversion: Some(ConversionParams { from: Some(code("GBP")), to: None }),
    };
    let out = Api.timeframe(&ds, req).unwrap();
    assert_eq!(out.rates.len(), 1);
    assert_eq!(out.rates[0].date, date(2024, 1, 4));
    let gbp = out.rates[0].rates.get(&code("GBP").code).unwrap().unwrap();
    assert_eq!(gbp.num, gbp.den);
}

#[test]
fn timeframe_inverted_range_has_no_rates() {
    let ds = dataset();
    let req = TimeframeRequest {
        timeframe: (Some(date(2024, 1, 4)), Some(date(2024, 1, 2))),
        conversion: None,
    };
    assert!(matches!(Api.timeframe(&ds, req), Err(ApiError::NoRates)));
}

#[test]
fn timeframe_unknown_selection_reports_it() {
    let ds = dataset();
    let req = TimeframeRequest {
        timeframe: (None, None),
        conversion: Some(ConversionParams { from: None, to: Some(vec![code("XTS")]) }),
    };
    match Api.timeframe(&ds, req) {
        Err(ApiError::CurrenciesNotFound(e)) => {
            assert_eq!(e.currencies_not_found, vec![code("XTS")]);
        },
        _ => panic!("unknown selection was accepted"),
    }
}
