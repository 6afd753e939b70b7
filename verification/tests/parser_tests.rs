use exchange_rates::currency::Currency;
use exchange_rates::dataset::Dataset;
use exchange_rates::date::Date;
use exchange_rates::parser::parse_dataset;
use exchange_rates::rate::Rate;

fn feed(body: &str) -> Vec<u8> {
    let mut s = String::new();
    s.push_str("<?xml version=\"1.0\" encoding=\"UTF-8\"?>\n");
    s.push_str("<gesmes:Envelope xmlns:gesmes=\"http://www.gesmes.org/xml/2002-08-01\">\n");
    s.push_str("<gesmes:subject>Reference rates</gesmes:subject>\n");
    s.push_str("<gesmes:Sender><gesmes:name>Central Bank</gesmes:name></gesmes:Sender>\n");
    s.push_str("<Cube>");
    s.push_str(body);
    s.push_str("</Cube>\n</gesmes:Envelope>\n");
    s.into_bytes()
}

fn code(c: &str) -> Currency {
    Currency::from_str(c).unwrap()
}

fn date(y: u16, m: u8, d: u8) -> Date {
    Date::new(y, m, d).unwrap()
}

fn two_day_feed() -> Vec<u8> {
    feed("\n  <Cube time=\"2024-01-02\">\n    <Cube currency=\"USD\" rate=\"1.09\"/>\n    <Cube currency=\"GBP\" rate=\"0.86\"/>\n  </Cube>\n  <Cube time=\"2024-01-01\">\n    <Cube currency=\"USD\" rate=\"1.1\"/>\n  </Cube>\n")
}

fn parsed_two_days() -> Dataset {
    parse_dataset(&two_day_feed()).unwrap()
}

#[test]
fn scenario_two_days() {
    let ds = parsed_two_days();
    // Catalog: sorted union of all codes plus the euro.
    let cat: Vec<Currency> = vec![code("EUR"), code("GBP"), code("USD")];
    assert_eq!(ds.currencies, cat);
    assert_eq!(ds.days.len(), 2);
    // Days come out oldest first, aligned to the catalog.
    assert_eq!(ds.days[0].date, date(2024, 1, 1));
    assert_eq!(
        ds.days[0].rates,
        vec![Some(Rate { num: 1, den: 1 }), None, Some(Rate { num: 11, den: 10 })]
    );
    assert_eq!(ds.days[1].date, date(2024, 1, 2));
    assert_eq!(
        ds.days[1].rates,
        vec![
            Some(Rate { num: 1, den: 1 }),
            Some(Rate { num: 86, den: 100 }),
            Some(Rate { num: 109, den: 100 })
        ]
    );
}

#[test]
fn scenario_convert_usd() {
    let ds = parsed_two_days();
    let day = ds.days[0].duplicate();
    let converted = day.convert(code("USD"), &ds.currencies).unwrap();
    // EUR becomes 1 / 1.1 = 10/11, GBP stays absent, USD becomes exactly one.
    assert_eq!(converted.rates[0], Some(Rate { num: 10, den: 11 }));
    assert_eq!(converted.rates[1], None);
    assert_eq!(converted.rates[2], Some(Rate { num: 110, den: 110 }));
}

#[test]
fn empty_feed_is_valid() {
    let ds = parse_dataset(&feed("")).unwrap();
    assert_eq!(ds.currencies, vec![code("EUR")]);
    assert_eq!(ds.days.len(), 0);
}

#[test]
fn whitespace_between_elements_is_accepted() {
    let bytes = feed("\n\t <Cube time=\"2024-03-08\">\r\n\t\t<Cube currency=\"JPY\" rate=\"161.2\"/>\n </Cube> \n");
    let ds = parse_dataset(&bytes).unwrap();
    assert_eq!(ds.days.len(), 1);
    assert_eq!(ds.days[0].date, date(2024, 3, 8));
    assert_eq!(ds.days[0].rates[1], Some(Rate { num: 1612, den: 10 }));
}

#[test]
fn integer_rate_has_denominator_one() {
    let ds = parse_dataset(&feed("<Cube time=\"2024-01-05\"><Cube currency=\"IDR\" rate=\"17000\"/></Cube>")).unwrap();
    assert_eq!(ds.days[0].rates[1], Some(Rate { num: 17000, den: 1 }));
}

#[test]
fn malformed_structure_is_rejected() {
    assert!(parse_dataset(&b"not xml at all".to_vec()).is_err());
    assert!(parse_dataset(&feed("<Cube time=\"2024-01-02\">")).is_err());
    assert!(parse_dataset(&feed("<Cube time=\"2024-01-02\"><Cube currency=\"usd\" rate=\"1.0\"/></Cube>")).is_err());
    assert!(parse_dataset(&feed("<Cube time=\"2024-01-02\"><Cube currency=\"USD\" rate=\"1.\"/></Cube>")).is_err());
}

#[test]
fn invalid_calendar_date_is_rejected() {
    assert!(parse_dataset(&feed("<Cube time=\"2023-02-29\"><Cube currency=\"USD\" rate=\"1.0\"/></Cube>")).is_err());
    assert!(parse_dataset(&feed("<Cube time=\"2024-13-01\"><Cube currency=\"USD\" rate=\"1.0\"/></Cube>")).is_err());
}

#[test]
fn leap_day_is_accepted() {
    let ds = parse_dataset(&feed("<Cube time=\"2024-02-29\"><Cube currency=\"USD\" rate=\"1.08\"/></Cube>")).unwrap();
    assert_eq!(ds.days[0].date, date(2024, 2, 29));
}

#[test]
fn unsorted_days_are_rejected() {
    // The feed must list days newest first; an ascending pair is malformed.
    let bytes = feed("<Cube time=\"2024-01-01\"><Cube currency=\"USD\" rate=\"1.1\"/></Cube><Cube time=\"2024-01-02\"><Cube currency=\"USD\" rate=\"1.09\"/></Cube>");
    assert!(parse_dataset(&bytes).is_err());
}

#[test]
fn duplicate_date_is_rejected() {
    let bytes = feed("<Cube time=\"2024-01-02\"><Cube currency=\"USD\" rate=\"1.1\"/></Cube><Cube time=\"2024-01-02\"><Cube currency=\"USD\" rate=\"1.09\"/></Cube>");
    assert!(parse_dataset(&bytes).is_err());
}

#[test]
fn oversized_rate_is_rejected() {
    // More precision than the engine's exact rationals admit.
    let bytes = feed("<Cube time=\"2024-01-02\"><Cube currency=\"USD\" rate=\"1.0000000000000000001\"/></Cube>");
    assert!(parse_dataset(&bytes).is_err());
}

#[test]
fn explicit_eur_rate_wins_over_implicit_one() {
    let bytes = feed("<Cube time=\"2024-01-02\"><Cube currency=\"EUR\" rate=\"2.0\"/></Cube>");
    let ds = parse_dataset(&bytes).unwrap();
    assert_eq!(ds.currencies, vec![code("EUR")]);
    assert_eq!(ds.days[0].rates[0], Some(Rate { num: 20, den: 10 }));
}

#[test]
fn round_trip_same_bytes_same_dataset() {
    // The cache stores the fetched bytes verbatim; re-parsing them must
    // reproduce the same structure.
    let network = two_day_feed();
    let stored = network.clone();
    let a = parse_dataset(&network).unwrap();
    let b = parse_dataset(&stored).unwrap();
    assert_eq!(a.currencies, b.currencies);
    assert_eq!(a.days.len(), b.days.len());
    for i in 0..a.days.len() {
        assert_eq!(a.days[i].date, b.days[i].date);
        assert_eq!(a.days[i].rates, b.days[i].rates);
    }
}

#[test]
fn catalog_is_sorted_deduplicated_with_eur() {
    let bytes = feed("<Cube time=\"2024-01-02\"><Cube currency=\"ZAR\" rate=\"20.0\"/><Cube currency=\"AUD\" rate=\"1.6\"/><Cube currency=\"USD\" rate=\"1.09\"/></Cube><Cube time=\"2024-01-01\"><Cube currency=\"AUD\" rate=\"1.62\"/><Cube currency=\"CHF\" rate=\"0.93\"/></Cube>");
    let ds = parse_dataset(&bytes).unwrap();
    assert_eq!(
        ds.currencies,
        vec![code("AUD"), code("CHF"), code("EUR"), code("USD"), code("ZAR")]
    );
    for day in &ds.days {
        assert_eq!(day.rates.len(), ds.currencies.len());
    }
}
