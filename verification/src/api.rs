use std::collections::HashMap;
use vstd::pervasive::unreached;
use vstd::prelude::*;

use crate::currency::{Currency, EUR_CODE};
use crate::dataset::{
    catalog_sorted, end_slot_resolved, start_slot_resolved, Dataset, DatasetV, DayV,
};
use crate::date::Date;
use crate::rate::Rate;

verus! {

/// The request-handling face of the engine: resolves a requested date,
/// base currency and currency selection against the current dataset and
/// answers with rate tables. Pure logic over a dataset value; the
/// transport around it is not part of the engine.
#[derive(Clone, Copy)]
pub struct Api;

/// A validated conversion request: the base currency and the codes the
/// answer is restricted to (empty: all of them).
#[derive(Debug)]
pub struct Conversion {
    pub from: Currency,
    pub to: Vec<Currency>,
}

impl Default for Conversion {
    /// The default conversion: euro base, no restriction.
    fn default() -> (r: Self)
        ensures
            r.from == (Currency { code: EUR_CODE }),
            r.to@.len() == 0,
    {
        Conversion { from: Currency::eur(), to: Vec::new() }
    }
}

/// Raw conversion parameters as a caller sends them: an optional base
/// currency and an optional list of codes to restrict the answer to.
#[derive(Debug)]
pub struct ConversionParams {
    pub from: Option<Currency>,
    pub to: Option<Vec<Currency>>,
}

/// The codes of a request that the catalog does not know.
#[derive(Debug)]
pub struct CurrenciesNotFound {
    pub currencies_not_found: Vec<Currency>,
}

/// How a request can fail: no day to answer from, or unknown (or, for
/// the base, historically absent) currencies.
#[derive(Debug)]
pub enum ApiError {
    NoRates,
    CurrenciesNotFound(CurrenciesNotFound),
}

/// A single day's answer: the date served and the rates keyed by packed
/// currency code.
#[derive(Debug)]
pub struct Rates {
    pub date: Date,
    pub rates: HashMap<u32, Option<Rate>>,
}

/// The answer to the catalog overview: every currency and the covered
/// date range.
#[derive(Debug)]
pub struct IndexResponse {
    pub currencies: Vec<Currency>,
    pub timeframe: (Date, Date),
}

/// A request for one day's rates.
#[derive(Debug)]
pub struct RatesRequest {
    pub date: Option<Date>,
    pub conversion: Option<ConversionParams>,
}

/// A request for a range of days.
#[derive(Debug)]
pub struct TimeframeRequest {
    pub timeframe: (Option<Date>, Option<Date>),
    pub conversion: Option<ConversionParams>,
}

/// The answer to a range request: the dates actually served and one
/// rate table per served day.
#[derive(Debug)]
pub struct Timeframe {
    pub timeframe: (Date, Date),
    pub rates: Vec<Rates>,
}

/// The codes of `t` that the catalog lacks, in request order.
pub open spec fn missing_from(cat: Seq<Currency>, t: Seq<Currency>) -> Seq<Currency> {
    t.filter(|x: Currency| !cat.contains(x))
}

/// `c` is what the optional parameters resolve to: the given base (which
/// the catalog must know) or the euro, and the given restriction list
/// (every entry of which the catalog must know) or none.
pub open spec fn conversion_resolved(
    params: Option<ConversionParams>,
    cat: Seq<Currency>,
    c: Conversion,
) -> bool {
    match params {
        None => c.from == (Currency { code: EUR_CODE }) && c.to@.len() == 0,
        Some(p) => {
            &&& match p.from {
                Some(f) => c.from == f && cat.contains(f),
                None => c.from == (Currency { code: EUR_CODE }),
            }
            &&& match p.to {
                Some(t) => c.to@ == t@ && (forall|i: int|
                    0 <= i < t@.len() ==> cat.contains(#[trigger] t@[i])),
                None => c.to@.len() == 0,
            }
        },
    }
}

/// `e` is the rejection the optional parameters earn: the base currency
/// alone when the catalog lacks it, else the unknown entries of the
/// restriction list.
pub open spec fn conversion_failed(
    params: Option<ConversionParams>,
    cat: Seq<Currency>,
    e: CurrenciesNotFound,
) -> bool {
    match params {
        None => false,
        Some(p) => {
            if p.from is Some && !cat.contains(p.from->0) {
                e.currencies_not_found@ == seq![p.from->0]
            } else {
                match p.to {
                    Some(t) => missing_from(cat, t@).len() > 0 && e.currencies_not_found@
                        == missing_from(cat, t@),
                    None => false,
                }
            }
        },
    }
}

/// Whether a currency is in the (possibly empty, meaning unrestricted)
/// selection list.
pub open spec fn selected(to: Seq<Currency>, c: Currency) -> bool {
    to.len() == 0 || to.contains(c)
}

/// Whether a day can be rebased onto `from`, sitting at catalog slot
/// `fi`: always for the euro, otherwise only when the day has a nonzero
/// rate for `from`.
pub open spec fn conversion_applies(day: DayV, fi: int, from: Currency) -> bool {
    from.code == EUR_CODE || (day.rates[fi] is Some && day.rates[fi]->0.num > 0)
}

/// The value slot `j` takes after rebasing a day onto `from` at slot
/// `fi`: unchanged for the euro, else the exact quotient of the two
/// rates, absent where the day has no rate.
pub open spec fn converted_slot(day: DayV, fi: int, from: Currency, j: int) -> Option<Rate> {
    if from.code == EUR_CODE {
        day.rates[j]
    } else {
        match (day.rates[fi], day.rates[j]) {
            (Some(rx), Some(ry)) => Some(
                Rate { num: (ry.num * rx.den) as u128, den: (ry.den * rx.num) as u128 },
            ),
            _ => None,
        }
    }
}

/// `m` is the rate table of day `i` rebased onto `from` and restricted
/// to `to`: a key exactly for each selected catalog currency, holding
/// its converted slot value.
pub open spec fn converted_map_ok(
    ds: DatasetV,
    i: int,
    fi: int,
    from: Currency,
    to: Seq<Currency>,
    m: Map<u32, Option<Rate>>,
) -> bool {
    &&& forall|j: int|
        0 <= j < ds.currencies.len() && selected(to, ds.currencies[j]) ==> m.contains_key(
            (#[trigger] ds.currencies[j]).code,
        ) && m[ds.currencies[j].code] == converted_slot(ds.days[i], fi, from, j)
    &&& forall|k: u32|
        #[trigger] m.contains_key(k) ==> exists|j: int|
            0 <= j < ds.currencies.len() && (#[trigger] ds.currencies[j]).code == k && selected(
                to,
                ds.currencies[j],
            )
}

/// Day slot `i` is where an optional requested date resolves: the
/// latest day on or before it, clamped to the oldest day when the date
/// precedes everything, and the newest day when no date is given.
pub open spec fn resolved_day_index(ds: DatasetV, date: Option<Date>, i: int) -> bool {
    match date {
        None => i == ds.days.len() - 1,
        Some(d) => {
            ||| (0 <= i < ds.days.len() && ds.days[i].date.key() <= d.key() && (forall|j: int|
                i < j < ds.days.len() ==> ds.days[j].date.key() > d.key()))
            ||| (i == 0 && (forall|j: int|
                0 <= j < ds.days.len() ==> ds.days[j].date.key() > d.key()))
        },
    }
}

/// The day slots of `[s, e)` whose conversion onto `from` applies, in
/// ascending order.
pub open spec fn kept_indices(ds: DatasetV, s: int, e: int, fi: int, from: Currency) -> Seq<int>
    decreases e - s,
{
    if s >= e {
        Seq::empty()
    } else {
        kept_indices(ds, s, e - 1, fi, from) + (if conversion_applies(ds.days[e - 1], fi, from) {
            seq![e - 1]
        } else {
            Seq::empty()
        })
    }
}

/// The date of an optional rates request.
pub open spec fn spec_req_date(req: Option<RatesRequest>) -> Option<Date> {
    match req {
        None => None,
        Some(q) => q.date,
    }
}

/// The conversion parameters of an optional rates request.
pub open spec fn spec_req_conversion(req: Option<RatesRequest>) -> Option<ConversionParams> {
    match req {
        None => None,
        Some(q) => q.conversion,
    }
}

/// A one-day request was answered: some day slot `i` resolves the
/// requested date, some conversion `c` resolves the parameters, the day
/// can be rebased onto `c.from`, and the answer carries that day's date
/// and its converted, restricted rate table.
pub open spec fn rates_ok(ds: DatasetV, req: Option<RatesRequest>, out: Rates) -> bool {
    exists|i: int, fi: int, c: Conversion|
        {
            &&& resolved_day_index(ds, spec_req_date(req), i)
            &&& conversion_resolved(spec_req_conversion(req), ds.currencies, c)
            &&& 0 <= fi < ds.currencies.len()
            &&& ds.currencies[fi] == c.from
            &&& conversion_applies(ds.days[i], fi, c.from)
            &&& out.date == ds.days[i].date
            &&& converted_map_ok(ds, i, fi, c.from, c.to@, out.rates@)
        }
}

/// A one-day request was rejected because the resolved day has no
/// usable rate for the resolved base currency; the answer names that
/// base alone.
pub open spec fn rates_day_rejected(
    ds: DatasetV,
    req: Option<RatesRequest>,
    e: CurrenciesNotFound,
) -> bool {
    exists|i: int, fi: int, c: Conversion|
        {
            &&& resolved_day_index(ds, spec_req_date(req), i)
            &&& conversion_resolved(spec_req_conversion(req), ds.currencies, c)
            &&& 0 <= fi < ds.currencies.len()
            &&& ds.currencies[fi] == c.from
            &&& !conversion_applies(ds.days[i], fi, c.from)
            &&& e.currencies_not_found@ == seq![c.from]
        }
}

/// A range request found nothing to serve: the end date lies past every
/// day, or the resolved range is inverted, or no day of the resolved
/// range can be rebased onto the resolved base.
pub open spec fn timeframe_no_days(ds: DatasetV, req: TimeframeRequest) -> bool {
    ||| (req.timeframe.1 matches Some(d) && (forall|j: int|
        0 <= j < ds.days.len() ==> ds.days[j].date.key() < d.key()))
    ||| (exists|s: int, e2: int|
        start_slot_resolved(ds, req.timeframe.0, s) && end_slot_resolved(ds, req.timeframe.1, e2)
            && s > e2)
    ||| (exists|s: int, e2: int, fi: int, c: Conversion|
        {
            &&& start_slot_resolved(ds, req.timeframe.0, s)
            &&& end_slot_resolved(ds, req.timeframe.1, e2)
            &&& conversion_resolved(req.conversion, ds.currencies, c)
            &&& 0 <= fi < ds.currencies.len()
            &&& ds.currencies[fi] == c.from
            &&& kept_indices(ds, s, e2, fi, c.from).len() == 0
        })
}

/// A range request was answered: the range and conversion resolve, at
/// least one day in range takes the base, and the answer holds exactly
/// those days in order, each with its converted, restricted table,
/// bounded by the first and last served dates.
pub open spec fn timeframe_ok(ds: DatasetV, req: TimeframeRequest, out: Timeframe) -> bool {
    exists|s: int, e2: int, fi: int, c: Conversion|
        {
            &&& start_slot_resolved(ds, req.timeframe.0, s)
            &&& end_slot_resolved(ds, req.timeframe.1, e2)
            &&& s <= e2
            &&& conversion_resolved(req.conversion, ds.currencies, c)
            &&& 0 <= fi < ds.currencies.len()
            &&& ds.currencies[fi] == c.from
            &&& kept_indices(ds, s, e2, fi, c.from).len() > 0
            &&& out.rates@.len() == kept_indices(ds, s, e2, fi, c.from).len()
            &&& (forall|k: int|
                0 <= k < out.rates@.len() ==> (#[trigger] out.rates@[k]).date == ds.days[kept_indices(
                    ds,
                    s,
                    e2,
                    fi,
                    c.from,
                )[k]].date && converted_map_ok(
                    ds,
                    kept_indices(ds, s, e2, fi, c.from)[k],
                    fi,
                    c.from,
                    c.to@,
                    out.rates@[k].rates@,
                ))
            &&& out.timeframe.0 == ds.days[kept_indices(ds, s, e2, fi, c.from)[0]].date
            &&& out.timeframe.1 == ds.days[kept_indices(ds, s, e2, fi, c.from).last()].date
        }
}

/// Whether a currency occurs in a list.
fn contains_currency(v: &Vec<Currency>, c: Currency) -> (r: bool)
    ensures
        r == v@.contains(c),
{
    let mut i: usize = 0;
    while i < v.len()
        invariant
            i <= v@.len(),
            forall|k: int| 0 <= k < i ==> v@[k] != c,
        decreases v@.len() - i,
    {
        if v[i].code == c.code {
            proof {
                assert(v@[i as int] == c);
            }
            return true;
        }
        proof {
            assert(v@[i as int] != c);
        }
        i += 1;
    }
    proof {
        if v@.contains(c) {
            let m = choose|m: int| 0 <= m < v@.len() && v@[m] == c;
            assert(false);
        }
    }
    false
}

impl Conversion {
    /// Validate raw conversion parameters against the dataset's catalog.
    ///
    /// Succeeds exactly when the catalog knows the requested base and
    /// every entry of the restriction list; otherwise reports the base
    /// alone, or the unknown entries of the list, in request order.
    pub fn from_params(params: &ConversionParams, dataset: &Dataset) -> (r: Result<
        Conversion,
        CurrenciesNotFound,
    >)
        requires
            catalog_sorted(dataset@.currencies),
        ensures
            match r {
                Ok(c) => conversion_resolved(Some(*params), dataset@.currencies, c),
                Err(e) => conversion_failed(Some(*params), dataset@.currencies, e),
            },
    {
        let from = match &params.from {
            Some(f) => match dataset.from(*f) {
                Some(f2) => f2,
                None => {
                    let mut missing: Vec<Currency> = Vec::new();
                    missing.push(*f);
                    proof {
                        assert(missing@ =~= seq![*f]);
                    }
                    return Err(CurrenciesNotFound { currencies_not_found: missing });
                },
            },
            None => Currency::eur(),
        };
        let mut to: Vec<Currency> = Vec::new();
        let mut not_found: Vec<Currency> = Vec::new();
        match &params.to {
            None => {},
            Some(t) => {
                let ghost cat = dataset@.currencies;
                let mut i: usize = 0;
                proof {
                    reveal(Seq::filter);
                    assert(t@.take(0) =~= Seq::<Currency>::empty());
                }
                while i < t.len()
                    invariant
                        i <= t@.len(),
                        catalog_sorted(dataset@.currencies),
                        cat == dataset@.currencies,
                        not_found@ == missing_from(cat, t@.take(i as int)),
                        not_found@.len() == 0 ==> to@ == t@.take(i as int),
                        forall|k: int| 0 <= k < to@.len() ==> cat.contains(#[trigger] to@[k]),
                    decreases t@.len() - i,
                {
                    let c = t[i];
                    proof {
                        assert(t@.take(i + 1).drop_last() =~= t@.take(i as int));
                        assert(t@.take(i + 1).last() == t@[i as int]);
                    }
                    match dataset.lookup_currency(c) {
                        Some(_) => {
                            to.push(c);
                            proof {
                                reveal(Seq::filter);
                                assert(cat.contains(c));
                                assert(missing_from(cat, t@.take(i + 1)) =~= missing_from(
                                    cat,
                                    t@.take(i as int),
                                ));
                                if not_found@.len() == 0 {
                                    assert(to@ =~= t@.take(i + 1));
                                }
                            }
                        },
                        None => {
                            not_found.push(c);
                            proof {
                                reveal(Seq::filter);
                                assert(!cat.contains(c));
                                assert(missing_from(cat, t@.take(i + 1)) =~= missing_from(
                                    cat,
                                    t@.take(i as int),
                                ).push(c));
                            }
                        },
                    }
                    i += 1;
                }
                proof {
                    assert(t@.take(t@.len() as int) =~= t@);
                }
                if not_found.len() > 0 {
                    return Err(CurrenciesNotFound { currencies_not_found: not_found });
                }
            },
        }
        Ok(Conversion { from, to })
    }
}

/// Build the answer table for one (already converted) day: a key for
/// each selected catalog currency, holding that day's slot value.
fn build_rates_map(day: &crate::dataset::Day, currencies: &Vec<Currency>, to: &Vec<Currency>) -> (m:
    HashMap<u32, Option<Rate>>)
    requires
        day@.rates.len() == currencies@.len(),
        catalog_sorted(currencies@),
    ensures
        forall|j: int|
            0 <= j < currencies@.len() && selected(to@, currencies@[j]) ==> m@.contains_key(
                (#[trigger] currencies@[j]).code,
            ) && m@[currencies@[j].code] == day@.rates[j],
        forall|k: u32|
            #[trigger] m@.contains_key(k) ==> exists|j: int|
                0 <= j < currencies@.len() && (#[trigger] currencies@[j]).code == k && selected(
                    to@,
                    currencies@[j],
                ),
{
    let mut m: HashMap<u32, Option<Rate>> = HashMap::new();
    let mut j: usize = 0;
    while j < currencies.len()
        invariant
            j <= currencies@.len(),
            day@.rates.len() == currencies@.len(),
            catalog_sorted(currencies@),
            forall|a: int|
                0 <= a < j && selected(to@, currencies@[a]) ==> m@.contains_key(
                    (#[trigger] currencies@[a]).code,
                ) && m@[currencies@[a].code] == day@.rates[a],
            forall|k: u32|
                #[trigger] m@.contains_key(k) ==> exists|a: int|
                    0 <= a < j && (#[trigger] currencies@[a]).code == k && selected(
                        to@,
                        currencies@[a],
                    ),
        decreases currencies@.len() - j,
    {
        let c = currencies[j];
        if to.len() == 0 || contains_currency(to, c) {
            proof {
                assert(selected(to@, currencies@[j as int]));
            }
            m.insert(c.code, day.rates[j]);
        } else {
            proof {
                assert(!selected(to@, currencies@[j as int]));
            }
        }
        j += 1;
    }
    m
}

impl Api {
    /// The catalog overview: every currency of the dataset and the
    /// dates it covers; no day at all means there is nothing to serve.
    pub fn index(&self, dataset: &Dataset) -> (r: Result<IndexResponse, ApiError>)
        ensures
            match r {
                Ok(resp) => {
                    &&& dataset@.days.len() > 0
                    &&& resp.currencies@ == dataset@.currencies
                    &&& resp.timeframe.0 == dataset@.days.first().date
                    &&& resp.timeframe.1 == dataset@.days.last().date
                },
                Err(e) => e is NoRates && dataset@.days.len() == 0,
            },
    {
        match dataset.timeframe() {
            None => Err(ApiError::NoRates),
            Some(p) => {
                let mut currencies: Vec<Currency> = Vec::new();
                let mut i: usize = 0;
                while i < dataset.currencies.len()
                    invariant
                        i <= dataset@.currencies.len(),
                        currencies@ == dataset@.currencies.take(i as int),
                    decreases dataset@.currencies.len() - i,
                {
                    currencies.push(dataset.currencies[i]);
                    proof {
                        assert(currencies@ =~= dataset@.currencies.take(i + 1));
                    }
                    i += 1;
                }
                proof {
                    assert(currencies@ =~= dataset@.currencies);
                }
                Ok(IndexResponse { currencies, timeframe: p })
            },
        }
    }

    /// One day's rates: resolve the requested date (the newest day when
    /// none is given, the latest day on or before it otherwise, clamped
    /// to the oldest), validate the conversion parameters, rebase the
    /// day onto the base currency, and answer with the selected slots.
    pub fn rates(&self, dataset: &Dataset, req: Option<RatesRequest>) -> (r: Result<
        Rates,
        ApiError,
    >)
        requires
            dataset.wf(),
        ensures
            match r {
                Err(e) => match e {
                    ApiError::NoRates => dataset@.days.len() == 0,
                    ApiError::CurrenciesNotFound(e) => conversion_failed(
                        spec_req_conversion(req),
                        dataset@.currencies,
                        e,
                    ) || rates_day_rejected(dataset@, req, e),
                },
                Ok(out) => rates_ok(dataset@, req, out),
            },
    {
        let conversion = match &req {
            Some(q) => match &q.conversion {
                Some(p) => match Conversion::from_params(p, dataset) {
                    Ok(c) => c,
                    Err(e) => {
                        return Err(ApiError::CurrenciesNotFound(e));
                    },
                },
                None => Conversion::default(),
            },
            None => Conversion::default(),
        };
        if dataset.days.len() == 0 {
            return Err(ApiError::NoRates);
        }
        let index: usize = match &req {
            Some(q) => match q.date {
                Some(d) => match dataset.lookup_date_on_or_before(d) {
                    Some(i) => i,
                    None => 0,
                },
                None => dataset.days.len() - 1,
            },
            None => dataset.days.len() - 1,
        };
        proof {
            assert(resolved_day_index(dataset@, spec_req_date(req), index as int));
        }
        let fi: usize = match dataset.lookup_currency(conversion.from) {
            Some(x) => x,
            None => unreached(),
        };
        let day = dataset.days[index].duplicate();
        proof {
            assert(day@ == dataset@.days[index as int]);
        }
        let converted = match day.convert(conversion.from, &dataset.currencies) {
            None => {
                proof {
                    assert(!conversion_applies(
                        dataset@.days[index as int],
                        fi as int,
                        conversion.from,
                    ));
                }
                let mut missing: Vec<Currency> = Vec::new();
                missing.push(conversion.from);
                proof {
                    assert(missing@ =~= seq![conversion.from]);
                }
                return Err(
                    ApiError::CurrenciesNotFound(
                        CurrenciesNotFound { currencies_not_found: missing },
                    ),
                );
            },
            Some(cd) => cd,
        };
        let m = build_rates_map(&converted, &dataset.currencies, &conversion.to);
        let out = Rates { date: converted.date, rates: m };
        proof {
            assert(conversion_applies(dataset@.days[index as int], fi as int, conversion.from));
            assert(out.date == dataset@.days[index as int].date);
            assert forall|j: int|
                0 <= j < dataset@.currencies.len() implies #[trigger] converted@.rates[j]
                == converted_slot(
                dataset@.days[index as int],
                fi as int,
                conversion.from,
                j,
            ) by {
                assert(dataset@.currencies[fi as int] == conversion.from);
            }
            assert(converted_map_ok(
                dataset@,
                index as int,
                fi as int,
                conversion.from,
                conversion.to@,
                out.rates@,
            ));
        }
        Ok(out)
    }

    /// One day's rates with no request at all: the newest day, euro
    /// base, every currency.
    pub fn rates_(&self, dataset: &Dataset) -> (r: Result<Rates, ApiError>)
        requires
            dataset.wf(),
        ensures
            match r {
                Err(e) => e is NoRates && dataset@.days.len() == 0,
                Ok(out) => rates_ok(dataset@, None, out),
            },
    {
        let r = self.rates(dataset, None);
        proof {
            match r {
                Err(ApiError::CurrenciesNotFound(ref e)) => {
                    assert(false);
                },
                _ => {},
            }
        }
        r
    }

    /// A range of days' rates: resolve the half-open timeframe, validate
    /// the conversion, and answer one table per day in range that can be
    /// rebased onto the requested base; days without a usable base rate
    /// are left out, and an empty answer is reported as such.
    pub fn timeframe(&self, dataset: &Dataset, req: TimeframeRequest) -> (r: Result<
        Timeframe,
        ApiError,
    >)
        requires
            dataset.wf(),
        ensures
            match r {
                Err(e) => match e {
                    ApiError::NoRates => timeframe_no_days(dataset@, req),
                    ApiError::CurrenciesNotFound(e) => conversion_failed(
                        req.conversion,
                        dataset@.currencies,
                        e,
                    ),
                },
                Ok(out) => timeframe_ok(dataset@, req, out),
            },
    {
        let (s, e) = match dataset.select_range(req.timeframe.0, req.timeframe.1) {
            Ok(p) => p,
            Err(_) => {
                return Err(ApiError::NoRates);
            },
        };
        let conversion = match &req.conversion {
            Some(p) => match Conversion::from_params(p, dataset) {
                Ok(c) => c,
                Err(err) => {
                    return Err(ApiError::CurrenciesNotFound(err));
                },
            },
            None => Conversion::default(),
        };
        let fi: usize = match dataset.lookup_currency(conversion.from) {
            Some(x) => x,
            None => unreached(),
        };
        let mut out_rates: Vec<Rates> = Vec::new();
        let mut i: usize = s;
        while i < e
            invariant
                s <= i <= e,
                e <= dataset@.days.len(),
                dataset.wf(),
                0 <= (fi as int) < dataset@.currencies.len(),
                dataset@.currencies[fi as int] == conversion.from,
                out_rates@.len() == kept_indices(
                    dataset@,
                    s as int,
                    i as int,
                    fi as int,
                    conversion.from,
                ).len(),
                forall|k: int|
                    0 <= k < out_rates@.len() ==> (#[trigger] out_rates@[k]).date
                        == dataset@.days[kept_indices(
                        dataset@,
                        s as int,
                        i as int,
                        fi as int,
                        conversion.from,
                    )[k]].date && converted_map_ok(
                        dataset@,
                        kept_indices(dataset@, s as int, i as int, fi as int, conversion.from)[k],
                        fi as int,
                        conversion.from,
                        conversion.to@,
                        out_rates@[k].rates@,
                    ),
            decreases e - i,
        {
            let ghost kept_before = kept_indices(
                dataset@,
                s as int,
                i as int,
                fi as int,
                conversion.from,
            );
            let day = dataset.days[i].duplicate();
            proof {
                assert(day@ == dataset@.days[i as int]);
            }
            match day.convert(conversion.from, &dataset.currencies) {
                None => {
                    proof {
                        assert(!conversion_applies(
                            dataset@.days[i as int],
                            fi as int,
                            conversion.from,
                        ));
                        assert(kept_indices(
                            dataset@,
                            s as int,
                            i + 1,
                            fi as int,
                            conversion.from,
                        ) =~= kept_before);
                    }
                },
                Some(cd) => {
                    let m = build_rates_map(&cd, &dataset.currencies, &conversion.to);
                    let entry = Rates { date: cd.date, rates: m };
                    proof {
                        assert(conversion_applies(
                            dataset@.days[i as int],
                            fi as int,
                            conversion.from,
                        ));
                        assert(kept_indices(dataset@, s as int, i + 1, fi as int, conversion.from)
                            =~= kept_before.push(i as int));
                        assert(entry.date == dataset@.days[i as int].date);
                        assert forall|j: int|
                            0 <= j < dataset@.currencies.len() implies #[trigger] cd@.rates[j]
                            == converted_slot(
                            dataset@.days[i as int],
                            fi as int,
                            conversion.from,
                            j,
                        ) by {
                            assert(dataset@.currencies[fi as int] == conversion.from);
                        }
                        assert(converted_map_ok(
                            dataset@,
                            i as int,
                            fi as int,
                            conversion.from,
                            conversion.to@,
                            entry.rates@,
                        ));
                    }
                    out_rates.push(entry);
                },
            }
            i += 1;
        }
        if out_rates.len() == 0 {
            return Err(ApiError::NoRates);
        }
        let first = out_rates[0].date;
        let last = out_rates[out_rates.len() - 1].date;
        let out = Timeframe { timeframe: (first, last), rates: out_rates };
        proof {
            let kept = kept_indices(dataset@, s as int, e as int, fi as int, conversion.from);
            assert(out.timeframe.0 == dataset@.days[kept[0]].date);
            assert(out.timeframe.1 == dataset@.days[kept.last()].date);
        }
        Ok(out)
    }
}

} // verus!
