use std::collections::HashMap;
use vstd::prelude::*;

use crate::currency::{Currency, EUR_CODE};
use crate::date::Date;
use crate::rate::{Rate, RATE_PART_MAX};

verus! {

broadcast use vstd::std_specs::hash::group_hash_axioms;

/// Abstract value of a [`Day`]: one date and the rate of every catalog
/// currency on that date, `None` where the currency did not trade yet.
#[verifier::ext_equal]
pub struct DayV {
    pub date: Date,
    pub rates: Seq<Option<Rate>>,
}

/// One calendar date of the dataset, with its rate vector positionally
/// aligned to the dataset's currency catalog: `rates[i]` is the
/// euro-denominated rate of `currencies[i]` on this date.
#[derive(Debug)]
pub struct Day {
    pub date: Date,
    pub rates: Vec<Option<Rate>>,
}

impl View for Day {
    type V = DayV;

    open spec fn view(&self) -> DayV {
        DayV { date: self.date, rates: self.rates@ }
    }
}

/// Abstract value of a [`Dataset`].
#[verifier::ext_equal]
pub struct DatasetV {
    pub days: Seq<DayV>,
    pub currencies: Seq<Currency>,
}

/// The in-memory dataset: a sorted currency catalog and a date-ascending
/// sequence of days whose rate vectors are aligned to that catalog.
#[derive(Debug)]
pub struct Dataset {
    pub days: Vec<Day>,
    pub currencies: Vec<Currency>,
}

impl View for Dataset {
    type V = DatasetV;

    open spec fn view(&self) -> DatasetV {
        DatasetV {
            days: self.days@.map_values(|d: Day| d@),
            currencies: self.currencies@,
        }
    }
}

/// The catalog invariant: strictly sorted by packed code (hence free of
/// duplicates), every entry a valid three-letter code, and the euro present.
pub open spec fn catalog_wf(cat: Seq<Currency>) -> bool {
    &&& catalog_sorted(cat)
    &&& cat.contains(Currency { code: EUR_CODE })
    &&& forall|i: int| 0 <= i < cat.len() ==> (#[trigger] cat[i]).wf()
}

/// Strictly ascending packed codes.
pub open spec fn catalog_sorted(cat: Seq<Currency>) -> bool {
    forall|i: int, j: int| 0 <= i < j < cat.len() ==> cat[i].code < cat[j].code
}

impl DayV {
    /// A day is well formed for a catalog of `n` currencies when its date
    /// is a valid calendar date, its rate vector has exactly `n` slots,
    /// and every present rate is a bounded positive-denominator rational.
    pub open spec fn wf(self, n: int) -> bool {
        &&& self.date.wf()
        &&& self.rates.len() == n
        &&& forall|j: int|
            0 <= j < self.rates.len() ==> match #[trigger] self.rates[j] {
                Some(r) => r.bounded(),
                None => true,
            }
    }
}

impl DatasetV {
    /// The dataset invariant: well-formed catalog, every day aligned to it,
    /// and dates strictly increasing from the first day to the last.
    pub open spec fn wf(self) -> bool {
        &&& catalog_wf(self.currencies)
        &&& forall|i: int|
            0 <= i < self.days.len() ==> (#[trigger] self.days[i]).wf(self.currencies.len() as int)
        &&& forall|i: int, j: int|
            0 <= i < j < self.days.len() ==> self.days[i].date.key() < self.days[j].date.key()
    }
}

/// Catalog invariant: a well-formed dataset's catalog is strictly
/// sorted by code, free of duplicates, and contains the euro.
pub proof fn lemma_catalog_invariant(ds: DatasetV)
    requires
        ds.wf(),
    ensures
        forall|i: int, j: int|
            0 <= i < j < ds.currencies.len() ==> ds.currencies[i].code < ds.currencies[j].code,
        forall|i: int, j: int|
            0 <= i < j < ds.currencies.len() ==> ds.currencies[i] != ds.currencies[j],
        ds.currencies.contains(Currency { code: EUR_CODE }),
{
}

/// Day-vector invariant: every day of a well-formed dataset has
/// exactly one rate slot per catalog currency.
pub proof fn lemma_day_vector_invariant(ds: DatasetV)
    requires
        ds.wf(),
    ensures
        forall|i: int|
            0 <= i < ds.days.len() ==> (#[trigger] ds.days[i]).rates.len() == ds.currencies.len(),
{
}

/// Date invariant: the days of a well-formed dataset are strictly
/// ascending by date from the first element to the last.
pub proof fn lemma_date_invariant(ds: DatasetV)
    requires
        ds.wf(),
    ensures
        forall|i: int, j: int|
            0 <= i < j < ds.days.len() ==> ds.days[i].date.key() < ds.days[j].date.key(),
{
}

/// An inverted or out-of-bounds timeframe selection.
#[derive(Clone, Copy, Debug, PartialEq, Eq, Structural)]
pub struct RangeError;

/// Slot `s` is where an optional range start resolves: the latest day
/// on or before the date, the first day when the date precedes every
/// day, slot zero when no date is given.
pub open spec fn start_slot_resolved(ds: DatasetV, start: Option<Date>, s: int) -> bool {
    match start {
        None => s == 0,
        Some(d) => {
            ||| (0 <= s < ds.days.len() && ds.days[s].date.key() <= d.key() && (forall|j: int|
                s < j < ds.days.len() ==> ds.days[j].date.key() > d.key()))
            ||| (s == 0 && (forall|j: int|
                0 <= j < ds.days.len() ==> ds.days[j].date.key() > d.key()))
        },
    }
}

/// Slot `e` is where an optional range end resolves: the earliest day
/// on or after the date (the end is exclusive), one past the last day
/// when no date is given.
pub open spec fn end_slot_resolved(ds: DatasetV, end: Option<Date>, e: int) -> bool {
    match end {
        None => e == ds.days.len(),
        Some(d) => 0 <= e < ds.days.len() && ds.days[e].date.key() >= d.key() && (forall|j: int|
            0 <= j < e ==> ds.days[j].date.key() < d.key()),
    }
}

/// Binary search for a currency in a sorted catalog.
///
/// Returns the slot of `c`, or `None` exactly when `c` is not in the
/// catalog.
pub fn catalog_search(cat: &Vec<Currency>, c: Currency) -> (r: Option<usize>)
    requires
        catalog_sorted(cat@),
    ensures
        match r {
            Some(i) => i < cat@.len() && cat@[i as int] == c,
            None => forall|k: int| 0 <= k < cat@.len() ==> cat@[k] != c,
        },
{
    let mut lo: usize = 0;
    let mut hi: usize = cat.len();
    while lo < hi
        invariant
            lo <= hi <= cat@.len(),
            catalog_sorted(cat@),
            forall|k: int| 0 <= k < lo ==> (#[trigger] cat@[k]).code < c.code,
            forall|k: int| hi <= k < cat@.len() ==> (#[trigger] cat@[k]).code > c.code,
        decreases hi - lo,
    {
        let mid = lo + (hi - lo) / 2;
        let probe = cat[mid].code;
        if probe < c.code {
            lo = mid + 1;
        } else if probe > c.code {
            hi = mid;
        } else {
            // A currency value is exactly its packed code, so equal
            // codes mean the catalog entry is the requested currency.
            proof {
                assert(cat@[mid as int] == c);
            }
            return Some(mid);
        }
    }
    None
}

impl Dataset {
    pub open spec fn wf(self) -> bool {
        self@.wf()
    }

    /// The first and last dates the dataset covers, oldest first;
    /// `None` exactly when the dataset holds no days at all.
    pub fn timeframe(&self) -> (r: Option<(Date, Date)>)
        ensures
            match r {
                Some(p) => self@.days.len() > 0 && p.0 == self@.days.first().date && p.1
                    == self@.days.last().date,
                None => self@.days.len() == 0,
            },
    {
        if self.days.len() == 0 {
            None
        } else {
            let first = self.days[0].date;
            let last = self.days[self.days.len() - 1].date;
            Some((first, last))
        }
    }

    /// Validate a currency code against the catalog: returns the canonical
    /// catalog value when the code is known, `None` when it is not.
    pub fn from(&self, code: Currency) -> (r: Option<Currency>)
        requires
            catalog_sorted(self@.currencies),
        ensures
            match r {
                Some(c) => c == code && self@.currencies.contains(code),
                None => !self@.currencies.contains(code),
            },
    {
        match catalog_search(&self.currencies, code) {
            Some(i) => {
                proof {
                    assert(self@.currencies[i as int] == code);
                }
                Some(self.currencies[i])
            },
            None => {
                proof {
                    assert(forall|k: int|
                        0 <= k < self@.currencies.len() ==> self@.currencies[k] != code);
                    assert(!self@.currencies.contains(code));
                }
                None
            },
        }
    }

    /// Slot of the given currency in the catalog, `None` when unknown.
    pub fn lookup_currency(&self, code: Currency) -> (r: Option<usize>)
        requires
            catalog_sorted(self@.currencies),
        ensures
            match r {
                Some(i) => i < self@.currencies.len() && self@.currencies[i as int] == code,
                None => !self@.currencies.contains(code),
            },
    {
        let r = catalog_search(&self.currencies, code);
        proof {
            if r is None {
                assert(!self@.currencies.contains(code));
            }
        }
        r
    }

    /// The latest day on or before `date`: `Some(i)` when day `i` is on or
    /// before `date` and every later day is after it, `None` when every
    /// day of the dataset is after `date`.
    pub fn lookup_date_on_or_before(&self, date: Date) -> (r: Option<usize>)
        requires
            forall|i: int, j: int|
                0 <= i < j < self@.days.len() ==> self@.days[i].date.key() < self@.days[j].date.key(),
        ensures
            match r {
                Some(i) => {
                    &&& i < self@.days.len()
                    &&& self@.days[i as int].date.key() <= date.key()
                    &&& forall|j: int|
                        i < j < self@.days.len() ==> self@.days[j].date.key() > date.key()
                },
                None => forall|j: int|
                    0 <= j < self@.days.len() ==> self@.days[j].date.key() > date.key(),
            },
    {
        let mut lo: usize = 0;
        let mut hi: usize = self.days.len();
        while lo < hi
            invariant
                lo <= hi <= self@.days.len(),
                forall|i: int, j: int|
                    0 <= i < j < self@.days.len() ==> self@.days[i].date.key()
                        < self@.days[j].date.key(),
                forall|k: int| 0 <= k < lo ==> self@.days[k].date.key() <= date.key(),
                forall|k: int| hi <= k < self@.days.len() ==> self@.days[k].date.key() > date.key(),
            decreases hi - lo,
        {
            let mid = lo + (hi - lo) / 2;
            proof {
                assert(self@.days[mid as int] == self.days@[mid as int]@);
            }
            if self.days[mid].date.le(&date) {
                lo = mid + 1;
            } else {
                hi = mid;
            }
        }
        if lo == 0 {
            None
        } else {
            Some(lo - 1)
        }
    }

    /// The earliest day on or after `date`: `Some(i)` when day `i` is on
    /// or after `date` and every earlier day is before it, `None` when
    /// every day of the dataset is before `date`.
    pub fn lookup_date_on_or_after(&self, date: Date) -> (r: Option<usize>)
        requires
            forall|i: int, j: int|
                0 <= i < j < self@.days.len() ==> self@.days[i].date.key() < self@.days[j].date.key(),
        ensures
            match r {
                Some(i) => {
                    &&& i < self@.days.len()
                    &&& self@.days[i as int].date.key() >= date.key()
                    &&& forall|j: int| 0 <= j < i ==> self@.days[j].date.key() < date.key()
                },
                None => forall|j: int|
                    0 <= j < self@.days.len() ==> self@.days[j].date.key() < date.key(),
            },
    {
        let mut lo: usize = 0;
        let mut hi: usize = self.days.len();
        while lo < hi
            invariant
                lo <= hi <= self@.days.len(),
                forall|i: int, j: int|
                    0 <= i < j < self@.days.len() ==> self@.days[i].date.key()
                        < self@.days[j].date.key(),
                forall|k: int| 0 <= k < lo ==> self@.days[k].date.key() < date.key(),
                forall|k: int| hi <= k < self@.days.len() ==> self@.days[k].date.key() >= date.key(),
            decreases hi - lo,
        {
            let mid = lo + (hi - lo) / 2;
            proof {
                assert(self@.days[mid as int] == self.days@[mid as int]@);
            }
            if self.days[mid].date.lt(&date) {
                lo = mid + 1;
            } else {
                hi = mid;
            }
        }
        if lo == self.days.len() {
            None
        } else {
            Some(lo)
        }
    }

    /// Resolve an optional half-open date range to day slots: the start
    /// rounds back to the latest day on or before it (or to the first
    /// day), the end rounds forward to the earliest day on or after it
    /// (exclusive), missing bounds select everything. An end past every
    /// day, or a start slot after the end slot, is an error, never a
    /// panic.
    pub fn select_range(&self, start: Option<Date>, end: Option<Date>) -> (r: Result<
        (usize, usize),
        RangeError,
    >)
        requires
            forall|i: int, j: int|
                0 <= i < j < self@.days.len() ==> self@.days[i].date.key() < self@.days[j].date.key(),
        ensures
            match r {
                Ok(p) => p.0 <= p.1 <= self@.days.len() && start_slot_resolved(self@, start, p.0 as int)
                    && end_slot_resolved(self@, end, p.1 as int),
                Err(e) => {
                    ||| (end matches Some(d) && (forall|j: int|
                        0 <= j < self@.days.len() ==> self@.days[j].date.key() < d.key()))
                    ||| (exists|s: int, e2: int|
                        start_slot_resolved(self@, start, s) && end_slot_resolved(self@, end, e2)
                            && s > e2)
                },
            },
    {
        let s: usize = match start {
            None => 0,
            Some(d) => match self.lookup_date_on_or_before(d) {
                Some(i) => i,
                None => 0,
            },
        };
        let e: usize = match end {
            None => self.days.len(),
            Some(d) => match self.lookup_date_on_or_after(d) {
                Some(i) => i,
                None => {
                    return Err(RangeError);
                },
            },
        };
        if s > e {
            proof {
                assert(start_slot_resolved(self@, start, s as int) && end_slot_resolved(
                    self@,
                    end,
                    e as int,
                ) && s > e);
            }
            Err(RangeError)
        } else {
            Ok((s, e))
        }
    }

    /// A structurally identical copy of this dataset.
    pub fn duplicate(&self) -> (d: Dataset)
        ensures
            d@ == self@,
    {
        let mut days: Vec<Day> = Vec::new();
        let mut i: usize = 0;
        while i < self.days.len()
            invariant
                i <= self.days.len(),
                days@.len() == i,
                forall|k: int| 0 <= k < i ==> days@[k]@ == self.days@[k]@,
            decreases self.days.len() - i,
        {
            days.push(self.days[i].duplicate());
            i += 1;
        }
        let mut currencies: Vec<Currency> = Vec::new();
        let mut j: usize = 0;
        while j < self.currencies.len()
            invariant
                j <= self.currencies.len(),
                currencies@ == self.currencies@.take(j as int),
            decreases self.currencies.len() - j,
        {
            currencies.push(self.currencies[j]);
            proof {
                assert(currencies@ =~= self.currencies@.take(j + 1));
            }
            j += 1;
        }
        let d = Dataset { days, currencies };
        proof {
            assert(currencies@ =~= self.currencies@);
            assert(d@.days =~= self@.days);
            assert(d@ == self@);
        }
        d
    }
}

impl Day {
    /// A structurally identical copy of this day.
    pub fn duplicate(&self) -> (d: Day)
        ensures
            d@ == self@,
    {
        let mut rates: Vec<Option<Rate>> = Vec::new();
        let mut i: usize = 0;
        while i < self.rates.len()
            invariant
                i <= self.rates.len(),
                rates@ == self.rates@.take(i as int),
            decreases self.rates.len() - i,
        {
            rates.push(self.rates[i]);
            proof {
                assert(rates@ =~= self.rates@.take(i + 1));
            }
            i += 1;
        }
        let d = Day { date: self.date, rates };
        proof {
            assert(d.rates@ =~= self.rates@);
        }
        d
    }

    /// The day's rates keyed by packed currency code: one entry per
    /// catalog currency, holding that currency's rate of this day, or
    /// `None` where the currency had no rate yet.
    pub fn to_hashmap(&self, currencies: &Vec<Currency>) -> (m: HashMap<u32, Option<Rate>>)
        requires
            self@.rates.len() == currencies@.len(),
            catalog_sorted(currencies@),
        ensures
            forall|i: int|
                0 <= i < currencies@.len() ==> m@.contains_key((#[trigger] currencies@[i]).code)
                    && m@[currencies@[i].code] == self@.rates[i],
            forall|k: u32|
                #[trigger] m@.contains_key(k) ==> exists|i: int|
                    0 <= i < currencies@.len() && (#[trigger] currencies@[i]).code == k,
    {
        let mut m: HashMap<u32, Option<Rate>> = HashMap::new();
        let mut i: usize = 0;
        while i < currencies.len()
            invariant
                i <= currencies@.len(),
                self@.rates.len() == currencies@.len(),
                catalog_sorted(currencies@),
                forall|a: int|
                    0 <= a < i ==> m@.contains_key((#[trigger] currencies@[a]).code)
                        && m@[currencies@[a].code] == self@.rates[a],
                forall|k: u32|
                    #[trigger] m@.contains_key(k) ==> exists|a: int|
                        0 <= a < i && (#[trigger] currencies@[a]).code == k,
            decreases currencies@.len() - i,
    {
            m.insert(currencies[i].code, self.rates[i]);
            i += 1;
        }
        m
    }

    /// Rebase this day's rate vector onto the currency `from`.
    ///
    /// With the euro as base the day is returned unchanged, since the feed
    /// is euro-denominated natively. Otherwise every present rate is
    /// divided, exactly, by the base currency's rate of this day; the
    /// result is `None` when the base currency is not in the catalog at
    /// all, and also when the catalog knows it but this particular day has
    /// no rate (or a zero rate) for it.
    pub fn convert(self, from: Currency, currencies: &Vec<Currency>) -> (r: Option<Day>)
        requires
            catalog_sorted(currencies@),
            self@.rates.len() == currencies@.len(),
            forall|j: int|
                0 <= j < self@.rates.len() ==> match #[trigger] self@.rates[j] {
                    Some(rr) => rr.bounded(),
                    None => true,
                },
        ensures
            from.code == EUR_CODE ==> r == Some(self),
            (from.code != EUR_CODE && !currencies@.contains(from)) ==> r is None,
            forall|i: int|
                0 <= i < currencies@.len() && currencies@[i] == from && from.code != EUR_CODE
                    ==> match self@.rates[i] {
                    None => r is None,
                    Some(rx) => {
                        &&& rx.num == 0 ==> r is None
                        &&& rx.num > 0 ==> {
                            &&& r is Some
                            &&& r->0@.date == self@.date
                            &&& r->0@.rates.len() == self@.rates.len()
                            &&& forall|j: int|
                                0 <= j < self@.rates.len() ==> match #[trigger] self@.rates[j] {
                                    None => r->0@.rates[j] is None,
                                    Some(ry) => r->0@.rates[j] == Some(
                                        Rate {
                                            num: (ry.num * rx.den) as u128,
                                            den: (ry.den * rx.num) as u128,
                                        },
                                    ),
                                }
                        }
                    },
                },
    {
        if from.code == EUR_CODE {
            return Some(self);
        }
        let idx = match catalog_search(currencies, from) {
            None => {
                return None;
            },
            Some(i) => i,
        };
        let rx = match self.rates[idx] {
            None => {
                return None;
            },
            Some(r) => r,
        };
        if rx.num == 0 {
            return None;
        }
        let mut rates: Vec<Option<Rate>> = Vec::new();
        let mut j: usize = 0;
        while j < self.rates.len()
            invariant
                j <= self.rates.len(),
                rates@.len() == j,
                rx.bounded(),
                rx.num > 0,
                forall|k: int|
                    0 <= k < self.rates@.len() ==> match #[trigger] self.rates@[k] {
                        Some(rr) => rr.bounded(),
                        None => true,
                    },
                forall|k: int|
                    0 <= k < j ==> match #[trigger] self.rates@[k] {
                        None => rates@[k] is None,
                        Some(ry) => rates@[k] == Some(
                            Rate {
                                num: (ry.num * rx.den) as u128,
                                den: (ry.den * rx.num) as u128,
                            },
                        ),
                    },
            decreases self.rates.len() - j,
        {
            match self.rates[j] {
                None => rates.push(None),
                Some(ry) => {
                    proof {
                        assert(ry.num * rx.den <= RATE_PART_MAX * RATE_PART_MAX && ry.den * rx.num
                            <= RATE_PART_MAX * RATE_PART_MAX && ry.den * rx.num >= 1)
                            by (nonlinear_arith)
                            requires
                                ry.num <= RATE_PART_MAX,
                                rx.den <= RATE_PART_MAX,
                                ry.den <= RATE_PART_MAX,
                                rx.num <= RATE_PART_MAX,
                                1 <= ry.den,
                                1 <= rx.num,
                        ;
                    }
                    rates.push(Some(Rate { num: ry.num * rx.den, den: ry.den * rx.num }));
                },
            }
            j += 1;
        }
        Some(Day { date: self.date, rates })
    }
}

} // verus!
