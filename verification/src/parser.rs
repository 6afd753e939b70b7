use vstd::prelude::*;

use crate::currency::{spec_is_upper, spec_pack, Currency, EUR_CODE};
use crate::dataset::{catalog_sorted, catalog_wf, Dataset, DatasetV, Day};
use crate::date::{days_in_month, Date};
use crate::rate::{spec_rate_one, Rate, RATE_PART_MAX};

verus! {

// The feed is one XML document: an envelope wrapping an outer `<Cube>`
// element that holds one `<Cube time="...">` element per day, each of
// which holds one `<Cube currency="..." rate="..."/>` element per
// currency. The grammar below describes exactly that shape over raw
// bytes; anything else is malformed. The spec functions are the
// authoritative definition, and every executable parsing function is
// proved to return exactly what they describe.
/// Whitespace between elements: space, tab, carriage return, newline.
pub open spec fn is_ws(b: u8) -> bool {
    b == 32 || b == 9 || b == 13 || b == 10
}

/// An ASCII decimal digit.
pub open spec fn is_digit(b: u8) -> bool {
    48 <= b <= 57
}

/// First index at or after `i` that does not hold whitespace.
pub open spec fn spec_skip_ws(s: Seq<u8>, i: int) -> int
    decreases s.len() - i,
{
    if 0 <= i < s.len() && is_ws(s[i]) {
        spec_skip_ws(s, i + 1)
    } else {
        i
    }
}

pub proof fn lemma_skip_ws_bounds(s: Seq<u8>, i: int)
    requires
        0 <= i <= s.len(),
    ensures
        i <= spec_skip_ws(s, i) <= s.len(),
    decreases s.len() - i,
{
    if i < s.len() && is_ws(s[i]) {
        lemma_skip_ws_bounds(s, i + 1);
    }
}

/// The opening tag of the outer day-table element: `<Cube>`.
pub open spec fn spec_match_outer_open(s: Seq<u8>, i: int) -> bool {
    &&& 0 <= i
    &&& i + 6 <= s.len()
    &&& s[i] == 60
    &&& s[i + 1] == 67
    &&& s[i + 2] == 117
    &&& s[i + 3] == 98
    &&& s[i + 4] == 101
    &&& s[i + 5] == 62
}

/// The closing tag shared by the outer element and each day: `</Cube>`.
pub open spec fn spec_match_close(s: Seq<u8>, i: int) -> bool {
    &&& 0 <= i
    &&& i + 7 <= s.len()
    &&& s[i] == 60
    &&& s[i + 1] == 47
    &&& s[i + 2] == 67
    &&& s[i + 3] == 117
    &&& s[i + 4] == 98
    &&& s[i + 5] == 101
    &&& s[i + 6] == 62
}

/// The head of a day element up to its date attribute: `<Cube time="`.
pub open spec fn spec_match_day_open(s: Seq<u8>, i: int) -> bool {
    &&& 0 <= i
    &&& i + 12 <= s.len()
    &&& s[i] == 60
    &&& s[i + 1] == 67
    &&& s[i + 2] == 117
    &&& s[i + 3] == 98
    &&& s[i + 4] == 101
    &&& s[i + 5] == 32
    &&& s[i + 6] == 116
    &&& s[i + 7] == 105
    &&& s[i + 8] == 109
    &&& s[i + 9] == 101
    &&& s[i + 10] == 61
    &&& s[i + 11] == 34
}

/// The head of a rate element up to its currency attribute:
/// `<Cube currency="`.
pub open spec fn spec_match_rate_open(s: Seq<u8>, i: int) -> bool {
    &&& 0 <= i
    &&& i + 16 <= s.len()
    &&& s[i] == 60
    &&& s[i + 1] == 67
    &&& s[i + 2] == 117
    &&& s[i + 3] == 98
    &&& s[i + 4] == 101
    &&& s[i + 5] == 32
    &&& s[i + 6] == 99
    &&& s[i + 7] == 117
    &&& s[i + 8] == 114
    &&& s[i + 9] == 114
    &&& s[i + 10] == 101
    &&& s[i + 11] == 110
    &&& s[i + 12] == 99
    &&& s[i + 13] == 121
    &&& s[i + 14] == 61
    &&& s[i + 15] == 34
}

/// Between the currency code and the rate value: `" rate="`, with the
/// opening quote of the rate.
pub open spec fn spec_match_rate_mid(s: Seq<u8>, i: int) -> bool {
    &&& 0 <= i
    &&& i + 8 <= s.len()
    &&& s[i] == 34
    &&& s[i + 1] == 32
    &&& s[i + 2] == 114
    &&& s[i + 3] == 97
    &&& s[i + 4] == 116
    &&& s[i + 5] == 101
    &&& s[i + 6] == 61
    &&& s[i + 7] == 34
}

/// The self-closing tail of a rate element: `"/>`.
pub open spec fn spec_match_rate_end(s: Seq<u8>, i: int) -> bool {
    &&& 0 <= i
    &&& i + 3 <= s.len()
    &&& s[i] == 34
    &&& s[i + 1] == 47
    &&& s[i + 2] == 62
}

/// The end of a day element's opening tag, after the date: `">`.
pub open spec fn spec_match_day_mid(s: Seq<u8>, i: int) -> bool {
    &&& 0 <= i
    &&& i + 2 <= s.len()
    &&& s[i] == 34
    &&& s[i + 1] == 62
}

/// A date attribute value: ten bytes `YYYY-MM-DD` naming a valid
/// calendar date.
pub open spec fn spec_parse_date(s: Seq<u8>, i: int) -> Option<Date> {
    if i + 10 <= s.len() && is_digit(s[i]) && is_digit(s[i + 1]) && is_digit(s[i + 2]) && is_digit(
        s[i + 3],
    ) && s[i + 4] == 45 && is_digit(s[i + 5]) && is_digit(s[i + 6]) && s[i + 7] == 45 && is_digit(
        s[i + 8],
    ) && is_digit(s[i + 9]) {
        let d = Date {
            year: ((s[i] - 48) * 1000 + (s[i + 1] - 48) * 100 + (s[i + 2] - 48) * 10 + (s[i + 3]
                - 48)) as u16,
            month: ((s[i + 5] - 48) * 10 + (s[i + 6] - 48)) as u8,
            day: ((s[i + 8] - 48) * 10 + (s[i + 9] - 48)) as u8,
        };
        if d.wf() {
            Some(d)
        } else {
            None
        }
    } else {
        None
    }
}

/// Scan a run of digits, folding them onto the accumulator `acc`.
/// Returns the folded value and the index just past the run.
pub open spec fn spec_scan_int(s: Seq<u8>, i: int, acc: int) -> (int, int)
    decreases s.len() - i,
{
    if 0 <= i < s.len() && is_digit(s[i]) {
        spec_scan_int(s, i + 1, acc * 10 + (s[i] - 48))
    } else {
        (acc, i)
    }
}

pub proof fn lemma_scan_int_bounds(s: Seq<u8>, i: int, acc: int)
    requires
        0 <= i <= s.len(),
    ensures
        i <= spec_scan_int(s, i, acc).1 <= s.len(),
    decreases s.len() - i,
{
    if i < s.len() && is_digit(s[i]) {
        lemma_scan_int_bounds(s, i + 1, acc * 10 + (s[i] - 48));
    }
}

/// Scan the fraction digits of a decimal, folding them onto the
/// numerator while multiplying the denominator by ten per digit.
/// Returns numerator, denominator and the index just past the run.
pub open spec fn spec_scan_frac(s: Seq<u8>, i: int, num: int, den: int) -> (int, int, int)
    decreases s.len() - i,
{
    if 0 <= i < s.len() && is_digit(s[i]) {
        spec_scan_frac(s, i + 1, num * 10 + (s[i] - 48), den * 10)
    } else {
        (num, den, i)
    }
}

pub proof fn lemma_scan_frac_bounds(s: Seq<u8>, i: int, num: int, den: int)
    requires
        0 <= i <= s.len(),
    ensures
        i <= spec_scan_frac(s, i, num, den).2 <= s.len(),
    decreases s.len() - i,
{
    if i < s.len() && is_digit(s[i]) {
        lemma_scan_frac_bounds(s, i + 1, num * 10 + (s[i] - 48), den * 10);
    }
}

/// A rate attribute value: a plain decimal, one or more integer digits
/// optionally followed by a point and one or more fraction digits. The
/// exact rational it denotes must have numerator and denominator no
/// larger than [`RATE_PART_MAX`].
pub open spec fn spec_parse_decimal(s: Seq<u8>, i: int) -> Option<(Rate, int)> {
    if !(0 <= i < s.len() && is_digit(s[i])) {
        None
    } else {
        let (n1, j1) = spec_scan_int(s, i, 0);
        if j1 < s.len() && s[j1] == 46 {
            if j1 + 1 < s.len() && is_digit(s[j1 + 1]) {
                let (n2, d2, j2) = spec_scan_frac(s, j1 + 1, n1, 1);
                if n2 <= RATE_PART_MAX && d2 <= RATE_PART_MAX {
                    Some((Rate { num: n2 as u128, den: d2 as u128 }, j2))
                } else {
                    None
                }
            } else {
                None
            }
        } else {
            if n1 <= RATE_PART_MAX {
                Some((Rate { num: n1 as u128, den: 1 }, j1))
            } else {
                None
            }
        }
    }
}

/// Abstract value of a [`DayEntry`].
#[verifier::ext_equal]
pub struct DayEntryV {
    pub date: Date,
    pub rates: Seq<(Currency, Rate)>,
}

/// One day element as read from the feed: its date and its
/// currency/rate pairs in document order. The feed lists days newest
/// first; [`build_dataset`] reverses them.
#[derive(Debug)]
pub struct DayEntry {
    pub date: Date,
    pub rates: Vec<(Currency, Rate)>,
}

impl View for DayEntry {
    type V = DayEntryV;

    open spec fn view(&self) -> DayEntryV {
        DayEntryV { date: self.date, rates: self.rates@ }
    }
}

/// A rate element: `<Cube currency="XXX" rate="1.2345"/>`.
pub open spec fn spec_parse_rate_elem(s: Seq<u8>, i: int) -> Option<((Currency, Rate), int)> {
    if !spec_match_rate_open(s, i) {
        None
    } else if !(i + 19 <= s.len() && spec_is_upper(s[i + 16]) && spec_is_upper(s[i + 17])
        && spec_is_upper(s[i + 18])) {
        None
    } else if !spec_match_rate_mid(s, i + 19) {
        None
    } else {
        let cur = Currency {
            code: (s[i + 16] * 65536 + s[i + 17] * 256 + s[i + 18]) as u32,
        };
        match spec_parse_decimal(s, i + 27) {
            None => None,
            Some((rate, k)) => if spec_match_rate_end(s, k) {
                Some(((cur, rate), k + 3))
            } else {
                None
            },
        }
    }
}

pub proof fn lemma_parse_decimal_bounds(s: Seq<u8>, i: int)
    requires
        0 <= i,
    ensures
        match spec_parse_decimal(s, i) {
            Some(p) => i < p.1 <= s.len(),
            None => true,
        },
{
    if 0 <= i < s.len() && is_digit(s[i]) {
        lemma_scan_int_bounds(s, i + 1, s[i] - 48);
        let (n1, j1) = spec_scan_int(s, i, 0);
        assert(spec_scan_int(s, i, 0) == spec_scan_int(s, i + 1, s[i] - 48));
        if j1 < s.len() && s[j1] == 46 {
            if j1 + 1 < s.len() && is_digit(s[j1 + 1]) {
                lemma_scan_frac_bounds(s, j1 + 1, n1, 1);
            }
        }
    }
}

pub proof fn lemma_parse_rate_elem_bounds(s: Seq<u8>, i: int)
    requires
        0 <= i,
    ensures
        match spec_parse_rate_elem(s, i) {
            Some(p) => i < p.1 <= s.len(),
            None => true,
        },
{
    if spec_match_rate_open(s, i) {
        lemma_parse_decimal_bounds(s, i + 27);
    }
}

/// The rate elements of one day, each preceded by optional whitespace,
/// closed by the day's `</Cube>`.
pub open spec fn spec_parse_rates(s: Seq<u8>, i: int) -> Option<(Seq<(Currency, Rate)>, int)>
    decreases s.len() - i,
        via spec_parse_rates_decreases
{
    let j = spec_skip_ws(s, i);
    if spec_match_close(s, j) {
        Some((Seq::empty(), j + 7))
    } else {
        match spec_parse_rate_elem(s, j) {
            None => None,
            Some((cr, next)) => match spec_parse_rates(s, next) {
                None => None,
                Some((rest, end)) => Some((seq![cr] + rest, end)),
            },
        }
    }
}

#[via_fn]
proof fn spec_parse_rates_decreases(s: Seq<u8>, i: int) {
    if 0 <= i <= s.len() {
        lemma_skip_ws_bounds(s, i);
        lemma_parse_rate_elem_bounds(s, spec_skip_ws(s, i));
    }
}

pub proof fn lemma_parse_rates_bounds(s: Seq<u8>, i: int)
    requires
        0 <= i <= s.len(),
    ensures
        match spec_parse_rates(s, i) {
            Some(p) => i < p.1 <= s.len(),
            None => true,
        },
    decreases s.len() - i,
{
    lemma_skip_ws_bounds(s, i);
    let j = spec_skip_ws(s, i);
    if spec_match_close(s, j) {
    } else {
        lemma_parse_rate_elem_bounds(s, j);
        match spec_parse_rate_elem(s, j) {
            None => {},
            Some((cr, next)) => {
                lemma_parse_rates_bounds(s, next);
            },
        }
    }
}

/// The day elements of the feed, each preceded by optional whitespace,
/// closed by the outer `</Cube>`.
pub open spec fn spec_parse_days(s: Seq<u8>, i: int) -> Option<(Seq<DayEntryV>, int)>
    decreases s.len() - i,
        via spec_parse_days_decreases
{
    let j = spec_skip_ws(s, i);
    if spec_match_close(s, j) {
        Some((Seq::empty(), j + 7))
    } else if !spec_match_day_open(s, j) {
        None
    } else {
        match spec_parse_date(s, j + 12) {
            None => None,
            Some(d) => if !spec_match_day_mid(s, j + 22) {
                None
            } else {
                match spec_parse_rates(s, j + 24) {
                    None => None,
                    Some((rs, k)) => match spec_parse_days(s, k) {
                        None => None,
                        Some((rest, end)) => Some(
                            (seq![DayEntryV { date: d, rates: rs }] + rest, end),
                        ),
                    },
                }
            },
        }
    }
}

#[via_fn]
proof fn spec_parse_days_decreases(s: Seq<u8>, i: int) {
    if 0 <= i <= s.len() {
        lemma_skip_ws_bounds(s, i);
        let j = spec_skip_ws(s, i);
        if spec_match_day_open(s, j) && spec_match_day_mid(s, j + 22) {
            lemma_parse_rates_bounds(s, j + 24);
        }
    }
}

/// Index of the first outer `<Cube>` at or after `i`; everything before
/// it (declaration, envelope, sender data) is skipped.
pub open spec fn spec_find_open(s: Seq<u8>, i: int) -> Option<int>
    decreases s.len() - i,
{
    if !(0 <= i && i + 6 <= s.len()) {
        None
    } else if spec_match_outer_open(s, i) {
        Some(i)
    } else {
        spec_find_open(s, i + 1)
    }
}

/// The whole feed: everything up to the first `<Cube>` is ignored, then
/// the day elements run to the outer `</Cube>`; what follows the day
/// table (the envelope's closing material) is ignored.
pub open spec fn spec_parse_feed(s: Seq<u8>) -> Option<Seq<DayEntryV>> {
    match spec_find_open(s, 0) {
        None => None,
        Some(o) => match spec_parse_days(s, o + 6) {
            None => None,
            Some((es, end)) => Some(es),
        },
    }
}

fn byte_is_ws(data: &Vec<u8>, i: usize) -> (r: bool)
    requires
        i < data@.len(),
    ensures
        r == is_ws(data@[i as int]),
{
    let b = data[i];
    b == 32 || b == 9 || b == 13 || b == 10
}

fn byte_is_digit(data: &Vec<u8>, i: usize) -> (r: bool)
    requires
        i < data@.len(),
    ensures
        r == is_digit(data@[i as int]),
{
    let b = data[i];
    48 <= b && b <= 57
}

fn skip_ws(data: &Vec<u8>, i: usize) -> (r: usize)
    requires
        i <= data@.len(),
    ensures
        i <= r <= data@.len(),
        r == spec_skip_ws(data@, i as int),
{
    let mut j = i;
    while j < data.len() && byte_is_ws(data, j)
        invariant
            i <= j <= data@.len(),
            spec_skip_ws(data@, i as int) == spec_skip_ws(data@, j as int),
        decreases data@.len() - j,
    {
        j += 1;
    }
    j
}

fn match_outer_open(data: &Vec<u8>, i: usize) -> (r: bool)
    requires
        i <= data@.len(),
    ensures
        r == spec_match_outer_open(data@, i as int),
{
    data.len() - i >= 6 && data[i] == 60 && data[i + 1] == 67 && data[i + 2] == 117 && data[i + 3]
        == 98 && data[i + 4] == 101 && data[i + 5] == 62
}

fn match_close(data: &Vec<u8>, i: usize) -> (r: bool)
    requires
        i <= data@.len(),
    ensures
        r == spec_match_close(data@, i as int),
{
    data.len() - i >= 7 && data[i] == 60 && data[i + 1] == 47 && data[i + 2] == 67 && data[i + 3]
        == 117 && data[i + 4] == 98 && data[i + 5] == 101 && data[i + 6] == 62
}

fn match_day_open(data: &Vec<u8>, i: usize) -> (r: bool)
    requires
        i <= data@.len(),
    ensures
        r == spec_match_day_open(data@, i as int),
{
    data.len() - i >= 12 && data[i] == 60 && data[i + 1] == 67 && data[i + 2] == 117 && data[i + 3]
        == 98 && data[i + 4] == 101 && data[i + 5] == 32 && data[i + 6] == 116 && data[i + 7] == 105
        && data[i + 8] == 109 && data[i + 9] == 101 && data[i + 10] == 61 && data[i + 11] == 34
}

fn match_rate_open(data: &Vec<u8>, i: usize) -> (r: bool)
    requires
        i <= data@.len(),
    ensures
        r == spec_match_rate_open(data@, i as int),
{
    data.len() - i >= 16 && data[i] == 60 && data[i + 1] == 67 && data[i + 2] == 117 && data[i + 3]
        == 98 && data[i + 4] == 101 && data[i + 5] == 32 && data[i + 6] == 99 && data[i + 7] == 117
        && data[i + 8] == 114 && data[i + 9] == 114 && data[i + 10] == 101 && data[i + 11] == 110
        && data[i + 12] == 99 && data[i + 13] == 121 && data[i + 14] == 61 && data[i + 15] == 34
}

fn match_rate_mid(data: &Vec<u8>, i: usize) -> (r: bool)
    requires
        i <= data@.len(),
    ensures
        r == spec_match_rate_mid(data@, i as int),
{
    data.len() - i >= 8 && data[i] == 34 && data[i + 1] == 32 && data[i + 2] == 114 && data[i + 3]
        == 97 && data[i + 4] == 116 && data[i + 5] == 101 && data[i + 6] == 61 && data[i + 7] == 34
}

fn match_rate_end(data: &Vec<u8>, i: usize) -> (r: bool)
    requires
        i <= data@.len(),
    ensures
        r == spec_match_rate_end(data@, i as int),
{
    data.len() - i >= 3 && data[i] == 34 && data[i + 1] == 47 && data[i + 2] == 62
}

fn match_day_mid(data: &Vec<u8>, i: usize) -> (r: bool)
    requires
        i <= data@.len(),
    ensures
        r == spec_match_day_mid(data@, i as int),
{
    data.len() - i >= 2 && data[i] == 34 && data[i + 1] == 62
}

fn parse_date_at(data: &Vec<u8>, i: usize) -> (r: Option<Date>)
    requires
        i <= data@.len(),
    ensures
        r == spec_parse_date(data@, i as int),
{
    if data.len() - i >= 10 && byte_is_digit(data, i) && byte_is_digit(data, i + 1) && byte_is_digit(
        data,
        i + 2,
    ) && byte_is_digit(data, i + 3) && data[i + 4] == 45 && byte_is_digit(data, i + 5)
        && byte_is_digit(data, i + 6) && data[i + 7] == 45 && byte_is_digit(data, i + 8)
        && byte_is_digit(data, i + 9) {
        let year: u16 = ((data[i] - 48) as u16) * 1000 + ((data[i + 1] - 48) as u16) * 100 + ((data[i
            + 2] - 48) as u16) * 10 + ((data[i + 3] - 48) as u16);
        let month: u8 = (data[i + 5] - 48) * 10 + (data[i + 6] - 48);
        let day: u8 = (data[i + 8] - 48) * 10 + (data[i + 9] - 48);
        Date::new(year, month, day)
    } else {
        None
    }
}

fn parse_decimal(data: &Vec<u8>, i: usize) -> (r: Option<(Rate, usize)>)
    requires
        i <= data@.len(),
    ensures
        match r {
            None => spec_parse_decimal(data@, i as int) is None,
            Some(p) => {
                &&& spec_parse_decimal(data@, i as int) == Some((p.0, p.1 as int))
                &&& i < p.1 <= data@.len()
            },
        },
{
    if !(i < data.len() && byte_is_digit(data, i)) {
        return None;
    }
    let mut j = i;
    let mut acc: u128 = 0;
    let mut over = false;
    let ghost mut g: int = 0;
    while j < data.len() && byte_is_digit(data, j)
        invariant
            i <= j <= data@.len(),
            spec_scan_int(data@, i as int, 0) == spec_scan_int(data@, j as int, g),
            g >= 0,
            over ==> g > RATE_PART_MAX,
            !over ==> acc == g && acc <= RATE_PART_MAX,
        decreases data@.len() - j,
    {
        let d = data[j] - 48;
        if !over {
            let t = acc * 10 + (d as u128);
            if t > RATE_PART_MAX {
                over = true;
            } else {
                acc = t;
            }
        }
        proof {
            g = g * 10 + (data@[j as int] - 48);
        }
        j += 1;
    }
    proof {
        assert(spec_scan_int(data@, i as int, 0) == spec_scan_int(data@, i + 1, data@[i as int] - 48));
        lemma_scan_int_bounds(data@, i + 1, data@[i as int] - 48);
    }
    if j < data.len() && data[j] == 46 {
        if !(j + 1 < data.len() && byte_is_digit(data, j + 1)) {
            return None;
        }
        let ghost j1: int = j as int;
        let mut k = j + 1;
        let mut den: u128 = 1;
        let mut dover = false;
        let ghost mut gd: int = 1;
        while k < data.len() && byte_is_digit(data, k)
            invariant
                j1 + 1 <= k <= data@.len(),
                spec_scan_frac(data@, j1 + 1, spec_scan_int(data@, i as int, 0).0, 1)
                    == spec_scan_frac(data@, k as int, g, gd),
                g >= 0,
                gd >= 1,
                over ==> g > RATE_PART_MAX,
                !over ==> acc == g && acc <= RATE_PART_MAX,
                dover ==> gd > RATE_PART_MAX,
                !dover ==> den == gd && den <= RATE_PART_MAX,
            decreases data@.len() - k,
        {
            let d = data[k] - 48;
            if !over {
                let t = acc * 10 + (d as u128);
                if t > RATE_PART_MAX {
                    over = true;
                } else {
                    acc = t;
                }
            }
            if !dover {
                let t = den * 10;
                if t > RATE_PART_MAX {
                    dover = true;
                } else {
                    den = t;
                }
            }
            proof {
                g = g * 10 + (data@[k as int] - 48);
                gd = gd * 10;
            }
            k += 1;
        }
        if over || dover {
            None
        } else {
            Some((Rate { num: acc, den }, k))
        }
    } else {
        if over {
            None
        } else {
            Some((Rate { num: acc, den: 1 }, j))
        }
    }
}

fn parse_rate_elem(data: &Vec<u8>, i: usize) -> (r: Option<((Currency, Rate), usize)>)
    requires
        i <= data@.len(),
    ensures
        match r {
            None => spec_parse_rate_elem(data@, i as int) is None,
            Some(p) => {
                &&& spec_parse_rate_elem(data@, i as int) == Some(((p.0.0, p.0.1), p.1 as int))
                &&& i < p.1 <= data@.len()
            },
        },
{
    if !match_rate_open(data, i) {
        return None;
    }
    if data.len() - i < 19 {
        return None;
    }
    let a = data[i + 16];
    let b = data[i + 17];
    let c = data[i + 18];
    let cur = match Currency::from_bytes(a, b, c) {
        None => {
            return None;
        },
        Some(cur) => cur,
    };
    if !match_rate_mid(data, i + 19) {
        return None;
    }
    match parse_decimal(data, i + 27) {
        None => None,
        Some((rate, k)) => {
            if !match_rate_end(data, k) {
                None
            } else {
                Some(((cur, rate), k + 3))
            }
        },
    }
}

fn parse_rates(data: &Vec<u8>, i: usize) -> (r: Option<(Vec<(Currency, Rate)>, usize)>)
    requires
        i <= data@.len(),
    ensures
        match r {
            None => spec_parse_rates(data@, i as int) is None,
            Some(p) => {
                &&& spec_parse_rates(data@, i as int) == Some((p.0@, p.1 as int))
                &&& i < p.1 <= data@.len()
            },
        },
    decreases data@.len() - i,
{
    let j = skip_ws(data, i);
    if match_close(data, j) {
        proof {
            assert(data@.len() == data.len());
        }
        return Some((Vec::new(), j + 7));
    }
    match parse_rate_elem(data, j) {
        None => None,
        Some((cr, next)) => match parse_rates(data, next) {
            None => None,
            Some((mut v, end)) => {
                let ghost rest = v@;
                v.insert(0, cr);
                proof {
                    assert(v@ =~= seq![cr] + rest);
                }
                Some((v, end))
            },
        },
    }
}

fn parse_days(data: &Vec<u8>, i: usize) -> (r: Option<(Vec<DayEntry>, usize)>)
    requires
        i <= data@.len(),
    ensures
        match r {
            None => spec_parse_days(data@, i as int) is None,
            Some(p) => {
                &&& spec_parse_days(data@, i as int) == Some(
                    (p.0@.map_values(|e: DayEntry| e@), p.1 as int),
                )
                &&& p.1 <= data@.len()
            },
        },
    decreases data@.len() - i,
{
    let j = skip_ws(data, i);
    proof {
        assert(data@.len() == data.len());
    }
    if match_close(data, j) {
        let v: Vec<DayEntry> = Vec::new();
        proof {
            assert(v@.map_values(|e: DayEntry| e@) =~= Seq::<DayEntryV>::empty());
        }
        return Some((v, j + 7));
    }
    if !match_day_open(data, j) {
        return None;
    }
    let d = match parse_date_at(data, j + 12) {
        None => {
            return None;
        },
        Some(d) => d,
    };
    if !match_day_mid(data, j + 22) {
        return None;
    }
    match parse_rates(data, j + 24) {
        None => None,
        Some((rs, k)) => match parse_days(data, k) {
            None => None,
            Some((mut v, end)) => {
                let ghost rest = v@;
                let entry = DayEntry { date: d, rates: rs };
                v.insert(0, entry);
                proof {
                    assert(v@.map_values(|e: DayEntry| e@) =~= seq![entry@] + rest.map_values(
                        |e: DayEntry| e@,
                    ));
                }
                Some((v, end))
            },
        },
    }
}

fn find_open(data: &Vec<u8>) -> (r: Option<usize>)
    ensures
        match r {
            None => spec_find_open(data@, 0) is None,
            Some(o) => spec_find_open(data@, 0) == Some(o as int) && o + 6 <= data@.len(),
        },
{
    let mut i: usize = 0;
    while data.len() >= 6 && i <= data.len() - 6
        invariant
            i <= data@.len(),
            spec_find_open(data@, 0) == spec_find_open(data@, i as int),
        decreases data@.len() - i,
    {
        if match_outer_open(data, i) {
            return Some(i);
        }
        i += 1;
    }
    None
}

/// Read the feed's day entries out of raw bytes, newest day first, in
/// exactly the shape [`spec_parse_feed`] describes.
pub fn parse_feed(data: &Vec<u8>) -> (r: Option<Vec<DayEntry>>)
    ensures
        match r {
            None => spec_parse_feed(data@) is None,
            Some(v) => spec_parse_feed(data@) == Some(v@.map_values(|e: DayEntry| e@)),
        },
{
    proof {
        assert(data@.len() == data.len());
    }
    match find_open(data) {
        None => None,
        Some(o) => match parse_days(data, o + 6) {
            None => None,
            Some((v, _end)) => Some(v),
        },
    }
}

/// Why feed bytes were rejected.
#[derive(Clone, Copy, Debug, PartialEq, Eq, Structural)]
pub enum ParseError {
    Malformed,
}

/// The abstract values of a vector of day entries.
pub open spec fn entries_view(v: Seq<DayEntry>) -> Seq<DayEntryV> {
    v.map_values(|e: DayEntry| e@)
}

/// A day entry the dataset builder accepts: a valid calendar date, and
/// every pair a valid currency code with a bounded rate.
pub open spec fn entry_wf(e: DayEntryV) -> bool {
    &&& e.date.wf()
    &&& forall|k: int|
        0 <= k < e.rates.len() ==> (#[trigger] e.rates[k]).0.wf() && e.rates[k].1.bounded()
}

/// Entries as the feed must deliver them: every entry well formed and
/// the dates strictly descending (the feed lists the newest day first).
pub open spec fn entries_valid(es: Seq<DayEntryV>) -> bool {
    &&& forall|i: int| 0 <= i < es.len() ==> entry_wf(#[trigger] es[i])
    &&& forall|i: int, j: int|
        0 <= i < j < es.len() ==> es[i].date.key() > es[j].date.key()
}

/// The day entries of a feed, empty when the feed does not parse.
pub open spec fn spec_feed_entries(s: Seq<u8>) -> Seq<DayEntryV> {
    match spec_parse_feed(s) {
        Some(es) => es,
        None => Seq::empty(),
    }
}

/// When a feed is accepted: its bytes match the grammar and the entries
/// read from it are valid.
pub open spec fn spec_feed_ok(s: Seq<u8>) -> bool {
    spec_parse_feed(s) is Some && entries_valid(spec_feed_entries(s))
}

pub proof fn lemma_descending_pair(es: Seq<DayEntryV>, i: int, j: int)
    requires
        forall|k: int| 0 <= k < es.len() - 1 ==> (#[trigger] es[k]).date.key() > es[k + 1].date.key(),
        0 <= i < j < es.len(),
    ensures
        es[i].date.key() > es[j].date.key(),
    decreases j - i,
{
    if i + 1 < j {
        lemma_descending_pair(es, i, j - 1);
    }
}

/// Decide whether a date is a valid calendar date.
fn is_wf_date(d: &Date) -> (r: bool)
    ensures
        r == d.wf(),
{
    let limit = days_in_month(d.year, d.month);
    1 <= d.month && d.month <= 12 && 1 <= d.day && d.day <= limit
}

/// Decide whether a packed code names three uppercase letters.
fn is_wf_currency(c: &Currency) -> (r: bool)
    ensures
        r == c.wf(),
{
    let a: u32 = c.code / 65536;
    let b: u32 = (c.code / 256) % 256;
    let d: u32 = c.code % 256;
    let ok = 65 <= a && a <= 90 && 65 <= b && b <= 90 && 65 <= d && d <= 90 && c.code == a * 65536
        + b * 256 + d;
    proof {
        if ok {
            assert(spec_is_upper(a as u8) && spec_is_upper(b as u8) && spec_is_upper(d as u8)
                && c.code == spec_pack(a as u8, b as u8, d as u8));
        } else if c.wf() {
            let (x, y, z) = choose|x: u8, y: u8, z: u8|
                spec_is_upper(x) && spec_is_upper(y) && spec_is_upper(z) && c.code == spec_pack(
                    x,
                    y,
                    z,
                );
            assert(a == x && b == y && d == z) by (nonlinear_arith)
                requires
                    spec_is_upper(x) && spec_is_upper(y) && spec_is_upper(z),
                    c.code == spec_pack(x, y, z),
                    a == c.code / 65536,
                    b == (c.code / 256) % 256,
                    d == c.code % 256,
            ;
            assert(false);
        }
    }
    ok
}

/// Decide whether parsed entries are acceptable: every date a valid
/// calendar date, every code three uppercase letters, every rate
/// bounded, and the dates strictly descending.
fn validate_entries(entries: &Vec<DayEntry>) -> (r: bool)
    ensures
        r == entries_valid(entries_view(entries@)),
{
    let ghost es = entries_view(entries@);
    let mut i: usize = 0;
    while i < entries.len()
        invariant
            i <= entries@.len(),
            es == entries_view(entries@),
            es.len() == entries@.len(),
            forall|a: int| 0 <= a < i ==> entry_wf(#[trigger] es[a]),
            forall|a: int| 0 <= a < i - 1 ==> (#[trigger] es[a]).date.key() > es[a + 1].date.key(),
        decreases entries@.len() - i,
    {
        proof {
            assert(es[i as int] == entries@[i as int]@);
        }
        if !is_wf_date(&entries[i].date) {
            proof {
                assert(!entry_wf(es[i as int]));
            }
            return false;
        }
        if i > 0 {
            proof {
                assert(es[i - 1] == entries@[i - 1]@);
            }
            if !entries[i].date.lt(&entries[i - 1].date) {
                return false;
            }
        }
        let mut k: usize = 0;
        while k < entries[i].rates.len()
            invariant
                i < entries@.len(),
                k <= entries@[i as int].rates@.len(),
                es == entries_view(entries@),
                es.len() == entries@.len(),
                es[i as int] == entries@[i as int]@,
                es[i as int].date.wf(),
                i > 0 ==> es[i - 1].date.key() > es[i as int].date.key(),
                forall|a: int| 0 <= a < i ==> entry_wf(#[trigger] es[a]),
                forall|a: int| 0 <= a < i - 1 ==> (#[trigger] es[a]).date.key() > es[a + 1].date.key(),
                forall|b: int|
                    0 <= b < k ==> (#[trigger] es[i as int].rates[b]).0.wf()
                        && es[i as int].rates[b].1.bounded(),
            decreases entries@[i as int].rates@.len() - k,
        {
            let c = entries[i].rates[k].0;
            let rt = entries[i].rates[k].1;
            if !is_wf_currency(&c) {
                proof {
                    assert(!(es[i as int].rates[k as int].0.wf()));
                    assert(!entry_wf(es[i as int]));
                }
                return false;
            }
            if !(rt.num <= RATE_PART_MAX && 1 <= rt.den && rt.den <= RATE_PART_MAX) {
                proof {
                    assert(!(es[i as int].rates[k as int].1.bounded()));
                    assert(!entry_wf(es[i as int]));
                }
                return false;
            }
            k += 1;
        }
        proof {
            assert(entry_wf(es[i as int]));
        }
        i += 1;
    }
    proof {
        assert forall|a: int, b: int| 0 <= a < b < es.len() implies es[a].date.key()
            > es[b].date.key() by {
            lemma_descending_pair(es, a, b);
        }
    }
    true
}

/// Some entry lists currency `c` on some day.
pub open spec fn entries_mention(es: Seq<DayEntryV>, c: Currency) -> bool {
    exists|a: int, b: int|
        0 <= a < es.len() && 0 <= b < es[a].rates.len() && es[a].rates[b].0 == c
}

/// Some entry among the first `i`, or among the first `k` pairs of
/// entry `i`, lists currency `c`.
pub open spec fn mentioned_upto(es: Seq<DayEntryV>, i: int, k: int, c: Currency) -> bool {
    exists|a: int, b: int|
        0 <= a < es.len() && 0 <= b < es[a].rates.len() && (a < i || (a == i && b < k))
            && es[a].rates[b].0 == c
}

/// The rate a day's entry pairs give for currency `c`: the last pair
/// naming `c`, if any (the feed should not repeat a code within one day,
/// but if it does, the later value wins, as in sequential placement).
pub open spec fn spec_lookup_last(rs: Seq<(Currency, Rate)>, c: Currency) -> Option<Rate>
    decreases rs.len(),
{
    if rs.len() == 0 {
        None
    } else if rs.last().0 == c {
        Some(rs.last().1)
    } else {
        spec_lookup_last(rs.drop_last(), c)
    }
}

/// The rate vector slot for currency `c` built from one day's entry:
/// the listed rate if the day lists `c`, else exactly one for the euro
/// (the feed's implicit base), else absent.
pub open spec fn spec_slot(rs: Seq<(Currency, Rate)>, c: Currency) -> Option<Rate> {
    match spec_lookup_last(rs, c) {
        Some(r) => Some(r),
        None => if c.code == EUR_CODE {
            Some(spec_rate_one())
        } else {
            None
        },
    }
}

/// How a built dataset relates to the entries read from the feed: the
/// catalog is the sorted set of every code the entries mention plus the
/// euro, and day `i` is entry `len - 1 - i` (the feed is newest first,
/// the dataset oldest first) with its rate vector aligned to the catalog.
pub open spec fn dataset_from_entries(ds: DatasetV, es: Seq<DayEntryV>) -> bool {
    &&& catalog_sorted(ds.currencies)
    &&& forall|c: Currency|
        #[trigger] ds.currencies.contains(c) <==> (c == (Currency { code: EUR_CODE })
            || entries_mention(es, c))
    &&& ds.days.len() == es.len()
    &&& forall|i: int|
        0 <= i < es.len() ==> (#[trigger] ds.days[i]).date == es[es.len() - 1 - i].date
            && ds.days[i].rates.len() == ds.currencies.len()
    &&& forall|i: int, j: int|
        0 <= i < es.len() && 0 <= j < ds.currencies.len() ==> (#[trigger] ds.days[i].rates[j])
            == spec_slot(es[es.len() - 1 - i].rates, ds.currencies[j])
}

/// Insert a currency into a sorted catalog unless it is already there.
fn insert_sorted_unique(v: &mut Vec<Currency>, c: Currency)
    requires
        catalog_sorted(old(v)@),
    ensures
        catalog_sorted(final(v)@),
        forall|x: Currency| final(v)@.contains(x) <==> (old(v)@.contains(x) || x == c),
{
    let mut lo: usize = 0;
    let mut hi: usize = v.len();
    while lo < hi
        invariant
            lo <= hi <= v@.len(),
            catalog_sorted(v@),
            v@ == old(v)@,
            forall|k: int| 0 <= k < lo ==> (#[trigger] v@[k]).code < c.code,
            forall|k: int| hi <= k < v@.len() ==> (#[trigger] v@[k]).code >= c.code,
        decreases hi - lo,
    {
        let mid = lo + (hi - lo) / 2;
        if v[mid].code < c.code {
            lo = mid + 1;
        } else {
            hi = mid;
        }
    }
    if lo < v.len() && v[lo].code == c.code {
        proof {
            assert(v@[lo as int] == c);
            assert(v@.contains(c));
        }
    } else {
        let ghost oldv = v@;
        v.insert(lo, c);
        proof {
            oldv.insert_ensures(lo as int, c);
            assert forall|i: int, j: int| 0 <= i < j < v@.len() implies v@[i].code
                < v@[j].code by {
                if j < lo {
                    assert(v@[i] == oldv[i] && v@[j] == oldv[j]);
                } else if i > lo {
                    assert(v@[i] == oldv[i - 1] && v@[j] == oldv[j - 1]);
                } else if i == lo {
                    assert(v@[i] == c && v@[j] == oldv[j - 1] && j - 1 >= lo);
                } else if j == lo {
                    assert(v@[i] == oldv[i] && v@[j] == c && i < lo);
                } else {
                    assert(i < lo && j > lo);
                    assert(v@[i] == oldv[i] && v@[j] == oldv[j - 1] && j - 1 >= lo);
                }
            }
            assert forall|x: Currency| v@.contains(x) implies (oldv.contains(x) || x == c) by {
                let m = choose|m: int| 0 <= m < v@.len() && v@[m] == x;
                if m < lo {
                    assert(oldv[m] == x);
                } else if m > lo {
                    assert(oldv[m - 1] == x);
                }
            }
            assert forall|x: Currency| oldv.contains(x) || x == c implies v@.contains(x) by {
                if x == c {
                    assert(v@[lo as int] == x);
                } else {
                    let m = choose|m: int| 0 <= m < oldv.len() && oldv[m] == x;
                    if m < lo {
                        assert(v@[m] == x);
                    } else {
                        assert(v@[m + 1] == x);
                    }
                }
            }
        }
    }
}

/// The rate vector slot for currency `c` of one day's entry pairs.
fn slot_value(rs: &Vec<(Currency, Rate)>, c: Currency) -> (r: Option<Rate>)
    ensures
        r == spec_slot(rs@, c),
{
    let mut k = rs.len();
    proof {
        assert(rs@.take(k as int) =~= rs@);
    }
    while k > 0
        invariant
            k <= rs@.len(),
            spec_lookup_last(rs@, c) == spec_lookup_last(rs@.take(k as int), c),
        decreases k,
    {
        let idx = k - 1;
        proof {
            assert(rs@.take(k as int).last() == rs@[idx as int]);
        }
        if rs[idx].0.code == c.code {
            proof {
                assert(rs@[idx as int].0 == c);
            }
            return Some(rs[idx].1);
        }
        proof {
            assert(rs@[idx as int].0 != c);
            assert(rs@.take(k as int).drop_last() =~= rs@.take(idx as int));
        }
        k = idx;
    }
    proof {
        assert(rs@.take(0) =~= Seq::<(Currency, Rate)>::empty());
    }
    if c.code == EUR_CODE {
        Some(Rate::one())
    } else {
        None
    }
}

pub proof fn lemma_lookup_last_bounded(rs: Seq<(Currency, Rate)>, c: Currency)
    requires
        forall|k: int| 0 <= k < rs.len() ==> (#[trigger] rs[k]).1.bounded(),
    ensures
        match spec_lookup_last(rs, c) {
            Some(r) => r.bounded(),
            None => true,
        },
    decreases rs.len(),
{
    if rs.len() == 0 {
    } else if rs.last().0 == c {
        assert(rs[rs.len() - 1].1.bounded());
    } else {
        assert forall|k: int| 0 <= k < rs.drop_last().len() implies (#[trigger] rs.drop_last()[k]).1.bounded() by {
            assert(rs.drop_last()[k] == rs[k]);
        }
        lemma_lookup_last_bounded(rs.drop_last(), c);
    }
}

/// Build the dataset from validated entries: the catalog as the sorted
/// set of every code the entries mention plus the euro, and one day per
/// entry, oldest first, each rate vector aligned to the catalog.
pub fn build_dataset(entries: &Vec<DayEntry>) -> (ds: Dataset)
    requires
        entries_valid(entries_view(entries@)),
    ensures
        ds.wf(),
        dataset_from_entries(ds@, entries_view(entries@)),
{
    let ghost es = entries_view(entries@);
    let eur = Currency::eur();
    let mut cat: Vec<Currency> = Vec::new();
    cat.push(eur);
    proof {
        assert(cat@[0] == eur);
        assert(cat@.contains(Currency { code: EUR_CODE }));
        assert forall|x: Currency| cat@.contains(x) implies (x == (Currency { code: EUR_CODE })
            || mentioned_upto(es, 0, 0, x)) by {
            let m = choose|m: int| 0 <= m < cat@.len() && cat@[m] == x;
            assert(m == 0);
        }
    }
    let mut i: usize = 0;
    while i < entries.len()
        invariant
            i <= entries@.len(),
            es == entries_view(entries@),
            es.len() == entries@.len(),
            entries_valid(es),
            catalog_sorted(cat@),
            cat@.contains(Currency { code: EUR_CODE }),
            forall|x: Currency|
                cat@.contains(x) <==> (x == (Currency { code: EUR_CODE }) || mentioned_upto(
                    es,
                    i as int,
                    0,
                    x,
                )),
        decreases entries@.len() - i,
    {
        proof {
            assert(es[i as int] == entries@[i as int]@);
        }
        let mut k: usize = 0;
        while k < entries[i].rates.len()
            invariant
                i < entries@.len(),
                k <= entries@[i as int].rates@.len(),
                es == entries_view(entries@),
                es.len() == entries@.len(),
                entries_valid(es),
                es[i as int] == entries@[i as int]@,
                catalog_sorted(cat@),
                cat@.contains(Currency { code: EUR_CODE }),
                forall|x: Currency|
                    cat@.contains(x) <==> (x == (Currency { code: EUR_CODE }) || mentioned_upto(
                        es,
                        i as int,
                        k as int,
                        x,
                    )),
            decreases entries@[i as int].rates@.len() - k,
        {
            let c = entries[i].rates[k].0;
            let ghost before = cat@;
            insert_sorted_unique(&mut cat, c);
            proof {
                assert(es[i as int].rates[k as int].0 == c);
                assert forall|x: Currency| cat@.contains(x) implies (x == (Currency {
                    code: EUR_CODE,
                }) || mentioned_upto(es, i as int, k + 1, x)) by {
                    if before.contains(x) {
                        if x != (Currency { code: EUR_CODE }) {
                            assert(mentioned_upto(es, i as int, k as int, x));
                            let (a, b) = choose|a: int, b: int|
                                0 <= a < es.len() && 0 <= b < es[a].rates.len() && (a < i as int || (
                                a == i as int && b < k as int)) && es[a].rates[b].0 == x;
                            assert(0 <= a < es.len() && 0 <= b < es[a].rates.len() && (a < i as int
                                || (a == i as int && b < k + 1)) && es[a].rates[b].0 == x);
                        }
                    } else {
                        assert(x == c);
                        assert(0 <= (i as int) < es.len() && 0 <= (k as int) < es[i as int].rates.len()
                            && (i as int == i as int && (k as int) < k + 1) && es[i as int].rates[k as int].0
                            == x);
                    }
                }
                assert forall|x: Currency| (x == (Currency { code: EUR_CODE }) || mentioned_upto(
                    es,
                    i as int,
                    k + 1,
                    x,
                )) implies cat@.contains(x) by {
                    if x == (Currency { code: EUR_CODE }) {
                        assert(before.contains(x));
                    } else {
                        let (a, b) = choose|a: int, b: int|
                            0 <= a < es.len() && 0 <= b < es[a].rates.len() && (a < i as int || (a
                            == i as int && b < k + 1)) && es[a].rates[b].0 == x;
                        if a < i as int || b < k as int {
                            assert(0 <= a < es.len() && 0 <= b < es[a].rates.len() && (a < i as int
                                || (a == i as int && b < k as int)) && es[a].rates[b].0 == x);
                            assert(mentioned_upto(es, i as int, k as int, x));
                            assert(before.contains(x));
                        } else {
                            assert(a == i as int && b == k as int);
                            assert(x == c);
                        }
                    }
                }
            }
            k += 1;
        }
        proof {
            assert forall|x: Currency| mentioned_upto(
                es,
                i as int,
                es[i as int].rates.len() as int,
                x,
            ) == mentioned_upto(es, i + 1, 0, x) by {
                if mentioned_upto(es, i as int, es[i as int].rates.len() as int, x) {
                    let (a, b) = choose|a: int, b: int|
                        0 <= a < es.len() && 0 <= b < es[a].rates.len() && (a < i as int || (a
                        == i as int && b < es[i as int].rates.len())) && es[a].rates[b].0 == x;
                    assert(0 <= a < es.len() && 0 <= b < es[a].rates.len() && a < i + 1 && es[a].rates[b].0
                        == x);
                    assert(mentioned_upto(es, i + 1, 0, x));
                }
                if mentioned_upto(es, i + 1, 0, x) {
                    let (a, b) = choose|a: int, b: int|
                        0 <= a < es.len() && 0 <= b < es[a].rates.len() && (a < i + 1 || (a == i + 1
                        && b < 0)) && es[a].rates[b].0 == x;
                    assert(a < i + 1);
                    assert(0 <= a < es.len() && 0 <= b < es[a].rates.len() && (a < i as int || (a
                        == i as int && b < es[i as int].rates.len())) && es[a].rates[b].0 == x);
                    assert(mentioned_upto(es, i as int, es[i as int].rates.len() as int, x));
                }
            }
        }
        i += 1;
    }
    proof {
        assert forall|x: Currency| mentioned_upto(es, es.len() as int, 0, x) == entries_mention(
            es,
            x,
        ) by {
            if mentioned_upto(es, es.len() as int, 0, x) {
                let (a, b) = choose|a: int, b: int|
                    0 <= a < es.len() && 0 <= b < es[a].rates.len() && (a < es.len() || (a
                    == es.len() && b < 0)) && es[a].rates[b].0 == x;
                assert(entries_mention(es, x));
            }
            if entries_mention(es, x) {
                let (a, b) = choose|a: int, b: int|
                    0 <= a < es.len() && 0 <= b < es[a].rates.len() && es[a].rates[b].0 == x;
                assert(0 <= a < es.len() && 0 <= b < es[a].rates.len() && (a < es.len() || (a
                    == es.len() && b < 0)) && es[a].rates[b].0 == x);
                assert(mentioned_upto(es, es.len() as int, 0, x));
            }
        }
        assert forall|m: int| 0 <= m < cat@.len() implies (#[trigger] cat@[m]).wf() by {
            assert(cat@.contains(cat@[m]));
            if cat@[m] == (Currency { code: EUR_CODE }) {
                assert(spec_is_upper(69) && spec_is_upper(85) && spec_is_upper(82) && EUR_CODE
                    == spec_pack(69, 85, 82));
            } else {
                assert(entries_mention(es, cat@[m]));
                let (a, b) = choose|a: int, b: int|
                    0 <= a < es.len() && 0 <= b < es[a].rates.len() && es[a].rates[b].0 == cat@[m];
                assert(entry_wf(es[a]));
                assert(es[a].rates[b].0.wf());
            }
        }
    }
    let n = entries.len();
    let mut days: Vec<Day> = Vec::new();
    let mut q: usize = 0;
    while q < n
        invariant
            n == entries@.len(),
            es == entries_view(entries@),
            es.len() == n,
            entries_valid(es),
            catalog_sorted(cat@),
            cat@.contains(Currency { code: EUR_CODE }),
            forall|m: int| 0 <= m < cat@.len() ==> (#[trigger] cat@[m]).wf(),
            forall|x: Currency|
                cat@.contains(x) <==> (x == (Currency { code: EUR_CODE }) || entries_mention(
                    es,
                    x,
                )),
            q <= n,
            days@.len() == q,
            forall|a: int| 0 <= a < q ==> (#[trigger] days@[a])@.date == es[n - 1 - a].date,
            forall|a: int| 0 <= a < q ==> (#[trigger] days@[a])@.rates.len() == cat@.len(),
            forall|a: int, b: int|
                0 <= a < q && 0 <= b < cat@.len() ==> (#[trigger] days@[a]@.rates[b]) == spec_slot(
                    es[n - 1 - a].rates,
                    cat@[b],
                ),
        decreases n - q,
    {
        let idx = n - 1 - q;
        proof {
            assert(es[idx as int] == entries@[idx as int]@);
        }
        let mut rates: Vec<Option<Rate>> = Vec::new();
        let mut j: usize = 0;
        while j < cat.len()
            invariant
                idx < entries@.len(),
                es == entries_view(entries@),
                es[idx as int] == entries@[idx as int]@,
                j <= cat@.len(),
                rates@.len() == j,
                forall|b: int|
                    0 <= b < j ==> (#[trigger] rates@[b]) == spec_slot(
                        es[idx as int].rates,
                        cat@[b],
                    ),
            decreases cat@.len() - j,
        {
            let v = slot_value(&entries[idx].rates, cat[j]);
            rates.push(v);
            j += 1;
        }
        let d = Day { date: entries[idx].date, rates };
        days.push(d);
        q += 1;
    }
    let ds = Dataset { days, currencies: cat };
    proof {
        assert(ds@.days.len() == es.len());
        assert forall|a: int| 0 <= a < ds@.days.len() implies (#[trigger] ds@.days[a])
            == days@[a]@ by {}
        assert forall|a: int| 0 <= a < ds@.days.len() implies (#[trigger] ds@.days[a]).wf(
            ds@.currencies.len() as int,
        ) by {
            assert(ds@.days[a] == days@[a]@);
            assert(days@[a]@.date == es[n - 1 - a].date);
            assert(entry_wf(es[n - 1 - a]));
            assert forall|b: int| 0 <= b < days@[a]@.rates.len() implies (match (#[trigger] days@[a]@.rates[b]) {
                Some(r) => r.bounded(),
                None => true,
            }) by {
                assert(days@[a]@.rates[b] == spec_slot(es[n - 1 - a].rates, cat@[b]));
                assert forall|m: int| 0 <= m < es[n - 1 - a].rates.len() implies (#[trigger] es[n
                    - 1 - a].rates[m]).1.bounded() by {
                    assert(entry_wf(es[n - 1 - a]));
                }
                lemma_lookup_last_bounded(es[n - 1 - a].rates, cat@[b]);
            }
        }
        assert forall|a: int, b: int| 0 <= a < b < ds@.days.len() implies ds@.days[a].date.key()
            < ds@.days[b].date.key() by {
            assert(ds@.days[a] == days@[a]@ && ds@.days[b] == days@[b]@);
            assert(days@[a]@.date == es[n - 1 - a].date);
            assert(days@[b]@.date == es[n - 1 - b].date);
            assert(es[n - 1 - b].date.key() > es[n - 1 - a].date.key());
        }
        assert(ds.wf());
        assert(dataset_from_entries(ds@, es));
    }
    ds
}

/// Parse raw feed bytes into a dataset.
///
/// Succeeds exactly when the bytes match the feed grammar and the
/// entries read from them are acceptable: valid dates in strictly
/// descending order, valid codes, bounded rates. The resulting dataset
/// is well formed — sorted catalog containing the euro, every day's
/// vector aligned to it, dates strictly ascending — and is determined
/// by the bytes alone, so equal bytes always parse to structurally
/// identical datasets.
pub fn parse_dataset(data: &Vec<u8>) -> (r: Result<Dataset, ParseError>)
    ensures
        r is Ok <==> spec_feed_ok(data@),
        r matches Ok(ds) ==> ds.wf() && dataset_from_entries(ds@, spec_feed_entries(data@)),
{
    match parse_feed(data) {
        None => Err(ParseError::Malformed),
        Some(entries) => {
            if validate_entries(&entries) {
                Ok(build_dataset(&entries))
            } else {
                Err(ParseError::Malformed)
            }
        },
    }
}

pub proof fn lemma_sorted_same_membership(a: Seq<Currency>, b: Seq<Currency>)
    requires
        catalog_sorted(a),
        catalog_sorted(b),
        forall|x: Currency| a.contains(x) == b.contains(x),
    ensures
        a == b,
    decreases a.len(),
{
    if a.len() == 0 {
        if b.len() > 0 {
            assert(b.contains(b[0]));
            assert(a.contains(b[0]));
            let m = choose|m: int| 0 <= m < a.len() && a[m] == b[0];
            assert(false);
        }
        assert(a =~= b);
    } else {
        assert(a.contains(a[0]));
        assert(b.contains(a[0]));
        let i = choose|i: int| 0 <= i < b.len() && b[i] == a[0];
        assert(b.contains(b[0]));
        assert(a.contains(b[0]));
        let j = choose|j: int| 0 <= j < a.len() && a[j] == b[0];
        assert(a[0].code == b[i].code && b[i].code >= b[0].code);
        assert(b[0].code == a[j].code && a[j].code >= a[0].code);
        assert(a[0] == b[0]);
        let at = a.subrange(1, a.len() as int);
        let bt = b.subrange(1, b.len() as int);
        assert forall|x: Currency| at.contains(x) == bt.contains(x) by {
            if at.contains(x) {
                let m = choose|m: int| 0 <= m < at.len() && at[m] == x;
                assert(a[m + 1] == x);
                assert(a.contains(x));
                assert(x.code > a[0].code);
                assert(b.contains(x));
                let mb = choose|mb: int| 0 <= mb < b.len() && b[mb] == x;
                assert(mb != 0);
                assert(bt[mb - 1] == x);
                assert(bt.contains(x));
            }
            if bt.contains(x) {
                let m = choose|m: int| 0 <= m < bt.len() && bt[m] == x;
                assert(b[m + 1] == x);
                assert(b.contains(x));
                assert(x.code > b[0].code);
                assert(a.contains(x));
                let ma = choose|ma: int| 0 <= ma < a.len() && a[ma] == x;
                assert(ma != 0);
                assert(at[ma - 1] == x);
                assert(at.contains(x));
            }
        }
        lemma_sorted_same_membership(at, bt);
        assert forall|m: int| 0 <= m < a.len() implies a[m] == b[m] by {
            if m > 0 {
                assert(a[m] == at[m - 1] && b[m] == bt[m - 1]);
            }
        }
        assert(a =~= b);
    }
}

/// Parsing is a function of the feed bytes alone: any two datasets that
/// stand in the parse relation to the same entries — for instance one
/// parsed from a network response and one parsed from the cache
/// snapshot those same bytes were written to — are structurally
/// identical: same catalog, same days.
pub proof fn lemma_dataset_from_entries_unique(d1: DatasetV, d2: DatasetV, es: Seq<DayEntryV>)
    requires
        dataset_from_entries(d1, es),
        dataset_from_entries(d2, es),
    ensures
        d1 == d2,
{
    assert forall|x: Currency| d1.currencies.contains(x) == d2.currencies.contains(x) by {
        assert(d1.currencies.contains(x) <==> (x == (Currency { code: EUR_CODE })
            || entries_mention(es, x)));
        assert(d2.currencies.contains(x) <==> (x == (Currency { code: EUR_CODE })
            || entries_mention(es, x)));
    }
    lemma_sorted_same_membership(d1.currencies, d2.currencies);
    assert forall|i: int| 0 <= i < d1.days.len() implies d1.days[i] == d2.days[i] by {
        assert(d1.days[i].date == es[es.len() - 1 - i].date);
        assert(d2.days[i].date == es[es.len() - 1 - i].date);
        assert forall|j: int| 0 <= j < d1.days[i].rates.len() implies d1.days[i].rates[j]
            == d2.days[i].rates[j] by {
            assert(d1.days[i].rates[j] == spec_slot(es[es.len() - 1 - i].rates, d1.currencies[j]));
            assert(d2.days[i].rates[j] == spec_slot(es[es.len() - 1 - i].rates, d2.currencies[j]));
        }
        assert(d1.days[i].rates =~= d2.days[i].rates);
        assert(d1.days[i] =~= d2.days[i]);
    }
    assert(d1.days =~= d2.days);
    assert(d1 =~= d2);
}

} // verus!
