use vstd::prelude::*;

use crate::dataset::Dataset;
use crate::date::Date;
use crate::parser::{dataset_from_entries, parse_dataset, spec_feed_entries, spec_feed_ok};

verus! {

/// Minutes in a day.
pub const MINUTES_PER_DAY: u32 = 1440;

/// The default refresh minute: the publisher updates the feed in the
/// late afternoon of its own time zone; a margin after that keeps the
/// refresh safely behind the publication.
pub const DEFAULT_UPDATE_AT: u32 = 1080;

/// What the acquisition step decides after looking at the cache.
pub enum CacheDecision {
    /// The cached snapshot parses and is fresh: serve this dataset.
    Use(Dataset),
    /// No usable snapshot: fetch the feed over the network.
    Refetch,
}

/// Decide whether a cached feed snapshot can serve as the dataset.
///
/// The snapshot is used exactly when it is present, parses, and is not
/// stale; it is stale when it has at least one day and its newest day
/// lies before `today` (as reckoned in the feed publisher's time zone —
/// the caller supplies `today` in that zone). A missing, malformed or
/// stale snapshot means the feed must be fetched anew.
pub fn evaluate_cache(cache: Option<&Vec<u8>>, today: Date) -> (r: CacheDecision)
    ensures
        match r {
            CacheDecision::Use(ds) => {
                &&& cache is Some
                &&& spec_feed_ok(cache->0@)
                &&& ds.wf()
                &&& dataset_from_entries(ds@, spec_feed_entries(cache->0@))
                &&& ds@.days.len() > 0 ==> ds@.days.last().date.key() >= today.key()
            },
            CacheDecision::Refetch => match cache {
                None => true,
                Some(b) => !spec_feed_ok(b@) || (spec_feed_entries(b@).len() > 0
                    && spec_feed_entries(b@)[0].date.key() < today.key()),
            },
        },
{
    match cache {
        None => CacheDecision::Refetch,
        Some(bytes) => match parse_dataset(bytes) {
            Err(_) => CacheDecision::Refetch,
            Ok(ds) => {
                let stale = match ds.timeframe() {
                    Some(p) => p.1.lt(&today),
                    None => false,
                };
                proof {
                    let es = spec_feed_entries(bytes@);
                    if ds@.days.len() > 0 {
                        assert(ds@.days[ds@.days.len() - 1].date == es[es.len() - 1 - (es.len()
                            - 1)].date);
                        assert(ds@.days.last().date == es[0].date);
                    }
                }
                if stale {
                    CacheDecision::Refetch
                } else {
                    CacheDecision::Use(ds)
                }
            },
        },
    }
}

/// Seconds to sleep until the next occurrence of the configured
/// refresh minute: later today when that minute has not passed yet,
/// else the same minute tomorrow.
pub fn next_update_in(berlin_minute: u32, update_at: u32) -> (r: u64)
    requires
        berlin_minute < MINUTES_PER_DAY,
    ensures
        berlin_minute >= update_at ==> r == (update_at + MINUTES_PER_DAY - berlin_minute) * 60,
        berlin_minute < update_at ==> r == (update_at - berlin_minute) * 60,
        update_at < MINUTES_PER_DAY ==> 0 < r <= 86400,
{
    if berlin_minute >= update_at {
        ((update_at as u64) + (MINUTES_PER_DAY as u64) - (berlin_minute as u64)) * 60
    } else {
        (((update_at - berlin_minute) as u64)) * 60
    }
}

/// Whether a wake at this minute is the scheduled refresh: only an
/// exact match of the configured minute triggers the fetch.
pub fn should_update(berlin_minute: u32, update_at: u32) -> (r: bool)
    ensures
        r == (berlin_minute == update_at),
{
    berlin_minute == update_at
}

} // verus!
