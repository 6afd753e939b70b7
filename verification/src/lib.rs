//! A daily foreign-exchange rates engine: parses the publisher's XML
//! feed of euro reference rates into an immutable, date-indexed
//! dataset, serves date and currency lookups over it, rebases a day's
//! rates onto any catalog currency with exact rational arithmetic,
//! decides when a cached copy of the feed may be served and when it
//! must be refreshed, and hands the current dataset to concurrent
//! readers through a lock whose invariant keeps every generation well
//! formed.

pub mod api;
pub mod controller;
pub mod currency;
pub mod dataset;
pub mod date;
pub mod handle;
pub mod parser;
pub mod rate;
