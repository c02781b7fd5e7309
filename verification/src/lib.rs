// The core of a media-request service: submissions are taken in, merged
// where they ask for the same thing, enriched from a catalog of titles,
// checked against the local library, and moved through their lifecycle.
//
// The core does no I/O. Whoever drives it reads the clock, calls the catalog
// and scans the library, and hands the core what came back.
//
//   text, key      canonical titles and the keys by which submissions merge
//   model          kinds, quality profiles and the states of the lifecycle
//   request        requests, their events, and paths through the lifecycle
//   intake         validation of raw submissions
//   store          the request store and its event log
//   entry          catalog entries and how they are read from results
//   retry          the retry policy for calls to the catalog
//   catalog        the cache of entries and the register of lookups
//   library        the index of the titles that the library holds
//   orchestrator   the whole, one step at a time
//   api, report    the HTTP client and the texts that are logged
//   env            the handle for reading the environment

pub mod api;
pub mod catalog;
pub mod entry;
pub mod env;
pub mod intake;
pub mod key;
pub mod library;
pub mod model;
pub mod orchestrator;
pub mod report;
pub mod request;
pub mod retry;
pub mod store;
pub mod text;
