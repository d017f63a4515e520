//! The core of a service that ingests user tags, the records of views and
//! buys, and answers two questions about them: what a cookie did lately, and
//! how many events of a kind happened minute by minute and what they summed
//! to.
//!
//! - [`types`] holds the values that travel: tags, instants, minutes,
//!   ranges, profiles, buckets, and the engine as a trait.
//! - [`model`] says what a history of ingested tags means for both
//!   questions; [`retention`] and [`laws`] prove what follows from it.
//! - [`mock`] is the in-memory backend, proved against the model.
//! - [`scylla`] and [`stored`] hold what the wide-column backend decides,
//!   with the proof that its counter tables agree with a scan;
//!   [`agreement`] proves when its profiles are those of the in-memory
//!   backend, and that thinning its rows changes no answer.
//! - [`endpoints`] reads query parameters and lays out aggregate answers;
//!   [`utils`] checks profiles; [`text`] writes numbers.
//! - [`calendar`] and [`json`] call `chrono` and `serde_json`; what they
//!   state of those calls is trusted, not proved.

pub mod agreement;
pub mod calendar;
pub mod endpoints;
pub mod json;
pub mod laws;
pub mod mock;
pub mod model;
pub mod retention;
pub mod scylla;
pub mod stored;
pub mod text;
pub mod types;
pub mod utils;
