//! A live market-quote feed for many simultaneous consumers that issues at
//! most one upstream fetch at a time. The core is a debounced
//! broadcast-polling state machine and its consumers: a quote-distribution
//! service that injects credentials and shapes fetch requests, a
//! per-connection watch-list control protocol, and a one-shot quote
//! endpoint. The outside work — network calls, sleeping, awaiting — is
//! driven by a host around this crate; every decision the system makes is
//! verified here.

pub mod connector;
pub mod endpoints;
pub mod errors;
pub mod frames;
pub mod json;
pub mod oauth;
pub mod poller;
pub mod quotes;
pub mod schema;
pub mod text;
pub mod watch;
