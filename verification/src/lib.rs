//! The decision logic of an HTTP request duplicator: it fans one incoming
//! request out to many target URLs, schedules the copies on a two-level
//! priority queue, retries failed deliveries a bounded number of times,
//! remembers targets that answered `404 Not Found`, and keeps per-priority
//! counters of what happened to every copy.

pub mod model;
pub mod dispatch;
pub mod negative_cache;
pub mod string_set;
pub mod headers;
pub mod status;
pub mod foreign;
pub mod duplicator;
pub mod http_handler;
pub mod request_sender;
pub mod request_processor;
pub mod webhook;
