//! The decisions of a caching gateway in front of an S3-compatible object
//! store.
//!
//! Clients present an identity token; the gateway exchanges it for
//! short-lived credentials, signs read requests to the backend with them,
//! and caches both the credentials and the bytes that it has fetched. This
//! library holds every decision of that gateway and does no input or
//! output itself: each operation is a function from what has happened so
//! far to what is to be done next (a request to send, a path to probe, an
//! answer to give), and the program around the library does it and comes
//! back with what happened.
//!
//! - `router` decides what a request asks for; `query` reads its query
//!   string; `credentials` finds its token.
//! - `credentials_manager` is the credential cache: one exchange in flight
//!   for each token, one result for all who wait. `federation` is the
//!   exchange itself.
//! - `signer` signs requests to the backend.
//! - `content_cache` names cached ranges and rules how a backend response
//!   is handed to the client and stored at once; `size_cache` remembers
//!   content lengths.
//! - `s3_handler` is the handler of HEAD, GET and LIST.
//! - `xml`, `xml_writer` and `xml_round_trip` read and write the listings
//!   of the backend.
//! - `message`, `clock`, `decimal` and `text` hold what the others share.

pub mod clock;
pub mod content_cache;
pub mod credentials;
pub mod credentials_manager;
pub mod decimal;
pub mod federation;
pub mod message;
pub mod query;
pub mod router;
pub mod s3_handler;
pub mod signer;
pub mod size_cache;
pub mod text;
pub mod xml;
pub mod xml_round_trip;
pub mod xml_writer;
