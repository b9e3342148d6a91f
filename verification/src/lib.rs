//! Anorak: searching a Torznab indexer and handing results to rqbit, with a
//! desktop/web client that filters, sorts and grabs the results.
//!
//! `server` holds the search server's logic (feed normalization, link
//! selection, result order, request URLs); `client` holds the client's
//! (result view order, selection and grab state, request forms). Both rest
//! on `text` (character-level string operations) and `sort` (stable sorting).
pub mod text;
pub mod sort;
pub mod server;
pub mod client;
