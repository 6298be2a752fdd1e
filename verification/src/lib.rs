//! Shipment tracking: carrier status vocabularies normalised into one
//! ordered progress timeline, HTTP responses classified into typed outcomes,
//! request pacing, and batch bookkeeping that keeps one failure from
//! touching the rest of a batch.

pub mod batch;
pub mod datetime;
pub mod display;
pub mod milestone;
pub mod models;
pub mod numbers;
pub mod rate_limiter;
pub mod request;
pub mod response;
pub mod text;
pub mod timeline;
pub mod tracking;
