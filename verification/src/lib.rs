//! probe: an API client. Requests with any HTTP method, collections of
//! requests, declarative validations of responses, Markdown export and
//! sequential load tests with CSV data.
use vstd::prelude::*;

pub mod cli;
pub mod csv_data;
pub mod engine;
pub mod interpolation;
pub mod markdown;
pub mod model;
pub mod output;
pub mod repository;
pub mod runner;
pub mod server;
pub mod storage;
pub mod text;
pub mod validation;

verus! {

} // verus!
