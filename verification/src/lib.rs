use vstd::prelude::*;

pub mod attachments;
pub mod audit;
pub mod cli;
pub mod composition;
pub mod defect;
pub mod duplicate;
pub mod error;
pub mod files;
pub mod import;
pub mod json;
pub mod listing;
pub mod models;
pub mod order;
pub mod progress;
pub mod reports;
pub mod resources;
pub mod seqs;
pub mod service;
pub mod storage;
pub mod store;
pub mod text;
pub mod timestamps;
pub mod validation;

verus! {

} // verus!
