use vstd::prelude::*;

pub mod text;
pub mod paths;
pub mod identity;
pub mod error;
pub mod jobs;
pub mod events;
pub mod models;
pub mod catalog;
pub mod manifest;
pub mod minihoard;
pub mod basecutter;
pub mod storage;
pub mod scanner;
pub mod probe;
pub mod dups;
pub mod scatter;
pub mod package_open;
pub mod normalize;
pub mod cutjob;
pub mod release;
pub mod variants;
