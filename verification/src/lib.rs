use vstd::prelude::*;

pub mod cards;
pub mod chapters;
pub mod config;
pub mod download;
pub mod json;
pub mod downloads;
pub mod library;
pub mod local;
pub mod media;
pub mod pages;
pub mod properties;
pub mod reader;
pub mod registry;
pub mod scrape;
pub mod search;
pub mod text;
pub mod tools;

verus! {

} // verus!
