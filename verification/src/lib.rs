use vstd::prelude::*;

pub mod anchor;
pub mod anchored;
pub mod atom;
pub mod cache;
pub mod chars;
pub mod cmark;
pub mod collections;
pub mod events;
pub mod generate;
pub mod markdown;
pub mod sitemap;
pub mod strings;
pub mod syntex;
pub mod toc;
pub mod types;
pub mod utils;
pub mod xml;

verus! {
} // verus!
