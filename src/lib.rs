//! Content pipeline of a personal markdown wiki: index-region extraction,
//! preview excerpts, link rewriting, page assembly and title search.
pub mod page;
pub mod text;
pub mod preview;
pub mod region;
pub mod markdown;
pub mod rank;
pub mod search;
pub mod state;
