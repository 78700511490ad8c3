//! Navigation and search over a three-part poem: the document model, a
//! deterministic pattern search, fuzzy ranking of its hits, and the state
//! machine behind the interactive reader.

mod text;
pub mod roman;
pub mod document;
pub mod pattern;
pub mod search;
pub mod ranking;
pub mod app;
pub mod parse;

pub use app::{App, AppMode, Key, Selection};
pub use document::{Canto, Cantica, DivinaCommedia, Verse};
pub use ranking::{rank_candidates, FuzzyRanker, SearchResult};
pub use roman::{roman_to_arabic, roman_to_number};
pub use parse::{canto_heading, parse_cantica_content};
pub use search::Hit;
