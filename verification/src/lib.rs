//! Date ranges, regional time and the fetch pipeline of a crossword
//! downloader, with machine-checked contracts.

pub mod calendar;
pub mod credential;
pub mod pipeline;
pub mod range;
pub mod target;
pub mod text;
pub mod zone;
