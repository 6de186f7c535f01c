//! Splits a plain-text document into titled chapters.
//!
//! The document is scanned line by line for chapter headings, the text
//! between consecutive headings becomes the chapters, and a refinement pass
//! driven by an outside judge may rename chapters or merge neighbours.
//!
//! - [`indexer`]: line offsets, by accumulation.
//! - [`matcher`]: the ordered heading patterns and the title rule.
//! - [`segmenter`]: chapters from heading lines.
//! - [`refiner`]: renaming and merging on the judge's verdicts.
//! - [`xhtml`]: the page of each chapter for the book builder.
//! - [`judge`]: the questions put to the judge and how answers are read.
pub mod text;
pub mod matcher;
pub mod indexer;
pub mod segmenter;
pub mod refiner;
pub mod xhtml;
pub mod judge;
pub mod models;

pub use models::{Chapter, ChapterView, LLMResponse, ProcessResult};
pub use segmenter::identify_chapters_by_regex;
