//! Graded relevance matching of free-text queries against people and text
//! fields, and a boolean keyword filter over free text.

pub mod dates;
pub mod score;
pub mod text;
pub mod expedient;
pub mod filter;
