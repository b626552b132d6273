//! A daily journal: one text buffer per calendar day, a tokenizer that
//! partitions a buffer into styled spans, and the small decision procedures
//! that drive an editor around them.

pub mod calendar;
pub mod format;
pub mod highlight;
pub mod index;
pub mod number;
pub mod recognize;
pub mod scan;
pub mod session;
pub mod store;
pub mod tasks;
pub mod text;
pub mod tree;
pub mod update;
