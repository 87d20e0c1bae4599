//! Reading the rows of a point-of-sale table out of an HTML page, and
//! turning the records of such a table into the items of a shop.
//!
//! The page is read as a stream of tags, by a scan that follows the skeleton
//! of the page (document, body, container, table, row, cell) and collects
//! the text of the cells of each row:
//!
//! - [`tag`] holds the tags, [`context`] the rules by which the scan moves,
//!   [`scanner`] the scan itself and [`text`] the handling of cell text;
//! - [`source`] runs the scan on a page as the `htmlstream` tokenizer cuts
//!   it, and [`split`] tells which attribute text that tokenizer gets
//!   through;
//! - [`laws`] and [`table`] state and prove what holds of every scan;
//! - [`pos`] makes shop items out of records.

pub mod context;
pub mod laws;
pub mod pos;
pub mod scanner;
pub mod source;
pub mod split;
pub mod table;
pub mod tag;
pub mod text;
