//! A catalogue of mobile recharge plans: extraction of plan records from a
//! fetched document, exact derived metrics, a total sort order, and the
//! refresh cycle that publishes a sorted snapshot.
//!
//! - [`json`]: the structural document a response decodes to.
//! - [`text`]: whitespace, tokens and lexicographic order of text.
//! - [`number`]: decimal text as exact fractions; quotients and their order.
//! - [`order`]: three-way comparison and its lexicographic composition.
//! - [`plan`]: the plan record, its metrics, its sort order and its line.
//! - [`parse`]: from a document to plan records, with filters and failures.
//! - [`sort`]: stable sorting of records.
//! - [`failure`]: the kinds of failure of a refresh cycle.
//! - [`refresh`]: one cycle's snapshot, and the loop's two states.
//!
//! Prices, validity and data allowances arrive as text. They are read once,
//! when a record is made, into fractions of machine integers; price per day
//! and price per gigabyte are kept as exact quotients and compared by
//! cross-multiplication, so the sort order involves no rounding.

use vstd::prelude::*;

pub mod failure;
pub mod json;
pub mod number;
pub mod order;
pub mod parse;
pub mod plan;
pub mod refresh;
pub mod sort;
pub mod text;
