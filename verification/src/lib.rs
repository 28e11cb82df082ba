//! Reading the transactions of card statements.
//!
//! A statement is a document of pages. Of each page only the window between
//! the opening and the closing balance line counts ([`window`]). A window is
//! split at its date markers into fragments ([`splitter`]), and each fragment
//! is read as one transaction: a date, a description and an amount
//! ([`parser`]). The records of all pages of a document ([`statement`]) and of
//! all documents of a run ([`batch`]) are gathered in order.
//!
//! The date markers and money numbers are found by regular expressions
//! ([`pattern`]); amounts are kept as exact decimal text ([`amount`]).

pub mod amount;
pub mod batch;
pub mod parser;
pub mod pattern;
pub mod splitter;
pub mod statement;
pub mod text;
pub mod transaction;
pub mod window;

pub use crate::amount::Amount;
pub use crate::batch::{advanzia2csv, Batch, ConvertError};
pub use crate::parser::{get_transactions, parse_fragment};
pub use crate::pattern::{PatternError, Patterns};
pub use crate::splitter::split_by_regex;
pub use crate::statement::get_transactions_from_pdf;
pub use crate::transaction::Transaction;
pub use crate::window::page_window;
