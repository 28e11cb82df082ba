//! The record that one statement line becomes.

use crate::amount::{Amount, AmountView};
use vstd::prelude::*;

verus! {

/// One card transaction: its date as printed, what it was for, and its amount.
#[derive(Debug, Clone, PartialEq, Eq)]
pub struct Transaction {
    pub date: String,
    pub description: String,
    pub amount: Amount,
}

/// The mathematical content of a [`Transaction`].
pub struct TransactionView {
    pub date: Seq<char>,
    pub description: Seq<char>,
    pub amount: AmountView,
}

impl View for Transaction {
    type V = TransactionView;

    open spec fn view(&self) -> TransactionView {
        TransactionView {
            date: self.date@,
            description: self.description@,
            amount: self.amount@,
        }
    }
}

impl TransactionView {
    /// Whether no field is empty and the amount is a decimal other than zero.
    pub open spec fn wf(self) -> bool {
        &&& self.date.len() > 0
        &&& self.description.len() > 0
        &&& self.amount.wf()
    }

    /// The same record with the sign of its amount inverted.
    pub open spec fn negated(self) -> TransactionView {
        TransactionView {
            date: self.date,
            description: self.description,
            amount: self.amount.negated(),
        }
    }
}

impl Transaction {
    /// Whether no field is empty and the amount is a decimal other than zero.
    pub open spec fn wf(&self) -> bool {
        self@.wf()
    }
}

/// The content of each record of a list.
pub open spec fn records(list: Seq<Transaction>) -> Seq<TransactionView> {
    list.map_values(|t: Transaction| t@)
}

} // verus!
