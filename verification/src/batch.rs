//! Gathering the transactions of many documents into the rows to write.

use crate::amount::Amount;
use crate::pattern::Patterns;
use crate::statement::{get_transactions_from_pdf, page_texts, statement_transactions};
use crate::transaction::{records, Transaction, TransactionView};
use lopdf::Document;
use vstd::prelude::*;
use vstd::string::*;

verus! {

/// Why a batch gives no rows.
#[derive(Debug, Clone, Copy, PartialEq, Eq, Structural)]
pub enum ConvertError {
    /// No document of the batch held a transaction.
    NoTransactionsFound,
}

/// The records of one input: those of the document, or none where it could
/// not be loaded.
pub open spec fn document_transactions(patterns: Patterns, loaded: Option<Document>) -> Seq<
    TransactionView,
> {
    match loaded {
        Some(document) => statement_transactions(patterns, page_texts(document)),
        None => Seq::empty(),
    }
}

/// The rows as they are written: each amount negated where `swap_sign` is
/// set, dates and descriptions as they are.
pub open spec fn with_sign(rows: Seq<TransactionView>, swap_sign: bool) -> Seq<TransactionView> {
    if swap_sign {
        rows.map_values(|t: TransactionView| t.negated())
    } else {
        rows
    }
}

/// How a batch ends: with the rows to write, or with an error where there
/// is none.
pub open spec fn convert_outcome(rows: Seq<TransactionView>, swap_sign: bool) -> Result<
    Seq<TransactionView>,
    ConvertError,
> {
    if rows.len() == 0 {
        Err(ConvertError::NoTransactionsFound)
    } else {
        Ok(with_sign(rows, swap_sign))
    }
}

/// The records of a list of inputs, in the order of the inputs.
pub open spec fn batch_transactions(patterns: Patterns, inputs: Seq<Option<Document>>) -> Seq<
    TransactionView,
>
    decreases inputs.len(),
{
    if inputs.len() == 0 {
        Seq::empty()
    } else {
        batch_transactions(patterns, inputs.drop_last()) + document_transactions(
            patterns,
            inputs.last(),
        )
    }
}

/// The content of the outcome of a batch.
pub open spec fn outcome_view(outcome: Result<Vec<Transaction>, ConvertError>) -> Result<
    Seq<TransactionView>,
    ConvertError,
> {
    match outcome {
        Ok(rows) => Ok(records(rows@)),
        Err(e) => Err(e),
    }
}

/// Setting `swap_sign` negates the amount of every row and changes nothing
/// else: there are as many rows, in the same order, with the same dates and
/// descriptions.
pub proof fn lemma_swap_sign_negates(rows: Seq<TransactionView>)
    ensures
        with_sign(rows, false) == rows,
        with_sign(rows, true).len() == rows.len(),
        forall|i: int|
            0 <= i < rows.len() ==> {
                &&& (#[trigger] with_sign(rows, true)[i]).amount == rows[i].amount.negated()
                &&& with_sign(rows, true)[i].amount.decimal == rows[i].amount.decimal
                &&& with_sign(rows, true)[i].amount.negative != rows[i].amount.negative
                &&& with_sign(rows, true)[i].date == rows[i].date
                &&& with_sign(rows, true)[i].description == rows[i].description
            },
{
}

/// Where no input holds a transaction, because it could not be loaded or
/// because nothing was found in it, the batch ends with the error, whatever
/// `swap_sign` is.
pub proof fn lemma_nothing_found(
    patterns: Patterns,
    inputs: Seq<Option<Document>>,
    swap_sign: bool,
)
    requires
        forall|i: int|
            0 <= i < inputs.len() ==> (#[trigger] document_transactions(patterns, inputs[i])).len()
                == 0,
    ensures
        convert_outcome(batch_transactions(patterns, inputs), swap_sign) == Err::<
            Seq<TransactionView>,
            ConvertError,
        >(ConvertError::NoTransactionsFound),
    decreases inputs.len(),
{
    if inputs.len() > 0 {
        let init = inputs.drop_last();
        assert forall|i: int| 0 <= i < init.len() implies (#[trigger] document_transactions(
            patterns,
            init[i],
        )).len() == 0 by {
            assert(init[i] == inputs[i]);
        }
        lemma_nothing_found(patterns, init, swap_sign);
        assert(document_transactions(patterns, inputs.last()).len() == 0);
    }
}

/// What a document reference stands for.
pub open spec fn loaded_view(loaded: Option<&Document>) -> Option<Document> {
    match loaded {
        Some(document) => Some(*document),
        None => None,
    }
}

/// The transactions gathered so far, in the order the documents were added.
pub struct Batch {
    pub transactions: Vec<Transaction>,
}

impl View for Batch {
    type V = Seq<TransactionView>;

    open spec fn view(&self) -> Seq<TransactionView> {
        records(self.transactions@)
    }
}

impl Batch {
    /// Whether every record gathered so far is complete.
    pub open spec fn wf(&self) -> bool {
        forall|i: int|
            0 <= i < self.transactions@.len() ==> (#[trigger] self.transactions@[i]).wf()
    }

    /// A batch to which no document has been added.
    pub fn new() -> (batch: Batch)
        ensures
            batch@ == Seq::<TransactionView>::empty(),
            batch.wf(),
    {
        let batch = Batch { transactions: Vec::new() };
        proof {
            assert(batch@ =~= Seq::<TransactionView>::empty());
        }
        batch
    }

    /// Adds the transactions of the next input after those already there.
    /// An input that could not be loaded adds nothing.
    pub fn add_document(&mut self, patterns: &Patterns, loaded: Option<&Document>)
        ensures
            final(self)@ == old(self)@ + document_transactions(*patterns, loaded_view(loaded)),
            old(self).wf() ==> final(self).wf(),
    {
        let ghost before = self.transactions@;
        match loaded {
            Some(document) => {
                let mut found = get_transactions_from_pdf(patterns, document);
                let ghost added = found@;
                self.transactions.append(&mut found);
                proof {
                    assert(records(self.transactions@) =~= records(before) + records(added));
                }
            },
            None => {
                proof {
                    assert(records(before) + Seq::<TransactionView>::empty() =~= records(before));
                }
            },
        }
    }

    /// Ends the batch. A batch without transactions is an error; otherwise
    /// the rows come out in order, with every amount negated where
    /// `swap_sign` is set.
    pub fn finish(self, swap_sign: bool) -> (r: Result<Vec<Transaction>, ConvertError>)
        ensures
            outcome_view(r) == convert_outcome(self@, swap_sign),
            self.wf() ==> (r matches Ok(rows) ==> forall|i: int|
                0 <= i < rows@.len() ==> (#[trigger] rows@[i]).wf()),
    {
        let n = self.transactions.len();
        if n == 0 {
            return Err(ConvertError::NoTransactionsFound);
        }
        if !swap_sign {
            return Ok(self.transactions);
        }
        let mut rows: Vec<Transaction> = Vec::new();
        let mut i: usize = 0;
        while i < n
            invariant
                i <= n,
                n == self.transactions@.len(),
                rows@.len() == i,
                forall|j: int| 0 <= j < i ==> (#[trigger] rows@[j])@ == self.transactions@[j]@.negated(),
            decreases n - i,
        {
            let t = &self.transactions[i];
            rows.push(
                Transaction {
                    date: t.date.clone(),
                    description: t.description.clone(),
                    amount: Amount { negative: !t.amount.negative, decimal: t.amount.decimal.clone() },
                },
            );
            i += 1;
        }
        proof {
            assert(records(rows@) =~= with_sign(self@, swap_sign));
        }
        Ok(rows)
    }
}

/// Converts the inputs of a run into the rows to write. Each input is a
/// loaded document, or nothing where the document could not be loaded. The
/// rows keep the order of the inputs, then of the pages, then of the text;
/// a run that finds no transaction at all is an error.
pub fn advanzia2csv(patterns: &Patterns, documents: &Vec<Option<Document>>, swap_sign: bool) -> (r:
    Result<Vec<Transaction>, ConvertError>)
    ensures
        outcome_view(r) == convert_outcome(
            batch_transactions(*patterns, documents@),
            swap_sign,
        ),
        r matches Ok(rows) ==> forall|i: int|
            0 <= i < rows@.len() ==> (#[trigger] rows@[i]).wf(),
{
    let n = documents.len();
    let mut batch = Batch::new();
    let mut i: usize = 0;
    proof {
        assert(documents@.take(0) =~= Seq::<Option<Document>>::empty());
    }
    while i < n
        invariant
            i <= n,
            n == documents@.len(),
            batch.wf(),
            batch@ == batch_transactions(*patterns, documents@.take(i as int)),
        decreases n - i,
    {
        match &documents[i] {
            Some(document) => batch.add_document(patterns, Some(document)),
            None => batch.add_document(patterns, None),
        }
        proof {
            assert(documents@.take(i + 1).drop_last() =~= documents@.take(i as int));
            assert(documents@.take(i + 1).last() == documents@[i as int]);
        }
        i += 1;
    }
    proof {
        assert(documents@.take(n as int) =~= documents@);
    }
    batch.finish(swap_sign)
}

} // verus!
