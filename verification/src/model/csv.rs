use crate::decimal::{Decimal, DecimalValue};
use crate::timestamp::Timestamp;
use vstd::prelude::*;

verus! {

/// One reading as decoded from a row of text: when, and how much.
#[derive(Debug)]
pub struct CSVRecord {
    pub datetime: Timestamp,
    pub amount: Decimal,
}

/// What a `CSVRecord` stands for.
pub struct CSVRecordView {
    pub datetime: Timestamp,
    pub amount: DecimalValue,
}

impl View for CSVRecord {
    type V = CSVRecordView;

    open spec fn view(&self) -> CSVRecordView {
        CSVRecordView { datetime: self.datetime, amount: self.amount@ }
    }
}

} // verus!
