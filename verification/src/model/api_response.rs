use crate::decimal::{Decimal, DecimalValue};
use crate::timestamp::Timestamp;
use vstd::prelude::*;

verus! {

/// One group of an answer: where the period starts and the sum of its
/// readings. A group that is given always has a sum.
#[derive(Debug)]
pub struct AggregationQueryRecord {
    pub datetime: Timestamp,
    pub total_amount: Option<Decimal>,
}

/// What an `AggregationQueryRecord` stands for.
pub struct AggregationQueryRecordView {
    pub datetime: Timestamp,
    pub total_amount: Option<DecimalValue>,
}

impl View for AggregationQueryRecord {
    type V = AggregationQueryRecordView;

    open spec fn view(&self) -> AggregationQueryRecordView {
        AggregationQueryRecordView {
            datetime: self.datetime,
            total_amount: match self.total_amount {
                Some(total) => Some(total@),
                None => None,
            },
        }
    }
}

/// The answer to a request for sums: when it was made, and the groups.
#[derive(Debug)]
pub struct QueryResponse {
    pub executed_at: Timestamp,
    pub records: Vec<AggregationQueryRecord>,
}

} // verus!
