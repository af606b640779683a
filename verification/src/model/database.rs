use crate::decimal::{Decimal, DecimalValue};
use crate::model::api_request::AggregationKind;
use crate::model::csv::CSVRecord;
use crate::timestamp::{utc_now, Timestamp};
use vstd::prelude::*;

verus! {

/// One seeded source: when it was seeded and what names it.
#[derive(Debug)]
pub struct TSMetadata {
    pub ingestion_datetime: Timestamp,
    pub source: String,
}

impl TSMetadata {
    /// The row for `source`, seeded at `ingestion_datetime`.
    pub fn at(ingestion_datetime: Timestamp, source: String) -> (row: Self)
        ensures
            row.ingestion_datetime == ingestion_datetime,
            row.source == source,
    {
        Self { ingestion_datetime, source }
    }

    /// The row for `source`, seeded now.
    pub fn new(source: String) -> (row: Self)
        ensures
            row.source == source,
    {
        Self::at(utc_now(), source)
    }
}

/// One reading as stored: the batch it came with, when, and how much.
#[derive(Debug)]
pub struct TSStore {
    pub ingestion_id: i64,
    pub datetime: Timestamp,
    pub amount: Decimal,
}

/// What a `TSStore` stands for.
pub struct TSStoreView {
    pub ingestion_id: i64,
    pub datetime: Timestamp,
    pub amount: DecimalValue,
}

impl View for TSStore {
    type V = TSStoreView;

    open spec fn view(&self) -> TSStoreView {
        TSStoreView {
            ingestion_id: self.ingestion_id,
            datetime: self.datetime,
            amount: self.amount@,
        }
    }
}

impl From<(i64, CSVRecord)> for TSStore {
    fn from(pair: (i64, CSVRecord)) -> (row: Self) {
        let (ingestion_id, record) = pair;
        Self { ingestion_id, datetime: record.datetime, amount: record.amount }
    }
}

impl vstd::std_specs::convert::FromSpecImpl<(i64, CSVRecord)> for TSStore {
    open spec fn obeys_from_spec() -> bool {
        true
    }

    open spec fn from_spec(pair: (i64, CSVRecord)) -> Self {
        Self { ingestion_id: pair.0, datetime: pair.1.datetime, amount: pair.1.amount }
    }
}

/// One entry of the audit trail: a request for sums, and when it ran.
#[derive(Debug, PartialEq, Eq, Structural, Clone, Copy)]
pub struct QueryHistory {
    pub id: i64,
    pub executed_at: Timestamp,
    pub from_date: Option<Timestamp>,
    pub to_date: Option<Timestamp>,
    pub aggregation: AggregationKind,
}

impl QueryHistory {
    /// The entry with the identifier `id` for a request that ran at
    /// `executed_at`.
    pub open spec fn stamped(
        id: i64,
        executed_at: Timestamp,
        from_date: Option<Timestamp>,
        to_date: Option<Timestamp>,
        aggregation: AggregationKind,
    ) -> QueryHistory {
        QueryHistory { id, executed_at, from_date, to_date, aggregation }
    }

    /// The entry for a request that ran at `executed_at`. Its `id` is 0 until
    /// the store gives it one.
    pub fn at(
        executed_at: Timestamp,
        from_date: Option<Timestamp>,
        to_date: Option<Timestamp>,
        aggregation: AggregationKind,
    ) -> (entry: Self)
        ensures
            entry == (Self { id: 0, executed_at, from_date, to_date, aggregation }),
    {
        Self { id: 0, executed_at, from_date, to_date, aggregation }
    }

    /// The entry for a request that runs now. Its `id` is 0 until the store
    /// gives it one.
    pub fn new(
        from_date: Option<Timestamp>,
        to_date: Option<Timestamp>,
        aggregation: AggregationKind,
    ) -> (entry: Self)
        ensures
            entry.id == 0,
            entry.from_date == from_date,
            entry.to_date == to_date,
            entry.aggregation == aggregation,
    {
        Self::at(utc_now(), from_date, to_date, aggregation)
    }
}

} // verus!
