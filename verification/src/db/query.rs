//! Requests for sums, and the trail they leave.

use crate::model::api_request::AggregationKind;
use crate::model::api_response::AggregationQueryRecord;
use crate::model::database::QueryHistory;
use crate::store::{
    holds_entry, insertion_point, is_aggregate_of, latest_first, records_view, Store, StoreView,
};
use crate::timestamp::{utc_now, Timestamp};
use vstd::prelude::*;
use vstd::string::StringExecFns;

verus! {

/// How many entries of the history a listing gives at most.
pub const DEFAULT_HISTORY_LIMIT: i64 = 10;

/// Why a request was not answered.
#[derive(Debug, PartialEq, Eq, Structural, Clone, Copy)]
pub enum QueryError {
    /// The store refused what it was asked to do.
    StoreError,
}

/// The expression by which the store cuts the instant of a reading down to
/// the start of its period.
pub open spec fn date_trunc_of(kind: AggregationKind) -> Seq<char> {
    "DATE_TRUNC('"@ + kind.period()@ + "', datetime)"@
}

/// The expression by which the store cuts the instant of a reading down to
/// the start of its period: the readings are grouped by it.
pub fn date_trunc(kind: AggregationKind) -> (expression: String)
    ensures
        expression@ == date_trunc_of(kind),
{
    let period: &str = kind.into();
    String::from_str("DATE_TRUNC('").concat(period).concat("', datetime)")
}

/// Whether a request that ran at `executed_at` led from `before` to `after`:
/// its entry went into the history under an identifier that no entry had,
/// and nothing else changed.
pub open spec fn recorded(
    before: StoreView,
    after: StoreView,
    executed_at: Timestamp,
    kind: AggregationKind,
    from: Option<Timestamp>,
    to: Option<Timestamp>,
) -> bool {
    &&& after.batches == before.batches
    &&& after.points == before.points
    &&& exists|id: i64|
        !holds_entry(before.history, id) && after.history == before.history.insert(
            insertion_point(before.history, executed_at),
            #[trigger] QueryHistory::stamped(id, executed_at, from, to, kind),
        )
}

/// Answers a request that runs at `executed_at`: the entry of the request is
/// written first, then the sums are read. Where the store refuses, no entry
/// of the request is left behind and nothing else has changed.
pub fn aggregate_ts_query_at(
    executed_at: Timestamp,
    aggregation_kind: AggregationKind,
    from_date: Option<Timestamp>,
    to_date: Option<Timestamp>,
    conn: &mut Store,
) -> (outcome: Result<Vec<AggregationQueryRecord>, QueryError>)
    requires
        old(conn).well_formed(),
    ensures
        final(conn).well_formed(),
        final(conn).batches_left() == old(conn).batches_left(),
        match outcome {
            Ok(records) => {
                &&& old(conn).entries_left() > 0
                &&& final(conn).entries_left() == old(conn).entries_left() - 1
                &&& recorded(
                    old(conn)@,
                    final(conn)@,
                    executed_at,
                    aggregation_kind,
                    from_date,
                    to_date,
                )
                &&& is_aggregate_of(
                    records_view(records@),
                    old(conn)@.points,
                    aggregation_kind,
                    from_date,
                    to_date,
                )
            },
            Err(error) => {
                &&& error == QueryError::StoreError
                &&& old(conn).entries_left() == 0
                &&& final(conn)@ == old(conn)@
                &&& final(conn).entries_left() == 0
            },
        },
{
    let history_entry = QueryHistory::at(executed_at, from_date, to_date, aggregation_kind);
    match conn.insert_history(history_entry) {
        Err(_) => Err(QueryError::StoreError),
        Ok(id) => {
            assert(QueryHistory::stamped(id, executed_at, from_date, to_date, aggregation_kind) == (
            QueryHistory { id, ..history_entry }));
            Ok(conn.aggregate(aggregation_kind, from_date, to_date))
        },
    }
}

/// Answers a request that runs now. What holds of `aggregate_ts_query_at`
/// holds of it for the instant at which it ran.
pub fn aggregate_ts_query(
    aggregation_kind: AggregationKind,
    from_date: Option<Timestamp>,
    to_date: Option<Timestamp>,
    conn: &mut Store,
) -> (outcome: Result<Vec<AggregationQueryRecord>, QueryError>)
    requires
        old(conn).well_formed(),
    ensures
        final(conn).well_formed(),
        final(conn).batches_left() == old(conn).batches_left(),
        match outcome {
            Ok(records) => {
                &&& old(conn).entries_left() > 0
                &&& final(conn).entries_left() == old(conn).entries_left() - 1
                &&& exists|executed_at: Timestamp|
                    #[trigger] recorded(
                        old(conn)@,
                        final(conn)@,
                        executed_at,
                        aggregation_kind,
                        from_date,
                        to_date,
                    )
                &&& is_aggregate_of(
                    records_view(records@),
                    old(conn)@.points,
                    aggregation_kind,
                    from_date,
                    to_date,
                )
            },
            Err(error) => {
                &&& error == QueryError::StoreError
                &&& old(conn).entries_left() == 0
                &&& final(conn)@ == old(conn)@
                &&& final(conn).entries_left() == 0
            },
        },
{
    aggregate_ts_query_at(utc_now(), aggregation_kind, from_date, to_date, conn)
}

/// The latest entries of the history, latest first, ten at most. Reading
/// them changes nothing.
pub fn query_request_history(conn: &Store) -> (outcome: Result<Vec<QueryHistory>, QueryError>)
    ensures
        outcome == Ok::<Vec<QueryHistory>, QueryError>(outcome->Ok_0),
        outcome->Ok_0@ == latest_first(conn@.history, DEFAULT_HISTORY_LIMIT as nat),
{
    Ok(conn.recent_history(DEFAULT_HISTORY_LIMIT as usize))
}

} // verus!
