//! What the service answers to a request.

use crate::db::query::{
    aggregate_ts_query, query_request_history, recorded, QueryError, DEFAULT_HISTORY_LIMIT,
};
use crate::model::api_request::TimeSeriesAggregationRequest;
use crate::model::api_response::{AggregationQueryRecord, QueryResponse};
use crate::model::database::QueryHistory;
use crate::store::{is_aggregate_of, latest_first, records_view, Store};
use crate::timestamp::{utc_now, Timestamp};
use vstd::prelude::*;

verus! {

/// The status of an answer that carries what was asked for.
pub const OK: u16 = 200;

/// The status of the answer to a path that the service does not have.
pub const NOT_FOUND: u16 = 404;

/// The status of an answer where anything failed.
pub const INTERNAL_SERVER_ERROR: u16 = 500;

/// What is said where anything failed: no more than this, whatever failed.
pub const INTERNAL_ERROR: &'static str = "Internal Error";

/// What an answer carries.
#[derive(Debug)]
pub enum Body {
    /// Plain text.
    Text(&'static str),
    /// The sums that were asked for, to be written as one object.
    Records(QueryResponse),
    /// Entries of the history, to be written as one list.
    History(Vec<QueryHistory>),
}

/// An answer: its status and what it carries.
#[derive(Debug)]
pub struct Response {
    pub status: u16,
    pub body: Body,
}

impl Response {
    /// The answer where anything failed.
    pub open spec fn is_internal_error(self) -> bool {
        self.status == INTERNAL_SERVER_ERROR && self.body == Body::Text(INTERNAL_ERROR)
    }
}

/// The answer where anything failed.
pub fn internal_error() -> (response: Response)
    ensures
        response.is_internal_error(),
{
    Response { status: INTERNAL_SERVER_ERROR, body: Body::Text(INTERNAL_ERROR) }
}

/// The answer to a path that the service does not have: no text at all.
pub fn handler_404() -> (response: Response)
    ensures
        response.status == NOT_FOUND,
        response.body == Body::Text(""),
{
    Response { status: NOT_FOUND, body: Body::Text("") }
}

/// The answer to a request for sums, from how the request went: the sums
/// with the instant `executed_at`, or the answer for a failure.
pub fn query_response(
    outcome: Result<Vec<AggregationQueryRecord>, QueryError>,
    executed_at: Timestamp,
) -> (response: Response)
    ensures
        match outcome {
            Ok(records) => response.status == OK && response.body == Body::Records(
                QueryResponse { executed_at, records },
            ),
            Err(_) => response.is_internal_error(),
        },
{
    match outcome {
        Ok(records) => Response {
            status: OK,
            body: Body::Records(QueryResponse { executed_at, records }),
        },
        Err(_) => internal_error(),
    }
}

/// The answer to a request for the history, from how reading it went: the
/// entries, or the answer for a failure.
pub fn history_response(outcome: Result<Vec<QueryHistory>, QueryError>) -> (response: Response)
    ensures
        match outcome {
            Ok(entries) => response.status == OK && response.body == Body::History(entries),
            Err(_) => response.is_internal_error(),
        },
{
    match outcome {
        Ok(entries) => Response { status: OK, body: Body::History(entries) },
        Err(_) => internal_error(),
    }
}

/// Answers a request for sums: the sums of the readings within the bounds by
/// the period asked for, with the instant of the answer. The request leaves
/// its entry in the history exactly where it is answered so.
pub fn post_query_ts(pg_pool: &mut Store, request: TimeSeriesAggregationRequest) -> (response:
    Response)
    requires
        old(pg_pool).well_formed(),
    ensures
        final(pg_pool).well_formed(),
        final(pg_pool).batches_left() == old(pg_pool).batches_left(),
        if old(pg_pool).entries_left() > 0 {
            &&& final(pg_pool).entries_left() == old(pg_pool).entries_left() - 1
            &&& response.status == OK
            &&& response.body matches Body::Records(answer)
            &&& is_aggregate_of(
                records_view(answer.records@),
                old(pg_pool)@.points,
                request.aggregation_kind,
                request.datetime_filter.from_date,
                request.datetime_filter.to_date,
            )
            &&& exists|executed_at: Timestamp|
                #[trigger] recorded(
                    old(pg_pool)@,
                    final(pg_pool)@,
                    executed_at,
                    request.aggregation_kind,
                    request.datetime_filter.from_date,
                    request.datetime_filter.to_date,
                )
        } else {
            &&& response.is_internal_error()
            &&& final(pg_pool)@ == old(pg_pool)@
            &&& final(pg_pool).entries_left() == 0
        },
{
    let outcome = aggregate_ts_query(
        request.aggregation_kind,
        request.datetime_filter.from_date,
        request.datetime_filter.to_date,
        pg_pool,
    );
    query_response(outcome, utc_now())
}

/// Answers a request for the history: its latest entries, latest first, ten
/// at most.
pub fn get_query_history(pg_pool: &Store) -> (response: Response)
    ensures
        response.status == OK,
        response.body matches Body::History(entries) && entries@ == latest_first(
            pg_pool@.history,
            DEFAULT_HISTORY_LIMIT as nat,
        ),
{
    history_response(query_request_history(pg_pool))
}

} // verus!
