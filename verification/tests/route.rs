use renewable_ts_axum::db::query::QueryError;
use renewable_ts_axum::decimal::Decimal;
use renewable_ts_axum::model::api_request::{
    AggregationKind, TimeSeriesAggregationRequest, TimeSeriesRange,
};
use renewable_ts_axum::model::database::{TSMetadata, TSStore};
use renewable_ts_axum::route::{
    get_query_history, handler_404, history_response, internal_error, post_query_ts,
    query_response, Body,
};
use renewable_ts_axum::store::Store;
use renewable_ts_axum::timestamp::Timestamp;

fn request(kind: AggregationKind) -> TimeSeriesAggregationRequest {
    TimeSeriesAggregationRequest {
        aggregation_kind: kind,
        datetime_filter: TimeSeriesRange { from_date: None, to_date: None },
    }
}

#[test]
fn a_path_that_is_not_there_gets_an_empty_answer() {
    let response = handler_404();
    assert_eq!(response.status, 404);
    assert!(matches!(response.body, Body::Text("")));
}

#[test]
fn a_failure_says_nothing_of_what_failed() {
    let response = internal_error();
    assert_eq!(response.status, 500);
    assert!(matches!(response.body, Body::Text("Internal Error")));
    let now = Timestamp::new(2025, 1, 1, 0, 0, 0, 0).unwrap();
    let response = query_response(Err(QueryError::StoreError), now);
    assert_eq!(response.status, 500);
    assert!(matches!(response.body, Body::Text("Internal Error")));
    let response = history_response(Err(QueryError::StoreError));
    assert_eq!(response.status, 500);
    assert!(matches!(response.body, Body::Text("Internal Error")));
}

#[test]
fn an_answer_carries_what_was_found() {
    let now = Timestamp::new(2025, 1, 1, 0, 0, 0, 0).unwrap();
    let response = query_response(Ok(Vec::new()), now);
    assert_eq!(response.status, 200);
    match response.body {
        Body::Records(answer) => {
            assert_eq!(answer.executed_at, now);
            assert_eq!(answer.records.len(), 0);
        }
        _ => panic!("sums were asked for"),
    }
    let response = history_response(Ok(Vec::new()));
    assert_eq!(response.status, 200);
    assert!(matches!(response.body, Body::History(entries) if entries.is_empty()));
}

#[test]
fn the_service_answers_and_remembers() {
    let mut store = Store::new();
    let id = store.insert_metadata(TSMetadata::new("seed.csv".to_string())).unwrap().unwrap();
    let rows = vec![
        TSStore {
            ingestion_id: id,
            datetime: Timestamp::new(2025, 1, 1, 0, 30, 0, 0).unwrap(),
            amount: Decimal::from_i64(2),
        },
        TSStore {
            ingestion_id: id,
            datetime: Timestamp::new(2025, 1, 1, 0, 45, 0, 0).unwrap(),
            amount: Decimal::from_i64(3),
        },
    ];
    store.insert_points(rows).unwrap();

    let response = post_query_ts(&mut store, request(AggregationKind::Hourly));
    assert_eq!(response.status, 200);
    match response.body {
        Body::Records(answer) => {
            assert_eq!(answer.records.len(), 1);
            assert_eq!(
                answer.records[0].datetime,
                Timestamp::new(2025, 1, 1, 0, 0, 0, 0).unwrap()
            );
            let total = answer.records[0].total_amount.as_ref().unwrap();
            assert!(total.same_value(&Decimal::from_i64(5)));
        }
        _ => panic!("sums were asked for"),
    }

    let response = get_query_history(&store);
    assert_eq!(response.status, 200);
    match response.body {
        Body::History(entries) => {
            assert_eq!(entries.len(), 1);
            assert_eq!(entries[0].aggregation, AggregationKind::Hourly);
            assert_eq!(entries[0].id, 1);
        }
        _ => panic!("the history was asked for"),
    }
}

#[test]
fn a_request_that_fails_leaves_no_entry() {
    let mut store = Store::starting_at(1, i64::MAX).unwrap();
    let response = post_query_ts(&mut store, request(AggregationKind::Monthly));
    assert_eq!(response.status, 500);
    assert!(matches!(response.body, Body::Text("Internal Error")));
    assert_eq!(store.history_count(), 0);
    let response = get_query_history(&store);
    assert!(matches!(response.body, Body::History(entries) if entries.is_empty()));
}
