use chrono::{DateTime, Datelike, Duration, TimeZone, Timelike, Utc};
use renewable_ts_axum::db::query::{
    aggregate_ts_query, aggregate_ts_query_at, date_trunc, query_request_history, QueryError,
    DEFAULT_HISTORY_LIMIT,
};
use renewable_ts_axum::db::seed_database::{
    get_seed_file, next_seed_step, seed_database, seed_database_at, SeedStep,
};
use renewable_ts_axum::db::PgError;
use renewable_ts_axum::decimal::Decimal;
use renewable_ts_axum::model::api_request::AggregationKind;
use renewable_ts_axum::model::database::{QueryHistory, TSMetadata, TSStore};
use renewable_ts_axum::store::{Store, StoreFailure};
use renewable_ts_axum::timestamp::Timestamp;

fn timestamp_of(instant: DateTime<Utc>) -> Timestamp {
    Timestamp::new(
        instant.year(),
        instant.month(),
        instant.day(),
        instant.hour(),
        instant.minute(),
        instant.second(),
        instant.nanosecond(),
    )
    .unwrap()
}

fn get_test_connection() -> Store {
    Store::new()
}

fn seed_ts_metadata(conn: &mut Store) -> i64 {
    conn.insert_metadata(TSMetadata::new("test_source".to_string())).unwrap().unwrap()
}

fn seed_ts_data(conn: &mut Store, ingestion_id: i64) {
    let base_date = Utc.with_ymd_and_hms(2024, 1, 15, 10, 0, 0).unwrap();
    let records: Vec<TSStore> = (0..48)
        .map(|i| TSStore {
            ingestion_id,
            datetime: timestamp_of(base_date + Duration::hours(i)),
            amount: Decimal::from_i64(100 * (i + 1)),
        })
        .collect();

    conn.insert_points(records).expect("Failed to seed ts_store");
}

fn test_from_date() -> Timestamp {
    timestamp_of(Utc.with_ymd_and_hms(2024, 1, 15, 12, 0, 0).unwrap())
}

fn test_to_date() -> Timestamp {
    timestamp_of(Utc.with_ymd_and_hms(2024, 1, 16, 12, 0, 0).unwrap())
}

fn at(hour: u32, minute: u32) -> Timestamp {
    Timestamp::new(2024, 3, 1, hour, minute, 0, 0).unwrap()
}

const SOURCE: &str = "Time (UTC),Quantity kWh\n\
1 Jan 2025 00:00,\"9,000.000\"\n\
1 Jan 2025 01:00,10.5\n\
not a time,3\n\
1 Jan 2025 00:00,7\n\
2 Jan 2025 00:00,1\n";

#[test]
fn test_query_request_history_respects_limit_and_ordering() {
    let mut conn = get_test_connection();

    let ingestion_id = seed_ts_metadata(&mut conn);
    seed_ts_data(&mut conn, ingestion_id);

    for _ in 0..15 {
        aggregate_ts_query(AggregationKind::Hourly, None, None, &mut conn).unwrap();
    }

    let result = query_request_history(&mut conn);
    assert!(result.is_ok());
    let history = result.unwrap();
    assert_eq!(history.len(), DEFAULT_HISTORY_LIMIT as usize);

    for i in 0..history.len() - 1 {
        assert!(history[i].executed_at >= history[i + 1].executed_at);
    }
}

fn check_aggregate(
    aggregation_kind: AggregationKind,
    from_date: Option<Timestamp>,
    to_date: Option<Timestamp>,
) {
    let mut conn = get_test_connection();

    let ingestion_id = seed_ts_metadata(&mut conn);
    seed_ts_data(&mut conn, ingestion_id);

    let result = aggregate_ts_query(aggregation_kind, from_date, to_date, &mut conn);
    assert!(result.is_ok());
    let records = result.unwrap();

    let history = query_request_history(&mut conn).unwrap();
    assert!(!history.is_empty());

    let latest_entry = &history[0];
    assert_eq!(latest_entry.aggregation, aggregation_kind);
    assert_eq!(latest_entry.from_date, from_date);
    assert_eq!(latest_entry.to_date, to_date);

    if from_date.is_some() || to_date.is_some() {
        let unfiltered = aggregate_ts_query(aggregation_kind, None, None, &mut conn).unwrap();
        assert!(records.len() <= unfiltered.len());
        for record in &records {
            assert!(unfiltered.iter().any(|other| other.datetime == record.datetime));
        }
    }
}

#[test]
fn test_aggregate_ts_query_hourly() {
    check_aggregate(AggregationKind::Hourly, None, None);
    check_aggregate(AggregationKind::Hourly, Some(test_from_date()), None);
    check_aggregate(AggregationKind::Hourly, None, Some(test_to_date()));
    check_aggregate(AggregationKind::Hourly, Some(test_from_date()), Some(test_to_date()));
}

#[test]
fn test_aggregate_ts_query_day_in_month() {
    check_aggregate(AggregationKind::DayInMonth, None, None);
    check_aggregate(AggregationKind::DayInMonth, Some(test_from_date()), None);
    check_aggregate(AggregationKind::DayInMonth, None, Some(test_to_date()));
    check_aggregate(AggregationKind::DayInMonth, Some(test_from_date()), Some(test_to_date()));
}

#[test]
fn test_aggregate_ts_query_monthly() {
    check_aggregate(AggregationKind::Monthly, None, None);
    check_aggregate(AggregationKind::Monthly, Some(test_from_date()), None);
    check_aggregate(AggregationKind::Monthly, None, Some(test_to_date()));
    check_aggregate(AggregationKind::Monthly, Some(test_from_date()), Some(test_to_date()));
}

#[test]
fn test_aggregate_ts_query_yearly() {
    check_aggregate(AggregationKind::Yearly, None, None);
    check_aggregate(AggregationKind::Yearly, Some(test_from_date()), None);
    check_aggregate(AggregationKind::Yearly, None, Some(test_to_date()));
    check_aggregate(AggregationKind::Yearly, Some(test_from_date()), Some(test_to_date()));
}

#[test]
fn a_year_of_hourly_readings_is_one_group_with_their_sum() {
    let mut conn = Store::new();
    let id = conn.insert_metadata(TSMetadata::new("hourly".to_string())).unwrap().unwrap();
    let base_date = Utc.with_ymd_and_hms(2024, 1, 15, 10, 0, 0).unwrap();
    let rows: Vec<TSStore> = (0..48)
        .map(|i| TSStore {
            ingestion_id: id,
            datetime: timestamp_of(base_date + Duration::hours(i)),
            amount: Decimal::from_i64(100 * i),
        })
        .collect();
    assert_eq!(conn.insert_points(rows), Ok(48));

    let records = aggregate_ts_query(AggregationKind::Yearly, None, None, &mut conn).unwrap();
    assert_eq!(records.len(), 1);
    assert_eq!(records[0].datetime, Timestamp::new(2024, 1, 1, 0, 0, 0, 0).unwrap());
    let total = records[0].total_amount.as_ref().unwrap();
    assert!(total.same_value(&Decimal::from_i64(112_800)));
    assert!(!total.same_value(&Decimal::from_i64(112_700)));
}

#[test]
fn groups_by_each_period() {
    let mut conn = get_test_connection();
    let id = seed_ts_metadata(&mut conn);
    seed_ts_data(&mut conn, id);

    let hourly = conn.aggregate(AggregationKind::Hourly, None, None);
    assert_eq!(hourly.len(), 48);
    let daily = conn.aggregate(AggregationKind::DayInMonth, None, None);
    assert_eq!(daily.len(), 3);
    let first_day = daily
        .iter()
        .find(|record| record.datetime == Timestamp::new(2024, 1, 15, 0, 0, 0, 0).unwrap())
        .unwrap();
    // 10:00 to 23:00 of the first day: the amounts 100 to 1400
    assert!(first_day.total_amount.as_ref().unwrap().same_value(&Decimal::from_i64(10_500)));
    let monthly = conn.aggregate(AggregationKind::Monthly, None, None);
    assert_eq!(monthly.len(), 1);
    assert_eq!(monthly[0].datetime, Timestamp::new(2024, 1, 1, 0, 0, 0, 0).unwrap());
    assert!(monthly[0].total_amount.as_ref().unwrap().same_value(&Decimal::from_i64(117_600)));
}

#[test]
fn both_bounds_are_inclusive() {
    let mut conn = get_test_connection();
    let id = seed_ts_metadata(&mut conn);
    seed_ts_data(&mut conn, id);

    let records =
        conn.aggregate(AggregationKind::Hourly, Some(test_from_date()), Some(test_to_date()));
    assert_eq!(records.len(), 25);
    assert!(records.iter().any(|record| record.datetime == test_from_date()));
    assert!(records.iter().any(|record| record.datetime == test_to_date()));
    let none = conn.aggregate(AggregationKind::Hourly, Some(test_to_date()), Some(test_from_date()));
    assert_eq!(none.len(), 0);
    assert_eq!(get_test_connection().aggregate(AggregationKind::Yearly, None, None).len(), 0);
}

#[test]
fn seeding_twice_is_seeding_once() {
    let mut once = Store::new();
    assert_eq!(seed_database_at(&mut once, at(1, 0), "seed.csv", true, SOURCE.as_bytes()), Ok(()));
    let mut twice = Store::new();
    assert_eq!(seed_database_at(&mut twice, at(1, 0), "seed.csv", true, SOURCE.as_bytes()), Ok(()));
    assert_eq!(seed_database_at(&mut twice, at(2, 0), "seed.csv", true, SOURCE.as_bytes()), Ok(()));
    assert_eq!(seed_database(&mut twice, "seed.csv", true, "a,b\n3 Jan 2025 00:00,1\n".as_bytes()), Ok(()));

    assert_eq!(once.batch_count(), 1);
    assert_eq!(twice.batch_count(), 1);
    assert_eq!(once.points().len(), 3);
    assert_eq!(twice.points().len(), 3);
    for (first, second) in once.points().iter().zip(twice.points().iter()) {
        assert_eq!(first.ingestion_id, second.ingestion_id);
        assert_eq!(first.datetime, second.datetime);
        assert!(first.amount.same_value(&second.amount));
    }
}

#[test]
fn seeding_skips_rows_that_do_not_decode_and_readings_that_are_there() {
    let mut conn = Store::new();
    assert_eq!(seed_database(&mut conn, "data/seed.csv", true, SOURCE.as_bytes()), Ok(()));
    assert!(conn.has_source("data/seed.csv"));
    let points = conn.points();
    assert_eq!(points.len(), 3);
    assert_eq!(points[0].ingestion_id, 1);
    assert_eq!(points[0].datetime, Timestamp::new(2025, 1, 1, 0, 0, 0, 0).unwrap());
    assert!(points[0].amount.same_value(&Decimal::from_i64(9000)));
    assert_eq!(points[1].datetime, Timestamp::new(2025, 1, 1, 1, 0, 0, 0).unwrap());
    assert_eq!(points[2].datetime, Timestamp::new(2025, 1, 2, 0, 0, 0, 0).unwrap());
    assert!(conn.has_point(1, Timestamp::new(2025, 1, 2, 0, 0, 0, 0).unwrap()));
    assert!(!conn.has_point(2, Timestamp::new(2025, 1, 2, 0, 0, 0, 0).unwrap()));

    assert_eq!(seed_database(&mut conn, "other.csv", true, SOURCE.as_bytes()), Ok(()));
    assert_eq!(conn.batch_count(), 2);
    assert_eq!(conn.points().len(), 6);
    assert_eq!(conn.points()[3].ingestion_id, 2);
}

#[test]
fn a_source_must_be_a_regular_file_of_delimited_text() {
    assert_eq!(get_seed_file("seed.csv", true), Ok(()));
    assert_eq!(get_seed_file("dir/seed.v2.csv", true), Ok(()));
    assert_eq!(get_seed_file("seed.csv", false), Err(PgError::SeedFileValidationError));
    assert_eq!(get_seed_file("seed.txt", true), Err(PgError::SeedFileValidationError));
    assert_eq!(get_seed_file("seed.CSV", true), Err(PgError::SeedFileValidationError));
    assert_eq!(get_seed_file("seed", true), Err(PgError::SeedFileValidationError));
    assert_eq!(get_seed_file(".csv", true), Err(PgError::SeedFileValidationError));
    assert_eq!(get_seed_file("csv", true), Err(PgError::SeedFileValidationError));

    let mut conn = Store::new();
    assert_eq!(
        seed_database(&mut conn, "seed.txt", true, SOURCE.as_bytes()),
        Err(PgError::SeedFileValidationError)
    );
    assert_eq!(conn.batch_count(), 0);
    assert_eq!(conn.points().len(), 0);
}

#[test]
fn the_step_after_the_row_of_the_source() {
    assert!(matches!(next_seed_step(None, SOURCE.as_bytes()), SeedStep::AlreadySeeded));
    match next_seed_step(Some(7), SOURCE.as_bytes()) {
        SeedStep::InsertPoints(rows, skipped) => {
            assert_eq!(rows.len(), 4);
            assert_eq!(skipped, 1);
            assert!(rows.iter().all(|row| row.ingestion_id == 7));
            assert!(rows[3].amount.same_value(&Decimal::from_i64(1)));
        }
        SeedStep::AlreadySeeded => panic!("a new batch has readings to insert"),
    }
}

#[test]
fn a_store_without_identifiers_refuses_and_keeps_nothing() {
    let mut conn = Store::starting_at(i64::MAX, i64::MAX).unwrap();
    assert_eq!(
        conn.insert_metadata(TSMetadata::new("seed.csv".to_string())),
        Err(StoreFailure::IdentifiersExhausted)
    );
    assert_eq!(
        seed_database(&mut conn, "seed.csv", true, SOURCE.as_bytes()),
        Err(PgError::DieselError)
    );
    assert_eq!(conn.batch_count(), 0);
    assert_eq!(conn.points().len(), 0);

    assert_eq!(
        conn.insert_history(QueryHistory::new(None, None, AggregationKind::Hourly)),
        Err(StoreFailure::IdentifiersExhausted)
    );
    let outcome = aggregate_ts_query(AggregationKind::Hourly, None, None, &mut conn);
    assert!(matches!(outcome, Err(QueryError::StoreError)));
    assert_eq!(conn.history_count(), 0);
    assert_eq!(query_request_history(&conn).unwrap().len(), 0);

    assert!(Store::starting_at(0, 1).is_none());
    assert!(Store::starting_at(1, 0).is_none());
}

#[test]
fn the_last_identifier_is_given_and_then_none() {
    let mut conn = Store::starting_at(1, i64::MAX - 1).unwrap();
    assert!(aggregate_ts_query(AggregationKind::Yearly, None, None, &mut conn).is_ok());
    assert!(aggregate_ts_query(AggregationKind::Yearly, None, None, &mut conn).is_err());
    let history = query_request_history(&conn).unwrap();
    assert_eq!(history.len(), 1);
    assert_eq!(history[0].id, i64::MAX - 1);
}

#[test]
fn readings_of_a_batch_that_is_not_there_are_refused_whole() {
    let mut conn = get_test_connection();
    let id = seed_ts_metadata(&mut conn);
    let rows = vec![
        TSStore { ingestion_id: id, datetime: at(1, 0), amount: Decimal::from_i64(1) },
        TSStore { ingestion_id: id + 1, datetime: at(2, 0), amount: Decimal::from_i64(2) },
    ];
    assert_eq!(conn.insert_points(rows), Err(StoreFailure::UnknownBatch));
    assert_eq!(conn.points().len(), 0);
    assert!(conn.has_batch(id));
    assert!(!conn.has_batch(id + 1));
}

#[test]
fn a_reading_that_is_there_is_passed_over() {
    let mut conn = get_test_connection();
    let id = seed_ts_metadata(&mut conn);
    let first = vec![TSStore { ingestion_id: id, datetime: at(1, 0), amount: Decimal::from_i64(1) }];
    assert_eq!(conn.insert_points(first), Ok(1));
    let second = vec![
        TSStore { ingestion_id: id, datetime: at(1, 0), amount: Decimal::from_i64(5) },
        TSStore { ingestion_id: id, datetime: at(2, 0), amount: Decimal::from_i64(2) },
        TSStore { ingestion_id: id, datetime: at(2, 0), amount: Decimal::from_i64(9) },
    ];
    assert_eq!(conn.insert_points(second), Ok(1));
    assert_eq!(conn.points().len(), 2);
    assert!(conn.points()[0].amount.same_value(&Decimal::from_i64(1)));
    assert!(conn.points()[1].amount.same_value(&Decimal::from_i64(2)));
    assert_eq!(conn.insert_metadata(TSMetadata::new("test_source".to_string())), Ok(None));
    assert_eq!(conn.batch_count(), 1);
}

#[test]
fn the_history_lists_the_latest_requests_latest_first() {
    let mut conn = Store::new();
    for minute in 0..15u32 {
        let kind = if minute == 14 { AggregationKind::Monthly } else { AggregationKind::Hourly };
        let outcome =
            aggregate_ts_query_at(at(0, minute), kind, Some(at(0, 0)), None, &mut conn);
        assert!(outcome.is_ok());
    }
    // one that ran earlier than all of them comes last, and is not listed
    assert!(aggregate_ts_query_at(
        Timestamp::new(2023, 12, 31, 23, 59, 59, 999_999_999).unwrap(),
        AggregationKind::Yearly,
        None,
        None,
        &mut conn
    )
    .is_ok());
    assert_eq!(conn.history_count(), 16);

    let history = query_request_history(&conn).unwrap();
    assert_eq!(history.len(), 10);
    for (i, entry) in history.iter().enumerate() {
        assert_eq!(entry.executed_at, at(0, 14 - i as u32));
        assert_eq!(entry.id, 15 - i as i64);
    }
    assert_eq!(history[0].aggregation, AggregationKind::Monthly);
    assert_eq!(history[0].from_date, Some(at(0, 0)));
    assert_eq!(history[0].to_date, None);
    assert_eq!(conn.recent_history(3).len(), 3);
    assert_eq!(conn.recent_history(0).len(), 0);
    assert_eq!(conn.recent_history(100).len(), 16);
    assert_eq!(conn.recent_history(100)[15].aggregation, AggregationKind::Yearly);
}

#[test]
fn requests_of_one_instant_are_listed_last_come_first() {
    let mut conn = Store::new();
    aggregate_ts_query_at(at(5, 0), AggregationKind::Hourly, None, None, &mut conn).unwrap();
    aggregate_ts_query_at(at(5, 0), AggregationKind::Yearly, None, None, &mut conn).unwrap();
    let history = query_request_history(&conn).unwrap();
    assert_eq!(history[0].aggregation, AggregationKind::Yearly);
    assert_eq!(history[1].aggregation, AggregationKind::Hourly);
}

#[test]
fn the_expression_that_cuts_an_instant_down() {
    assert_eq!(date_trunc(AggregationKind::Hourly), "DATE_TRUNC('hour', datetime)");
    assert_eq!(date_trunc(AggregationKind::DayInMonth), "DATE_TRUNC('day', datetime)");
    assert_eq!(date_trunc(AggregationKind::Monthly), "DATE_TRUNC('month', datetime)");
    assert_eq!(date_trunc(AggregationKind::Yearly), "DATE_TRUNC('year', datetime)");
}
