//! Seeding: the readings of one source enter the store once.

use crate::db::PgError;
use crate::file_reader::{outcomes_view, csv_rows, csv_stream, decoded_rows, readings_of, readings_view, valid_records};
use crate::model::csv::{CSVRecord, CSVRecordView};
use crate::model::database::{TSMetadata, TSStore, TSStoreView};
use crate::store::{
    all_in_batches, holds_batch, names_source, rows_view, with_points, BatchView, Store, StoreView,
};
use crate::timestamp::{utc_now, Timestamp};
use vstd::prelude::*;

verus! {

/// What `std::path::Path::extension` gives for the path `path`: the part of
/// its file name behind the last dot, where std finds one.
pub uninterp spec fn path_extension(path: Seq<char>) -> Option<Seq<char>>;

/// Calls `std::path::Path::extension` on `path` and hands on the extension
/// as text. Nothing is claimed of the result but that it is what std gives
/// for this path.
#[verifier::external_body]
fn extension_of(path: &str) -> (extension: Option<String>)
    ensures
        match extension {
            Some(found) => path_extension(path@) == Some(found@),
            None => path_extension(path@) is None,
        },
{
    std::path::Path::new(path).extension().and_then(|found| found.to_str()).map(String::from)
}

/// Whether a source can be seeded: it is a regular file and its name ends in
/// `.csv`.
pub open spec fn is_seed_file(path: Seq<char>, is_file: bool) -> bool {
    is_file && path_extension(path) == Some("csv"@)
}

/// Checks the source before anything is read from it. `is_file` says whether
/// `path_str` names a regular file that is there.
pub fn get_seed_file(path_str: &str, is_file: bool) -> (checked: Result<(), PgError>)
    ensures
        checked == (if is_seed_file(path_str@, is_file) {
            Ok::<(), PgError>(())
        } else {
            Err::<(), PgError>(PgError::SeedFileValidationError)
        }),
{
    if !is_file {
        return Err(PgError::SeedFileValidationError);
    }
    match extension_of(path_str) {
        Some(extension) => if extension == "csv".to_owned() {
            Ok(())
        } else {
            Err(PgError::SeedFileValidationError)
        },
        None => Err(PgError::SeedFileValidationError),
    }
}

/// The rows of batch `id` for `readings`, one for each, in their order.
pub open spec fn rows_for(id: i64, readings: Seq<CSVRecordView>) -> Seq<TSStoreView> {
    Seq::new(
        readings.len(),
        |i: int|
            TSStoreView { ingestion_id: id, datetime: readings[i].datetime, amount: readings[i].amount },
    )
}

/// The rows of batch `id` that the text `buffer` gives: one for each row of
/// text that decodes, in their order; a row that does not decode gives none.
pub open spec fn seeded_rows(id: i64, buffer: Seq<u8>) -> Seq<TSStoreView> {
    rows_for(id, readings_of(decoded_rows(csv_rows(buffer))))
}

/// The store after the source `path` was seeded as batch `id` at `now` with
/// the text `buffer`: as it was, where the source had been seeded before.
pub open spec fn after_seeding(
    store: StoreView,
    id: i64,
    now: Timestamp,
    path: Seq<char>,
    buffer: Seq<u8>,
) -> StoreView {
    if names_source(store.batches, path) {
        store
    } else {
        StoreView {
            batches: store.batches.push(
                BatchView { ingestion_id: id, ingestion_datetime: now, source: path },
            ),
            points: with_points(store.points, seeded_rows(id, buffer)),
            history: store.history,
        }
    }
}

/// Seeding a source a second time changes nothing, whatever the text is by
/// then.
pub proof fn lemma_seeding_twice_is_seeding_once(
    store: StoreView,
    first_id: i64,
    first_now: Timestamp,
    first_buffer: Seq<u8>,
    second_id: i64,
    second_now: Timestamp,
    second_buffer: Seq<u8>,
    path: Seq<char>,
)
    ensures
        after_seeding(
            after_seeding(store, first_id, first_now, path, first_buffer),
            second_id,
            second_now,
            path,
            second_buffer,
        ) == after_seeding(store, first_id, first_now, path, first_buffer),
{
    let once = after_seeding(store, first_id, first_now, path, first_buffer);
    if !names_source(store.batches, path) {
        assert(once.batches[store.batches.len() as int].source == path);
    }
}

/// What is done once the row of the source was inserted.
pub enum SeedStep {
    /// The source had a row: nothing more is written.
    AlreadySeeded,
    /// The source got a row: these readings are inserted for it. The number
    /// says how many rows of the text gave no reading and were passed over.
    InsertPoints(Vec<TSStore>, usize),
}

/// The rows of batch `ingestion_id` for `readings`.
pub fn ingestion_rows(ingestion_id: i64, readings: Vec<CSVRecord>) -> (rows: Vec<TSStore>)
    ensures
        rows_view(rows@) == rows_for(ingestion_id, readings_view(readings@)),
        rows@.len() == readings@.len(),
{
    let ghost all = readings_view(readings@);
    let mut rows: Vec<TSStore> = Vec::new();
    for reading in it: readings
        invariant
            it.seq() == readings@,
            all == readings_view(readings@),
            rows@.len() == it.index(),
            forall|i: int|
                0 <= i < rows@.len() ==> (#[trigger] rows@[i])@ == (TSStoreView {
                    ingestion_id,
                    datetime: all[i].datetime,
                    amount: all[i].amount,
                }),
    {
        assert(all[it.index() as int] == reading@);
        rows.push(TSStore::from((ingestion_id, reading)));
    }
    assert(rows_view(rows@) =~= rows_for(ingestion_id, all));
    rows
}

/// Decides what follows the insert of the source's row: `inserted` is the
/// identifier the row got, or nothing where the source had a row already.
pub fn next_seed_step(inserted: Option<i64>, buffer: &[u8]) -> (step: SeedStep)
    ensures
        match inserted {
            None => step is AlreadySeeded,
            Some(id) => step matches SeedStep::InsertPoints(rows, skipped) && rows_view(rows@)
                == seeded_rows(id, buffer@) && skipped == csv_rows(buffer@).len() - rows@.len(),
        },
{
    match inserted {
        None => SeedStep::AlreadySeeded,
        Some(id) => {
            let outcomes = csv_stream(buffer);
            let decoded = outcomes.len();
            assert(outcomes_view(outcomes@).len() == outcomes@.len());
            let rows = ingestion_rows(id, valid_records(outcomes));
            let skipped = decoded - rows.len();
            SeedStep::InsertPoints(rows, skipped)
        },
    }
}

/// Whether a seeding of `path` with `buffer` led from `before` to `after`.
pub open spec fn seeded(
    before: StoreView,
    after: StoreView,
    now: Timestamp,
    path: Seq<char>,
    buffer: Seq<u8>,
) -> bool {
    if names_source(before.batches, path) {
        after == before
    } else {
        exists|id: i64|
            !holds_batch(before.batches, id) && after == #[trigger] after_seeding(
                before,
                id,
                now,
                path,
                buffer,
            )
    }
}

/// Seeds the source `path` with the text `buffer`, now. What holds of
/// `seed_database_at` holds of it for the instant at which it ran.
pub fn seed_database(pg_pool: &mut Store, path: &str, is_file: bool, buffer: &[u8]) -> (outcome:
    Result<(), PgError>)
    requires
        old(pg_pool).well_formed(),
    ensures
        final(pg_pool).well_formed(),
        final(pg_pool).entries_left() == old(pg_pool).entries_left(),
        match outcome {
            Ok(()) => {
                &&& is_seed_file(path@, is_file)
                &&& names_source(old(pg_pool)@.batches, path@) || old(pg_pool).batches_left() > 0
                &&& exists|now: Timestamp|
                    #[trigger] seeded(old(pg_pool)@, final(pg_pool)@, now, path@, buffer@)
                &&& names_source(final(pg_pool)@.batches, path@)
            },
            Err(PgError::SeedFileValidationError) => {
                &&& !is_seed_file(path@, is_file)
                &&& final(pg_pool)@ == old(pg_pool)@
            },
            Err(PgError::DieselError) => {
                &&& is_seed_file(path@, is_file)
                &&& !names_source(old(pg_pool)@.batches, path@)
                &&& old(pg_pool).batches_left() == 0
                &&& final(pg_pool)@ == old(pg_pool)@
            },
            Err(_) => false,
        },
{
    seed_database_at(pg_pool, utc_now(), path, is_file, buffer)
}

/// Seeds the source `path` with the text `buffer` at the instant `now`.
///
/// The source is checked first. Then its row is inserted; where it had one,
/// nothing more is written and the seeding has succeeded. Else every row of
/// the text that decodes is inserted as a reading of the new batch. Where the
/// store refuses, nothing is written at all.
pub fn seed_database_at(
    pg_pool: &mut Store,
    now: Timestamp,
    path: &str,
    is_file: bool,
    buffer: &[u8],
) -> (outcome: Result<(), PgError>)
    requires
        old(pg_pool).well_formed(),
    ensures
        final(pg_pool).well_formed(),
        final(pg_pool).entries_left() == old(pg_pool).entries_left(),
        match outcome {
            Ok(()) => {
                &&& is_seed_file(path@, is_file)
                &&& names_source(old(pg_pool)@.batches, path@) || old(pg_pool).batches_left() > 0
                &&& seeded(old(pg_pool)@, final(pg_pool)@, now, path@, buffer@)
                &&& names_source(final(pg_pool)@.batches, path@)
            },
            Err(PgError::SeedFileValidationError) => {
                &&& !is_seed_file(path@, is_file)
                &&& final(pg_pool)@ == old(pg_pool)@
            },
            Err(PgError::DieselError) => {
                &&& is_seed_file(path@, is_file)
                &&& !names_source(old(pg_pool)@.batches, path@)
                &&& old(pg_pool).batches_left() == 0
                &&& final(pg_pool)@ == old(pg_pool)@
            },
            Err(_) => false,
        },
{
    match get_seed_file(path, is_file) {
        Err(error) => {
            return Err(error);
        },
        Ok(()) => {},
    }
    let ghost before = pg_pool@;
    let inserted = match pg_pool.insert_metadata(TSMetadata::at(now, path.to_owned())) {
        Err(_) => {
            return Err(PgError::DieselError);
        },
        Ok(inserted) => inserted,
    };
    match next_seed_step(inserted, buffer) {
        SeedStep::AlreadySeeded => {
            Ok(())
        },
        SeedStep::InsertPoints(rows, _) => {
            let ghost id = inserted->0;
            let ghost middle = pg_pool@;
            proof {
                assert(middle.batches[before.batches.len() as int].ingestion_id == id);
                assert(middle.batches[before.batches.len() as int].source == path@);
                assert(all_in_batches(middle.batches, rows_view(rows@)));
            }
            match pg_pool.insert_points(rows) {
                Ok(_) => {
                    proof {
                        assert(pg_pool@ == after_seeding(before, id, now, path@, buffer@));
                    }
                    Ok(())
                },
                Err(_) => Err(PgError::DieselError),
            }
        },
    }
}

} // verus!
