//! Readings from delimited text: one row, one reading or one error.

use crate::model::csv::{CSVRecord, CSVRecordView};
use crate::model::{amount_of, deserialize_datetime, deserialize_decimal, timestamp_of, DecodeError};
use vstd::prelude::*;

verus! {

/// What the `csv` crate makes of `buffer`, read with a header line, white
/// space trimmed from every field, and every row held to the header's number
/// of fields: for each row after the header its fields, in order; or
/// nothing, where the crate reports an error for the row.
pub uninterp spec fn csv_rows(buffer: Seq<u8>) -> Seq<Option<Seq<Seq<char>>>>;

/// Reads `buffer` with a `csv::Reader` built by `csv::ReaderBuilder` (header
/// line on, `Trim::All`) and hands on, for each item of `into_records`, the
/// fields of the row or nothing where the item is an error. Nothing is
/// claimed of the rows but that they are what the crate gives for these
/// bytes.
#[verifier::external_body]
fn split_rows(buffer: &[u8]) -> (rows: Vec<Option<Vec<String>>>)
    ensures
        rows.deep_view() == csv_rows(buffer@),
{
    csv::ReaderBuilder::new()
        .has_headers(true)
        .trim(csv::Trim::All)
        .from_reader(buffer)
        .into_records()
        .map(|row| row.ok().map(|fields| fields.iter().map(String::from).collect()))
        .collect()
}

/// What an outcome of decoding stands for.
pub open spec fn outcome_view(outcome: Result<CSVRecord, DecodeError>) -> Result<
    CSVRecordView,
    DecodeError,
> {
    match outcome {
        Ok(record) => Ok(record@),
        Err(error) => Err(error),
    }
}

/// What a run of outcomes stands for.
pub open spec fn outcomes_view(outcomes: Seq<Result<CSVRecord, DecodeError>>) -> Seq<
    Result<CSVRecordView, DecodeError>,
> {
    Seq::new(outcomes.len(), |i: int| outcome_view(outcomes[i]))
}

/// What a run of readings stands for.
pub open spec fn readings_view(records: Seq<CSVRecord>) -> Seq<CSVRecordView> {
    Seq::new(records.len(), |i: int| records[i]@)
}

/// What a time and an amount decode to. The time is read first: where both
/// are wrong, the error is that of the time.
pub open spec fn decoded_fields(time: Seq<char>, amount: Seq<char>) -> Result<
    CSVRecordView,
    DecodeError,
> {
    match timestamp_of(time) {
        Err(error) => Err(error),
        Ok(datetime) => match amount_of(amount) {
            Err(error) => Err(error),
            Ok(amount) => Ok(CSVRecordView { datetime, amount }),
        },
    }
}

/// What a row decodes to: a reading where it has two fields and both decode.
pub open spec fn decoded_row(row: Option<Seq<Seq<char>>>) -> Result<CSVRecordView, DecodeError> {
    match row {
        Some(fields) => if fields.len() == 2 {
            decoded_fields(fields[0], fields[1])
        } else {
            Err(DecodeError::MalformedRecord)
        },
        None => Err(DecodeError::MalformedRecord),
    }
}

/// What rows decode to, row by row.
pub open spec fn decoded_rows(rows: Seq<Option<Seq<Seq<char>>>>) -> Seq<
    Result<CSVRecordView, DecodeError>,
> {
    Seq::new(rows.len(), |i: int| decoded_row(rows[i]))
}

/// The readings among the outcomes, in their order: every error is left out.
pub open spec fn readings_of(outcomes: Seq<Result<CSVRecordView, DecodeError>>) -> Seq<
    CSVRecordView,
>
    decreases outcomes.len(),
{
    if outcomes.len() == 0 {
        Seq::empty()
    } else {
        match outcomes.last() {
            Ok(record) => readings_of(outcomes.drop_last()).push(record),
            Err(_) => readings_of(outcomes.drop_last()),
        }
    }
}

/// The readings are no more than the outcomes.
pub proof fn lemma_readings_are_no_more(outcomes: Seq<Result<CSVRecordView, DecodeError>>)
    ensures
        readings_of(outcomes).len() <= outcomes.len(),
    decreases outcomes.len(),
{
    if outcomes.len() > 0 {
        lemma_readings_are_no_more(outcomes.drop_last());
    }
}

/// Decodes one record from the text of its time and the text of its amount.
pub fn decode_record(time: &str, amount: &str) -> (outcome: Result<CSVRecord, DecodeError>)
    ensures
        outcome_view(outcome) == decoded_fields(time@, amount@),
{
    match deserialize_datetime(time) {
        Err(error) => Err(error),
        Ok(datetime) => match deserialize_decimal(amount) {
            Err(error) => Err(error),
            Ok(amount) => Ok(CSVRecord { datetime, amount }),
        },
    }
}

/// Decodes one row: its fields, or nothing where the row could not be split.
pub fn decode_row(row: &Option<Vec<String>>) -> (outcome: Result<CSVRecord, DecodeError>)
    ensures
        outcome_view(outcome) == decoded_row(row.deep_view()),
{
    match row {
        Some(fields) => if fields.len() == 2 {
            decode_record(fields[0].as_str(), fields[1].as_str())
        } else {
            Err(DecodeError::MalformedRecord)
        },
        None => Err(DecodeError::MalformedRecord),
    }
}

/// Decodes rows one by one, in their order.
pub fn decode_rows(rows: &Vec<Option<Vec<String>>>) -> (outcomes: Vec<
    Result<CSVRecord, DecodeError>,
>)
    ensures
        outcomes_view(outcomes@) == decoded_rows(rows.deep_view()),
{
    let mut outcomes: Vec<Result<CSVRecord, DecodeError>> = Vec::new();
    let mut at: usize = 0;
    while at < rows.len()
        invariant
            at <= rows.len(),
            outcomes@.len() == at,
            forall|i: int|
                0 <= i < at ==> outcome_view(#[trigger] outcomes@[i]) == decoded_row(
                    rows.deep_view()[i],
                ),
        decreases rows.len() - at,
    {
        let outcome = decode_row(&rows[at]);
        assert(rows.deep_view()[at as int] == rows@[at as int].deep_view());
        outcomes.push(outcome);
        at += 1;
    }
    assert(outcomes_view(outcomes@) =~= decoded_rows(rows.deep_view()));
    outcomes
}

/// Every row of `buffer` after its header line, decoded: a reading, or the
/// reason why the row gave none. A row is a line of two fields, the time and
/// the amount, with a comma between them.
pub fn csv_stream(buffer: &[u8]) -> (outcomes: Vec<Result<CSVRecord, DecodeError>>)
    ensures
        outcomes_view(outcomes@) == decoded_rows(csv_rows(buffer@)),
{
    let rows = split_rows(buffer);
    decode_rows(&rows)
}

/// The readings among the outcomes, in their order. A row that gave an error
/// is passed over; it stops nothing.
pub fn valid_records(outcomes: Vec<Result<CSVRecord, DecodeError>>) -> (readings: Vec<CSVRecord>)
    ensures
        readings_view(readings@) == readings_of(outcomes_view(outcomes@)),
        readings@.len() <= outcomes@.len(),
{
    let ghost all = outcomes_view(outcomes@);
    proof {
        lemma_readings_are_no_more(all);
    }
    let mut readings: Vec<CSVRecord> = Vec::new();
    for outcome in it: outcomes
        invariant
            it.seq() == outcomes@,
            all == outcomes_view(outcomes@),
            readings_view(readings@) == readings_of(all.take(it.index() as int)),
    {
        proof {
            let before = all.take(it.index() as int);
            let after = all.take(it.index() + 1);
            assert(after.drop_last() == before);
            assert(after.last() == outcome_view(outcome));
        }
        match outcome {
            Ok(record) => {
                let ghost before = readings@;
                readings.push(record);
                assert(readings_view(readings@) == readings_view(before).push(record@));
            },
            Err(_) => {},
        }
    }
    assert(all.take(all.len() as int) == all);
    readings
}

} // verus!
