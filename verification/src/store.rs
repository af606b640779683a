//! The tables of the service and their rules, held in memory.
//!
//! Three tables: the batches (one row per seeded source), the points (the
//! readings of the batches) and the history (one row per request for sums).
//! No source is seeded twice, no batch holds two readings of one instant, and
//! every reading belongs to a batch. An insert that would break the first two
//! rules writes nothing and is no error.

use crate::decimal::{Decimal, DecimalValue};
use crate::model::api_request::AggregationKind;
use crate::model::api_response::{AggregationQueryRecord, AggregationQueryRecordView};
use crate::model::database::{QueryHistory, TSMetadata, TSStore, TSStoreView};
use crate::timestamp::{lemma_order_is_total, lemma_order_is_transitive, Timestamp};
use vstd::prelude::*;

verus! {

/// One row of the batches, as the contracts see it.
pub struct BatchView {
    pub ingestion_id: i64,
    pub ingestion_datetime: Timestamp,
    pub source: Seq<char>,
}

/// The rows of the three tables. The history stands in the order of its
/// instants, oldest first; entries of one instant stand in the order in which
/// they came.
pub struct StoreView {
    pub batches: Seq<BatchView>,
    pub points: Seq<TSStoreView>,
    pub history: Seq<QueryHistory>,
}

/// Whether one of `batches` names `source`.
pub open spec fn names_source(batches: Seq<BatchView>, source: Seq<char>) -> bool {
    exists|i: int| 0 <= i < batches.len() && #[trigger] batches[i].source == source
}

/// Whether one of `batches` has the identifier `id`.
pub open spec fn holds_batch(batches: Seq<BatchView>, id: i64) -> bool {
    exists|i: int| 0 <= i < batches.len() && #[trigger] batches[i].ingestion_id == id
}

/// Whether one of `points` is the reading of batch `id` at `datetime`.
pub open spec fn holds_point(points: Seq<TSStoreView>, id: i64, datetime: Timestamp) -> bool {
    exists|i: int|
        0 <= i < points.len() && (#[trigger] points[i]).ingestion_id == id && points[i].datetime
            == datetime
}

/// Whether one of `history` has the identifier `id`.
pub open spec fn holds_entry(history: Seq<QueryHistory>, id: i64) -> bool {
    exists|i: int| 0 <= i < history.len() && #[trigger] history[i].id == id
}

/// The entries stand in the order of their instants, oldest first.
pub open spec fn oldest_first(history: Seq<QueryHistory>) -> bool {
    forall|i: int, j: int|
        0 <= i < j < history.len() ==> (#[trigger] history[i]).executed_at.at_or_before(
            (#[trigger] history[j]).executed_at,
        )
}

/// Where an entry of the instant `executed_at` goes into a history that
/// stands oldest first: behind every entry that is not later than it.
pub open spec fn insertion_point(history: Seq<QueryHistory>, executed_at: Timestamp) -> int
    decreases history.len(),
{
    if history.len() == 0 {
        0
    } else if history.last().executed_at.at_or_before(executed_at) {
        history.len() as int
    } else {
        insertion_point(history.drop_last(), executed_at)
    }
}

/// The `limit` latest entries of a history that stands oldest first, latest
/// first; all of them where there are fewer.
pub open spec fn latest_first(history: Seq<QueryHistory>, limit: nat) -> Seq<QueryHistory> {
    Seq::new(
        if limit <= history.len() {
            limit
        } else {
            history.len()
        },
        |i: int| history[history.len() - 1 - i],
    )
}

/// `points` after `rows` were inserted one by one, each only where no
/// reading of its batch at its instant was there before it.
pub open spec fn with_points(points: Seq<TSStoreView>, rows: Seq<TSStoreView>) -> Seq<TSStoreView>
    decreases rows.len(),
{
    if rows.len() == 0 {
        points
    } else {
        let before = with_points(points, rows.drop_last());
        let row = rows.last();
        if holds_point(before, row.ingestion_id, row.datetime) {
            before
        } else {
            before.push(row)
        }
    }
}

/// The insertion point parts the history: behind it every entry is later
/// than the instant, and the entry before it is not.
pub proof fn lemma_insertion_point(history: Seq<QueryHistory>, executed_at: Timestamp)
    ensures
        0 <= insertion_point(history, executed_at) <= history.len(),
        forall|i: int|
            insertion_point(history, executed_at) <= i < history.len() ==> !(
            #[trigger] history[i]).executed_at.at_or_before(executed_at),
        insertion_point(history, executed_at) > 0 ==> history[insertion_point(
            history,
            executed_at,
        ) - 1].executed_at.at_or_before(executed_at),
    decreases history.len(),
{
    if history.len() > 0 && !history.last().executed_at.at_or_before(executed_at) {
        let rest = history.drop_last();
        lemma_insertion_point(rest, executed_at);
        assert forall|i: int|
            insertion_point(history, executed_at) <= i < history.len() implies !(
        #[trigger] history[i]).executed_at.at_or_before(executed_at) by {
            if i < rest.len() {
                assert(rest[i] == history[i]);
            }
        }
        if insertion_point(history, executed_at) > 0 {
            assert(rest[insertion_point(history, executed_at) - 1] == history[insertion_point(
                history,
                executed_at,
            ) - 1]);
        }
    }
}

/// A history that stands oldest first still does once an entry went in at
/// its insertion point.
pub proof fn lemma_insert_keeps_order(history: Seq<QueryHistory>, entry: QueryHistory)
    requires
        oldest_first(history),
    ensures
        oldest_first(history.insert(insertion_point(history, entry.executed_at), entry)),
{
    lemma_insertion_point(history, entry.executed_at);
    let point = insertion_point(history, entry.executed_at);
    let after = history.insert(point, entry);
    assert forall|i: int, j: int| 0 <= i < j < after.len() implies (
    #[trigger] after[i]).executed_at.at_or_before((#[trigger] after[j]).executed_at) by {
        if j < point {
            assert(after[i] == history[i] && after[j] == history[j]);
        } else if j == point {
            assert(after[i] == history[i]);
            if i < point - 1 {
                assert(history[i].executed_at.at_or_before(history[point - 1].executed_at));
            }
            lemma_order_is_transitive(
                history[i].executed_at,
                history[point - 1].executed_at,
                entry.executed_at,
            );
        } else if i < point {
            assert(after[i] == history[i] && after[j] == history[j - 1]);
        } else if i == point {
            assert(after[j] == history[j - 1]);
            lemma_order_is_total(history[j - 1].executed_at, entry.executed_at);
        } else {
            assert(after[i] == history[i - 1] && after[j] == history[j - 1]);
        }
    }
}

/// Identifiers that differ and lie in a range still do once an entry with an
/// identifier of the range that none has went in.
proof fn lemma_insert_keeps_identifiers(history: Seq<QueryHistory>, entry: QueryHistory, at: int)
    requires
        0 <= at <= history.len(),
        forall|i: int, j: int|
            0 <= i < j < history.len() ==> (#[trigger] history[i]).id != (#[trigger] history[j]).id,
        forall|i: int| 0 <= i < history.len() ==> 1 <= (#[trigger] history[i]).id < entry.id,
        1 <= entry.id,
    ensures
        forall|i: int, j: int|
            0 <= i < j < history.len() + 1 ==> (#[trigger] history.insert(at, entry)[i]).id != (
            #[trigger] history.insert(at, entry)[j]).id,
        forall|i: int|
            0 <= i < history.len() + 1 ==> 1 <= (#[trigger] history.insert(at, entry)[i]).id
                <= entry.id,
{
    let after = history.insert(at, entry);
    assert forall|i: int| 0 <= i < history.len() + 1 implies 1 <= (#[trigger] after[i]).id
        <= entry.id && (i != at ==> after[i].id < entry.id) && (i < at ==> after[i] == history[i])
        && (i > at ==> after[i] == history[i - 1]) by {
        if i < at {
            assert(after[i] == history[i]);
        } else if i > at {
            assert(after[i] == history[i - 1]);
        }
    }
}

/// Whether an instant lies within the bounds; a bound that is absent
/// bounds nothing, and one that is there is met by the instant itself.
pub open spec fn within(datetime: Timestamp, from: Option<Timestamp>, to: Option<Timestamp>) -> bool {
    &&& from matches Some(first) ==> first.at_or_before(datetime)
    &&& to matches Some(last) ==> datetime.at_or_before(last)
}

/// Whether a reading lies within the bounds and in the period of `kind` that
/// starts at `bucket`.
pub open spec fn in_bucket(
    point: TSStoreView,
    kind: AggregationKind,
    from: Option<Timestamp>,
    to: Option<Timestamp>,
    bucket: Timestamp,
) -> bool {
    within(point.datetime, from, to) && point.datetime.truncated(kind) == bucket
}

/// Whether some reading within the bounds lies in the period that starts at
/// `bucket`.
pub open spec fn is_bucket(
    points: Seq<TSStoreView>,
    kind: AggregationKind,
    from: Option<Timestamp>,
    to: Option<Timestamp>,
    bucket: Timestamp,
) -> bool {
    exists|i: int| 0 <= i < points.len() && in_bucket(#[trigger] points[i], kind, from, to, bucket)
}

/// The starts of the periods of `kind` in which a reading within the bounds
/// lies.
pub open spec fn buckets(
    points: Seq<TSStoreView>,
    kind: AggregationKind,
    from: Option<Timestamp>,
    to: Option<Timestamp>,
) -> Set<Timestamp> {
    Set::new(|bucket: Timestamp| is_bucket(points, kind, from, to, bucket))
}

/// The exact sum of the readings within the bounds that lie in the period
/// that starts at `bucket`, added up in the order of the readings.
pub open spec fn bucket_total(
    points: Seq<TSStoreView>,
    kind: AggregationKind,
    from: Option<Timestamp>,
    to: Option<Timestamp>,
    bucket: Timestamp,
) -> DecimalValue
    decreases points.len(),
{
    if points.len() == 0 {
        DecimalValue::zero()
    } else {
        let rest = bucket_total(points.drop_last(), kind, from, to, bucket);
        if in_bucket(points.last(), kind, from, to, bucket) {
            rest.plus(points.last().amount)
        } else {
            rest
        }
    }
}

/// What a run of groups stands for.
pub open spec fn records_view(records: Seq<AggregationQueryRecord>) -> Seq<
    AggregationQueryRecordView,
> {
    Seq::new(records.len(), |i: int| records[i]@)
}

/// Whether `records` are the groups of `points` by `kind` within the bounds:
/// one group for each period in which a reading within the bounds lies, none
/// for any other, each with the sum of its readings. The order of the groups
/// is left open.
pub open spec fn is_aggregate_of(
    records: Seq<AggregationQueryRecordView>,
    points: Seq<TSStoreView>,
    kind: AggregationKind,
    from: Option<Timestamp>,
    to: Option<Timestamp>,
) -> bool {
    &&& forall|i: int|
        0 <= i < records.len() ==> is_bucket(points, kind, from, to, (#[trigger] records[i]).datetime)
            && records[i].total_amount == Some(
            bucket_total(points, kind, from, to, records[i].datetime),
        )
    &&& forall|i: int, j: int|
        0 <= i < j < records.len() ==> (#[trigger] records[i]).datetime != (
        #[trigger] records[j]).datetime
    &&& forall|k: int|
        0 <= k < points.len() && within((#[trigger] points[k]).datetime, from, to) ==> exists|
            i: int,
        |
            0 <= i < records.len() && (#[trigger] records[i]).datetime
                == points[k].datetime.truncated(kind)
}

/// Only finitely many periods hold a reading.
pub proof fn lemma_buckets_are_finite(
    points: Seq<TSStoreView>,
    kind: AggregationKind,
    from: Option<Timestamp>,
    to: Option<Timestamp>,
)
    ensures
        buckets(points, kind, from, to).finite(),
    decreases points.len(),
{
    let all = buckets(points, kind, from, to);
    if points.len() == 0 {
        assert(all =~= Set::<Timestamp>::empty());
    } else {
        let rest = points.drop_last();
        let last = points.last();
        let fewer = buckets(rest, kind, from, to);
        lemma_buckets_are_finite(rest, kind, from, to);
        let start = last.datetime.truncated(kind);
        assert forall|bucket: Timestamp| all.contains(bucket) implies fewer.insert(start).contains(
            bucket,
        ) by {
            let k = choose|k: int|
                0 <= k < points.len() && in_bucket(#[trigger] points[k], kind, from, to, bucket);
            if k < rest.len() {
                assert(rest[k] == points[k]);
            }
        }
        assert(all.subset_of(fewer.insert(start)));
        vstd::set_lib::lemma_len_subset(all, fewer.insert(start));
    }
}

/// Groups of readings are as many as the periods that hold a reading.
pub proof fn lemma_groups_are_the_buckets(
    records: Seq<AggregationQueryRecordView>,
    points: Seq<TSStoreView>,
    kind: AggregationKind,
    from: Option<Timestamp>,
    to: Option<Timestamp>,
)
    requires
        is_aggregate_of(records, points, kind, from, to),
    ensures
        records.len() == buckets(points, kind, from, to).len(),
        forall|i: int|
            0 <= i < records.len() ==> buckets(points, kind, from, to).contains(
                (#[trigger] records[i]).datetime,
            ),
{
    let starts = Seq::new(records.len(), |i: int| records[i].datetime);
    assert(starts.no_duplicates());
    starts.unique_seq_to_set();
    assert forall|bucket: Timestamp| starts.to_set().contains(bucket) == buckets(
        points,
        kind,
        from,
        to,
    ).contains(bucket) by {
        if starts.contains(bucket) {
            let i = choose|i: int| 0 <= i < starts.len() && starts[i] == bucket;
            assert(records[i].datetime == bucket);
        }
        if is_bucket(points, kind, from, to, bucket) {
            let k = choose|k: int|
                0 <= k < points.len() && in_bucket(#[trigger] points[k], kind, from, to, bucket);
            let i = choose|i: int|
                0 <= i < records.len() && (#[trigger] records[i]).datetime
                    == points[k].datetime.truncated(kind);
            assert(starts[i] == bucket);
        }
    }
    assert(starts.to_set() =~= buckets(points, kind, from, to));
}

/// Bounds take groups away and add none: every group of the readings within
/// bounds is a group of all the readings, so the bounded answer is never the
/// longer one.
pub proof fn lemma_bounds_take_groups_away(
    bounded: Seq<AggregationQueryRecordView>,
    unbounded: Seq<AggregationQueryRecordView>,
    points: Seq<TSStoreView>,
    kind: AggregationKind,
    from: Option<Timestamp>,
    to: Option<Timestamp>,
)
    requires
        is_aggregate_of(bounded, points, kind, from, to),
        is_aggregate_of(unbounded, points, kind, None, None),
    ensures
        bounded.len() <= unbounded.len(),
        forall|i: int|
            0 <= i < bounded.len() ==> exists|j: int|
                0 <= j < unbounded.len() && (#[trigger] unbounded[j]).datetime == (
                #[trigger] bounded[i]).datetime,
{
    let inner = buckets(points, kind, from, to);
    let outer = buckets(points, kind, None, None);
    lemma_groups_are_the_buckets(bounded, points, kind, from, to);
    lemma_groups_are_the_buckets(unbounded, points, kind, None, None);
    lemma_buckets_are_finite(points, kind, None, None);
    assert forall|bucket: Timestamp| inner.contains(bucket) implies outer.contains(bucket) by {
        let k = choose|k: int|
            0 <= k < points.len() && in_bucket(#[trigger] points[k], kind, from, to, bucket);
        assert(in_bucket(points[k], kind, None, None, bucket));
    }
    assert(inner.subset_of(outer));
    vstd::set_lib::lemma_len_subset(inner, outer);
    assert forall|i: int| 0 <= i < bounded.len() implies exists|j: int|
        0 <= j < unbounded.len() && (#[trigger] unbounded[j]).datetime == (
        #[trigger] bounded[i]).datetime by {
        let k = choose|k: int|
            0 <= k < points.len() && in_bucket(
                #[trigger] points[k],
                kind,
                from,
                to,
                bounded[i].datetime,
            );
        assert(within(points[k].datetime, None, None));
        let j = choose|j: int|
            0 <= j < unbounded.len() && (#[trigger] unbounded[j]).datetime
                == points[k].datetime.truncated(kind);
        assert(unbounded[j].datetime == bounded[i].datetime);
    }
}

/// The latest entries come latest first and are never more than the limit.
pub proof fn lemma_latest_first_is_ordered(history: Seq<QueryHistory>, limit: nat)
    requires
        oldest_first(history),
    ensures
        latest_first(history, limit).len() <= limit,
        latest_first(history, limit).len() <= history.len(),
        latest_first(history, limit).len() == limit || latest_first(history, limit).len()
            == history.len(),
        forall|i: int, j: int|
            0 <= i < j < latest_first(history, limit).len() ==> (#[trigger] latest_first(
                history,
                limit,
            )[j]).executed_at.at_or_before((#[trigger] latest_first(history, limit)[i]).executed_at),
{
    let listed = latest_first(history, limit);
    assert forall|i: int, j: int| 0 <= i < j < listed.len() implies (
    #[trigger] listed[j]).executed_at.at_or_before((#[trigger] listed[i]).executed_at) by {
        let older = history[history.len() - 1 - j];
        let newer = history[history.len() - 1 - i];
        assert(older.executed_at.at_or_before(newer.executed_at));
    }
}

/// An entry that is not earlier than any entry before it is listed first
/// once it went in.
pub proof fn lemma_last_request_is_listed_first(
    history: Seq<QueryHistory>,
    entry: QueryHistory,
    limit: nat,
)
    requires
        limit > 0,
        forall|i: int|
            0 <= i < history.len() ==> (#[trigger] history[i]).executed_at.at_or_before(
                entry.executed_at,
            ),
    ensures
        latest_first(
            history.insert(insertion_point(history, entry.executed_at), entry),
            limit,
        ).len() > 0,
        latest_first(history.insert(insertion_point(history, entry.executed_at), entry), limit)[0]
            == entry,
{
    lemma_insertion_point(history, entry.executed_at);
    let point = insertion_point(history, entry.executed_at);
    if point < history.len() {
        assert(history[point].executed_at.at_or_before(entry.executed_at));
    }
}

/// What a run of readings stands for.
pub open spec fn rows_view(rows: Seq<TSStore>) -> Seq<TSStoreView> {
    Seq::new(rows.len(), |i: int| rows[i]@)
}

/// Whether each of `rows` belongs to one of `batches`.
pub open spec fn all_in_batches(batches: Seq<BatchView>, rows: Seq<TSStoreView>) -> bool {
    forall|i: int| 0 <= i < rows.len() ==> holds_batch(batches, (#[trigger] rows[i]).ingestion_id)
}

impl StoreView {
    /// The rules of the tables.
    pub open spec fn consistent(self) -> bool {
        &&& forall|i: int, j: int|
            0 <= i < j < self.batches.len() ==> (#[trigger] self.batches[i]).source != (
            #[trigger] self.batches[j]).source && self.batches[i].ingestion_id
                != self.batches[j].ingestion_id
        &&& forall|i: int, j: int|
            0 <= i < j < self.points.len() ==> !((#[trigger] self.points[i]).ingestion_id == (
            #[trigger] self.points[j]).ingestion_id && self.points[i].datetime
                == self.points[j].datetime)
        &&& forall|i: int|
            0 <= i < self.points.len() ==> holds_batch(
                self.batches,
                (#[trigger] self.points[i]).ingestion_id,
            )
        &&& forall|i: int, j: int|
            0 <= i < j < self.history.len() ==> (#[trigger] self.history[i]).id != (
            #[trigger] self.history[j]).id
        &&& oldest_first(self.history)
    }
}

/// Whether `starts` and `totals` group `points`: `starts` are the periods in
/// which a reading within the bounds lies, each once, and `totals` their sums.
spec fn is_grouping_of(
    starts: Seq<Timestamp>,
    totals: Seq<Decimal>,
    points: Seq<TSStoreView>,
    kind: AggregationKind,
    from: Option<Timestamp>,
    to: Option<Timestamp>,
) -> bool {
    &&& starts.len() == totals.len()
    &&& forall|i: int|
        0 <= i < starts.len() ==> is_bucket(points, kind, from, to, #[trigger] starts[i])
            && totals[i]@ == bucket_total(points, kind, from, to, starts[i])
    &&& forall|i: int, j: int| 0 <= i < j < starts.len() ==> #[trigger] starts[i] != #[trigger] starts[j]
    &&& forall|k: int|
        0 <= k < points.len() && within((#[trigger] points[k]).datetime, from, to) ==> exists|
            i: int,
        |
            0 <= i < starts.len() && #[trigger] starts[i] == points[k].datetime.truncated(kind)
}

/// A reading outside the bounds changes no group.
proof fn lemma_grouping_passes(
    starts: Seq<Timestamp>,
    totals: Seq<Decimal>,
    points: Seq<TSStoreView>,
    point: TSStoreView,
    kind: AggregationKind,
    from: Option<Timestamp>,
    to: Option<Timestamp>,
)
    requires
        is_grouping_of(starts, totals, points, kind, from, to),
        !within(point.datetime, from, to),
    ensures
        is_grouping_of(starts, totals, points.push(point), kind, from, to),
{
    let more = points.push(point);
    assert(more.drop_last() == points);
    assert forall|i: int| 0 <= i < starts.len() implies is_bucket(
        more,
        kind,
        from,
        to,
        #[trigger] starts[i],
    ) by {
        let k = choose|k: int|
            0 <= k < points.len() && in_bucket(#[trigger] points[k], kind, from, to, starts[i]);
        assert(more[k] == points[k]);
    }
    assert forall|k: int|
        0 <= k < more.len() && within((#[trigger] more[k]).datetime, from, to) implies exists|
        i: int,
    |
        0 <= i < starts.len() && #[trigger] starts[i] == more[k].datetime.truncated(kind) by {
        assert(more[k] == points[k]);
    }
}

/// A reading within the bounds whose period has a group adds to that group
/// and changes no other.
proof fn lemma_grouping_grows(
    starts: Seq<Timestamp>,
    before: Seq<Decimal>,
    after: Seq<Decimal>,
    points: Seq<TSStoreView>,
    point: TSStoreView,
    kind: AggregationKind,
    from: Option<Timestamp>,
    to: Option<Timestamp>,
    found: int,
)
    requires
        is_grouping_of(starts, before, points, kind, from, to),
        within(point.datetime, from, to),
        0 <= found < starts.len(),
        starts[found] == point.datetime.truncated(kind),
        after.len() == before.len(),
        forall|i: int| 0 <= i < before.len() && i != found ==> after[i] == before[i],
        after[found]@ == before[found]@.plus(point.amount),
    ensures
        is_grouping_of(starts, after, points.push(point), kind, from, to),
{
    let more = points.push(point);
    assert(more.drop_last() == points);
    assert forall|i: int| 0 <= i < starts.len() implies is_bucket(
        more,
        kind,
        from,
        to,
        #[trigger] starts[i],
    ) && after[i]@ == bucket_total(more, kind, from, to, starts[i]) by {
        let k = choose|k: int|
            0 <= k < points.len() && in_bucket(#[trigger] points[k], kind, from, to, starts[i]);
        assert(more[k] == points[k]);
    }
    assert forall|k: int|
        0 <= k < more.len() && within((#[trigger] more[k]).datetime, from, to) implies exists|
        i: int,
    |
        0 <= i < starts.len() && #[trigger] starts[i] == more[k].datetime.truncated(kind) by {
        if k < points.len() {
            assert(more[k] == points[k]);
        } else {
            assert(starts[found] == more[k].datetime.truncated(kind));
        }
    }
}

/// A reading within the bounds whose period has no group opens one, with
/// the reading as its sum, and changes no other.
proof fn lemma_grouping_opens(
    starts: Seq<Timestamp>,
    totals: Seq<Decimal>,
    total: Decimal,
    points: Seq<TSStoreView>,
    point: TSStoreView,
    kind: AggregationKind,
    from: Option<Timestamp>,
    to: Option<Timestamp>,
)
    requires
        is_grouping_of(starts, totals, points, kind, from, to),
        within(point.datetime, from, to),
        forall|i: int| 0 <= i < starts.len() ==> #[trigger] starts[i] != point.datetime.truncated(kind),
        total@ == DecimalValue::zero().plus(point.amount),
    ensures
        is_grouping_of(
            starts.push(point.datetime.truncated(kind)),
            totals.push(total),
            points.push(point),
            kind,
            from,
            to,
        ),
{
    let start = point.datetime.truncated(kind);
    let more = points.push(point);
    let more_starts = starts.push(start);
    let more_totals = totals.push(total);
    assert(more.drop_last() == points);
    lemma_no_reading_no_total(points, kind, from, to, start);
    assert forall|i: int| 0 <= i < more_starts.len() implies is_bucket(
        more,
        kind,
        from,
        to,
        #[trigger] more_starts[i],
    ) && more_totals[i]@ == bucket_total(more, kind, from, to, more_starts[i]) by {
        if i < starts.len() {
            let k = choose|k: int|
                0 <= k < points.len() && in_bucket(#[trigger] points[k], kind, from, to, starts[i]);
            assert(more[k] == points[k]);
            assert(more_starts[i] == starts[i]);
            assert(more_totals[i] == totals[i]);
        } else {
            assert(in_bucket(more[points.len() as int], kind, from, to, start));
        }
    }
    assert forall|k: int|
        0 <= k < more.len() && within((#[trigger] more[k]).datetime, from, to) implies exists|
        i: int,
    |
        0 <= i < more_starts.len() && #[trigger] more_starts[i] == more[k].datetime.truncated(
            kind,
        ) by {
        if k < points.len() {
            assert(more[k] == points[k]);
            let i = choose|i: int|
                0 <= i < starts.len() && #[trigger] starts[i] == points[k].datetime.truncated(kind);
            assert(more_starts[i] == starts[i]);
        } else {
            assert(more_starts[starts.len() as int] == start);
        }
    }
}

/// A period in which no reading lies has the sum zero.
proof fn lemma_no_reading_no_total(
    points: Seq<TSStoreView>,
    kind: AggregationKind,
    from: Option<Timestamp>,
    to: Option<Timestamp>,
    bucket: Timestamp,
)
    requires
        forall|k: int|
            0 <= k < points.len() && within((#[trigger] points[k]).datetime, from, to)
                ==> points[k].datetime.truncated(kind) != bucket,
    ensures
        bucket_total(points, kind, from, to, bucket) == DecimalValue::zero(),
    decreases points.len(),
{
    if points.len() > 0 {
        let rest = points.drop_last();
        assert forall|k: int|
            0 <= k < rest.len() && within(
                (#[trigger] rest[k]).datetime,
                from,
                to,
            ) implies rest[k].datetime.truncated(kind) != bucket by {
            assert(rest[k] == points[k]);
        }
        lemma_no_reading_no_total(rest, kind, from, to, bucket);
        assert(points.last() == points[points.len() - 1]);
    }
}

/// Where `start` stands in `starts`; their length where it is not there.
fn position_of(starts: &Vec<Timestamp>, start: &Timestamp) -> (found: usize)
    ensures
        found <= starts.len(),
        found < starts.len() ==> starts@[found as int] == *start,
        found == starts.len() ==> forall|i: int| 0 <= i < starts.len() ==> #[trigger] starts@[i] != *start,
{
    let mut at: usize = 0;
    while at < starts.len()
        invariant
            at <= starts.len(),
            forall|i: int| 0 <= i < at ==> #[trigger] starts@[i] != *start,
        decreases starts.len() - at,
    {
        if starts[at] == *start {
            return at;
        }
        at += 1;
    }
    at
}

/// Why the store refused a write.
#[derive(Debug, PartialEq, Eq, Structural, Clone, Copy)]
pub enum StoreFailure {
    /// No identifier is left to give to a new row.
    IdentifiersExhausted,
    /// A reading names a batch that is not there.
    UnknownBatch,
}

struct Batch {
    ingestion_id: i64,
    metadata: TSMetadata,
}

/// The three tables, with the counters from which new rows get their
/// identifiers. Identifiers start at 1 and are never given twice.
pub struct Store {
    batches: Vec<Batch>,
    points: Vec<TSStore>,
    history: Vec<QueryHistory>,
    next_ingestion_id: i64,
    next_history_id: i64,
}

impl View for Store {
    type V = StoreView;

    closed spec fn view(&self) -> StoreView {
        StoreView {
            batches: Seq::new(
                self.batches@.len(),
                |i: int|
                    BatchView {
                        ingestion_id: self.batches@[i].ingestion_id,
                        ingestion_datetime: self.batches@[i].metadata.ingestion_datetime,
                        source: self.batches@[i].metadata.source@,
                    },
            ),
            points: Seq::new(self.points@.len(), |i: int| self.points@[i]@),
            history: self.history@,
        }
    }
}

impl Store {
    /// How many batches can still be given an identifier.
    pub closed spec fn batches_left(&self) -> nat {
        (i64::MAX - self.next_ingestion_id) as nat
    }

    /// How many entries of the history can still be given an identifier.
    pub closed spec fn entries_left(&self) -> nat {
        (i64::MAX - self.next_history_id) as nat
    }

    /// The counters stand above every identifier given so far.
    pub closed spec fn counters_ahead(&self) -> bool {
        &&& 1 <= self.next_ingestion_id
        &&& 1 <= self.next_history_id
        &&& forall|i: int|
            0 <= i < self.batches@.len() ==> 1 <= (#[trigger] self.batches@[i]).ingestion_id
                < self.next_ingestion_id
        &&& forall|i: int|
            0 <= i < self.history@.len() ==> 1 <= (#[trigger] self.history@[i]).id
                < self.next_history_id
    }

    /// The tables keep their rules.
    pub open spec fn well_formed(&self) -> bool {
        self@.consistent() && self.counters_ahead()
    }

    /// A store with no rows.
    pub fn new() -> (store: Store)
        ensures
            store.well_formed(),
            store@.batches.len() == 0,
            store@.points.len() == 0,
            store@.history.len() == 0,
            store.batches_left() == i64::MAX - 1,
            store.entries_left() == i64::MAX - 1,
    {
        Store {
            batches: Vec::new(),
            points: Vec::new(),
            history: Vec::new(),
            next_ingestion_id: 1,
            next_history_id: 1,
        }
    }

    /// A store with no rows whose identifiers start at the given numbers;
    /// none where one of them is below 1.
    pub fn starting_at(first_ingestion_id: i64, first_history_id: i64) -> (made: Option<Store>)
        ensures
            made is Some <==> first_ingestion_id >= 1 && first_history_id >= 1,
            made matches Some(store) ==> {
                &&& store.well_formed()
                &&& store@.batches.len() == 0
                &&& store@.points.len() == 0
                &&& store@.history.len() == 0
                &&& store.batches_left() == i64::MAX - first_ingestion_id
                &&& store.entries_left() == i64::MAX - first_history_id
            },
    {
        if first_ingestion_id < 1 || first_history_id < 1 {
            return None;
        }
        Some(
            Store {
                batches: Vec::new(),
                points: Vec::new(),
                history: Vec::new(),
                next_ingestion_id: first_ingestion_id,
                next_history_id: first_history_id,
            },
        )
    }

    /// Whether a batch names `source`.
    pub fn has_source(&self, source: &str) -> (found: bool)
        ensures
            found == names_source(self@.batches, source@),
    {
        let wanted = source.to_owned();
        let mut at: usize = 0;
        while at < self.batches.len()
            invariant
                at <= self.batches.len(),
                wanted@ == source@,
                forall|i: int| 0 <= i < at ==> (#[trigger] self@.batches[i]).source != source@,
            decreases self.batches.len() - at,
        {
            if self.batches[at].metadata.source == wanted {
                assert(self@.batches[at as int].source == source@);
                return true;
            }
            at += 1;
        }
        false
    }

    /// Whether a batch has the identifier `id`.
    pub fn has_batch(&self, id: i64) -> (found: bool)
        ensures
            found == holds_batch(self@.batches, id),
    {
        let mut at: usize = 0;
        while at < self.batches.len()
            invariant
                at <= self.batches.len(),
                forall|i: int| 0 <= i < at ==> (#[trigger] self@.batches[i]).ingestion_id != id,
            decreases self.batches.len() - at,
        {
            if self.batches[at].ingestion_id == id {
                assert(self@.batches[at as int].ingestion_id == id);
                return true;
            }
            at += 1;
        }
        false
    }

    /// Whether the reading of batch `id` at `datetime` is there.
    pub fn has_point(&self, id: i64, datetime: Timestamp) -> (found: bool)
        ensures
            found == holds_point(self@.points, id, datetime),
    {
        let mut at: usize = 0;
        while at < self.points.len()
            invariant
                at <= self.points.len(),
                forall|i: int|
                    0 <= i < at ==> !((#[trigger] self@.points[i]).ingestion_id == id
                        && self@.points[i].datetime == datetime),
            decreases self.points.len() - at,
        {
            if self.points[at].ingestion_id == id && self.points[at].datetime == datetime {
                assert(self@.points[at as int].ingestion_id == id && self@.points[at as int].datetime
                    == datetime);
                return true;
            }
            at += 1;
        }
        false
    }

    /// Inserts the row of a source unless the source has one, and gives back
    /// the identifier of the new row. A source that has a row is no error:
    /// nothing is written and no identifier comes back.
    pub fn insert_metadata(&mut self, row: TSMetadata) -> (outcome: Result<Option<i64>, StoreFailure>)
        requires
            old(self).well_formed(),
        ensures
            final(self).well_formed(),
            final(self)@.points == old(self)@.points,
            final(self)@.history == old(self)@.history,
            final(self).entries_left() == old(self).entries_left(),
            match outcome {
                Ok(Some(id)) => {
                    &&& !names_source(old(self)@.batches, row.source@)
                    &&& old(self).batches_left() > 0
                    &&& final(self).batches_left() == old(self).batches_left() - 1
                    &&& !holds_batch(old(self)@.batches, id)
                    &&& final(self)@.batches == old(self)@.batches.push(
                        BatchView {
                            ingestion_id: id,
                            ingestion_datetime: row.ingestion_datetime,
                            source: row.source@,
                        },
                    )
                },
                Ok(None) => {
                    &&& names_source(old(self)@.batches, row.source@)
                    &&& final(self)@ == old(self)@
                    &&& final(self).batches_left() == old(self).batches_left()
                },
                Err(failure) => {
                    &&& failure == StoreFailure::IdentifiersExhausted
                    &&& !names_source(old(self)@.batches, row.source@)
                    &&& old(self).batches_left() == 0
                    &&& final(self)@ == old(self)@
                    &&& final(self).batches_left() == old(self).batches_left()
                },
            },
    {
        if self.has_source(row.source.as_str()) {
            return Ok(None);
        }
        if self.next_ingestion_id == i64::MAX {
            return Err(StoreFailure::IdentifiersExhausted);
        }
        let id = self.next_ingestion_id;
        let ghost before = self@;
        let ghost added = BatchView {
            ingestion_id: id,
            ingestion_datetime: row.ingestion_datetime,
            source: row.source@,
        };
        self.next_ingestion_id = id + 1;
        self.batches.push(Batch { ingestion_id: id, metadata: row });
        proof {
            assert(self@.batches == before.batches.push(added));
            assert(self@.points == before.points);
            assert forall|i: int| 0 <= i < self@.points.len() implies holds_batch(
                self@.batches,
                (#[trigger] self@.points[i]).ingestion_id,
            ) by {
                let at = choose|k: int|
                    0 <= k < before.batches.len() && #[trigger] before.batches[k].ingestion_id
                        == before.points[i].ingestion_id;
                assert(self@.batches[at].ingestion_id == self@.points[i].ingestion_id);
            }
            if holds_batch(before.batches, id) {
                let at = choose|k: int|
                    0 <= k < before.batches.len() && #[trigger] before.batches[k].ingestion_id
                        == id;
                assert(old(self).batches@[at].ingestion_id == id);
            }
        }
        Ok(Some(id))
    }
    /// Inserts readings one by one, each unless its batch has a reading of
    /// its instant already: such a reading is passed over and is no error.
    /// Gives back how many were written. Where a reading names a batch that
    /// is not there, nothing is written at all.
    pub fn insert_points(&mut self, rows: Vec<TSStore>) -> (outcome: Result<usize, StoreFailure>)
        requires
            old(self).well_formed(),
        ensures
            final(self).well_formed(),
            final(self)@.batches == old(self)@.batches,
            final(self)@.history == old(self)@.history,
            final(self).batches_left() == old(self).batches_left(),
            final(self).entries_left() == old(self).entries_left(),
            match outcome {
                Ok(written) => {
                    &&& all_in_batches(old(self)@.batches, rows_view(rows@))
                    &&& final(self)@.points == with_points(old(self)@.points, rows_view(rows@))
                    &&& written == final(self)@.points.len() - old(self)@.points.len()
                },
                Err(failure) => {
                    &&& failure == StoreFailure::UnknownBatch
                    &&& !all_in_batches(old(self)@.batches, rows_view(rows@))
                    &&& final(self)@ == old(self)@
                },
            },
    {
        let mut checked: usize = 0;
        while checked < rows.len()
            invariant
                checked <= rows.len(),
                *self == *old(self),
                self.well_formed(),
                forall|i: int|
                    0 <= i < checked ==> holds_batch(
                        self@.batches,
                        (#[trigger] rows_view(rows@)[i]).ingestion_id,
                    ),
            decreases rows.len() - checked,
        {
            if !self.has_batch(rows[checked].ingestion_id) {
                assert(rows_view(rows@)[checked as int].ingestion_id == rows@[checked as int].ingestion_id);
                return Err(StoreFailure::UnknownBatch);
            }
            assert(rows_view(rows@)[checked as int].ingestion_id == rows@[checked as int].ingestion_id);
            checked += 1;
        }
        let ghost all = rows_view(rows@);
        let ghost start = self@;
        let mut written: usize = 0;
        for row in it: rows
            invariant
                it.seq() == rows@,
                all == rows_view(rows@),
                all_in_batches(start.batches, all),
                self.well_formed(),
                self@.batches == start.batches,
                self@.history == start.history,
                self.batches_left() == old(self).batches_left(),
                self.entries_left() == old(self).entries_left(),
                self@.points == with_points(start.points, all.take(it.index() as int)),
                written == self@.points.len() - start.points.len(),
                written <= it.index() <= rows@.len() <= usize::MAX,
        {
            assert(it.index() < rows@.len());
            proof {
                let before = all.take(it.index() as int);
                let after = all.take(it.index() + 1);
                assert(after.drop_last() == before);
                assert(after.last() == row@);
                assert(all[it.index() as int] == row@);
            }
            if !self.has_point(row.ingestion_id, row.datetime) {
                let ghost before = self@;
                self.points.push(row);
                proof {
                    assert(self@.points == before.points.push(row@));
                    assert(self@.batches == before.batches);
                    assert forall|i: int, j: int| 0 <= i < j < self@.points.len() implies !((
                    #[trigger] self@.points[i]).ingestion_id == (#[trigger] self@.points[j]).ingestion_id
                        && self@.points[i].datetime == self@.points[j].datetime) by {
                        if j == before.points.len() {
                            assert(before.points[i] == self@.points[i]);
                        } else {
                            assert(before.points[i] == self@.points[i]);
                            assert(before.points[j] == self@.points[j]);
                        }
                    }
                    assert forall|i: int| 0 <= i < self@.points.len() implies holds_batch(
                        self@.batches,
                        (#[trigger] self@.points[i]).ingestion_id,
                    ) by {
                        if i < before.points.len() {
                            assert(before.points[i] == self@.points[i]);
                        }
                    }
                }
                written += 1;
            }
        }
        assert(all.take(all.len() as int) == all);
        Ok(written)
    }

    /// Inserts an entry of the history and gives back the identifier it got;
    /// the identifier that `entry` brings is not used. The entry goes behind
    /// every entry that is not later than it.
    pub fn insert_history(&mut self, entry: QueryHistory) -> (outcome: Result<i64, StoreFailure>)
        requires
            old(self).well_formed(),
        ensures
            final(self).well_formed(),
            final(self)@.batches == old(self)@.batches,
            final(self)@.points == old(self)@.points,
            final(self).batches_left() == old(self).batches_left(),
            match outcome {
                Ok(id) => {
                    &&& old(self).entries_left() > 0
                    &&& final(self).entries_left() == old(self).entries_left() - 1
                    &&& !holds_entry(old(self)@.history, id)
                    &&& final(self)@.history == old(self)@.history.insert(
                        insertion_point(old(self)@.history, entry.executed_at),
                        QueryHistory { id, ..entry },
                    )
                },
                Err(failure) => {
                    &&& failure == StoreFailure::IdentifiersExhausted
                    &&& old(self).entries_left() == 0
                    &&& final(self).entries_left() == 0
                    &&& final(self)@ == old(self)@
                },
            },
    {
        if self.next_history_id == i64::MAX {
            return Err(StoreFailure::IdentifiersExhausted);
        }
        let id = self.next_history_id;
        let stamped = QueryHistory { id, ..entry };
        let ghost start = self@;
        let ghost before = self.history@;
        let mut at: usize = self.history.len();
        while at > 0 && !self.history[at - 1].executed_at.is_at_or_before(&entry.executed_at)
            invariant
                at <= self.history.len(),
                self.history@ == before,
                forall|i: int|
                    at <= i < before.len() ==> !(#[trigger] before[i]).executed_at.at_or_before(
                        entry.executed_at,
                    ),
            decreases at,
        {
            at -= 1;
        }
        proof {
            lemma_insertion_point(before, entry.executed_at);
            let point = insertion_point(before, entry.executed_at);
            if at < point {
                assert(!before[point - 1].executed_at.at_or_before(entry.executed_at));
            }
            if point < at {
                assert(!before[at - 1].executed_at.at_or_before(entry.executed_at));
            }
            lemma_insert_keeps_order(before, stamped);
            lemma_insert_keeps_identifiers(before, stamped, at as int);
        }
        self.next_history_id = id + 1;
        self.history.insert(at, stamped);
        proof {
            assert(self@.batches == start.batches);
            assert(self@.points == start.points);
            if holds_entry(before, id) {
                let found = choose|k: int| 0 <= k < before.len() && #[trigger] before[k].id == id;
                assert(old(self).history@[found].id == id);
            }
        }
        Ok(id)
    }

    /// Whether `datetime` lies within the bounds.
    pub fn is_within(datetime: &Timestamp, from: &Option<Timestamp>, to: &Option<Timestamp>) -> (inside:
        bool)
        ensures
            inside == within(*datetime, *from, *to),
    {
        let after_from = match from {
            Some(first) => first.is_at_or_before(datetime),
            None => true,
        };
        let before_to = match to {
            Some(last) => datetime.is_at_or_before(last),
            None => true,
        };
        after_from && before_to
    }

    /// The sums of the readings within the bounds, one for each period of
    /// `kind` in which one of them lies. A period without a reading gets no
    /// group, and every group has a sum.
    pub fn aggregate(
        &self,
        kind: AggregationKind,
        from: Option<Timestamp>,
        to: Option<Timestamp>,
    ) -> (records: Vec<AggregationQueryRecord>)
        ensures
            is_aggregate_of(records_view(records@), self@.points, kind, from, to),
    {
        let ghost points = self@.points;
        let mut starts: Vec<Timestamp> = Vec::new();
        let mut totals: Vec<Decimal> = Vec::new();
        let mut at: usize = 0;
        while at < self.points.len()
            invariant
                at <= self.points.len(),
                points == self@.points,
                points.len() == self.points.len(),
                is_grouping_of(starts@, totals@, points.take(at as int), kind, from, to),
            decreases self.points.len() - at,
        {
            let point = &self.points[at];
            proof {
                assert(points[at as int] == point@);
                assert(points.take(at + 1) == points.take(at as int).push(point@));
            }
            if Self::is_within(&point.datetime, &from, &to) {
                let start = point.datetime.truncate(kind);
                let found = position_of(&starts, &start);
                if found < starts.len() {
                    let total = totals[found].add(&point.amount);
                    let ghost before = totals@;
                    totals.set(found, total);
                    proof {
                        lemma_grouping_grows(
                            starts@,
                            before,
                            totals@,
                            points.take(at as int),
                            point@,
                            kind,
                            from,
                            to,
                            found as int,
                        );
                    }
                } else {
                    let total = Decimal::zero().add(&point.amount);
                    let ghost starts_before = starts@;
                    let ghost totals_before = totals@;
                    starts.push(start);
                    totals.push(total);
                    proof {
                        lemma_grouping_opens(
                            starts_before,
                            totals_before,
                            total,
                            points.take(at as int),
                            point@,
                            kind,
                            from,
                            to,
                        );
                    }
                }
            } else {
                proof {
                    lemma_grouping_passes(
                        starts@,
                        totals@,
                        points.take(at as int),
                        point@,
                        kind,
                        from,
                        to,
                    );
                }
            }
            at += 1;
        }
        assert(points.take(at as int) == points);
        assert(totals@.len() == totals.len());
        let mut records: Vec<AggregationQueryRecord> = Vec::new();
        let mut done: usize = 0;
        for total in it: totals
            invariant
                it.seq() == totals@,
                starts@.len() == totals@.len(),
                totals@.len() <= usize::MAX,
                done == it.index(),
                records@.len() == done,
                forall|i: int|
                    0 <= i < done ==> (#[trigger] records@[i])@ == (AggregationQueryRecordView {
                        datetime: starts@[i],
                        total_amount: Some(totals@[i]@),
                    }),
        {
            records.push(AggregationQueryRecord { datetime: starts[done], total_amount: Some(total) });
            done += 1;
        }
        proof {
            let views = records_view(records@);
            assert forall|i: int| 0 <= i < views.len() implies (#[trigger] views[i]).datetime
                == starts@[i] && views[i].total_amount == Some(totals@[i]@) by {
                assert(views[i] == records@[i]@);
            }
            assert forall|k: int|
                0 <= k < points.len() && within(
                    (#[trigger] points[k]).datetime,
                    from,
                    to,
                ) implies exists|i: int|
                0 <= i < views.len() && (#[trigger] views[i]).datetime
                    == points[k].datetime.truncated(kind) by {
                let i = choose|i: int|
                    0 <= i < starts@.len() && #[trigger] starts@[i] == points[k].datetime.truncated(
                        kind,
                    );
                assert(views[i].datetime == starts@[i]);
            }
        }
        records
    }

    /// The `limit` latest entries of the history, latest first; all of them
    /// where there are fewer.
    pub fn recent_history(&self, limit: usize) -> (entries: Vec<QueryHistory>)
        ensures
            entries@ == latest_first(self@.history, limit as nat),
    {
        let count = if limit <= self.history.len() {
            limit
        } else {
            self.history.len()
        };
        let mut entries: Vec<QueryHistory> = Vec::new();
        let mut at: usize = 0;
        while at < count
            invariant
                at <= count <= self.history.len(),
                entries@.len() == at,
                forall|i: int|
                    0 <= i < at ==> entries@[i] == self.history@[self.history@.len() - 1 - i],
            decreases count - at,
        {
            entries.push(self.history[self.history.len() - 1 - at]);
            at += 1;
        }
        assert(entries@ =~= latest_first(self@.history, limit as nat));
        entries
    }
    /// The readings, in the order in which they were written.
    pub fn points(&self) -> (points: &Vec<TSStore>)
        ensures
            rows_view(points@) == self@.points,
    {
        assert(rows_view(self.points@) =~= self@.points);
        &self.points
    }

    /// How many sources were seeded.
    pub fn batch_count(&self) -> (count: usize)
        ensures
            count == self@.batches.len(),
    {
        self.batches.len()
    }

    /// How many requests the history holds.
    pub fn history_count(&self) -> (count: usize)
        ensures
            count == self@.history.len(),
    {
        self.history.len()
    }
}

} // verus!
