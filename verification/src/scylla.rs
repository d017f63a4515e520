//! What the wide-column backend decides: which counters a tag feeds, which
//! counter table answers a query, and what becomes of the rows that the
//! store hands back. Talking to the store is not in here.

use crate::model::{
    bucket_count, bucket_sum, filter_of, in_bucket, BucketFilter, MAX_TAGS_BY_COOKIE,
};
use crate::types::{
    minute_floor, optional_text, owned_text, tag_views, Action, Bucket, Timestamp, UserTag,
    UserTagView, UtcMinute, MAX_MILLIS,
};
use vstd::prelude::*;

verus! {

/// One of the three counter tables. Each is keyed by minute and action and by
/// the dimensions in its name; every one of them carries the category.
#[derive(Debug, Clone, Copy, PartialEq, Eq, Structural)]
pub enum CounterTable {
    OriginBrandCategory,
    CategoryOrigin,
    BrandCategory,
}

impl CounterTable {
    /// Whether the table is keyed by origin.
    pub open spec fn has_origin(self) -> bool {
        self != CounterTable::BrandCategory
    }

    /// Whether the table is keyed by brand.
    pub open spec fn has_brand(self) -> bool {
        self != CounterTable::CategoryOrigin
    }

    /// The name of the table in the store.
    pub open spec fn stored_name(self) -> Seq<char> {
        match self {
            CounterTable::OriginBrandCategory => "buckets_obc"@,
            CounterTable::CategoryOrigin => "buckets_co"@,
            CounterTable::BrandCategory => "buckets_bc"@,
        }
    }

    /// Returns the name of the table in the store.
    pub fn name(&self) -> (name: &'static str)
        ensures
            name@ == self.stored_name(),
    {
        match self {
            CounterTable::OriginBrandCategory => "buckets_obc",
            CounterTable::CategoryOrigin => "buckets_co",
            CounterTable::BrandCategory => "buckets_bc",
        }
    }
}

/// The table that answers a query, by the filters the query gives: without
/// origin the brand and category table; with origin and category alone the
/// category and origin table; with origin otherwise the table of all three.
pub open spec fn table_for(origin: bool, brand_id: bool, category_id: bool) -> CounterTable {
    if !origin {
        CounterTable::BrandCategory
    } else if category_id && !brand_id {
        CounterTable::CategoryOrigin
    } else {
        CounterTable::OriginBrandCategory
    }
}

/// Picks the table that answers a query.
pub fn select_table(origin: bool, brand_id: bool, category_id: bool) -> (table: CounterTable)
    ensures
        table == table_for(origin, brand_id, category_id),
{
    if !origin {
        CounterTable::BrandCategory
    } else if category_id && !brand_id {
        CounterTable::CategoryOrigin
    } else {
        CounterTable::OriginBrandCategory
    }
}

/// The table that answers a query is keyed by every filter the query gives.
pub proof fn lemma_table_covers_filters(origin: bool, brand_id: bool, category_id: bool)
    ensures
        origin ==> table_for(origin, brand_id, category_id).has_origin(),
        brand_id ==> table_for(origin, brand_id, category_id).has_brand(),
{
}

/// One step of a counter row: its count grows by one and its sum by `price`.
/// A dimension by which the table is not keyed is absent.
#[derive(Debug, PartialEq, Eq)]
pub struct CounterUpdate {
    pub table: CounterTable,
    pub bucket: UtcMinute,
    pub action: Action,
    pub origin: Option<String>,
    pub brand_id: Option<String>,
    pub category_id: String,
    pub price: i64,
}

/// The mathematical value of a [`CounterUpdate`].
pub struct CounterUpdateView {
    pub table: CounterTable,
    pub bucket: int,
    pub action: Action,
    pub origin: Option<Seq<char>>,
    pub brand_id: Option<Seq<char>>,
    pub category_id: Seq<char>,
    pub price: int,
}

impl View for CounterUpdate {
    type V = CounterUpdateView;

    open spec fn view(&self) -> CounterUpdateView {
        CounterUpdateView {
            table: self.table,
            bucket: self.bucket@,
            action: self.action,
            origin: optional_text(self.origin),
            brand_id: optional_text(self.brand_id),
            category_id: self.category_id@,
            price: self.price as int,
        }
    }
}

/// The values of a sequence of counter updates, one for one.
pub open spec fn update_views(updates: Seq<CounterUpdate>) -> Seq<CounterUpdateView> {
    updates.map_values(|update: CounterUpdate| update@)
}

/// The step that a tag makes in one table.
pub open spec fn update_in(table: CounterTable, tag: UserTagView) -> CounterUpdateView {
    CounterUpdateView {
        table,
        bucket: minute_floor(tag.time),
        action: tag.action,
        origin: if table.has_origin() {
            Some(tag.origin)
        } else {
            None
        },
        brand_id: if table.has_brand() {
            Some(tag.product_info.brand_id)
        } else {
            None
        },
        category_id: tag.product_info.category_id,
        price: tag.product_info.price,
    }
}

/// The steps that a tag makes: one in every table.
pub open spec fn updates_for(tag: UserTagView) -> Seq<CounterUpdateView> {
    seq![
        update_in(CounterTable::OriginBrandCategory, tag),
        update_in(CounterTable::CategoryOrigin, tag),
        update_in(CounterTable::BrandCategory, tag),
    ]
}

/// The counter steps of one ingested tag, to be written as one batch.
pub fn update_bucket_stats(tag: &UserTag) -> (updates: Vec<CounterUpdate>)
    ensures
        update_views(updates@) == updates_for(tag@),
{
    let bucket = UtcMinute::from(tag.time);
    let price: i64 = tag.product_info.price as i64;
    let mut updates: Vec<CounterUpdate> = Vec::new();
    updates.push(
        CounterUpdate {
            table: CounterTable::OriginBrandCategory,
            bucket,
            action: tag.action,
            origin: Some(tag.origin.clone()),
            brand_id: Some(tag.product_info.brand_id.clone()),
            category_id: tag.product_info.category_id.clone(),
            price,
        },
    );
    updates.push(
        CounterUpdate {
            table: CounterTable::CategoryOrigin,
            bucket,
            action: tag.action,
            origin: Some(tag.origin.clone()),
            brand_id: None,
            category_id: tag.product_info.category_id.clone(),
            price,
        },
    );
    updates.push(
        CounterUpdate {
            table: CounterTable::BrandCategory,
            bucket,
            action: tag.action,
            origin: None,
            brand_id: Some(tag.product_info.brand_id.clone()),
            category_id: tag.product_info.category_id.clone(),
            price,
        },
    );
    assert(update_views(updates@) =~= updates_for(tag@));
    updates
}

/// One read of a counter table: the rows of one minute and one action that
/// agree with the dimensions given, summed.
#[derive(Debug, PartialEq, Eq)]
pub struct BucketRead {
    pub table: CounterTable,
    pub bucket: UtcMinute,
    pub action: Action,
    pub origin: Option<String>,
    pub brand_id: Option<String>,
    pub category_id: Option<String>,
}

/// The mathematical value of a [`BucketRead`].
pub struct BucketReadView {
    pub table: CounterTable,
    pub bucket: int,
    pub action: Action,
    pub origin: Option<Seq<char>>,
    pub brand_id: Option<Seq<char>>,
    pub category_id: Option<Seq<char>>,
}

impl View for BucketRead {
    type V = BucketReadView;

    open spec fn view(&self) -> BucketReadView {
        BucketReadView {
            table: self.table,
            bucket: self.bucket@,
            action: self.action,
            origin: optional_text(self.origin),
            brand_id: optional_text(self.brand_id),
            category_id: optional_text(self.category_id),
        }
    }
}

/// The read that answers one minute of a query.
pub open spec fn read_for(minute: int, filter: BucketFilter) -> BucketReadView {
    BucketReadView {
        table: table_for(filter.origin is Some, filter.brand_id is Some, filter.category_id is Some),
        bucket: minute,
        action: filter.action,
        origin: filter.origin,
        brand_id: filter.brand_id,
        category_id: filter.category_id,
    }
}

/// The reads that answer an aggregate query: one for every minute from the
/// minute of `time_from` up to, and not including, the minute of `time_to`,
/// in ascending order.
pub fn bucket_reads(
    time_from: Timestamp,
    time_to: Timestamp,
    action: Action,
    origin: Option<&str>,
    brand_id: Option<&str>,
    category_id: Option<&str>,
) -> (reads: Vec<BucketRead>)
    requires
        minute_floor(time_from@) < minute_floor(time_to@),
    ensures
        reads.len() == (minute_floor(time_to@) - minute_floor(time_from@)) / 60_000,
        forall|i: int|
            0 <= i < reads.len() ==> (#[trigger] reads[i])@ == read_for(
                minute_floor(time_from@) + i * 60_000,
                filter_of(action, origin, brand_id, category_id),
            ),
{
    let min_from = UtcMinute::from(time_from);
    let min_to = UtcMinute::from(time_to);
    let end: i64 = min_to.millis();
    let table = select_table(origin.is_some(), brand_id.is_some(), category_id.is_some());
    let ghost filter = filter_of(action, origin, brand_id, category_id);
    let mut min_curr = min_from;
    let mut reads: Vec<BucketRead> = Vec::new();
    while min_curr.millis() < end
        invariant
            end == min_to@,
            end % 60_000 == 0,
            end <= MAX_MILLIS,
            min_from@ <= min_curr@ <= end,
            reads.len() * 60_000 == min_curr@ - min_from@,
            filter == filter_of(action, origin, brand_id, category_id),
            table == table_for(origin is Some, brand_id is Some, category_id is Some),
            forall|i: int|
                0 <= i < reads.len() ==> (#[trigger] reads[i])@ == read_for(
                    min_from@ + i * 60_000,
                    filter,
                ),
        decreases end - min_curr@,
    {
        reads.push(
            BucketRead {
                table,
                bucket: min_curr,
                action,
                origin: owned_text(origin),
                brand_id: owned_text(brand_id),
                category_id: owned_text(category_id),
            },
        );
        min_curr = min_curr.next();
    }
    reads
}

/// The count of a counter row does not fit a bucket.
#[derive(Debug, Clone, Copy, PartialEq, Eq, Structural)]
pub struct CountOutOfRange;

/// The bucket of one minute from what the store answered: the count and the
/// sum it returned, or zeros where it returned no row.
pub open spec fn bucket_of(minute: UtcMinute, row: Option<(i64, i64)>) -> Result<
    Bucket,
    CountOutOfRange,
> {
    match row {
        None => Ok(Bucket { minute, count: 0, sum_price: 0 }),
        Some((count, sum)) => if 0 <= count <= u32::MAX {
            Ok(Bucket { minute, count: count as u32, sum_price: sum })
        } else {
            Err(CountOutOfRange)
        },
    }
}

/// Makes the bucket of one minute from what the store answered.
pub fn bucket_of_row(minute: UtcMinute, row: Option<(i64, i64)>) -> (r: Result<
    Bucket,
    CountOutOfRange,
>)
    ensures
        r == bucket_of(minute, row),
{
    match row {
        None => Ok(Bucket { minute, count: 0, sum_price: 0 }),
        Some((count, sum)) => if 0 <= count && count <= 4_294_967_295 {
            Ok(Bucket { minute, count: count as u32, sum_price: sum })
        } else {
            Err(CountOutOfRange)
        },
    }
}

/// The answer to the read at `index`: the row at that place, or no row where
/// the store answered fewer reads.
pub open spec fn answer_at(rows: Seq<Option<(i64, i64)>>, index: int) -> Option<(i64, i64)> {
    if 0 <= index < rows.len() {
        rows[index]
    } else {
        None
    }
}

/// Puts the answers of the store together: the bucket of every read, in the
/// order of the reads, with zeros where the store returned no row. A count
/// that does not fit a bucket is refused.
pub fn stitch_buckets(reads: &Vec<BucketRead>, rows: &Vec<Option<(i64, i64)>>) -> (r: Result<
    Vec<Bucket>,
    CountOutOfRange,
>)
    ensures
        match r {
            Ok(buckets) => buckets.len() == reads.len() && forall|i: int|
                0 <= i < reads.len() ==> bucket_of(reads[i].bucket, answer_at(rows@, i)) == Ok::<
                    Bucket,
                    CountOutOfRange,
                >(#[trigger] buckets[i]),
            Err(_) => exists|i: int|
                0 <= i < reads.len() && #[trigger] bucket_of(
                    reads[i].bucket,
                    answer_at(rows@, i),
                ) is Err,
        },
{
    let mut buckets: Vec<Bucket> = Vec::new();
    let mut at: usize = 0;
    while at < reads.len()
        invariant
            at <= reads.len(),
            buckets.len() == at,
            forall|i: int|
                0 <= i < at ==> bucket_of(reads[i].bucket, answer_at(rows@, i)) == Ok::<
                    Bucket,
                    CountOutOfRange,
                >(#[trigger] buckets[i]),
        decreases reads.len() - at,
    {
        let row = if at < rows.len() {
            rows[at]
        } else {
            None
        };
        match bucket_of_row(reads[at].bucket, row) {
            Ok(bucket) => {
                buckets.push(bucket);
            },
            Err(error) => {
                assert(bucket_of(reads[at as int].bucket, answer_at(rows@, at as int)) is Err);
                return Err(error);
            },
        }
        at = at + 1;
    }
    Ok(buckets)
}

/// What becomes of the rows that a profile read returned for one action.
#[derive(Debug, PartialEq, Eq)]
pub struct ProfileSide {
    /// The tags to return.
    pub tags: Vec<UserTag>,
    /// Rows older than this may be deleted from the store.
    pub delete_before: Option<Timestamp>,
}

/// Decides what becomes of the rows that a profile read returned, newest
/// first: the first `limit` of them are the answer. Rows of the store may go
/// only where the store returned as many rows as are ever kept for a cookie
/// and an action, and then only those older than the oldest row returned: no
/// query can reach them. Letting nothing go is always right.
pub fn finish_profile_side(rows: Vec<UserTag>, limit: usize) -> (side: ProfileSide)
    requires
        limit <= MAX_TAGS_BY_COOKIE,
    ensures
        tag_views(side.tags@) == if rows.len() <= limit {
            tag_views(rows@)
        } else {
            tag_views(rows@).take(limit as int)
        },
        match side.delete_before {
            Some(time) => rows.len() == MAX_TAGS_BY_COOKIE && time@ == rows@.last()@.time,
            None => true,
        },
{
    let delete_before = if rows.len() == MAX_TAGS_BY_COOKIE {
        Some(rows[rows.len() - 1].time)
    } else {
        None
    };
    let mut tags = rows;
    if tags.len() > limit {
        tags.truncate(limit);
        assert(tag_views(tags@) =~= tag_views(rows@).take(limit as int));
    }
    ProfileSide { tags, delete_before }
}

/// Whether a counter step falls under a read: same table, minute and action,
/// and agreement in every dimension that the read gives.
pub open spec fn falls_under(update: CounterUpdateView, read: BucketReadView) -> bool {
    &&& update.table == read.table
    &&& update.bucket == read.bucket
    &&& update.action == read.action
    &&& (read.origin matches Some(origin) ==> update.origin == Some(origin))
    &&& (read.brand_id matches Some(brand_id) ==> update.brand_id == Some(brand_id))
    &&& (read.category_id matches Some(category_id) ==> update.category_id == category_id)
}

/// The summed count of the counter rows under a read, after the steps given.
pub open spec fn read_count(updates: Seq<CounterUpdateView>, read: BucketReadView) -> nat
    decreases updates.len(),
{
    if updates.len() == 0 {
        0
    } else {
        let rest = read_count(updates.drop_last(), read);
        if falls_under(updates.last(), read) {
            rest + 1
        } else {
            rest
        }
    }
}

/// The summed sum of the counter rows under a read, after the steps given.
pub open spec fn read_sum(updates: Seq<CounterUpdateView>, read: BucketReadView) -> int
    decreases updates.len(),
{
    if updates.len() == 0 {
        0
    } else {
        let rest = read_sum(updates.drop_last(), read);
        if falls_under(updates.last(), read) {
            rest + updates.last().price
        } else {
            rest
        }
    }
}

/// Every counter step that a history of ingested tags makes, in order.
pub open spec fn all_updates(history: Seq<UserTagView>) -> Seq<CounterUpdateView>
    decreases history.len(),
{
    if history.len() == 0 {
        Seq::empty()
    } else {
        all_updates(history.drop_last()) + updates_for(history.last())
    }
}

/// The steps of one tag add, under the read that answers a minute of a
/// query, what the tag adds to the bucket of that minute: of its three steps
/// only the one in the read's table can fall under the read, and it does
/// where the tag falls into the bucket.
proof fn lemma_steps_of_one_tag(
    before: Seq<CounterUpdateView>,
    tag: UserTagView,
    minute: int,
    filter: BucketFilter,
)
    ensures
        read_count(before + updates_for(tag), read_for(minute, filter)) == read_count(
            before,
            read_for(minute, filter),
        ) + (if in_bucket(tag, minute, filter) {
            1nat
        } else {
            0nat
        }),
        read_sum(before + updates_for(tag), read_for(minute, filter)) == read_sum(
            before,
            read_for(minute, filter),
        ) + (if in_bucket(tag, minute, filter) {
            tag.product_info.price
        } else {
            0
        }),
{
    let read = read_for(minute, filter);
    let first = update_in(CounterTable::OriginBrandCategory, tag);
    let second = update_in(CounterTable::CategoryOrigin, tag);
    let third = update_in(CounterTable::BrandCategory, tag);
    let one = before.push(first);
    let two = one.push(second);
    let three = two.push(third);
    assert(three =~= before + updates_for(tag));
    assert(one.drop_last() =~= before);
    assert(two.drop_last() =~= one);
    assert(three.drop_last() =~= two);
    assert(falls_under(first, read) == (read.table == CounterTable::OriginBrandCategory
        && in_bucket(tag, minute, filter)));
    assert(falls_under(second, read) == (read.table == CounterTable::CategoryOrigin && in_bucket(
        tag,
        minute,
        filter,
    )));
    assert(falls_under(third, read) == (read.table == CounterTable::BrandCategory && in_bucket(
        tag,
        minute,
        filter,
    )));
    assert(one.last() == first && two.last() == second && three.last() == third);
    assert(read_count(one, read) == read_count(before, read) + (if falls_under(first, read) {
        1nat
    } else {
        0nat
    }));
    assert(read_count(two, read) == read_count(one, read) + (if falls_under(second, read) {
        1nat
    } else {
        0nat
    }));
    assert(read_count(three, read) == read_count(two, read) + (if falls_under(third, read) {
        1nat
    } else {
        0nat
    }));
    assert(read_sum(one, read) == read_sum(before, read) + (if falls_under(first, read) {
        first.price
    } else {
        0
    }));
    assert(read_sum(two, read) == read_sum(one, read) + (if falls_under(second, read) {
        second.price
    } else {
        0
    }));
    assert(read_sum(three, read) == read_sum(two, read) + (if falls_under(third, read) {
        third.price
    } else {
        0
    }));
}

/// The counter tables agree with a scan of the history: for every minute and
/// every combination of filters, the rows under the read that answers the
/// query sum to the count and to the summed price of the tags that fall into
/// the bucket.
pub proof fn lemma_counters_agree_with_scan(
    history: Seq<UserTagView>,
    minute: int,
    filter: BucketFilter,
)
    ensures
        read_count(all_updates(history), read_for(minute, filter)) == bucket_count(
            history,
            minute,
            filter,
        ),
        read_sum(all_updates(history), read_for(minute, filter)) == bucket_sum(
            history,
            minute,
            filter,
        ),
    decreases history.len(),
{
    if history.len() > 0 {
        lemma_counters_agree_with_scan(history.drop_last(), minute, filter);
        lemma_steps_of_one_tag(all_updates(history.drop_last()), history.last(), minute, filter);
    }
}

/// No bucket counts more tags than were ingested.
proof fn lemma_count_at_most_ingested(history: Seq<UserTagView>, minute: int, filter: BucketFilter)
    ensures
        bucket_count(history, minute, filter) <= history.len(),
    decreases history.len(),
{
    if history.len() > 0 {
        lemma_count_at_most_ingested(history.drop_last(), minute, filter);
    }
}

/// Both backends make the same bucket of a minute: where the store answers
/// a read with the sums of the counter rows under it, or with no row where
/// nothing falls under it, the bucket made of the answer holds the count and
/// the summed price of the tags of the history that fall into the minute.
pub proof fn lemma_buckets_agree(
    history: Seq<UserTagView>,
    minute: UtcMinute,
    filter: BucketFilter,
    row: Option<(i64, i64)>,
)
    requires
        history.len() <= u32::MAX,
        match row {
            Some((count, sum)) => count == read_count(
                all_updates(history),
                read_for(minute@, filter),
            ) && sum == read_sum(all_updates(history), read_for(minute@, filter)),
            None => read_count(all_updates(history), read_for(minute@, filter)) == 0 && read_sum(
                all_updates(history),
                read_for(minute@, filter),
            ) == 0,
        },
    ensures
        bucket_of(minute, row) matches Ok(bucket) && bucket.minute == minute && bucket.count
            == bucket_count(history, minute@, filter) && bucket.sum_price == bucket_sum(
            history,
            minute@,
            filter,
        ),
{
    lemma_counters_agree_with_scan(history, minute@, filter);
    lemma_count_at_most_ingested(history, minute@, filter);
}

} // verus!
