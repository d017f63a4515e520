//! The mathematical model of the engine: what a sequence of ingested tags
//! means for per-minute aggregates and for per-cookie profiles.

use crate::types::{minute_floor, option_text, Action, Bucket, UserProfileView, UserTagView};
use vstd::prelude::*;

verus! {

/// The action and the optional dimensions that an aggregate query asks for.
/// An absent dimension admits every value.
pub struct BucketFilter {
    pub action: Action,
    pub origin: Option<Seq<char>>,
    pub brand_id: Option<Seq<char>>,
    pub category_id: Option<Seq<char>>,
}

impl BucketFilter {
    /// Whether a tag has the requested action and agrees with every
    /// dimension that is present.
    pub open spec fn admits(self, tag: UserTagView) -> bool {
        &&& tag.action == self.action
        &&& (self.origin matches Some(origin) ==> tag.origin == origin)
        &&& (self.brand_id matches Some(brand_id) ==> tag.product_info.brand_id == brand_id)
        &&& (self.category_id matches Some(category_id) ==> tag.product_info.category_id
            == category_id)
    }
}

/// The filter that the arguments of an aggregate query stand for.
pub open spec fn filter_of(
    action: Action,
    origin: Option<&str>,
    brand_id: Option<&str>,
    category_id: Option<&str>,
) -> BucketFilter {
    BucketFilter {
        action,
        origin: option_text(origin),
        brand_id: option_text(brand_id),
        category_id: option_text(category_id),
    }
}

/// Whether a tag falls into the bucket that starts at `minute` and passes
/// the filter.
pub open spec fn in_bucket(tag: UserTagView, minute: int, filter: BucketFilter) -> bool {
    minute_floor(tag.time) == minute && filter.admits(tag)
}

/// How many of `tags` fall into the bucket.
pub open spec fn bucket_count(tags: Seq<UserTagView>, minute: int, filter: BucketFilter) -> nat
    decreases tags.len(),
{
    if tags.len() == 0 {
        0
    } else {
        let rest = bucket_count(tags.drop_last(), minute, filter);
        if in_bucket(tags.last(), minute, filter) {
            rest + 1
        } else {
            rest
        }
    }
}

/// The summed price of those of `tags` that fall into the bucket.
pub open spec fn bucket_sum(tags: Seq<UserTagView>, minute: int, filter: BucketFilter) -> int
    decreases tags.len(),
{
    if tags.len() == 0 {
        0
    } else {
        let rest = bucket_sum(tags.drop_last(), minute, filter);
        if in_bucket(tags.last(), minute, filter) {
            rest + tags.last().product_info.price
        } else {
            rest
        }
    }
}

/// Whether `buckets` is the answer to an aggregate query over `history`:
/// one bucket for every minute from the minute of `from` up to, and not
/// including, the minute of `to`, in ascending order, each with the count and
/// the summed price of the tags that fall into it.
pub open spec fn is_bucket_stats(
    buckets: Seq<Bucket>,
    history: Seq<UserTagView>,
    from: int,
    to: int,
    filter: BucketFilter,
) -> bool {
    &&& buckets.len() == (minute_floor(to) - minute_floor(from)) / 60_000
    &&& forall|i: int|
        0 <= i < buckets.len() ==> {
            let minute = minute_floor(from) + i * 60_000;
            &&& (#[trigger] buckets[i]).minute@ == minute
            &&& buckets[i].count == bucket_count(history, minute, filter)
            &&& buckets[i].sum_price == bucket_sum(history, minute, filter)
        }
}

/// Whether the tags stand in ascending order of time; equal times may
/// follow one another.
pub open spec fn ascending(tags: Seq<UserTagView>) -> bool {
    forall|i: int, j: int| 0 <= i <= j < tags.len() ==> tags[i].time <= tags[j].time
}

/// Appending a tag adds its contribution to the bucket it falls into and
/// leaves every other bucket as it was.
pub proof fn lemma_stats_push(
    tags: Seq<UserTagView>,
    tag: UserTagView,
    minute: int,
    filter: BucketFilter,
)
    ensures
        bucket_count(tags.push(tag), minute, filter) == bucket_count(tags, minute, filter) + (
        if in_bucket(tag, minute, filter) {
            1nat
        } else {
            0nat
        }),
        bucket_sum(tags.push(tag), minute, filter) == bucket_sum(tags, minute, filter) + (
        if in_bucket(tag, minute, filter) {
            tag.product_info.price
        } else {
            0
        }),
{
    assert(tags.push(tag).drop_last() =~= tags);
}

/// The statistics of a concatenation are the sums of the statistics of its
/// parts.
pub proof fn lemma_stats_concat(
    a: Seq<UserTagView>,
    b: Seq<UserTagView>,
    minute: int,
    filter: BucketFilter,
)
    ensures
        bucket_count(a + b, minute, filter) == bucket_count(a, minute, filter) + bucket_count(
            b,
            minute,
            filter,
        ),
        bucket_sum(a + b, minute, filter) == bucket_sum(a, minute, filter) + bucket_sum(
            b,
            minute,
            filter,
        ),
    decreases b.len(),
{
    if b.len() == 0 {
        assert(a + b =~= a);
    } else {
        lemma_stats_concat(a, b.drop_last(), minute, filter);
        assert((a + b).drop_last() =~= a + b.drop_last());
    }
}

/// Tags of which none falls into a minute contribute nothing to it.
pub proof fn lemma_stats_none(tags: Seq<UserTagView>, minute: int, filter: BucketFilter)
    requires
        forall|i: int| 0 <= i < tags.len() ==> !in_bucket(#[trigger] tags[i], minute, filter),
    ensures
        bucket_count(tags, minute, filter) == 0,
        bucket_sum(tags, minute, filter) == 0,
    decreases tags.len(),
{
    if tags.len() > 0 {
        lemma_stats_none(tags.drop_last(), minute, filter);
    }
}

/// Inserting a tag anywhere adds its contribution, as appending it would.
pub proof fn lemma_stats_insert(
    tags: Seq<UserTagView>,
    at: int,
    tag: UserTagView,
    minute: int,
    filter: BucketFilter,
)
    requires
        0 <= at <= tags.len(),
    ensures
        bucket_count(tags.insert(at, tag), minute, filter) == bucket_count(
            tags.push(tag),
            minute,
            filter,
        ),
        bucket_sum(tags.insert(at, tag), minute, filter) == bucket_sum(
            tags.push(tag),
            minute,
            filter,
        ),
{
    let head = tags.take(at);
    let tail = tags.skip(at);
    assert(tags.insert(at, tag) =~= head.push(tag) + tail);
    assert(tags =~= head + tail);
    lemma_stats_concat(head.push(tag), tail, minute, filter);
    lemma_stats_concat(head, tail, minute, filter);
    lemma_stats_push(head, tag, minute, filter);
    lemma_stats_push(tags, tag, minute, filter);
}

/// Where only the tags from `lo` up to `hi` can fall into a minute, the
/// statistics of that stretch are those of the whole sequence.
pub proof fn lemma_stats_of_stretch(
    tags: Seq<UserTagView>,
    lo: int,
    hi: int,
    minute: int,
    filter: BucketFilter,
)
    requires
        0 <= lo <= hi <= tags.len(),
        forall|i: int| 0 <= i < lo ==> minute_floor((#[trigger] tags[i]).time) != minute,
        forall|i: int|
            hi <= i < tags.len() ==> minute_floor((#[trigger] tags[i]).time) != minute,
    ensures
        bucket_count(tags, minute, filter) == bucket_count(tags.subrange(lo, hi), minute, filter),
        bucket_sum(tags, minute, filter) == bucket_sum(tags.subrange(lo, hi), minute, filter),
{
    let head = tags.take(lo);
    let mid = tags.subrange(lo, hi);
    let tail = tags.skip(hi);
    assert(tags =~= head + mid + tail);
    lemma_stats_concat(head + mid, tail, minute, filter);
    lemma_stats_concat(head, mid, minute, filter);
    lemma_stats_none(head, minute, filter);
    lemma_stats_none(tail, minute, filter);
}

/// The most tags that are kept for one cookie and one action.
pub const MAX_TAGS_BY_COOKIE: usize = 200;

/// Whether the tags stand in strictly ascending order of time.
pub open spec fn strictly_ascending(tags: Seq<UserTagView>) -> bool {
    forall|i: int, j: int| 0 <= i < j < tags.len() ==> tags[i].time < tags[j].time
}

/// Whether one of the tags carries the given time.
pub open spec fn holds_time(tags: Seq<UserTagView>, time: int) -> bool {
    exists|i: int| 0 <= i < tags.len() && (#[trigger] tags[i]).time == time
}

/// Puts a tag into a sequence that ascends by time, at the place its time
/// gives it. A tag whose time is already held is dropped: the tag that came
/// first stays.
pub open spec fn insert_by_time(tags: Seq<UserTagView>, tag: UserTagView) -> Seq<UserTagView>
    decreases tags.len(),
{
    if tags.len() == 0 {
        seq![tag]
    } else if tags.last().time < tag.time {
        tags.push(tag)
    } else if tags.last().time == tag.time {
        tags
    } else {
        insert_by_time(tags.drop_last(), tag).push(tags.last())
    }
}

/// Takes a tag into the tags kept for one cookie and one action: the tag is
/// inserted by its time, and where that makes more than
/// [`MAX_TAGS_BY_COOKIE`] tags, the oldest leaves.
pub open spec fn take_in(tags: Seq<UserTagView>, tag: UserTagView) -> Seq<UserTagView> {
    let grown = insert_by_time(tags, tag);
    if grown.len() > MAX_TAGS_BY_COOKIE {
        grown.drop_first()
    } else {
        grown
    }
}

/// The tags kept for a cookie and an action after the tags of `history` were
/// ingested in order, oldest first.
pub open spec fn retained(history: Seq<UserTagView>, cookie: Seq<char>, action: Action) -> Seq<
    UserTagView,
>
    decreases history.len(),
{
    if history.len() == 0 {
        Seq::empty()
    } else {
        let before = retained(history.drop_last(), cookie, action);
        let tag = history.last();
        if tag.cookie == cookie && tag.action == action {
            take_in(before, tag)
        } else {
            before
        }
    }
}

/// Whether a tag lies in the half-open window from `from` to `to`.
pub open spec fn in_window(tag: UserTagView, from: int, to: int) -> bool {
    from <= tag.time < to
}

/// The tags of `tags` that lie in the window, newest first, cut to the
/// `limit` newest. `tags` ascends by time.
pub open spec fn recent(tags: Seq<UserTagView>, from: int, to: int, limit: nat) -> Seq<
    UserTagView,
> {
    let hits = tags.filter(|tag: UserTagView| in_window(tag, from, to)).reverse();
    if hits.len() <= limit {
        hits
    } else {
        hits.take(limit as int)
    }
}

/// The profile that a query for `cookie` returns after `history` was
/// ingested.
pub open spec fn profile_of(
    history: Seq<UserTagView>,
    cookie: Seq<char>,
    from: int,
    to: int,
    limit: nat,
) -> UserProfileView {
    UserProfileView {
        cookie,
        views: recent(retained(history, cookie, Action::View), from, to, limit),
        buys: recent(retained(history, cookie, Action::Buy), from, to, limit),
    }
}

} // verus!
