//! The in-memory reference backend.

use crate::laws::lemma_profile_passes_check;
use crate::model::{
    ascending, bucket_count, bucket_sum, filter_of, in_bucket, insert_by_time, is_bucket_stats,
    lemma_stats_insert, lemma_stats_of_stretch, lemma_stats_push, profile_of, recent, retained,
    strictly_ascending, take_in, BucketFilter, MAX_TAGS_BY_COOKIE,
};
use crate::retention::{
    lemma_recent_of_ascending, lemma_retained_ascending, lemma_retained_push,
    lemma_retained_unknown,
};
use crate::types::{
    minute_floor, optional_text, owned_text, tag_views, Action, Bucket, Timestamp, UserProfile,
    UserTag, UserTagView, UtcMinute, MAX_MILLIS,
};
use crate::utils::valid_profile;
use vstd::prelude::*;

verus! {

/// The tags kept for one cookie, views and buys apart, each oldest first.
struct UserProfileInner {
    cookie: String,
    views: Vec<UserTag>,
    buys: Vec<UserTag>,
}

/// The reference backend: every ingested tag in order of time, for the
/// aggregates, and the newest tags of every cookie, for the profiles.
pub struct System {
    tags_by_time: Vec<UserTag>,
    tags_by_cookie: Vec<UserProfileInner>,
    history: Ghost<Seq<UserTagView>>,
}

/// Whether a dimension of a tag agrees with what a query asks of it.
fn dimension_agrees(wanted: &Option<String>, held: &String) -> (r: bool)
    ensures
        r == (optional_text(*wanted) matches Some(w) ==> held@ == w),
{
    match wanted {
        Some(w) => *w == *held,
        None => true,
    }
}

/// The minute, in milliseconds, into which the tag at `index` falls.
fn minute_at(tags: &Vec<UserTag>, index: usize) -> (m: i64)
    requires
        index < tags.len(),
    ensures
        m == minute_floor(tags@[index as int]@.time),
{
    UtcMinute::from(tags[index].time).millis()
}

/// The index of the first tag at or after `bound`, by binary search.
fn first_at_or_after(tags: &Vec<UserTag>, bound: i64) -> (at: usize)
    requires
        ascending(tag_views(tags@)),
    ensures
        at <= tags.len(),
        forall|i: int| 0 <= i < at ==> (#[trigger] tags@[i])@.time < bound,
        forall|i: int| at <= i < tags.len() ==> (#[trigger] tags@[i])@.time >= bound,
{
    let mut lo: usize = 0;
    let mut hi: usize = tags.len();
    while lo < hi
        invariant
            lo <= hi <= tags.len(),
            ascending(tag_views(tags@)),
            forall|i: int| 0 <= i < lo ==> (#[trigger] tags@[i])@.time < bound,
            forall|i: int| hi <= i < tags.len() ==> (#[trigger] tags@[i])@.time >= bound,
        decreases hi - lo,
    {
        let mid: usize = lo + (hi - lo) / 2;
        let ghost views = tag_views(tags@);
        if tags[mid].time.millis() < bound {
            assert forall|i: int| 0 <= i < mid + 1 implies (#[trigger] tags@[i])@.time < bound by {
                assert(views[i].time <= views[mid as int].time);
            }
            lo = mid + 1;
        } else {
            assert forall|i: int| mid <= i < tags.len() implies (#[trigger] tags@[i])@.time
                >= bound by {
                assert(views[mid as int].time <= views[i].time);
            }
            hi = mid;
        }
    }
    lo
}

impl System {
    /// Every tag that was ingested since the backend was made or last
    /// cleared, in the order of ingestion.
    pub closed spec fn history(&self) -> Seq<UserTagView> {
        self.history@
    }

    /// Whether a cookie has an entry in the cookie index.
    spec fn knows(&self, cookie: Seq<char>) -> bool {
        exists|i: int|
            0 <= i < self.tags_by_cookie@.len() && (#[trigger] self.tags_by_cookie@[i]).cookie@
                == cookie
    }

    /// The invariant of the backend: both indexes say what the history says.
    pub closed spec fn wf(&self) -> bool {
        let by_time = tag_views(self.tags_by_time@);
        let entries = self.tags_by_cookie@;
        &&& by_time.len() == self.history@.len()
        &&& by_time.len() <= u32::MAX
        &&& ascending(by_time)
        &&& forall|minute: int, filter: BucketFilter| #[trigger]
            bucket_count(by_time, minute, filter) == bucket_count(self.history@, minute, filter)
        &&& forall|minute: int, filter: BucketFilter| #[trigger]
            bucket_sum(by_time, minute, filter) == bucket_sum(self.history@, minute, filter)
        &&& forall|i: int, j: int|
            0 <= i < j < entries.len() ==> (#[trigger] entries[i]).cookie@ != (
            #[trigger] entries[j]).cookie@
        &&& forall|i: int|
            0 <= i < entries.len() ==> {
                &&& tag_views((#[trigger] entries[i]).views@) == retained(
                    self.history@,
                    entries[i].cookie@,
                    Action::View,
                )
                &&& tag_views(entries[i].buys@) == retained(
                    self.history@,
                    entries[i].cookie@,
                    Action::Buy,
                )
            }
        &&& forall|k: int|
            0 <= k < self.history@.len() ==> self.knows((#[trigger] self.history@[k]).cookie)
    }

    /// A backend that has ingested nothing.
    pub fn new() -> (system: System)
        ensures
            system.wf(),
            system.history() == Seq::<UserTagView>::empty(),
    {
        let system = System {
            tags_by_time: Vec::new(),
            tags_by_cookie: Vec::new(),
            history: Ghost(Seq::empty()),
        };
        assert(tag_views(system.tags_by_time@) =~= system.history@);
        system
    }

    /// How many tags were ingested since the backend was made or last
    /// cleared.
    pub fn len(&self) -> (n: usize)
        requires
            self.wf(),
        ensures
            n == self.history().len(),
            n <= u32::MAX,
    {
        self.tags_by_time.len()
    }

    /// Counts and sums, minute by minute, the ingested tags that pass the
    /// filter: one bucket for every minute from the minute of `time_from` up
    /// to, and not including, the minute of `time_to`.
    pub fn select_bucket_stats(
        &self,
        time_from: Timestamp,
        time_to: Timestamp,
        action: Action,
        origin: Option<&str>,
        brand_id: Option<&str>,
        category_id: Option<&str>,
    ) -> (buckets: Vec<Bucket>)
        requires
            self.wf(),
            minute_floor(time_from@) < minute_floor(time_to@),
        ensures
            is_bucket_stats(
                buckets@,
                self.history(),
                time_from@,
                time_to@,
                filter_of(action, origin, brand_id, category_id),
            ),
    {
        let min_from = UtcMinute::from(time_from);
        let min_to = UtcMinute::from(time_to);
        let origin_key = owned_text(origin);
        let brand_key = owned_text(brand_id);
        let category_key = owned_text(category_id);
        let ghost filter = filter_of(action, origin, brand_id, category_id);
        let ghost by_time = tag_views(self.tags_by_time@);
        let tags = &self.tags_by_time;
        let n: usize = tags.len();
        let end: i64 = min_to.millis();
        let mut at: usize = first_at_or_after(tags, min_from.millis());
        let mut min_curr = min_from;
        let mut buckets: Vec<Bucket> = Vec::new();
        while min_curr.millis() < end
            invariant
                self.wf(),
                tags == &self.tags_by_time,
                by_time == tag_views(tags@),
                n == tags.len(),
                end == min_to@,
                end % 60_000 == 0,
                min_from@ <= min_curr@ <= end,
                end <= MAX_MILLIS,
                n <= u32::MAX,
                filter.action == action,
                filter.origin == optional_text(origin_key),
                filter.brand_id == optional_text(brand_key),
                filter.category_id == optional_text(category_key),
                buckets.len() * 60_000 == min_curr@ - min_from@,
                at <= n,
                forall|i: int| 0 <= i < at ==> minute_floor((#[trigger] by_time[i]).time) < min_curr@,
                forall|i: int|
                    at <= i < n ==> minute_floor((#[trigger] by_time[i]).time) >= min_curr@,
                forall|i: int|
                    0 <= i < buckets.len() ==> {
                        let minute = min_from@ + i * 60_000;
                        &&& (#[trigger] buckets[i]).minute@ == minute
                        &&& buckets[i].count == bucket_count(self.history@, minute, filter)
                        &&& buckets[i].sum_price == bucket_sum(self.history@, minute, filter)
                    },
            decreases end - min_curr@,
        {
            let curr: i64 = min_curr.millis();
            let start: usize = at;
            let mut count: u32 = 0;
            let mut sum_price: i64 = 0;
            while at < n && minute_at(tags, at) == curr
                invariant
                    tags == &self.tags_by_time,
                    by_time == tag_views(tags@),
                    n == tags.len(),
                    n <= u32::MAX,
                    curr == min_curr@,
                    start <= at <= n,
                    forall|i: int|
                        start <= i < at ==> minute_floor((#[trigger] by_time[i]).time) == curr,
                    count <= at - start,
                    (at - start) * i32::MIN <= sum_price <= (at - start) * i32::MAX,
                    count == bucket_count(by_time.subrange(start as int, at as int), curr as int, filter),
                    sum_price == bucket_sum(by_time.subrange(start as int, at as int), curr as int, filter),
                    filter.action == action,
                    filter.origin == optional_text(origin_key),
                    filter.brand_id == optional_text(brand_key),
                    filter.category_id == optional_text(category_key),
                decreases n - at,
            {
                let tag = &tags[at];
                proof {
                    assert(by_time[at as int] == tag@);
                    assert(by_time.subrange(start as int, at + 1) =~= by_time.subrange(
                        start as int,
                        at as int,
                    ).push(tag@));
                    lemma_stats_push(
                        by_time.subrange(start as int, at as int),
                        tag@,
                        curr as int,
                        filter,
                    );
                }
                if action == tag.action && dimension_agrees(&origin_key, &tag.origin)
                    && dimension_agrees(&brand_key, &tag.product_info.brand_id)
                    && dimension_agrees(&category_key, &tag.product_info.category_id) {
                    assert(in_bucket(tag@, curr as int, filter));
                    count = count + 1;
                    sum_price = sum_price + tag.product_info.price as i64;
                } else {
                    assert(!in_bucket(tag@, curr as int, filter));
                }
                at = at + 1;
            }
            proof {
                assert forall|i: int| at <= i < n implies minute_floor(
                    (#[trigger] by_time[i]).time,
                ) != curr by {
                    if at < n {
                        assert(minute_floor(by_time[at as int].time) != curr);
                        assert(by_time[at as int].time <= by_time[i].time);
                    }
                }
                lemma_stats_of_stretch(by_time, start as int, at as int, curr as int, filter);
                assert(bucket_count(by_time, curr as int, filter) == bucket_count(
                    self.history@,
                    curr as int,
                    filter,
                ));
                assert(bucket_sum(by_time, curr as int, filter) == bucket_sum(
                    self.history@,
                    curr as int,
                    filter,
                ));
            }
            buckets.push(Bucket { minute: min_curr, count, sum_price });
            min_curr = min_curr.next();
        }
        buckets
    }
}

/// Takes a tag into the tags kept for one cookie and one action.
fn take_in_tag(side: &mut Vec<UserTag>, tag: UserTag)
    requires
        old(side).len() <= MAX_TAGS_BY_COOKIE,
    ensures
        tag_views(final(side)@) == take_in(tag_views(old(side)@), tag@),
{
    let ghost before = tag_views(side@);
    let time: i64 = tag.time.millis();
    let mut at: usize = side.len();
    assert(before.take(at as int) + before.skip(at as int) =~= before);
    assert(before.take(at as int) =~= before);
    while at > 0 && side[at - 1].time.millis() > time
        invariant
            at <= side.len(),
            side@ == old(side)@,
            before == tag_views(side@),
            time == tag@.time,
            insert_by_time(before, tag@) == insert_by_time(before.take(at as int), tag@)
                + before.skip(at as int),
        decreases at,
    {
        proof {
            let head = before.take(at as int);
            assert(head.last() == before[at - 1]);
            assert(head.drop_last() =~= before.take(at - 1));
            assert(insert_by_time(head, tag@) == insert_by_time(before.take(at - 1), tag@).push(
                before[at - 1],
            ));
            assert(insert_by_time(before.take(at - 1), tag@).push(before[at - 1]) + before.skip(
                at as int,
            ) =~= insert_by_time(before.take(at - 1), tag@) + before.skip(at - 1));
        }
        at = at - 1;
    }
    if at > 0 && side[at - 1].time.millis() == time {
        proof {
            let head = before.take(at as int);
            assert(head.last() == before[at - 1]);
            assert(head + before.skip(at as int) =~= before);
        }
    } else {
        proof {
            let head = before.take(at as int);
            if at > 0 {
                assert(head.last() == before[at - 1]);
            }
            assert(insert_by_time(head, tag@) == head.push(tag@));
            assert(head.push(tag@) + before.skip(at as int) =~= before.insert(at as int, tag@));
        }
        side.insert(at, tag);
        assert(tag_views(side@) =~= before.insert(at as int, tag@));
    }
    if side.len() > MAX_TAGS_BY_COOKIE {
        let ghost grown = tag_views(side@);
        side.remove(0);
        assert(tag_views(side@) =~= grown.drop_first());
    }
}

/// The place of a cookie's entry in the cookie index.
fn find_cookie(entries: &Vec<UserProfileInner>, cookie: &String) -> (r: Option<usize>)
    ensures
        match r {
            Some(at) => at < entries.len() && entries@[at as int].cookie@ == cookie@,
            None => forall|i: int|
                0 <= i < entries.len() ==> (#[trigger] entries@[i]).cookie@ != cookie@,
        },
{
    let mut at: usize = 0;
    while at < entries.len()
        invariant
            at <= entries.len(),
            forall|i: int| 0 <= i < at ==> (#[trigger] entries@[i]).cookie@ != cookie@,
        decreases entries.len() - at,
    {
        if entries[at].cookie == *cookie {
            return Some(at);
        }
        at = at + 1;
    }
    None
}

/// The newest tags of one side that lie in the window, newest first.
fn newest_in_window(side: &Vec<UserTag>, from: i64, to: i64, limit: usize) -> (out: Vec<UserTag>)
    requires
        strictly_ascending(tag_views(side@)),
    ensures
        tag_views(out@) == recent(tag_views(side@), from as int, to as int, limit as nat),
{
    let ghost views = tag_views(side@);
    assert(ascending(views)) by {
        assert forall|i: int, j: int| 0 <= i <= j < views.len() implies views[i].time
            <= views[j].time by {
            if i < j {
                assert(views[i].time < views[j].time);
            }
        }
    }
    let lo: usize = first_at_or_after(side, from);
    let hi: usize = first_at_or_after(side, to);
    proof {
        assert forall|i: int| 0 <= i < lo implies (#[trigger] views[i]).time < from by {
            assert(side@[i]@.time < from);
        }
        assert forall|i: int| lo <= i < views.len() implies (#[trigger] views[i]).time
            >= from by {
            assert(side@[i]@.time >= from);
        }
        assert forall|i: int| 0 <= i < hi implies (#[trigger] views[i]).time < to by {
            assert(side@[i]@.time < to);
        }
        assert forall|i: int| hi <= i < views.len() implies (#[trigger] views[i]).time >= to by {
            assert(side@[i]@.time >= to);
        }
        lemma_recent_of_ascending(views, from as int, to as int, limit as nat, lo as int, hi as int);
    }
    let ghost wanted = recent(views, from as int, to as int, limit as nat);
    let mut out: Vec<UserTag> = Vec::new();
    let mut at: usize = hi;
    while at > lo && out.len() < limit
        invariant
            lo <= side.len(),
            hi <= side.len(),
            at <= hi,
            lo < hi ==> lo <= at,
            views == tag_views(side@),
            wanted == recent(views, from as int, to as int, limit as nat),
            lo >= hi ==> wanted.len() == 0,
            lo < hi ==> wanted.len() == if hi - lo <= limit {
                hi - lo
            } else {
                limit as int
            },
            forall|k: int| 0 <= k < wanted.len() ==> #[trigger] wanted[k] == views[hi - 1 - k],
            out.len() == hi - at,
            out.len() <= wanted.len(),
            forall|k: int| 0 <= k < out.len() ==> (#[trigger] out@[k])@ == wanted[k],
        decreases at,
    {
        at = at - 1;
        out.push(side[at].clone());
    }
    assert(tag_views(out@) =~= wanted);
    out
}

impl System {
    /// Ingests a tag: it enters the history, and both indexes follow.
    pub fn register_user_tag(&mut self, tag: UserTag)
        requires
            old(self).wf(),
            old(self).history().len() < u32::MAX,
        ensures
            final(self).wf(),
            final(self).history() == old(self).history().push(tag@),
    {
        let ghost history = self.history@;
        let ghost by_time = tag_views(self.tags_by_time@);
        let ghost entries = self.tags_by_cookie@;
        let at: usize = first_at_or_after(&self.tags_by_time, tag.time.millis() + 1);
        self.tags_by_time.insert(at, tag.clone());
        proof {
            let grown = tag_views(self.tags_by_time@);
            assert(grown =~= by_time.insert(at as int, tag@));
            assert(ascending(grown)) by {
                assert forall|i: int, j: int| 0 <= i <= j < grown.len() implies grown[i].time
                    <= grown[j].time by {
                    let a = if i < at {
                        i
                    } else {
                        i - 1
                    };
                    let b = if j < at {
                        j
                    } else {
                        j - 1
                    };
                    if i != at as int && j != at as int {
                        assert(by_time[a].time <= by_time[b].time);
                    }
                    if i != at as int {
                        assert(by_time[a] == old(self).tags_by_time@[a]@);
                    }
                    if j != at as int {
                        assert(by_time[b] == old(self).tags_by_time@[b]@);
                    }
                }
            }
            assert forall|minute: int, filter: BucketFilter| #[trigger]
                bucket_count(grown, minute, filter) == bucket_count(
                    history.push(tag@),
                    minute,
                    filter,
                ) by {
                lemma_stats_insert(by_time, at as int, tag@, minute, filter);
                lemma_stats_push(by_time, tag@, minute, filter);
                lemma_stats_push(history, tag@, minute, filter);
                assert(bucket_count(by_time, minute, filter) == bucket_count(
                    history,
                    minute,
                    filter,
                ));
            }
            assert forall|minute: int, filter: BucketFilter| #[trigger]
                bucket_sum(grown, minute, filter) == bucket_sum(
                    history.push(tag@),
                    minute,
                    filter,
                ) by {
                lemma_stats_insert(by_time, at as int, tag@, minute, filter);
                lemma_stats_push(by_time, tag@, minute, filter);
                lemma_stats_push(history, tag@, minute, filter);
                assert(bucket_sum(by_time, minute, filter) == bucket_sum(history, minute, filter));
            }
            assert forall|i: int| 0 <= i < entries.len() implies {
                &&& retained(history.push(tag@), (#[trigger] entries[i]).cookie@, Action::View) == (
                if tag@.cookie == entries[i].cookie@ && tag.action == Action::View {
                    take_in(tag_views(entries[i].views@), tag@)
                } else {
                    tag_views(entries[i].views@)
                })
                &&& retained(history.push(tag@), entries[i].cookie@, Action::Buy) == (
                if tag@.cookie == entries[i].cookie@ && tag.action == Action::Buy {
                    take_in(tag_views(entries[i].buys@), tag@)
                } else {
                    tag_views(entries[i].buys@)
                })
                &&& tag_views(entries[i].views@).len() <= MAX_TAGS_BY_COOKIE
                &&& tag_views(entries[i].buys@).len() <= MAX_TAGS_BY_COOKIE
            } by {
                lemma_retained_push(history, tag@, entries[i].cookie@, Action::View);
                lemma_retained_push(history, tag@, entries[i].cookie@, Action::Buy);
                lemma_retained_ascending(history, entries[i].cookie@, Action::View);
                lemma_retained_ascending(history, entries[i].cookie@, Action::Buy);
            }
        }
        let found = find_cookie(&self.tags_by_cookie, &tag.cookie);
        let ghost cookie = tag@.cookie;
        let ghost view = tag@;
        match found {
            Some(place) => {
                let entry = &mut self.tags_by_cookie[place];
                match tag.action {
                    Action::View => take_in_tag(&mut entry.views, tag),
                    Action::Buy => take_in_tag(&mut entry.buys, tag),
                }
            },
            None => {
                proof {
                    assert forall|k: int| 0 <= k < history.len() implies (
                    #[trigger] history[k]).cookie != cookie by {
                        assert(old(self).knows(history[k].cookie));
                    }
                    lemma_retained_unknown(history, cookie, Action::View);
                    lemma_retained_unknown(history, cookie, Action::Buy);
                    lemma_retained_push(history, view, cookie, Action::View);
                    lemma_retained_push(history, view, cookie, Action::Buy);
                }
                let mut views: Vec<UserTag> = Vec::new();
                let mut buys: Vec<UserTag> = Vec::new();
                let cookie_text = tag.cookie.clone();
                assert(tag_views(views@) =~= Seq::<UserTagView>::empty());
                assert(tag_views(buys@) =~= Seq::<UserTagView>::empty());
                match tag.action {
                    Action::View => take_in_tag(&mut views, tag),
                    Action::Buy => take_in_tag(&mut buys, tag),
                }
                self.tags_by_cookie.push(UserProfileInner { cookie: cookie_text, views, buys });
            },
        }
        self.history = Ghost(history.push(view));
        proof {
            let after = self.tags_by_cookie@;
            assert forall|k: int| 0 <= k < self.history@.len() implies self.knows(
                (#[trigger] self.history@[k]).cookie,
            ) by {
                if k < history.len() {
                    assert(old(self).knows(history[k].cookie));
                    let i = choose|i: int|
                        0 <= i < entries.len() && (#[trigger] entries[i]).cookie@
                            == history[k].cookie;
                    assert(after[i].cookie@ == history[k].cookie);
                } else {
                    match found {
                        Some(place) => {
                            assert(after[place as int].cookie@ == cookie);
                        },
                        None => {
                            assert(after[entries.len() as int].cookie@ == cookie);
                        },
                    }
                }
            }
        }
    }

    /// The profile of a cookie: its newest views and its newest buys that
    /// lie in the half-open window from `time_from` to `time_to`, each newest
    /// first and cut to `limit`.
    pub fn last_tags_by_cookie(
        &self,
        cookie: &str,
        time_from: Timestamp,
        time_to: Timestamp,
        limit: usize,
    ) -> (profile: UserProfile)
        requires
            self.wf(),
            limit <= MAX_TAGS_BY_COOKIE,
        ensures
            profile@ == profile_of(
                self.history(),
                cookie@,
                time_from@,
                time_to@,
                limit as nat,
            ),
            valid_profile(profile@, time_from@, time_to@, limit as nat),
    {
        proof {
            lemma_profile_passes_check(
                self.history@,
                cookie@,
                time_from@,
                time_to@,
                limit as nat,
            );
        }
        let key: String = cookie.to_owned();
        let from: i64 = time_from.millis();
        let to: i64 = time_to.millis();
        match find_cookie(&self.tags_by_cookie, &key) {
            Some(place) => {
                let entry = &self.tags_by_cookie[place];
                proof {
                    lemma_retained_ascending(self.history@, cookie@, Action::View);
                    lemma_retained_ascending(self.history@, cookie@, Action::Buy);
                }
                let views = newest_in_window(&entry.views, from, to, limit);
                let buys = newest_in_window(&entry.buys, from, to, limit);
                UserProfile { cookie: key, views, buys }
            },
            None => {
                proof {
                    assert forall|k: int| 0 <= k < self.history@.len() implies (
                    #[trigger] self.history@[k]).cookie != cookie@ by {
                        assert(self.knows(self.history@[k].cookie));
                    }
                    lemma_retained_unknown(self.history@, cookie@, Action::View);
                    lemma_retained_unknown(self.history@, cookie@, Action::Buy);
                    let nothing = Seq::<UserTagView>::empty();
                    lemma_recent_of_ascending(nothing, from as int, to as int, limit as nat, 0, 0);
                }
                let views: Vec<UserTag> = Vec::new();
                let buys: Vec<UserTag> = Vec::new();
                assert(tag_views(views@) =~= Seq::<UserTagView>::empty());
                assert(tag_views(buys@) =~= Seq::<UserTagView>::empty());
                assert(recent(
                    Seq::<UserTagView>::empty(),
                    from as int,
                    to as int,
                    limit as nat,
                ) =~= Seq::<UserTagView>::empty());
                UserProfile { cookie: key, views, buys }
            },
        }
    }

    /// Drops everything that was ingested.
    pub fn clear(&mut self)
        ensures
            final(self).wf(),
            final(self).history() == Seq::<UserTagView>::empty(),
    {
        self.tags_by_time = Vec::new();
        self.tags_by_cookie = Vec::new();
        self.history = Ghost(Seq::empty());
        assert(tag_views(self.tags_by_time@) =~= self.history@);
    }
}

impl Default for System {
    fn default() -> (system: Self)
        ensures
            system.wf(),
            system.history() == Seq::<UserTagView>::empty(),
    {
        Self::new()
    }
}

impl crate::types::System for System {
    open spec fn ingested(&self) -> Seq<UserTagView> {
        self.history()
    }

    open spec fn valid(&self) -> bool {
        self.wf()
    }

    fn register_user_tag(&mut self, user_tag: UserTag) {
        System::register_user_tag(self, user_tag)
    }

    fn last_tags_by_cookie(
        &self,
        cookie: &str,
        time_from: Timestamp,
        time_to: Timestamp,
        limit: usize,
    ) -> (profile: UserProfile) {
        System::last_tags_by_cookie(self, cookie, time_from, time_to, limit)
    }

    fn select_bucket_stats(
        &self,
        time_from: Timestamp,
        time_to: Timestamp,
        action: Action,
        origin: Option<&str>,
        brand_id: Option<&str>,
        category_id: Option<&str>,
    ) -> (buckets: Vec<Bucket>) {
        System::select_bucket_stats(self, time_from, time_to, action, origin, brand_id, category_id)
    }

    fn clear(&mut self) {
        System::clear(self)
    }
}

} // verus!
