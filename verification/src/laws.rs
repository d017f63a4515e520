//! Laws of the engine, stated over the history of ingested tags.

use crate::model::{
    bucket_count, bucket_sum, holds_time, in_window, insert_by_time, profile_of, recent,
    retained, strictly_ascending, take_in, BucketFilter, MAX_TAGS_BY_COOKIE,
};
use crate::retention::{lemma_filter_stretch, lemma_insert_by_time, lemma_retained_ascending};
use crate::types::{instant_of, Action, TimeRange, UserTagView};
use crate::utils::valid_profile;
use vstd::prelude::*;

verus! {

/// Whether the tags stand in strictly descending order of time.
pub open spec fn strictly_descending(tags: Seq<UserTagView>) -> bool {
    forall|i: int, j: int| 0 <= i < j < tags.len() ==> tags[i].time > tags[j].time
}

/// Filtering tags that ascend strictly leaves tags that ascend strictly, and
/// each of them is one of the tags filtered and has the property.
pub proof fn lemma_filter_keeps_order(tags: Seq<UserTagView>, keep: spec_fn(UserTagView) -> bool)
    requires
        strictly_ascending(tags),
    ensures
        strictly_ascending(tags.filter(keep)),
        tags.filter(keep).len() <= tags.len(),
        forall|i: int|
            0 <= i < tags.filter(keep).len() ==> tags.contains(#[trigger] tags.filter(keep)[i])
                && keep(tags.filter(keep)[i]),
    decreases tags.len(),
{
    reveal(Seq::filter);
    if tags.len() > 0 {
        let rest = tags.drop_last();
        let inner = rest.filter(keep);
        lemma_filter_keeps_order(rest, keep);
        assert forall|i: int| 0 <= i < inner.len() implies (#[trigger] inner[i]).time
            < tags.last().time && tags.contains(inner[i]) by {
            assert(rest.contains(inner[i]));
            let j = choose|j: int| 0 <= j < rest.len() && rest[j] == inner[i];
            assert(tags[j] == inner[i]);
            assert(tags[j].time < tags[tags.len() - 1].time);
        }
        if keep(tags.last()) {
            assert(tags[tags.len() - 1] == tags.last());
        }
    }
}

/// Every list of a profile descends strictly by time, holds at most `limit`
/// and at most [`MAX_TAGS_BY_COOKIE`] tags, and holds only tags of the
/// window.
pub proof fn lemma_profile_is_valid(
    history: Seq<UserTagView>,
    cookie: Seq<char>,
    from: int,
    to: int,
    limit: nat,
)
    ensures
        ({
            let profile = profile_of(history, cookie, from, to, limit);
            &&& profile.cookie == cookie
            &&& strictly_descending(profile.views)
            &&& strictly_descending(profile.buys)
            &&& profile.views.len() <= limit
            &&& profile.buys.len() <= limit
            &&& profile.views.len() <= MAX_TAGS_BY_COOKIE
            &&& profile.buys.len() <= MAX_TAGS_BY_COOKIE
            &&& forall|i: int|
                0 <= i < profile.views.len() ==> in_window(#[trigger] profile.views[i], from, to)
            &&& forall|i: int|
                0 <= i < profile.buys.len() ==> in_window(#[trigger] profile.buys[i], from, to)
        }),
{
    lemma_retained_ascending(history, cookie, Action::View);
    lemma_retained_ascending(history, cookie, Action::Buy);
    lemma_recent_is_valid(retained(history, cookie, Action::View), from, to, limit);
    lemma_recent_is_valid(retained(history, cookie, Action::Buy), from, to, limit);
}

/// Every profile passes the check of what a query with its window and its
/// limit must return.
pub proof fn lemma_profile_passes_check(
    history: Seq<UserTagView>,
    cookie: Seq<char>,
    from: int,
    to: int,
    limit: nat,
)
    ensures
        valid_profile(profile_of(history, cookie, from, to, limit), from, to, limit),
{
    lemma_profile_is_valid(history, cookie, from, to, limit);
    let profile = profile_of(history, cookie, from, to, limit);
    assert forall|i: int, j: int| 0 <= i <= j < profile.views.len() implies profile.views[i].time
        >= profile.views[j].time by {
        if i < j {
            assert(profile.views[i].time > profile.views[j].time);
        }
    }
    assert forall|i: int, j: int| 0 <= i <= j < profile.buys.len() implies profile.buys[i].time
        >= profile.buys[j].time by {
        if i < j {
            assert(profile.buys[i].time > profile.buys[j].time);
        }
    }
}

/// What a profile query takes from tags that ascend strictly: tags of the
/// window only, every one of them among the tags given, in strictly
/// descending order, and no more than the limit nor than there are.
pub proof fn lemma_recent_is_valid(tags: Seq<UserTagView>, from: int, to: int, limit: nat)
    requires
        strictly_ascending(tags),
    ensures
        strictly_descending(recent(tags, from, to, limit)),
        recent(tags, from, to, limit).len() <= limit,
        recent(tags, from, to, limit).len() <= tags.len(),
        forall|i: int|
            0 <= i < recent(tags, from, to, limit).len() ==> in_window(
                #[trigger] recent(tags, from, to, limit)[i],
                from,
                to,
            ) && tags.contains(recent(tags, from, to, limit)[i]),
{
    let keep = |tag: UserTagView| in_window(tag, from, to);
    let hits = tags.filter(keep);
    lemma_filter_keeps_order(tags, keep);
    let turned = hits.reverse();
    assert forall|i: int, j: int| 0 <= i < j < turned.len() implies turned[i].time
        > turned[j].time by {
        assert(hits[hits.len() - 1 - j].time < hits[hits.len() - 1 - i].time);
    }
    assert forall|i: int| 0 <= i < turned.len() implies in_window(#[trigger] turned[i], from, to)
        && tags.contains(turned[i]) by {
        assert(turned[i] == hits[hits.len() - 1 - i]);
    }
}

/// A query with limit 0 returns nothing.
pub proof fn lemma_limit_zero(tags: Seq<UserTagView>, from: int, to: int)
    ensures
        recent(tags, from, to, 0) == Seq::<UserTagView>::empty(),
{
    assert(recent(tags, from, to, 0) =~= Seq::<UserTagView>::empty());
}

/// A query whose window is empty, `to` not after `from`, returns nothing.
pub proof fn lemma_empty_window(tags: Seq<UserTagView>, from: int, to: int, limit: nat)
    requires
        to <= from,
    ensures
        recent(tags, from, to, limit) == Seq::<UserTagView>::empty(),
{
    let keep = |tag: UserTagView| in_window(tag, from, to);
    lemma_filter_stretch(tags, 0, 0, keep);
    assert(recent(tags, from, to, limit) =~= Seq::<UserTagView>::empty());
}

/// Where the limit is no smaller than the number of tags, a query returns
/// exactly the tags of the window: a tag at `from` is returned, where the
/// window is not empty, and a tag at `to` is not.
pub proof fn lemma_window_is_half_open(
    tags: Seq<UserTagView>,
    from: int,
    to: int,
    limit: nat,
    tag: UserTagView,
)
    requires
        tags.len() <= limit,
        tags.contains(tag),
    ensures
        recent(tags, from, to, limit).contains(tag) <==> from <= tag.time < to,
        tag.time == from && from < to ==> recent(tags, from, to, limit).contains(tag),
        tag.time == to ==> !recent(tags, from, to, limit).contains(tag),
{
    let keep = |tag: UserTagView| in_window(tag, from, to);
    let hits = tags.filter(keep);
    tags.lemma_filter_len(keep);
    let turned = hits.reverse();
    assert(recent(tags, from, to, limit) == turned);
    if turned.contains(tag) {
        let i = choose|i: int| 0 <= i < turned.len() && turned[i] == tag;
        assert(hits[hits.len() - 1 - i] == tag);
        tags.lemma_filter_pred(keep, hits.len() - 1 - i);
    }
    if in_window(tag, from, to) {
        let j = choose|j: int| 0 <= j < tags.len() && tags[j] == tag;
        tags.lemma_filter_contains(keep, j);
        let i = choose|i: int| 0 <= i < hits.len() && hits[i] == tag;
        assert(turned[hits.len() - 1 - i] == tag);
    }
}

/// Every tag that is kept for a cookie and an action was ingested with that
/// cookie and that action.
pub proof fn lemma_kept_were_ingested(
    history: Seq<UserTagView>,
    cookie: Seq<char>,
    action: Action,
    tag: UserTagView,
)
    requires
        retained(history, cookie, action).contains(tag),
    ensures
        history.contains(tag),
        tag.cookie == cookie,
        tag.action == action,
    decreases history.len(),
{
    if history.len() > 0 {
        let before = history.drop_last();
        let kept = retained(before, cookie, action);
        let last = history.last();
        assert(history[history.len() - 1] == last);
        if last.cookie == cookie && last.action == action {
            lemma_retained_ascending(before, cookie, action);
            lemma_insert_by_time(kept, last);
            let grown = insert_by_time(kept, last);
            if grown.len() > MAX_TAGS_BY_COOKIE {
                let i = choose|i: int|
                    0 <= i < grown.drop_first().len() && grown.drop_first()[i] == tag;
                assert(grown[i + 1] == tag);
            }
            assert(grown.contains(tag));
            if kept.contains(tag) {
                lemma_kept_were_ingested(before, cookie, action, tag);
                let k = choose|k: int| 0 <= k < before.len() && before[k] == tag;
                assert(history[k] == tag);
            }
        } else {
            lemma_kept_were_ingested(before, cookie, action, tag);
            let k = choose|k: int| 0 <= k < before.len() && before[k] == tag;
            assert(history[k] == tag);
        }
    }
}

/// Only the newest are kept: of every tag ingested for a cookie and an
/// action, either the time is held by a kept tag, or
/// [`MAX_TAGS_BY_COOKIE`] tags are kept and all of them are newer.
pub proof fn lemma_newest_are_kept(
    history: Seq<UserTagView>,
    cookie: Seq<char>,
    action: Action,
    k: int,
)
    requires
        0 <= k < history.len(),
        history[k].cookie == cookie,
        history[k].action == action,
    ensures
        ({
            let kept = retained(history, cookie, action);
            holds_time(kept, history[k].time) || (kept.len() == MAX_TAGS_BY_COOKIE
                && history[k].time < kept[0].time)
        }),
    decreases history.len(),
{
    let before = history.drop_last();
    let last = history.last();
    let old_kept = retained(before, cookie, action);
    let kept = retained(history, cookie, action);
    let time = history[k].time;
    if !(last.cookie == cookie && last.action == action) {
        lemma_newest_are_kept(before, cookie, action, k);
    } else {
        lemma_retained_ascending(before, cookie, action);
        lemma_insert_by_time(old_kept, last);
        let grown = insert_by_time(old_kept, last);
        assert(kept == take_in(old_kept, last));
        let held_before = k < history.len() - 1 && holds_time(old_kept, time);
        if k < history.len() - 1 {
            lemma_newest_are_kept(before, cookie, action, k);
        }
        if k == history.len() - 1 || held_before {
            // The time is held after the insertion; it stays unless it is
            // the oldest of too many.
            let found = if k == history.len() - 1 {
                if holds_time(old_kept, time) {
                    let j = choose|j: int|
                        0 <= j < old_kept.len() && (#[trigger] old_kept[j]).time == time;
                    old_kept[j]
                } else {
                    last
                }
            } else {
                let j = choose|j: int|
                    0 <= j < old_kept.len() && (#[trigger] old_kept[j]).time == time;
                old_kept[j]
            };
            assert(found.time == time);
            assert(grown.contains(found)) by {
                if found != last || holds_time(old_kept, last.time) {
                    let j = choose|j: int|
                        0 <= j < old_kept.len() && (#[trigger] old_kept[j]).time == time;
                    assert(old_kept.contains(old_kept[j]));
                }
            }
            let i = choose|i: int| 0 <= i < grown.len() && grown[i] == found;
            if grown.len() > MAX_TAGS_BY_COOKIE {
                if i >= 1 {
                    assert(kept[i - 1].time == time);
                } else {
                    assert(grown[0].time < grown[1].time);
                    assert(kept[0] == grown[1]);
                }
            } else {
                assert(kept[i].time == time);
            }
        } else {
            // All kept tags were newer already, and there were as many as
            // are ever kept.
            if holds_time(old_kept, last.time) {
                assert(kept == old_kept);
            } else {
                assert(kept == grown.drop_first());
                assert(kept[0] == grown[1]);
                assert(grown.contains(grown[1]));
                assert(grown.contains(grown[0]));
                assert(grown[0].time < grown[1].time);
                if old_kept.contains(grown[1]) {
                    let j = choose|j: int| 0 <= j < old_kept.len() && old_kept[j] == grown[1];
                    assert(old_kept[0].time <= old_kept[j].time);
                } else {
                    assert(old_kept.contains(grown[0]));
                    let j = choose|j: int| 0 <= j < old_kept.len() && old_kept[j] == grown[0];
                    assert(old_kept[0].time <= old_kept[j].time);
                }
            }
        }
    }
}

/// Ties are broken by the order of ingestion: a tag that is kept is the
/// first that was ingested for its cookie and its action with its time.
pub proof fn lemma_first_stays(
    history: Seq<UserTagView>,
    cookie: Seq<char>,
    action: Action,
    tag: UserTagView,
    k: int,
)
    requires
        retained(history, cookie, action).contains(tag),
        0 <= k < history.len(),
        history[k].cookie == cookie,
        history[k].action == action,
        history[k].time == tag.time,
        forall|m: int|
            0 <= m < k ==> !((#[trigger] history[m]).cookie == cookie && history[m].action
                == action && history[m].time == tag.time),
    ensures
        history[k] == tag,
    decreases history.len(),
{
    let before = history.drop_last();
    let last = history.last();
    let old_kept = retained(before, cookie, action);
    let kept = retained(history, cookie, action);
    assert forall|m: int| 0 <= m < before.len() implies before[m] == history[m] by {}
    if !(last.cookie == cookie && last.action == action) {
        lemma_first_stays(before, cookie, action, tag, k);
    } else {
        lemma_retained_ascending(before, cookie, action);
        lemma_insert_by_time(old_kept, last);
        let grown = insert_by_time(old_kept, last);
        assert(kept == take_in(old_kept, last));
        assert(grown.contains(tag)) by {
            let i = choose|i: int| 0 <= i < kept.len() && kept[i] == tag;
            if grown.len() > MAX_TAGS_BY_COOKIE {
                assert(grown[i + 1] == tag);
            }
        }
        if old_kept.contains(tag) {
            lemma_kept_were_ingested(before, cookie, action, tag);
            let m = choose|m: int| 0 <= m < before.len() && before[m] == tag;
            assert(history[m] == tag);
            assert(k <= m);
            lemma_first_stays(before, cookie, action, tag, k);
        } else if k < history.len() - 1 {
            // An earlier tag had the time and is not held: the side is full
            // of newer tags, and the tag leaves as soon as it enters.
            assert(tag == last && !holds_time(old_kept, last.time));
            lemma_newest_are_kept(before, cookie, action, k);
            assert(old_kept.len() == MAX_TAGS_BY_COOKIE && last.time < old_kept[0].time);
            let at = choose|i: int| 0 <= i < grown.len() && grown[i] == last;
            assert(grown.contains(grown[0]));
            if old_kept.contains(grown[0]) {
                let j = choose|j: int| 0 <= j < old_kept.len() && old_kept[j] == grown[0];
                assert(old_kept[0].time <= old_kept[j].time);
                assert(at > 0 ==> grown[0].time < grown[at].time);
            }
            let i = choose|i: int| 0 <= i < kept.len() && kept[i] == tag;
            assert(kept[i] == grown[i + 1]);
            assert(grown[0].time < grown[i + 1].time);
        }
    }
}

/// A backend that holds nothing answers with nothing: empty lists for every
/// profile, and zero for every bucket.
pub proof fn lemma_nothing_ingested(
    cookie: Seq<char>,
    from: int,
    to: int,
    limit: nat,
    minute: int,
    filter: BucketFilter,
)
    ensures
        profile_of(Seq::empty(), cookie, from, to, limit).views == Seq::<UserTagView>::empty(),
        profile_of(Seq::empty(), cookie, from, to, limit).buys == Seq::<UserTagView>::empty(),
        bucket_count(Seq::empty(), minute, filter) == 0,
        bucket_sum(Seq::empty(), minute, filter) == 0,
{
    let nothing = Seq::<UserTagView>::empty();
    lemma_recent_is_valid(nothing, from, to, limit);
    assert(recent(nothing, from, to, limit) =~= nothing);
}

/// The wire form of a range is cut back into the two sides it was made of,
/// where the first of them holds no underscore: reading it gives what
/// reading the two sides gives.
pub proof fn lemma_wire_text_splits_back(from: int, to: int)
    requires
        !TimeRange::side_text(from).contains('_'),
    ensures
        TimeRange::parsed(TimeRange::wire_text(from, to)) == TimeRange::of_sides(
            instant_of(TimeRange::side_text(from)),
            instant_of(TimeRange::side_text(to)),
        ),
{
    let first = TimeRange::side_text(from);
    let second = TimeRange::side_text(to);
    let text = TimeRange::wire_text(from, to);
    assert(text =~= first + seq!['_'] + second);
    assert(text[first.len() as int] == '_');
    text.index_of_first_ensures('_');
    let at = text.index_of_first('_').unwrap();
    if at < first.len() {
        assert(first[at] == '_');
        assert(first.contains('_'));
    }
    assert(text.take(at) =~= first);
    assert(text.skip(at + 1) =~= second);
}

} // verus!
