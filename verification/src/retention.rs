//! What holds of the tags kept for a cookie, and of the part of them that a
//! profile query returns.

use crate::model::{
    holds_time, in_window, insert_by_time, recent, retained, strictly_ascending, take_in,
    MAX_TAGS_BY_COOKIE,
};
use crate::types::{Action, UserTagView};
use vstd::prelude::*;

verus! {

/// Inserting by time keeps the order strict, changes nothing where the time
/// is held already, and otherwise adds the tag and nothing else.
pub proof fn lemma_insert_by_time(tags: Seq<UserTagView>, tag: UserTagView)
    requires
        strictly_ascending(tags),
    ensures
        strictly_ascending(insert_by_time(tags, tag)),
        holds_time(tags, tag.time) ==> insert_by_time(tags, tag) == tags,
        !holds_time(tags, tag.time) ==> insert_by_time(tags, tag).len() == tags.len() + 1,
        forall|x: UserTagView| #[trigger]
            insert_by_time(tags, tag).contains(x) <==> tags.contains(x) || (x == tag
                && !holds_time(tags, tag.time)),
    decreases tags.len(),
{
    let grown = insert_by_time(tags, tag);
    if tags.len() == 0 {
        assert(grown[0] == tag);
    } else if tags.last().time < tag.time {
        assert(grown[tags.len() as int] == tag);
        assert forall|x: UserTagView| #[trigger]
            grown.contains(x) <==> tags.contains(x) || x == tag by {
            if grown.contains(x) {
                let i = choose|i: int| 0 <= i < grown.len() && grown[i] == x;
                if i < tags.len() {
                    assert(tags[i] == x);
                }
            }
            if tags.contains(x) {
                let i = choose|i: int| 0 <= i < tags.len() && tags[i] == x;
                assert(grown[i] == x);
            }
        }
    } else if tags.last().time == tag.time {
        assert(tags[tags.len() - 1].time == tag.time);
    } else {
        let rest = tags.drop_last();
        let last = tags.last();
        lemma_insert_by_time(rest, tag);
        let inner = insert_by_time(rest, tag);
        assert(grown == inner.push(last));
        assert(holds_time(tags, tag.time) == holds_time(rest, tag.time)) by {
            if holds_time(tags, tag.time) {
                let i = choose|i: int| 0 <= i < tags.len() && (#[trigger] tags[i]).time == tag.time;
                assert(rest[i].time == tag.time);
            }
            if holds_time(rest, tag.time) {
                let i = choose|i: int| 0 <= i < rest.len() && (#[trigger] rest[i]).time == tag.time;
                assert(tags[i].time == tag.time);
            }
        }
        assert forall|i: int| 0 <= i < inner.len() implies (#[trigger] inner[i]).time
            < last.time by {
            assert(inner.contains(inner[i]));
            if rest.contains(inner[i]) {
                let j = choose|j: int| 0 <= j < rest.len() && rest[j] == inner[i];
                assert(tags[j].time < tags[tags.len() - 1].time);
            }
        }
        if holds_time(tags, tag.time) {
            assert(inner == rest);
            assert(grown =~= tags);
        }
        assert forall|x: UserTagView| #[trigger]
            grown.contains(x) <==> tags.contains(x) || (x == tag && !holds_time(
                tags,
                tag.time,
            )) by {
            if grown.contains(x) {
                let i = choose|i: int| 0 <= i < grown.len() && grown[i] == x;
                if i < inner.len() {
                    assert(inner.contains(inner[i]));
                    if rest.contains(x) {
                        let j = choose|j: int| 0 <= j < rest.len() && rest[j] == x;
                        assert(tags[j] == x);
                    }
                } else {
                    assert(tags[tags.len() - 1] == x);
                }
            }
            if tags.contains(x) {
                let j = choose|j: int| 0 <= j < tags.len() && tags[j] == x;
                if j < rest.len() {
                    assert(rest[j] == x);
                    assert(rest.contains(x));
                    assert(inner.contains(x));
                    let i = choose|i: int| 0 <= i < inner.len() && inner[i] == x;
                    assert(grown[i] == x);
                } else {
                    assert(grown[inner.len() as int] == x);
                }
            }
            if x == tag && !holds_time(tags, tag.time) {
                assert(inner.contains(x));
                let i = choose|i: int| 0 <= i < inner.len() && inner[i] == x;
                assert(grown[i] == x);
            }
        }
    }
}

/// Taking a tag in keeps the order strict and never keeps more than
/// [`MAX_TAGS_BY_COOKIE`] tags.
pub proof fn lemma_take_in(tags: Seq<UserTagView>, tag: UserTagView)
    requires
        strictly_ascending(tags),
        tags.len() <= MAX_TAGS_BY_COOKIE,
    ensures
        strictly_ascending(take_in(tags, tag)),
        take_in(tags, tag).len() <= MAX_TAGS_BY_COOKIE,
{
    lemma_insert_by_time(tags, tag);
}

/// The tags kept for a cookie and an action ascend strictly by time, and
/// there are never more than [`MAX_TAGS_BY_COOKIE`] of them.
pub proof fn lemma_retained_ascending(
    history: Seq<UserTagView>,
    cookie: Seq<char>,
    action: Action,
)
    ensures
        strictly_ascending(retained(history, cookie, action)),
        retained(history, cookie, action).len() <= MAX_TAGS_BY_COOKIE,
    decreases history.len(),
{
    if history.len() > 0 {
        lemma_retained_ascending(history.drop_last(), cookie, action);
        lemma_take_in(retained(history.drop_last(), cookie, action), history.last());
    }
}

/// What ingesting one more tag does to the tags kept for a cookie and an
/// action: the tag is taken in where it is theirs, and nothing changes where
/// it is not.
pub proof fn lemma_retained_push(
    history: Seq<UserTagView>,
    tag: UserTagView,
    cookie: Seq<char>,
    action: Action,
)
    ensures
        retained(history.push(tag), cookie, action) == if tag.cookie == cookie && tag.action
            == action {
            take_in(retained(history, cookie, action), tag)
        } else {
            retained(history, cookie, action)
        },
{
    assert(history.push(tag).drop_last() =~= history);
}

/// Nothing is kept for a cookie of which no tag was ingested.
pub proof fn lemma_retained_unknown(history: Seq<UserTagView>, cookie: Seq<char>, action: Action)
    requires
        forall|k: int| 0 <= k < history.len() ==> (#[trigger] history[k]).cookie != cookie,
    ensures
        retained(history, cookie, action) == Seq::<UserTagView>::empty(),
    decreases history.len(),
{
    if history.len() > 0 {
        lemma_retained_unknown(history.drop_last(), cookie, action);
    }
}

/// Where a property holds of the tags from `lo` up to `hi` and of no other,
/// filtering by it gives that stretch.
pub proof fn lemma_filter_stretch(
    tags: Seq<UserTagView>,
    lo: int,
    hi: int,
    keep: spec_fn(UserTagView) -> bool,
)
    requires
        0 <= lo <= hi <= tags.len(),
        forall|i: int| lo <= i < hi ==> keep(#[trigger] tags[i]),
        forall|i: int| 0 <= i < lo ==> !keep(#[trigger] tags[i]),
        forall|i: int| hi <= i < tags.len() ==> !keep(#[trigger] tags[i]),
    ensures
        tags.filter(keep) == tags.subrange(lo, hi),
    decreases tags.len(),
{
    reveal(Seq::filter);
    if tags.len() == 0 {
        assert(tags.filter(keep) =~= tags.subrange(lo, hi));
    } else {
        let rest = tags.drop_last();
        if hi == tags.len() {
            if lo == hi {
                lemma_filter_stretch(rest, lo - 1, lo - 1, keep);
                assert(tags.filter(keep) =~= tags.subrange(lo, hi));
            } else {
                lemma_filter_stretch(rest, lo, hi - 1, keep);
                assert(rest.subrange(lo, hi - 1).push(tags.last()) =~= tags.subrange(lo, hi));
            }
        } else {
            lemma_filter_stretch(rest, lo, hi, keep);
            assert(rest.subrange(lo, hi) =~= tags.subrange(lo, hi));
        }
    }
}

/// Of tags that ascend by time, with `lo` the first at or after `from` and
/// `hi` the first at or after `to`, a profile query returns those from
/// `hi - 1` downwards, as many as the limit allows and not below `lo`.
pub proof fn lemma_recent_of_ascending(
    tags: Seq<UserTagView>,
    from: int,
    to: int,
    limit: nat,
    lo: int,
    hi: int,
)
    requires
        0 <= lo <= tags.len(),
        0 <= hi <= tags.len(),
        forall|i: int| 0 <= i < lo ==> (#[trigger] tags[i]).time < from,
        forall|i: int| lo <= i < tags.len() ==> (#[trigger] tags[i]).time >= from,
        forall|i: int| 0 <= i < hi ==> (#[trigger] tags[i]).time < to,
        forall|i: int| hi <= i < tags.len() ==> (#[trigger] tags[i]).time >= to,
    ensures
        lo >= hi ==> recent(tags, from, to, limit).len() == 0,
        lo < hi ==> recent(tags, from, to, limit).len() == if hi - lo <= limit {
            hi - lo
        } else {
            limit as int
        },
        forall|k: int|
            0 <= k < recent(tags, from, to, limit).len() ==> #[trigger] recent(
                tags,
                from,
                to,
                limit,
            )[k] == tags[hi - 1 - k],
{
    let keep = |tag: UserTagView| in_window(tag, from, to);
    if lo < hi {
        lemma_filter_stretch(tags, lo, hi, keep);
    } else {
        lemma_filter_stretch(tags, hi, hi, keep);
    }
}

/// How many of the rows, which ascend by time, are older than `bound`.
pub open spec fn count_older(rows: Seq<UserTagView>, bound: int) -> int
    decreases rows.len(),
{
    if rows.len() == 0 {
        0
    } else if rows.last().time < bound {
        rows.len() as int
    } else {
        count_older(rows.drop_last(), bound)
    }
}

/// The rows older than a bound are the first rows, and no other.
pub proof fn lemma_count_older(rows: Seq<UserTagView>, bound: int)
    requires
        strictly_ascending(rows),
    ensures
        0 <= count_older(rows, bound) <= rows.len(),
        forall|i: int| 0 <= i < count_older(rows, bound) ==> (#[trigger] rows[i]).time < bound,
        forall|i: int|
            count_older(rows, bound) <= i < rows.len() ==> (#[trigger] rows[i]).time >= bound,
    decreases rows.len(),
{
    if rows.len() > 0 {
        if rows.last().time < bound {
            assert forall|i: int| 0 <= i < rows.len() implies (#[trigger] rows[i]).time
                < bound by {
                if i < rows.len() - 1 {
                    assert(rows[i].time < rows[rows.len() - 1].time);
                }
            }
        } else {
            lemma_count_older(rows.drop_last(), bound);
            assert forall|i: int| 0 <= i < count_older(rows, bound) implies (
            #[trigger] rows[i]).time < bound by {
                assert(rows.drop_last()[i].time < bound);
            }
            assert forall|i: int| count_older(rows, bound) <= i < rows.len() implies (
            #[trigger] rows[i]).time >= bound by {
                if i < rows.len() - 1 {
                    assert(rows.drop_last()[i].time >= bound);
                }
            }
        }
    }
}

/// A place that has the older rows before it and no other is the count of
/// the older rows.
pub proof fn lemma_count_older_is(rows: Seq<UserTagView>, bound: int, at: int)
    requires
        strictly_ascending(rows),
        0 <= at <= rows.len(),
        forall|i: int| 0 <= i < at ==> (#[trigger] rows[i]).time < bound,
        forall|i: int| at <= i < rows.len() ==> (#[trigger] rows[i]).time >= bound,
    ensures
        count_older(rows, bound) == at,
{
    lemma_count_older(rows, bound);
    let c = count_older(rows, bound);
    if c < at {
        assert(rows[c].time < bound);
    }
    if at < c {
        assert(rows[at].time >= bound);
    }
}

/// Inserting by time puts a tag at the place its time gives it, between its
/// neighbours, and changes nothing where a tag of that time stands.
pub proof fn lemma_insert_by_time_at(rows: Seq<UserTagView>, tag: UserTagView)
    requires
        strictly_ascending(rows),
    ensures
        ({
            let at = count_older(rows, tag.time);
            if at < rows.len() && rows[at].time == tag.time {
                insert_by_time(rows, tag) == rows
            } else {
                insert_by_time(rows, tag) == rows.insert(at, tag)
            }
        }),
    decreases rows.len(),
{
    lemma_count_older(rows, tag.time);
    if rows.len() == 0 {
        assert(insert_by_time(rows, tag) =~= rows.insert(0, tag));
    } else if rows.last().time < tag.time {
        assert(insert_by_time(rows, tag) =~= rows.insert(rows.len() as int, tag));
    } else {
        let rest = rows.drop_last();
        lemma_count_older(rest, tag.time);
        let at = count_older(rest, tag.time);
        if rows.last().time == tag.time {
            assert forall|i: int| 0 <= i < rest.len() implies (#[trigger] rest[i]).time
                < tag.time by {
                assert(rows[i].time < rows[rows.len() - 1].time);
            }
            lemma_count_older_is(rest, tag.time, rest.len() as int);
        } else {
            lemma_insert_by_time_at(rest, tag);
            if at < rest.len() && rest[at].time == tag.time {
                assert(rows[at] == rest[at]);
                assert(rest.push(rows.last()) =~= rows);
            } else {
                if at < rest.len() {
                    assert(rows[at] == rest[at]);
                }
                assert(insert_by_time(rows, tag) =~= rows.insert(at, tag));
            }
        }
    }
}

/// Where as many tags are kept as ever are, a tag older than all of them
/// does not enter: the kept tags stay as they were.
pub proof fn lemma_full_side_refuses_older(kept: Seq<UserTagView>, tag: UserTagView)
    requires
        strictly_ascending(kept),
        kept.len() == MAX_TAGS_BY_COOKIE,
        tag.time < kept[0].time,
    ensures
        take_in(kept, tag) == kept,
{
    lemma_insert_by_time_at(kept, tag);
    assert forall|i: int| 0 <= i < kept.len() implies (#[trigger] kept[i]).time >= tag.time by {
        if i > 0 {
            assert(kept[0].time < kept[i].time);
        }
    }
    lemma_count_older_is(kept, tag.time, 0);
    assert(kept.insert(0, tag).drop_first() =~= kept);
}

/// Taking a tag in keeps the newest: every tag of the result was kept before
/// or is the new tag, and of every tag that was kept before, and of the new
/// tag, either the time is held by a tag of the result, or the result holds
/// as many tags as are ever kept and all of them are newer.
pub proof fn lemma_take_in_keeps_newest(kept: Seq<UserTagView>, tag: UserTagView, one: UserTagView)
    requires
        strictly_ascending(kept),
        kept.len() <= MAX_TAGS_BY_COOKIE,
        kept.contains(one) || one == tag,
    ensures
        take_in(kept, tag).len() <= MAX_TAGS_BY_COOKIE,
        forall|x: UserTagView| #[trigger]
            take_in(kept, tag).contains(x) ==> kept.contains(x) || x == tag,
        holds_time(take_in(kept, tag), one.time) || (take_in(kept, tag).len()
            == MAX_TAGS_BY_COOKIE && one.time < take_in(kept, tag)[0].time),
{
    lemma_insert_by_time(kept, tag);
    let grown = insert_by_time(kept, tag);
    let after = take_in(kept, tag);
    assert forall|x: UserTagView| #[trigger] after.contains(x) implies kept.contains(x) || x
        == tag by {
        let i = choose|i: int| 0 <= i < after.len() && after[i] == x;
        if grown.len() > MAX_TAGS_BY_COOKIE {
            assert(grown[i + 1] == x);
        }
        assert(grown.contains(x));
    }
    assert(holds_time(grown, one.time)) by {
        if kept.contains(one) {
            assert(grown.contains(one));
            let i = choose|i: int| 0 <= i < grown.len() && grown[i] == one;
            assert(grown[i].time == one.time);
        } else if holds_time(kept, tag.time) {
        } else {
            assert(grown.contains(tag));
            let i = choose|i: int| 0 <= i < grown.len() && grown[i] == tag;
            assert(grown[i].time == one.time);
        }
    }
    let at = choose|i: int| 0 <= i < grown.len() && (#[trigger] grown[i]).time == one.time;
    if grown.len() > MAX_TAGS_BY_COOKIE {
        if at >= 1 {
            assert(after[at - 1].time == one.time);
        } else {
            assert(grown[0].time < grown[1].time);
            assert(after[0] == grown[1]);
        }
    } else {
        assert(after[at].time == one.time);
    }
}

} // verus!
