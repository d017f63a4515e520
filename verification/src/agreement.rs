//! When the two backends give the same profile. The rows that the
//! wide-column store holds for a cookie and an action are taken as a
//! sequence that ascends by time; what is proved holds of every store that
//! is written and thinned as this module says.

use crate::laws::{lemma_newest_are_kept, lemma_recent_is_valid, strictly_descending};
use crate::model::{
    holds_time, in_window, insert_by_time, recent, retained, strictly_ascending, take_in,
    MAX_TAGS_BY_COOKIE,
};
use crate::retention::{
    count_older, lemma_count_older, lemma_count_older_is, lemma_filter_stretch,
    lemma_insert_by_time_at, lemma_recent_of_ascending, lemma_retained_ascending,
    lemma_retained_push,
};
use crate::types::{Action, UserTagView};
use vstd::prelude::*;

verus! {

/// Whether a tag is of the cookie and the action.
pub open spec fn is_of(tag: UserTagView, cookie: Seq<char>, action: Action) -> bool {
    tag.cookie == cookie && tag.action == action
}

/// Writes a row into the rows of one cookie and one action: a row at the
/// same time is overwritten.
pub open spec fn put_row(rows: Seq<UserTagView>, tag: UserTagView) -> Seq<UserTagView>
    decreases rows.len(),
{
    if rows.len() == 0 {
        seq![tag]
    } else if rows.last().time < tag.time {
        rows.push(tag)
    } else if rows.last().time == tag.time {
        rows.drop_last().push(tag)
    } else {
        put_row(rows.drop_last(), tag).push(rows.last())
    }
}

/// The rows that are left when those older than `mark` are deleted.
pub open spec fn delete_older(rows: Seq<UserTagView>, mark: int) -> Seq<UserTagView> {
    rows.filter(|row: UserTagView| row.time >= mark)
}

/// The rows that the store holds for a cookie and an action after the tags
/// of `history` were ingested in order and nothing was deleted.
pub open spec fn stored_rows(history: Seq<UserTagView>, cookie: Seq<char>, action: Action) -> Seq<
    UserTagView,
>
    decreases history.len(),
{
    if history.len() == 0 {
        Seq::empty()
    } else {
        let before = stored_rows(history.drop_last(), cookie, action);
        if is_of(history.last(), cookie, action) {
            put_row(before, history.last())
        } else {
            before
        }
    }
}

/// What the store answers a profile read with: the newest rows of the
/// window, newest first, at most [`MAX_TAGS_BY_COOKIE`].
pub open spec fn store_answer(rows: Seq<UserTagView>, from: int, to: int) -> Seq<UserTagView> {
    recent(rows, from, to, MAX_TAGS_BY_COOKIE as nat)
}

/// One list of the profile that the wide-column backend returns: the first
/// `limit` rows of the store's answer.
pub open spec fn store_side(rows: Seq<UserTagView>, from: int, to: int, limit: nat) -> Seq<
    UserTagView,
> {
    let answer = store_answer(rows, from, to);
    if answer.len() <= limit {
        answer
    } else {
        answer.take(limit as int)
    }
}

/// Whether tags that were ingested for the cookie and the action with the
/// same time are the same tag.
pub open spec fn ties_agree(history: Seq<UserTagView>, cookie: Seq<char>, action: Action) -> bool {
    forall|i: int, j: int|
        0 <= i < j < history.len() && is_of(#[trigger] history[i], cookie, action) && is_of(
            #[trigger] history[j],
            cookie,
            action,
        ) && history[i].time == history[j].time ==> history[i] == history[j]
}

/// Whether the store holds what the in-memory backend keeps: its rows ascend
/// strictly by time, every row is a tag that was ingested for the cookie and
/// the action, and the kept tags are its newest rows.
pub open spec fn keeps_newest(
    rows: Seq<UserTagView>,
    history: Seq<UserTagView>,
    cookie: Seq<char>,
    action: Action,
) -> bool {
    let kept = retained(history, cookie, action);
    &&& strictly_ascending(rows)
    &&& kept.len() <= rows.len()
    &&& kept == rows.skip(rows.len() - kept.len())
    &&& forall|i: int|
        0 <= i < rows.len() ==> history.contains(#[trigger] rows[i]) && is_of(
            rows[i],
            cookie,
            action,
        )
}

/// Writing a row puts it at the place its time gives it: over the row of
/// that time, where there is one, and between its neighbours, where there is
/// none.
proof fn lemma_put_row_at(rows: Seq<UserTagView>, tag: UserTagView)
    requires
        strictly_ascending(rows),
    ensures
        ({
            let at = count_older(rows, tag.time);
            if at < rows.len() && rows[at].time == tag.time {
                put_row(rows, tag) == rows.update(at, tag)
            } else {
                put_row(rows, tag) == rows.insert(at, tag)
            }
        }),
    decreases rows.len(),
{
    lemma_count_older(rows, tag.time);
    if rows.len() == 0 {
        assert(put_row(rows, tag) =~= rows.insert(0, tag));
    } else if rows.last().time < tag.time {
        assert(put_row(rows, tag) =~= rows.insert(rows.len() as int, tag));
    } else {
        let rest = rows.drop_last();
        lemma_count_older(rest, tag.time);
        let at = count_older(rest, tag.time);
        if rows.last().time == tag.time {
            assert forall|i: int| 0 <= i < rest.len() implies (#[trigger] rest[i]).time
                < tag.time by {
                assert(rows[i].time < rows[rows.len() - 1].time);
            }
            lemma_count_older_is(rest, tag.time, rest.len() as int);
            assert(put_row(rows, tag) =~= rows.update(at, tag));
        } else {
            lemma_put_row_at(rest, tag);
            if at < rest.len() && rest[at].time == tag.time {
                assert(rows[at] == rest[at]);
                assert(put_row(rows, tag) =~= rows.update(at, tag));
            } else {
                if at < rest.len() {
                    assert(rows[at] == rest[at]);
                }
                assert(put_row(rows, tag) =~= rows.insert(at, tag));
            }
        }
    }
}

/// Of rows that descend strictly and whose times are all held by tags that
/// ascend strictly, the row at place `j` is held at least `j` places before
/// the last.
proof fn lemma_descending_held(kept: Seq<UserTagView>, answer: Seq<UserTagView>, j: int) -> (at:
    int)
    requires
        strictly_ascending(kept),
        strictly_descending(answer),
        0 <= j < answer.len(),
        forall|i: int| 0 <= i < answer.len() ==> holds_time(kept, (#[trigger] answer[i]).time),
    ensures
        0 <= at < kept.len() - j,
        kept[at].time == answer[j].time,
    decreases j,
{
    let at = choose|at: int| 0 <= at < kept.len() && (#[trigger] kept[at]).time == answer[j].time;
    if j > 0 {
        let before = lemma_descending_held(kept, answer, j - 1);
        assert(answer[j - 1].time > answer[j].time);
        if at >= before {
            if at > before {
                assert(kept[before].time < kept[at].time);
            }
        }
    }
    at
}

/// A mark is safe: where the store answered with as many rows as are ever
/// kept, each of them a tag that was ingested for the cookie and the action,
/// no kept tag is older than the oldest row of the answer. Rows older than
/// that are never kept.
pub proof fn lemma_mark_is_safe(
    history: Seq<UserTagView>,
    cookie: Seq<char>,
    action: Action,
    answer: Seq<UserTagView>,
    tag: UserTagView,
)
    requires
        answer.len() == MAX_TAGS_BY_COOKIE,
        strictly_descending(answer),
        forall|j: int|
            0 <= j < answer.len() ==> history.contains(#[trigger] answer[j]) && is_of(
                answer[j],
                cookie,
                action,
            ),
        retained(history, cookie, action).contains(tag),
    ensures
        tag.time >= answer.last().time,
{
    let kept = retained(history, cookie, action);
    lemma_retained_ascending(history, cookie, action);
    if tag.time < answer.last().time {
        let held = choose|i: int| 0 <= i < kept.len() && kept[i] == tag;
        assert(kept[0].time <= tag.time) by {
            if held > 0 {
                assert(kept[0].time < kept[held].time);
            }
        }
        assert forall|j: int| 0 <= j < answer.len() implies holds_time(
            kept,
            (#[trigger] answer[j]).time,
        ) by {
            let k = choose|k: int| 0 <= k < history.len() && history[k] == answer[j];
            lemma_newest_are_kept(history, cookie, action, k);
            if j < answer.len() - 1 {
                assert(answer[j].time > answer[answer.len() - 1].time);
            }
        }
        let at = lemma_descending_held(kept, answer, answer.len() - 1);
        assert(at == 0);
    }
}

/// Both backends return the same profile list wherever the store holds what
/// the in-memory backend keeps, and the window reaches no row of the store
/// that is not kept, or holds at least `limit` kept tags.
pub proof fn lemma_profiles_agree(
    rows: Seq<UserTagView>,
    history: Seq<UserTagView>,
    cookie: Seq<char>,
    action: Action,
    from: int,
    to: int,
    limit: nat,
)
    requires
        keeps_newest(rows, history, cookie, action),
        limit <= MAX_TAGS_BY_COOKIE,
        (forall|i: int|
            0 <= i < rows.len() - retained(history, cookie, action).len() ==> !in_window(
                #[trigger] rows[i],
                from,
                to,
            )) || recent(retained(history, cookie, action), from, to, limit).len() >= limit,
    ensures
        store_side(rows, from, to, limit) == recent(
            retained(history, cookie, action),
            from,
            to,
            limit,
        ),
{
    let kept = retained(history, cookie, action);
    let start = rows.len() - kept.len();
    lemma_retained_ascending(history, cookie, action);
    lemma_count_older(rows, from);
    lemma_count_older(rows, to);
    let lo = count_older(rows, from);
    let hi = count_older(rows, to);
    let kept_lo = if lo >= start {
        lo - start
    } else {
        0
    };
    let kept_hi = if hi >= start {
        hi - start
    } else {
        0
    };
    assert forall|i: int| 0 <= i < kept.len() implies #[trigger] kept[i] == rows[start + i] by {}
    assert forall|i: int| 0 <= i < kept_lo implies (#[trigger] kept[i]).time < from by {
        assert(rows[start + i].time < from);
    }
    assert forall|i: int| kept_lo <= i < kept.len() implies (#[trigger] kept[i]).time >= from by {
        assert(rows[start + i].time >= from);
    }
    assert forall|i: int| 0 <= i < kept_hi implies (#[trigger] kept[i]).time < to by {
        assert(rows[start + i].time < to);
    }
    assert forall|i: int| kept_hi <= i < kept.len() implies (#[trigger] kept[i]).time >= to by {
        assert(rows[start + i].time >= to);
    }
    lemma_recent_of_ascending(rows, from, to, MAX_TAGS_BY_COOKIE as nat, lo, hi);
    lemma_recent_of_ascending(kept, from, to, limit, kept_lo, kept_hi);
    let answer = store_answer(rows, from, to);
    let side = store_side(rows, from, to, limit);
    let wanted = recent(kept, from, to, limit);
    if lo < hi {
        assert(in_window(rows[lo], from, to));
        if forall|i: int| 0 <= i < start ==> !in_window(#[trigger] rows[i], from, to) {
            assert(lo >= start);
        }
        assert(side.len() == wanted.len());
        assert forall|k: int| 0 <= k < side.len() implies side[k] == wanted[k] by {
            assert(side[k] == answer[k]);
            assert(answer[k] == rows[hi - 1 - k]);
            assert(wanted[k] == kept[kept_hi - 1 - k]);
        }
    }
    assert(side =~= wanted);
}

/// Deleting the rows older than a mark leaves a store that holds what the
/// in-memory backend keeps, where no kept tag is older than the mark.
pub proof fn lemma_delete_keeps_newest(
    rows: Seq<UserTagView>,
    history: Seq<UserTagView>,
    cookie: Seq<char>,
    action: Action,
    mark: int,
)
    requires
        keeps_newest(rows, history, cookie, action),
        forall|tag: UserTagView| #[trigger]
            retained(history, cookie, action).contains(tag) ==> tag.time >= mark,
    ensures
        keeps_newest(delete_older(rows, mark), history, cookie, action),
{
    let kept = retained(history, cookie, action);
    let start = rows.len() - kept.len();
    lemma_count_older(rows, mark);
    let cut = count_older(rows, mark);
    lemma_filter_stretch(rows, cut, rows.len() as int, |row: UserTagView| row.time >= mark);
    let left = delete_older(rows, mark);
    assert(left == rows.subrange(cut, rows.len() as int));
    if kept.len() > 0 {
        assert(kept.contains(kept[0]));
        assert(kept[0] == rows[start]);
        assert(cut <= start);
    }
    assert(kept =~= left.skip(left.len() - kept.len()));
    assert forall|i: int| 0 <= i < left.len() implies history.contains(#[trigger] left[i])
        && is_of(left[i], cookie, action) by {
        assert(left[i] == rows[cut + i]);
    }
    assert forall|i: int, j: int| 0 <= i < j < left.len() implies left[i].time
        < left[j].time by {
        assert(rows[cut + i].time < rows[cut + j].time);
    }
}

/// Thinning the store after a full answer changes no later answer: where a
/// store that holds what the in-memory backend keeps answered a read with as
/// many rows as are ever kept, and the rows older than the oldest row of the
/// answer are deleted, the store still holds what the in-memory backend
/// keeps.
pub proof fn lemma_thinning_keeps_newest(
    rows: Seq<UserTagView>,
    history: Seq<UserTagView>,
    cookie: Seq<char>,
    action: Action,
    from: int,
    to: int,
)
    requires
        keeps_newest(rows, history, cookie, action),
        store_answer(rows, from, to).len() == MAX_TAGS_BY_COOKIE,
    ensures
        keeps_newest(
            delete_older(rows, store_answer(rows, from, to).last().time),
            history,
            cookie,
            action,
        ),
{
    let answer = store_answer(rows, from, to);
    let mark = answer.last().time;
    lemma_recent_is_valid(rows, from, to, MAX_TAGS_BY_COOKIE as nat);
    assert forall|j: int| 0 <= j < answer.len() implies history.contains(#[trigger] answer[j])
        && is_of(answer[j], cookie, action) by {
        let i = choose|i: int| 0 <= i < rows.len() && rows[i] == answer[j];
        assert(history.contains(rows[i]));
    }
    assert forall|tag: UserTagView| #[trigger]
        retained(history, cookie, action).contains(tag) implies tag.time >= mark by {
        lemma_mark_is_safe(history, cookie, action, answer, tag);
    }
    lemma_delete_keeps_newest(rows, history, cookie, action, mark);
}

/// A store holds rows that are not kept only where as many tags are kept as
/// ever are.
proof fn lemma_older_rows_mean_full(
    rows: Seq<UserTagView>,
    history: Seq<UserTagView>,
    cookie: Seq<char>,
    action: Action,
)
    requires
        keeps_newest(rows, history, cookie, action),
        rows.len() > retained(history, cookie, action).len(),
    ensures
        retained(history, cookie, action).len() == MAX_TAGS_BY_COOKIE,
{
    let kept = retained(history, cookie, action);
    let start = rows.len() - kept.len();
    let k = choose|k: int| 0 <= k < history.len() && history[k] == rows[0];
    lemma_newest_are_kept(history, cookie, action, k);
    if holds_time(kept, rows[0].time) {
        let i = choose|i: int| 0 <= i < kept.len() && (#[trigger] kept[i]).time == rows[0].time;
        assert(kept[i] == rows[start + i]);
        assert(rows[0].time < rows[start + i].time);
    }
}

/// Where the newest rows begin at `start`, the place of a time among them is
/// its place among all rows, less `start`, and not before the first.
proof fn lemma_place_among_newest(rows: Seq<UserTagView>, start: int, bound: int)
    requires
        strictly_ascending(rows),
        0 <= start <= rows.len(),
    ensures
        strictly_ascending(rows.skip(start)),
        count_older(rows.skip(start), bound) == if count_older(rows, bound) >= start {
            count_older(rows, bound) - start
        } else {
            0
        },
{
    let newest = rows.skip(start);
    let at = count_older(rows, bound);
    lemma_count_older(rows, bound);
    assert forall|i: int, j: int| 0 <= i < j < newest.len() implies newest[i].time
        < newest[j].time by {
        assert(rows[start + i].time < rows[start + j].time);
    }
    let place = if at >= start {
        at - start
    } else {
        0
    };
    assert forall|i: int| 0 <= i < place implies (#[trigger] newest[i]).time < bound by {
        assert(rows[start + i].time < bound);
    }
    assert forall|i: int| place <= i < newest.len() implies (#[trigger] newest[i]).time
        >= bound by {
        assert(rows[start + i].time >= bound);
    }
    lemma_count_older_is(newest, bound, place);
}

/// Taking a tag into the newest rows of a store, where a row of its time
/// stands: nothing changes.
proof fn lemma_take_in_held(rows: Seq<UserTagView>, start: int, tag: UserTagView)
    requires
        strictly_ascending(rows),
        0 <= start <= rows.len(),
        rows.len() - start <= MAX_TAGS_BY_COOKIE,
        start > 0 ==> rows.len() - start == MAX_TAGS_BY_COOKIE,
        count_older(rows, tag.time) < rows.len(),
        rows[count_older(rows, tag.time)].time == tag.time,
    ensures
        take_in(rows.skip(start), tag) == rows.skip(start),
{
    let kept = rows.skip(start);
    let at = count_older(rows, tag.time);
    lemma_count_older(rows, tag.time);
    lemma_place_among_newest(rows, start, tag.time);
    lemma_insert_by_time_at(kept, tag);
    if at >= start {
        assert(kept[at - start] == rows[at]);
    } else {
        assert(kept[0] == rows[start]);
        assert(rows[at].time < rows[start].time);
        assert(insert_by_time(kept, tag) == kept.insert(0, tag));
        assert(kept.insert(0, tag).drop_first() =~= kept);
    }
}

/// Putting a tag between its neighbours keeps the order strict.
proof fn lemma_insert_keeps_order(rows: Seq<UserTagView>, tag: UserTagView)
    requires
        strictly_ascending(rows),
        !(count_older(rows, tag.time) < rows.len() && rows[count_older(rows, tag.time)].time
            == tag.time),
    ensures
        strictly_ascending(rows.insert(count_older(rows, tag.time), tag)),
{
    let at = count_older(rows, tag.time);
    let grown = rows.insert(at, tag);
    lemma_count_older(rows, tag.time);
    assert forall|i: int, j: int| 0 <= i < j < grown.len() implies grown[i].time
        < grown[j].time by {
        if i < at && j < at {
            assert(grown[i] == rows[i] && grown[j] == rows[j]);
        } else if i < at && j == at {
            assert(grown[i] == rows[i]);
        } else if i < at && j > at {
            assert(grown[i] == rows[i] && grown[j] == rows[j - 1]);
        } else if i == at {
            assert(grown[j] == rows[j - 1]);
            assert(rows[j - 1].time >= tag.time);
        } else {
            assert(grown[i] == rows[i - 1] && grown[j] == rows[j - 1]);
        }
    }
}

/// Taking a new tag into the newest rows of a store, where the tag is no
/// older than the first of them: the kept tags are again the newest rows.
proof fn lemma_take_in_among(rows: Seq<UserTagView>, start: int, tag: UserTagView)
    requires
        strictly_ascending(rows),
        0 <= start <= rows.len(),
        rows.len() - start <= MAX_TAGS_BY_COOKIE,
        count_older(rows, tag.time) >= start,
        !(count_older(rows, tag.time) < rows.len() && rows[count_older(rows, tag.time)].time
            == tag.time),
    ensures
        ({
            let grown = rows.insert(count_older(rows, tag.time), tag);
            let kept = take_in(rows.skip(start), tag);
            &&& kept.len() <= grown.len()
            &&& kept == grown.skip(grown.len() - kept.len())
        }),
{
    let kept = rows.skip(start);
    let at = count_older(rows, tag.time);
    let grown = rows.insert(at, tag);
    lemma_count_older(rows, tag.time);
    lemma_place_among_newest(rows, start, tag.time);
    lemma_insert_by_time_at(kept, tag);
    if at < rows.len() {
        assert(kept[at - start] == rows[at]);
    }
    let grown_kept = kept.insert(at - start, tag);
    assert(insert_by_time(kept, tag) == grown_kept);
    assert(grown_kept.len() == kept.len() + 1);
    assert(grown_kept =~= grown.skip(start));
    if grown_kept.len() > MAX_TAGS_BY_COOKIE {
        assert(grown_kept.drop_first() =~= grown.skip(start + 1));
    }
}

/// Taking a new tag into the newest rows of a store, where the tag is older
/// than the first of them and they are as many as are ever kept: the tag
/// leaves at once, and the kept tags are the newest rows as before.
proof fn lemma_take_in_below(rows: Seq<UserTagView>, start: int, tag: UserTagView)
    requires
        strictly_ascending(rows),
        0 <= start <= rows.len(),
        rows.len() - start == MAX_TAGS_BY_COOKIE,
        count_older(rows, tag.time) < start,
        !(count_older(rows, tag.time) < rows.len() && rows[count_older(rows, tag.time)].time
            == tag.time),
    ensures
        ({
            let grown = rows.insert(count_older(rows, tag.time), tag);
            let kept = take_in(rows.skip(start), tag);
            &&& kept.len() <= grown.len()
            &&& kept == grown.skip(grown.len() - kept.len())
        }),
{
    let kept = rows.skip(start);
    let at = count_older(rows, tag.time);
    let grown = rows.insert(at, tag);
    lemma_count_older(rows, tag.time);
    lemma_place_among_newest(rows, start, tag.time);
    lemma_insert_by_time_at(kept, tag);
    assert(kept[0] == rows[start]);
    assert(rows[start].time >= tag.time);
    assert(rows[at].time < rows[start].time);
    assert(insert_by_time(kept, tag) == kept.insert(0, tag));
    assert(kept.insert(0, tag).len() == kept.len() + 1);
    assert(kept.insert(0, tag).drop_first() =~= kept);
    assert(kept =~= grown.skip(start + 1));
}

/// Ingesting a tag leaves a store that holds what the in-memory backend
/// keeps, where tags ingested with the same time are the same tag.
pub proof fn lemma_put_keeps_newest(
    rows: Seq<UserTagView>,
    history: Seq<UserTagView>,
    cookie: Seq<char>,
    action: Action,
    tag: UserTagView,
)
    requires
        keeps_newest(rows, history, cookie, action),
        ties_agree(history.push(tag), cookie, action),
    ensures
        keeps_newest(
            if is_of(tag, cookie, action) {
                put_row(rows, tag)
            } else {
                rows
            },
            history.push(tag),
            cookie,
            action,
        ),
{
    let after = history.push(tag);
    let kept = retained(history, cookie, action);
    let start = rows.len() - kept.len();
    lemma_retained_push(history, tag, cookie, action);
    lemma_retained_ascending(history, cookie, action);
    assert forall|x: UserTagView| history.contains(x) implies after.contains(x) by {
        let k = choose|k: int| 0 <= k < history.len() && history[k] == x;
        assert(after[k] == x);
    }
    if is_of(tag, cookie, action) {
        assert(after[history.len() as int] == tag);
        if start > 0 {
            lemma_older_rows_mean_full(rows, history, cookie, action);
        }
        lemma_put_row_at(rows, tag);
        lemma_count_older(rows, tag.time);
        let at = count_older(rows, tag.time);
        if at < rows.len() && rows[at].time == tag.time {
            // A row of that time stands: it is the same tag.
            assert(history.contains(rows[at]) && is_of(rows[at], cookie, action));
            let k = choose|k: int| 0 <= k < history.len() && history[k] == rows[at];
            assert(after[k] == rows[at]);
            assert(rows[at] == tag);
            assert(put_row(rows, tag) =~= rows);
            lemma_take_in_held(rows, start, tag);
        } else {
            let grown = rows.insert(at, tag);
            lemma_insert_keeps_order(rows, tag);
            if at >= start {
                lemma_take_in_among(rows, start, tag);
            } else {
                lemma_take_in_below(rows, start, tag);
            }
            assert forall|i: int| 0 <= i < grown.len() implies after.contains(#[trigger] grown[i])
                && is_of(grown[i], cookie, action) by {
                if i < at {
                    assert(grown[i] == rows[i]);
                } else if i > at {
                    assert(grown[i] == rows[i - 1]);
                }
            }
        }
    }
}

/// A store that was only written to holds what the in-memory backend keeps,
/// where tags ingested with the same time are the same tag: however many
/// tags were ingested.
pub proof fn lemma_stored_rows_keep_newest(
    history: Seq<UserTagView>,
    cookie: Seq<char>,
    action: Action,
)
    requires
        ties_agree(history, cookie, action),
    ensures
        keeps_newest(stored_rows(history, cookie, action), history, cookie, action),
    decreases history.len(),
{
    if history.len() == 0 {
        assert(retained(history, cookie, action) =~= stored_rows(history, cookie, action).skip(0));
    } else {
        let before = history.drop_last();
        assert(before.push(history.last()) =~= history);
        assert(ties_agree(before, cookie, action)) by {
            assert forall|i: int, j: int|
                0 <= i < j < before.len() && is_of(#[trigger] before[i], cookie, action) && is_of(
                    #[trigger] before[j],
                    cookie,
                    action,
                ) && before[i].time == before[j].time implies before[i] == before[j] by {
                assert(history[i] == before[i] && history[j] == before[j]);
            }
        }
        lemma_stored_rows_keep_newest(before, cookie, action);
        lemma_put_keeps_newest(
            stored_rows(before, cookie, action),
            before,
            cookie,
            action,
            history.last(),
        );
    }
}

/// Both backends return the same profile list for every window that ends
/// after the newest row of the store, however many tags were ingested.
pub proof fn lemma_profiles_agree_to_the_top(
    rows: Seq<UserTagView>,
    history: Seq<UserTagView>,
    cookie: Seq<char>,
    action: Action,
    from: int,
    to: int,
    limit: nat,
)
    requires
        keeps_newest(rows, history, cookie, action),
        limit <= MAX_TAGS_BY_COOKIE,
        forall|i: int| 0 <= i < rows.len() ==> (#[trigger] rows[i]).time < to,
    ensures
        store_side(rows, from, to, limit) == recent(
            retained(history, cookie, action),
            from,
            to,
            limit,
        ),
{
    let kept = retained(history, cookie, action);
    let start = rows.len() - kept.len();
    lemma_retained_ascending(history, cookie, action);
    if exists|i: int| 0 <= i < start && in_window(#[trigger] rows[i], from, to) {
        // A row that is not kept lies in the window: the side is full, and
        // all of it lies in the window.
        let i = choose|i: int| 0 <= i < start && in_window(#[trigger] rows[i], from, to);
        let k = choose|k: int| 0 <= k < history.len() && history[k] == rows[i];
        lemma_newest_are_kept(history, cookie, action, k);
        if holds_time(kept, rows[i].time) {
            let j = choose|j: int| 0 <= j < kept.len() && (#[trigger] kept[j]).time == rows[i].time;
            assert(kept[j] == rows[start + j]);
            assert(rows[i].time < rows[start + j].time);
        }
        assert(kept.len() == MAX_TAGS_BY_COOKIE);
        assert forall|j: int| 0 <= j < kept.len() implies from <= (#[trigger] kept[j]).time
            < to by {
            assert(kept[j] == rows[start + j]);
            assert(rows[i].time < rows[start + j].time);
        }
        lemma_recent_of_ascending(kept, from, to, limit, 0, kept.len() as int);
    }
    lemma_profiles_agree(rows, history, cookie, action, from, to, limit);
}

} // verus!
