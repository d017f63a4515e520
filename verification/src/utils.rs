//! Checks of what a profile query returned.

use crate::types::{tag_views, Timestamp, UserProfile, UserProfileView, UserTag, UserTagView};
use vstd::prelude::*;

verus! {

/// Whether a list of a profile is as a query must return it: no longer than
/// the limit, no tag older than the one after it, every tag in the half-open
/// window.
pub open spec fn valid_tags(tags: Seq<UserTagView>, from: int, to: int, limit: nat) -> bool {
    &&& tags.len() <= limit
    &&& forall|i: int, j: int| 0 <= i <= j < tags.len() ==> tags[i].time >= tags[j].time
    &&& forall|i: int| 0 <= i < tags.len() ==> from <= (#[trigger] tags[i]).time < to
}

/// Whether both lists of a profile are as a query must return them.
pub open spec fn valid_profile(profile: UserProfileView, from: int, to: int, limit: nat) -> bool {
    valid_tags(profile.buys, from, to, limit) && valid_tags(profile.views, from, to, limit)
}

/// Says whether a profile is as a query with this window and this limit
/// must return it.
pub fn check_user_profile(
    user_profile: &UserProfile,
    time_from: Timestamp,
    time_to: Timestamp,
    limit: usize,
) -> (ok: bool)
    ensures
        ok == valid_profile(user_profile@, time_from@, time_to@, limit as nat),
{
    let buys = check_user_tags_vector(&user_profile.buys, time_from, time_to, limit);
    let views = check_user_tags_vector(&user_profile.views, time_from, time_to, limit);
    buys && views
}

/// Says whether one list of a profile is as a query must return it.
pub fn check_user_tags_vector(
    user_tags: &Vec<UserTag>,
    time_from: Timestamp,
    time_to: Timestamp,
    limit: usize,
) -> (ok: bool)
    ensures
        ok == valid_tags(tag_views(user_tags@), time_from@, time_to@, limit as nat),
{
    let ghost tags = tag_views(user_tags@);
    if user_tags.len() > limit {
        return false;
    }
    let from: i64 = time_from.millis();
    let to: i64 = time_to.millis();
    let mut at: usize = 1;
    while at < user_tags.len()
        invariant
            1 <= at,
            tags == tag_views(user_tags@),
            forall|i: int, j: int| 0 <= i <= j < at && j < tags.len() ==> tags[i].time >= tags[j].time,
        decreases user_tags.len() - at,
    {
        if user_tags[at - 1].time.millis() < user_tags[at].time.millis() {
            assert(tags[at - 1].time < tags[at as int].time);
            return false;
        }
        assert forall|i: int, j: int| 0 <= i <= j < at + 1 && j < tags.len() implies tags[i].time
            >= tags[j].time by {
            if j == at as int && i < at {
                assert(tags[i].time >= tags[at - 1].time);
            }
        }
        at = at + 1;
    }
    let mut at: usize = 0;
    while at < user_tags.len()
        invariant
            at <= user_tags.len(),
            tags == tag_views(user_tags@),
            from == time_from@,
            to == time_to@,
            forall|i: int| 0 <= i < at ==> from <= (#[trigger] tags[i]).time < to,
        decreases user_tags.len() - at,
    {
        let time: i64 = user_tags[at].time.millis();
        if time < from || time >= to {
            assert(!(from <= tags[at as int].time < to));
            return false;
        }
        at = at + 1;
    }
    true
}

} // verus!
