use allezon::mock::System;
use allezon::types::{
    Action, Bucket, Device, ProductInfo, Timestamp, UserProfile, UserTag, UtcMinute,
};
use allezon::utils::check_user_profile;
use chrono::{DateTime, NaiveDate, NaiveDateTime, Utc};

fn stamp(time: DateTime<Utc>) -> Timestamp {
    Timestamp::from_millis(time.timestamp_millis()).unwrap()
}

fn default_product_info() -> ProductInfo {
    ProductInfo {
        product_id: "0123".to_owned(),
        brand_id: "2137".to_owned(),
        category_id: "42".to_owned(),
        price: 0,
    }
}

fn moment_middle() -> DateTime<Utc> {
    let naive_date: NaiveDate = NaiveDate::from_ymd_opt(2000, 1, 1).unwrap();
    let naive_moment: NaiveDateTime = naive_date.and_hms_opt(21, 37, 42).unwrap();
    naive_moment.and_utc()
}

fn buy(time: DateTime<Utc>, price: i32) -> UserTag {
    UserTag {
        time: stamp(time),
        cookie: "cookie".to_owned(),
        country: "PL".to_owned(),
        device: Device::Pc,
        action: Action::Buy,
        origin: "CHRL".to_owned(),
        product_info: ProductInfo { price, ..default_product_info() },
    }
}

struct TestMinutes {
    minute_middle: UtcMinute,
    minute_earlier: UtcMinute,
    minute_after: UtcMinute,
}

fn build_system_and_register_tags() -> (System, TestMinutes) {
    let mut system = System::new();
    let minute_middle = UtcMinute::from(stamp(moment_middle()));
    let moment_later = moment_middle() + chrono::Duration::seconds(2);
    let moment_earlier =
        moment_middle() - (chrono::Duration::minutes(3) + chrono::Duration::seconds(1));
    let minute_earlier = UtcMinute::from(stamp(moment_earlier));
    let minute_after = UtcMinute::from(stamp(moment_later + chrono::Duration::minutes(1)));
    system.register_user_tag(buy(moment_middle(), 20));
    system.register_user_tag(buy(moment_middle() + chrono::Duration::seconds(2), 30));
    (system, TestMinutes { minute_middle, minute_earlier, minute_after })
}

#[test]
fn use_case_2_profile_contains_valid_tags() {
    let (system, minutes) = build_system_and_register_tags();

    // limit higher than number of available entries
    let user_profile = system.last_tags_by_cookie(
        "cookie",
        minutes.minute_middle.inner(),
        minutes.minute_after.inner(),
        100,
    );
    assert!(user_profile.views.is_empty());
    assert_eq!(
        user_profile.buys,
        vec![
            buy(moment_middle() + chrono::Duration::seconds(2), 30),
            buy(moment_middle(), 20),
        ]
    );

    // limit lower than number of available entries
    let user_profile = system.last_tags_by_cookie(
        "cookie",
        minutes.minute_middle.inner(),
        minutes.minute_after.inner(),
        1,
    );
    assert_eq!(user_profile.buys, vec![buy(moment_middle() + chrono::Duration::seconds(2), 30)]);
}

#[test]
fn single_tag_exact_minute_query() {
    let mut system = System::new();
    system.register_user_tag(buy(moment_middle(), 20));
    let from = NaiveDate::from_ymd_opt(2000, 1, 1).unwrap().and_hms_opt(21, 37, 0).unwrap();
    let to = NaiveDate::from_ymd_opt(2000, 1, 1).unwrap().and_hms_opt(21, 38, 0).unwrap();
    let buckets = system.select_bucket_stats(
        stamp(from.and_utc()),
        stamp(to.and_utc()),
        Action::Buy,
        None,
        None,
        None,
    );
    assert_eq!(
        buckets,
        vec![Bucket { minute: UtcMinute::from(stamp(from.and_utc())), count: 1, sum_price: 20 }]
    );
}

#[test]
fn two_tags_same_minute_with_empty_minutes_before() {
    let (system, minutes) = build_system_and_register_tags();
    let buckets = system.select_bucket_stats(
        minutes.minute_earlier.inner(),
        minutes.minute_after.inner(),
        Action::Buy,
        None,
        None,
        None,
    );
    let at = |minute: u32| {
        UtcMinute::from(stamp(
            NaiveDate::from_ymd_opt(2000, 1, 1)
                .unwrap()
                .and_hms_opt(21, minute, 0)
                .unwrap()
                .and_utc(),
        ))
    };
    assert_eq!(
        buckets,
        vec![
            Bucket { minute: at(34), count: 0, sum_price: 0 },
            Bucket { minute: at(35), count: 0, sum_price: 0 },
            Bucket { minute: at(36), count: 0, sum_price: 0 },
            Bucket { minute: at(37), count: 2, sum_price: 50 },
        ]
    );
    assert_eq!(buckets[0].minute.millis(), 946_762_440_000);
    assert_eq!(buckets[3].minute.next(), minutes.minute_after);
}

#[test]
fn a_query_for_views_counts_no_buys() {
    let (system, minutes) = build_system_and_register_tags();
    let buckets = system.select_bucket_stats(
        minutes.minute_middle.inner(),
        minutes.minute_after.inner(),
        Action::View,
        None,
        None,
        None,
    );
    assert_eq!(buckets, vec![Bucket { minute: minutes.minute_middle, count: 0, sum_price: 0 }]);
}

#[test]
fn profile_ordering_and_limit() {
    let mut system = System::new();
    let t = moment_middle();
    system.register_user_tag(buy(t, 1));
    system.register_user_tag(buy(t + chrono::Duration::seconds(2), 2));
    let to = stamp(t + chrono::Duration::seconds(60));
    let both = system.last_tags_by_cookie("cookie", stamp(t), to, 100);
    assert_eq!(both.buys, vec![buy(t + chrono::Duration::seconds(2), 2), buy(t, 1)]);
    let one = system.last_tags_by_cookie("cookie", stamp(t), to, 1);
    assert_eq!(one.buys, vec![buy(t + chrono::Duration::seconds(2), 2)]);
    assert_eq!(one.cookie, "cookie");
}

#[test]
fn per_cookie_cap_keeps_the_200_newest() {
    let mut system = System::new();
    let t0 = moment_middle();
    for i in 0..201 {
        system.register_user_tag(buy(t0 + chrono::Duration::seconds(i), i as i32));
    }
    let profile = system.last_tags_by_cookie(
        "cookie",
        stamp(t0),
        stamp(t0 + chrono::Duration::seconds(201)),
        200,
    );
    assert_eq!(profile.buys.len(), 200);
    for (k, tag) in profile.buys.iter().enumerate() {
        assert_eq!(*tag, buy(t0 + chrono::Duration::seconds(200 - k as i64), 200 - k as i32));
    }
    assert!(profile.buys.iter().all(|tag| tag.time != stamp(t0)));
    assert!(check_user_profile(
        &profile,
        stamp(t0),
        stamp(t0 + chrono::Duration::seconds(201)),
        200
    ));
}

#[test]
fn an_old_tag_does_not_enter_a_full_side() {
    let mut system = System::new();
    let t0 = moment_middle();
    for i in 1..=200 {
        system.register_user_tag(buy(t0 + chrono::Duration::seconds(i), i as i32));
    }
    system.register_user_tag(buy(t0, 0));
    let profile = system.last_tags_by_cookie(
        "cookie",
        stamp(t0),
        stamp(t0 + chrono::Duration::seconds(300)),
        200,
    );
    assert_eq!(profile.buys.len(), 200);
    assert_eq!(profile.buys[199], buy(t0 + chrono::Duration::seconds(1), 1));
    // The aggregate index still counts it.
    let buckets = system.select_bucket_stats(
        stamp(t0),
        stamp(t0 + chrono::Duration::seconds(60)),
        Action::Buy,
        None,
        None,
        None,
    );
    assert_eq!(buckets.len(), 1);
    assert_eq!(buckets[0].count, 18);
    assert_eq!(buckets[0].sum_price, (1..=17).sum::<i64>());
}

#[test]
fn of_two_tags_at_one_time_the_first_stays() {
    let mut system = System::new();
    let t = moment_middle();
    system.register_user_tag(buy(t, 1));
    system.register_user_tag(buy(t, 2));
    let profile =
        system.last_tags_by_cookie("cookie", stamp(t), stamp(t + chrono::Duration::seconds(1)), 10);
    assert_eq!(profile.buys, vec![buy(t, 1)]);
    // Both are counted: ingestion is not idempotent.
    let buckets = system.select_bucket_stats(
        stamp(t),
        stamp(t + chrono::Duration::seconds(60)),
        Action::Buy,
        None,
        None,
        None,
    );
    assert_eq!(buckets[0].count, 2);
    assert_eq!(buckets[0].sum_price, 3);
}

#[test]
fn tags_ingested_out_of_order_come_back_newest_first() {
    let mut system = System::new();
    let t = moment_middle();
    for offset in [5, 1, 3, 2, 4] {
        system.register_user_tag(buy(t + chrono::Duration::seconds(offset), offset as i32));
    }
    let profile =
        system.last_tags_by_cookie("cookie", stamp(t), stamp(t + chrono::Duration::seconds(9)), 3);
    assert_eq!(
        profile.buys,
        vec![
            buy(t + chrono::Duration::seconds(5), 5),
            buy(t + chrono::Duration::seconds(4), 4),
            buy(t + chrono::Duration::seconds(3), 3),
        ]
    );
}

#[test]
fn empty_cookie() {
    let (system, minutes) = build_system_and_register_tags();
    let profile = system.last_tags_by_cookie(
        "never-seen",
        minutes.minute_earlier.inner(),
        minutes.minute_after.inner(),
        50,
    );
    assert_eq!(
        profile,
        UserProfile { cookie: "never-seen".to_owned(), views: vec![], buys: vec![] }
    );
}

#[test]
fn limit_zero_gives_empty_lists() {
    let (system, minutes) = build_system_and_register_tags();
    let profile = system.last_tags_by_cookie(
        "cookie",
        minutes.minute_middle.inner(),
        minutes.minute_after.inner(),
        0,
    );
    assert!(profile.views.is_empty());
    assert!(profile.buys.is_empty());
    assert_eq!(profile.cookie, "cookie");
}

#[test]
fn an_empty_window_gives_empty_lists() {
    let (system, _) = build_system_and_register_tags();
    let t = stamp(moment_middle());
    let profile = system.last_tags_by_cookie("cookie", t, t, 200);
    assert!(profile.views.is_empty());
    assert!(profile.buys.is_empty());
}

#[test]
fn the_window_includes_from_and_excludes_to() {
    let (system, _) = build_system_and_register_tags();
    let first = moment_middle();
    let second = moment_middle() + chrono::Duration::seconds(2);
    let profile = system.last_tags_by_cookie("cookie", stamp(first), stamp(second), 200);
    assert_eq!(profile.buys, vec![buy(first, 20)]);
    let profile = system.last_tags_by_cookie(
        "cookie",
        stamp(second),
        stamp(second + chrono::Duration::milliseconds(1)),
        200,
    );
    assert_eq!(profile.buys, vec![buy(second, 30)]);
}

#[test]
fn views_and_buys_are_kept_apart() {
    let mut system = System::new();
    let t = moment_middle();
    let mut view = buy(t, 7);
    view.action = Action::View;
    system.register_user_tag(view.clone());
    system.register_user_tag(buy(t, 9));
    let mut other = buy(t, 11);
    other.cookie = "other".to_owned();
    system.register_user_tag(other.clone());
    let to = stamp(t + chrono::Duration::seconds(1));
    let profile = system.last_tags_by_cookie("cookie", stamp(t), to, 200);
    assert_eq!(profile.views, vec![view]);
    assert_eq!(profile.buys, vec![buy(t, 9)]);
    let profile = system.last_tags_by_cookie("other", stamp(t), to, 200);
    assert_eq!(profile.buys, vec![other]);
    assert!(profile.views.is_empty());
}

#[test]
fn filters_select_the_tags_a_scan_would_select() {
    let mut system = System::new();
    let t = moment_middle();
    let mut tags = Vec::new();
    for (i, (origin, brand, category, price)) in [
        ("o1", "nike", "shoes", 10),
        ("o2", "nike", "hats", 20),
        ("o1", "puma", "shoes", 40),
        ("o2", "puma", "hats", 80),
        ("o1", "nike", "shoes", 160),
    ]
    .into_iter()
    .enumerate()
    {
        let mut tag = buy(t + chrono::Duration::seconds(i as i64), price);
        tag.origin = origin.to_owned();
        tag.product_info.brand_id = brand.to_owned();
        tag.product_info.category_id = category.to_owned();
        tags.push(tag.clone());
        system.register_user_tag(tag);
    }
    let from = stamp(t);
    let to = stamp(t + chrono::Duration::seconds(60));
    let ask = |origin: Option<&str>, brand: Option<&str>, category: Option<&str>| {
        let buckets = system.select_bucket_stats(from, to, Action::Buy, origin, brand, category);
        assert_eq!(buckets.len(), 1);
        (buckets[0].count, buckets[0].sum_price)
    };
    let scan = |origin: Option<&str>, brand: Option<&str>, category: Option<&str>| {
        let hits: Vec<&UserTag> = tags
            .iter()
            .filter(|tag| origin.map(|o| o == tag.origin).unwrap_or(true))
            .filter(|tag| brand.map(|b| b == tag.product_info.brand_id).unwrap_or(true))
            .filter(|tag| category.map(|c| c == tag.product_info.category_id).unwrap_or(true))
            .collect();
        (hits.len() as u32, hits.iter().map(|tag| tag.product_info.price as i64).sum::<i64>())
    };
    assert_eq!(ask(None, Some("nike"), None), (3, 190));
    for origin in [None, Some("o1"), Some("zz")] {
        for brand in [None, Some("nike"), Some("puma")] {
            for category in [None, Some("shoes"), Some("hats")] {
                assert_eq!(ask(origin, brand, category), scan(origin, brand, category));
            }
        }
    }
}

#[test]
fn clear_drops_profiles_and_aggregates() {
    let (mut system, minutes) = build_system_and_register_tags();
    system.clear();
    let profile = system.last_tags_by_cookie(
        "cookie",
        minutes.minute_earlier.inner(),
        minutes.minute_after.inner(),
        200,
    );
    assert!(profile.views.is_empty());
    assert!(profile.buys.is_empty());
    let buckets = system.select_bucket_stats(
        minutes.minute_middle.inner(),
        minutes.minute_after.inner(),
        Action::Buy,
        None,
        None,
        None,
    );
    assert_eq!(buckets, vec![Bucket { minute: minutes.minute_middle, count: 0, sum_price: 0 }]);
}

#[test]
fn bucket_count_is_the_number_of_minutes_in_the_range() {
    let (system, _) = build_system_and_register_tags();
    let from = moment_middle();
    let to = moment_middle() + chrono::Duration::minutes(90) + chrono::Duration::seconds(17);
    let buckets =
        system.select_bucket_stats(stamp(from), stamp(to), Action::Buy, None, None, None);
    assert_eq!(buckets.len(), 90);
    for pair in buckets.windows(2) {
        assert_eq!(pair[0].minute.next(), pair[1].minute);
    }
    assert_eq!(buckets[0].count, 2);
    assert!(buckets[1..].iter().all(|bucket| bucket.count == 0 && bucket.sum_price == 0));
}

#[test]
fn negative_prices_and_times_before_the_epoch_are_summed() {
    let mut system = System::new();
    let t = NaiveDate::from_ymd_opt(1969, 12, 31).unwrap().and_hms_milli_opt(23, 59, 59, 999);
    let t = t.unwrap().and_utc();
    system.register_user_tag(buy(t, -5));
    system.register_user_tag(buy(t, i32::MAX));
    let buckets = system.select_bucket_stats(
        stamp(t),
        stamp(t + chrono::Duration::milliseconds(1)),
        Action::Buy,
        None,
        None,
        None,
    );
    assert_eq!(buckets.len(), 1);
    assert_eq!(buckets[0].minute.millis(), -60_000);
    assert_eq!(buckets[0].count, 2);
    assert_eq!(buckets[0].sum_price, i32::MAX as i64 - 5);
}

#[test]
fn check_user_profile_tells_valid_from_invalid() {
    let t = moment_middle();
    let from = stamp(t);
    let to = stamp(t + chrono::Duration::seconds(10));
    let good = UserProfile {
        cookie: "cookie".to_owned(),
        views: vec![],
        buys: vec![buy(t + chrono::Duration::seconds(2), 1), buy(t, 2)],
    };
    assert!(check_user_profile(&good, from, to, 2));
    assert!(!check_user_profile(&good, from, to, 1));
    assert!(!check_user_profile(&good, stamp(t + chrono::Duration::seconds(1)), to, 2));
    assert!(!check_user_profile(&good, from, stamp(t + chrono::Duration::seconds(2)), 2));
    let unordered = UserProfile {
        cookie: "cookie".to_owned(),
        views: vec![buy(t, 2), buy(t + chrono::Duration::seconds(2), 1)],
        buys: vec![],
    };
    assert!(!check_user_profile(&unordered, from, to, 2));
}
