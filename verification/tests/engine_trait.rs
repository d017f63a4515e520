use allezon::types::{
    Action, Bucket, Device, ProductInfo, System, Timestamp, UserProfile, UserTag, UtcMinute,
};

fn view(cookie: &str, millis: i64, price: i32) -> UserTag {
    UserTag {
        time: Timestamp::from_millis(millis).unwrap(),
        cookie: cookie.to_owned(),
        country: "PL".to_owned(),
        device: Device::Tv,
        action: Action::View,
        origin: "o".to_owned(),
        product_info: ProductInfo {
            product_id: "p".to_owned(),
            brand_id: "b".to_owned(),
            category_id: "c".to_owned(),
            price,
        },
    }
}

/// Ingests through the engine interface and asks both questions.
fn exercise<S: System>(system: &mut S) -> (UserProfile, Vec<Bucket>) {
    system.register_user_tag(view("a", 61_000, 5));
    system.register_user_tag(view("b", 62_000, 7));
    system.register_user_tag(view("a", 125_000, 11));
    let from = Timestamp::from_millis(0).unwrap();
    let to = Timestamp::from_millis(180_000).unwrap();
    let profile = system.last_tags_by_cookie("a", from, to, 200);
    let buckets = system.select_bucket_stats(from, to, Action::View, None, None, None);
    (profile, buckets)
}

#[test]
fn the_reference_backend_is_an_engine() {
    let mut system = allezon::mock::System::new();
    let (profile, buckets) = exercise(&mut system);
    assert_eq!(
        profile,
        UserProfile {
            cookie: "a".to_owned(),
            views: vec![view("a", 125_000, 11), view("a", 61_000, 5)],
            buys: vec![],
        }
    );
    let minute = |millis: i64| UtcMinute::from(Timestamp::from_millis(millis).unwrap());
    assert_eq!(
        buckets,
        vec![
            Bucket { minute: minute(0), count: 0, sum_price: 0 },
            Bucket { minute: minute(60_000), count: 2, sum_price: 12 },
            Bucket { minute: minute(120_000), count: 1, sum_price: 11 },
        ]
    );
    assert_eq!(system.len(), 3);
    System::clear(&mut system);
    assert_eq!(system.len(), 0);
    let (profile, _) = exercise(&mut system);
    assert_eq!(profile.views.len(), 2);
}
