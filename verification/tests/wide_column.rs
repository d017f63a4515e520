use allezon::mock::System;
use allezon::scylla::{
    bucket_of_row, bucket_reads, finish_profile_side, select_table, stitch_buckets,
    update_bucket_stats, BucketRead, CountOutOfRange, CounterTable, CounterUpdate, ProfileSide,
};
use allezon::stored::{action_text, StoredTagError};
use allezon::types::{Action, Bucket, Device, ProductInfo, Timestamp, UserTag, UtcMinute};
use chrono::NaiveDate;

fn at(hour: u32, minute: u32, second: u32) -> Timestamp {
    let time =
        NaiveDate::from_ymd_opt(2000, 1, 1).unwrap().and_hms_opt(hour, minute, second).unwrap();
    Timestamp::from_millis(time.and_utc().timestamp_millis()).unwrap()
}

fn tag(time: Timestamp, origin: &str, brand: &str, category: &str, price: i32) -> UserTag {
    UserTag {
        time,
        cookie: "cookie".to_owned(),
        country: "PL".to_owned(),
        device: Device::Mobile,
        action: Action::Buy,
        origin: origin.to_owned(),
        product_info: ProductInfo {
            product_id: "p".to_owned(),
            brand_id: brand.to_owned(),
            category_id: category.to_owned(),
            price,
        },
    }
}

#[test]
fn every_filter_subset_has_its_table() {
    assert_eq!(select_table(false, false, false), CounterTable::BrandCategory);
    assert_eq!(select_table(false, true, false), CounterTable::BrandCategory);
    assert_eq!(select_table(false, false, true), CounterTable::BrandCategory);
    assert_eq!(select_table(false, true, true), CounterTable::BrandCategory);
    assert_eq!(select_table(true, false, false), CounterTable::OriginBrandCategory);
    assert_eq!(select_table(true, true, false), CounterTable::OriginBrandCategory);
    assert_eq!(select_table(true, true, true), CounterTable::OriginBrandCategory);
    assert_eq!(select_table(true, false, true), CounterTable::CategoryOrigin);
    assert_eq!(CounterTable::OriginBrandCategory.name(), "buckets_obc");
    assert_eq!(CounterTable::CategoryOrigin.name(), "buckets_co");
    assert_eq!(CounterTable::BrandCategory.name(), "buckets_bc");
}

#[test]
fn a_tag_steps_one_counter_in_every_table() {
    let updates = update_bucket_stats(&tag(at(21, 37, 42), "o", "b", "c", 20));
    let bucket = UtcMinute::from(at(21, 37, 0));
    assert_eq!(
        updates,
        vec![
            CounterUpdate {
                table: CounterTable::OriginBrandCategory,
                bucket,
                action: Action::Buy,
                origin: Some("o".to_owned()),
                brand_id: Some("b".to_owned()),
                category_id: "c".to_owned(),
                price: 20,
            },
            CounterUpdate {
                table: CounterTable::CategoryOrigin,
                bucket,
                action: Action::Buy,
                origin: Some("o".to_owned()),
                brand_id: None,
                category_id: "c".to_owned(),
                price: 20,
            },
            CounterUpdate {
                table: CounterTable::BrandCategory,
                bucket,
                action: Action::Buy,
                origin: None,
                brand_id: Some("b".to_owned()),
                category_id: "c".to_owned(),
                price: 20,
            },
        ]
    );
}

#[test]
fn one_read_for_every_minute() {
    let reads = bucket_reads(at(21, 34, 59), at(21, 37, 1), Action::View, None, Some("b"), None);
    assert_eq!(reads.len(), 3);
    for (i, read) in reads.iter().enumerate() {
        assert_eq!(
            *read,
            BucketRead {
                table: CounterTable::BrandCategory,
                bucket: UtcMinute::from(at(21, 34 + i as u32, 0)),
                action: Action::View,
                origin: None,
                brand_id: Some("b".to_owned()),
                category_id: None,
            }
        );
    }
}

#[test]
fn rows_become_buckets_and_missing_rows_zeros() {
    let minute = UtcMinute::from(at(21, 37, 0));
    assert_eq!(bucket_of_row(minute, None), Ok(Bucket { minute, count: 0, sum_price: 0 }));
    assert_eq!(
        bucket_of_row(minute, Some((2, 50))),
        Ok(Bucket { minute, count: 2, sum_price: 50 })
    );
    assert_eq!(
        bucket_of_row(minute, Some((4_294_967_295, -1))),
        Ok(Bucket { minute, count: u32::MAX, sum_price: -1 })
    );
    assert_eq!(bucket_of_row(minute, Some((4_294_967_296, 0))), Err(CountOutOfRange));
    assert_eq!(bucket_of_row(minute, Some((-1, 0))), Err(CountOutOfRange));
    let reads = bucket_reads(at(21, 34, 0), at(21, 38, 0), Action::Buy, None, None, None);
    let rows = vec![None, Some((0, 0)), None, Some((2, 50))];
    let buckets = stitch_buckets(&reads, &rows).unwrap();
    let counts: Vec<(i64, u32, i64)> = buckets
        .iter()
        .map(|bucket| (bucket.minute.millis(), bucket.count, bucket.sum_price))
        .collect();
    let first = UtcMinute::from(at(21, 34, 0)).millis();
    assert_eq!(
        counts,
        vec![
            (first, 0, 0),
            (first + 60_000, 0, 0),
            (first + 120_000, 0, 0),
            (first + 180_000, 2, 50)
        ]
    );
    assert_eq!(stitch_buckets(&reads, &vec![None, Some((-3, 0)), None, None]), Err(CountOutOfRange));
}

/// The rows of one counter table that fall under a read, summed as the store
/// sums them.
fn answer(updates: &[CounterUpdate], read: &BucketRead) -> Option<(i64, i64)> {
    let mut count = 0;
    let mut sum = 0;
    for update in updates {
        let under = update.table == read.table
            && update.bucket == read.bucket
            && update.action == read.action
            && (read.origin.is_none() || update.origin == read.origin)
            && (read.brand_id.is_none() || update.brand_id == read.brand_id)
            && read.category_id.as_ref().map(|c| *c == update.category_id).unwrap_or(true);
        if under {
            count += 1;
            sum += update.price;
        }
    }
    if count == 0 {
        None
    } else {
        Some((count, sum))
    }
}

#[test]
fn counter_tables_answer_as_a_scan_does() {
    let mut system = System::new();
    let mut updates = Vec::new();
    for (i, (origin, brand, category, price)) in [
        ("o1", "nike", "shoes", 10),
        ("o2", "nike", "hats", 20),
        ("o1", "puma", "shoes", 40),
        ("o2", "puma", "hats", 80),
        ("o1", "nike", "shoes", 160),
        ("o1", "puma", "hats", 320),
    ]
    .into_iter()
    .enumerate()
    {
        let tag = tag(at(21, 37 + (i as u32 % 2), i as u32), origin, brand, category, price);
        updates.extend(update_bucket_stats(&tag));
        system.register_user_tag(tag);
    }
    let from = at(21, 36, 30);
    let to = at(21, 39, 0);
    for origin in [None, Some("o1"), Some("none")] {
        for brand in [None, Some("nike"), Some("puma")] {
            for category in [None, Some("shoes"), Some("hats")] {
                let reads = bucket_reads(from, to, Action::Buy, origin, brand, category);
                let rows: Vec<Option<(i64, i64)>> =
                    reads.iter().map(|read| answer(&updates, read)).collect();
                let stitched = stitch_buckets(&reads, &rows).unwrap();
                let scanned = system.select_bucket_stats(from, to, Action::Buy, origin, brand, category);
                assert_eq!(stitched, scanned);
            }
        }
    }
    // Filtered by brand alone, the brand and category table answers.
    let reads = bucket_reads(from, to, Action::Buy, None, Some("nike"), None);
    assert!(reads.iter().all(|read| read.table == CounterTable::BrandCategory));
    let rows: Vec<Option<(i64, i64)>> = reads.iter().map(|read| answer(&updates, read)).collect();
    assert_eq!(rows, vec![None, Some((2, 170)), Some((1, 20))]);
}

#[test]
fn returned_rows_are_cut_to_the_limit() {
    let rows = vec![
        tag(at(21, 37, 3), "o", "b", "c", 3),
        tag(at(21, 37, 2), "o", "b", "c", 2),
        tag(at(21, 37, 1), "o", "b", "c", 1),
    ];
    let side = finish_profile_side(rows.clone(), 2);
    assert_eq!(side.tags, rows[..2].to_vec());
    let side = finish_profile_side(rows.clone(), 200);
    assert_eq!(side.tags, rows);
    let side = finish_profile_side(rows.clone(), 0);
    assert_eq!(side.tags, vec![]);
    let side = finish_profile_side(vec![], 5);
    assert_eq!(side, ProfileSide { tags: vec![], delete_before: None });
}

/// Tags of one cookie at the seconds given, counted from 21:00:00.
fn at_second(second: u32) -> Timestamp {
    at(21, second / 60, second % 60)
}

#[test]
fn rows_may_go_only_after_a_full_answer() {
    // Fewer rows than are ever kept: a later query over an earlier window
    // can still reach what is older, so nothing may go.
    let few: Vec<UserTag> =
        (0..3).rev().map(|second| tag(at_second(second), "o", "b", "c", 1)).collect();
    for limit in [0, 1, 3, 200] {
        assert_eq!(finish_profile_side(few.clone(), limit).delete_before, None);
    }
    let almost: Vec<UserTag> =
        (0..199).rev().map(|second| tag(at_second(second), "o", "b", "c", 1)).collect();
    assert_eq!(finish_profile_side(almost, 200).delete_before, None);
    // As many rows as are ever kept: what is older than the oldest of them
    // is out of reach.
    let full: Vec<UserTag> =
        (7..207).rev().map(|second| tag(at_second(second), "o", "b", "c", 1)).collect();
    for limit in [0, 1, 200] {
        let side = finish_profile_side(full.clone(), limit);
        assert_eq!(side.delete_before, Some(at_second(7)));
        assert_eq!(side.tags, full[..limit].to_vec());
    }
}

/// The rows of one cookie and one action as the store holds them: one row
/// for every time, the last written; read newest first, at most 200 of the
/// window.
struct Partition {
    rows: Vec<UserTag>,
}

impl Partition {
    fn put(&mut self, tag: UserTag) {
        self.rows.retain(|row| row.time != tag.time);
        self.rows.push(tag);
        self.rows.sort_by_key(|row| std::cmp::Reverse(row.time));
    }

    fn query(&mut self, from: Timestamp, to: Timestamp, limit: usize) -> Vec<UserTag> {
        let answer: Vec<UserTag> = self
            .rows
            .iter()
            .filter(|row| from <= row.time && row.time < to)
            .take(200)
            .cloned()
            .collect();
        let side = finish_profile_side(answer, limit);
        if let Some(mark) = side.delete_before {
            self.rows.retain(|row| row.time >= mark);
        }
        side.tags
    }
}

#[test]
fn both_backends_return_the_same_profile() {
    let mut system = System::new();
    let mut store = Partition { rows: Vec::new() };
    for second in [5, 1, 3, 2, 4] {
        let tag = tag(at_second(second), "o", "b", "c", second as i32);
        store.put(tag.clone());
        system.register_user_tag(tag);
    }
    let from = at_second(2);
    let to = at_second(5);
    for limit in [0, 1, 2, 3, 200] {
        let profile = system.last_tags_by_cookie("cookie", from, to, limit);
        assert_eq!(store.query(from, to, limit), profile.buys);
        assert!(profile.views.is_empty());
    }
    // The query over the newer rows took nothing from the store: the older
    // rows are still reached.
    let profile = system.last_tags_by_cookie("cookie", at_second(0), at_second(3), 200);
    assert_eq!(profile.buys.len(), 2);
    assert_eq!(store.query(at_second(0), at_second(3), 200), profile.buys);
}

#[test]
fn both_backends_agree_beyond_200_tags_and_after_thinning() {
    let mut system = System::new();
    let mut store = Partition { rows: Vec::new() };
    for second in 0..201 {
        let tag = tag(at_second(second), "o", "b", "c", second as i32);
        store.put(tag.clone());
        system.register_user_tag(tag);
    }
    assert_eq!(store.rows.len(), 201);
    // Over the whole window both return the 200 newest.
    let all = system.last_tags_by_cookie("cookie", at_second(0), at_second(201), 200);
    assert_eq!(all.buys.len(), 200);
    assert_eq!(store.query(at_second(0), at_second(201), 200), all.buys);
    // The full answer thinned the store to what is kept.
    assert_eq!(store.rows.len(), 200);
    for (from, to, limit) in [(0, 201, 200), (0, 50, 200), (1, 2, 1), (100, 150, 7), (0, 1, 5)] {
        let profile = system.last_tags_by_cookie("cookie", at_second(from), at_second(to), limit);
        assert_eq!(store.query(at_second(from), at_second(to), limit), profile.buys);
    }
    // More tags, newer and older, and the same tags once more.
    for second in [300, 0, 150, 301, 150] {
        let tag = tag(at_second(second), "o", "b", "c", second as i32);
        store.put(tag.clone());
        system.register_user_tag(tag);
    }
    for (from, to, limit) in [(0, 400, 200), (2, 400, 3), (299, 302, 200), (150, 151, 1)] {
        let profile = system.last_tags_by_cookie("cookie", at_second(from), at_second(to), limit);
        assert_eq!(store.query(at_second(from), at_second(to), limit), profile.buys);
    }
}

#[test]
fn stored_tags_round_trip() {
    let ingested = tag(at(21, 37, 42), "o", "b", "c", 20);
    let stored = allezon::stored::UserTag::new(ingested.clone()).unwrap();
    assert_eq!(stored.device, "\"MOBILE\"");
    assert_eq!(stored.country, "PL");
    assert_eq!(stored.origin, "o");
    assert_eq!(stored.product_info, ingested.product_info);
    let action = action_text(Action::Buy).unwrap();
    assert_eq!(action, "\"BUY\"");
    assert_eq!(action_text(Action::View).unwrap(), "\"VIEW\"");
    let read = stored.into_user_tag("cookie".to_owned(), ingested.time, action).unwrap();
    assert_eq!(read, ingested);
}

#[test]
fn unreadable_stored_tags_are_refused() {
    let row = |device: &str| allezon::stored::UserTag {
        country: "PL".to_owned(),
        device: device.to_owned(),
        origin: "o".to_owned(),
        product_info: ProductInfo {
            product_id: "p".to_owned(),
            brand_id: "b".to_owned(),
            category_id: "c".to_owned(),
            price: 1,
        },
    };
    let time = at(21, 37, 42);
    let read = |device: &str, action: &str| {
        row(device).into_user_tag("cookie".to_owned(), time, action.to_owned())
    };
    assert_eq!(read("\"TV\"", "\"VIEW\"").unwrap().device, Device::Tv);
    assert_eq!(read("\"TV\"", "\"VIEW\"").unwrap().action, Action::View);
    assert_eq!(read(" \"PC\" ", "\"BUY\"").unwrap().device, Device::Pc);
    assert_eq!(read("\"\\u0050C\"", "\"BUY\"").unwrap().device, Device::Pc);
    assert_eq!(read("\"TV\"", "BUY"), Err(StoredTagError::Action));
    assert_eq!(read("\"TV\"", "\"SELL\""), Err(StoredTagError::Action));
    assert_eq!(read("TV", "\"BUY\""), Err(StoredTagError::Device));
    assert_eq!(read("\"RADIO\"", "\"BUY\""), Err(StoredTagError::Device));
    // The action is read first.
    assert_eq!(read("TV", "BUY"), Err(StoredTagError::Action));
}
