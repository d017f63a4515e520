use allezon::scylla::{bucket_reads, stitch_buckets};
use allezon::types::{Action, Timestamp};

#[test]
fn reads_without_an_answer_give_zeros() {
    let from = Timestamp::from_millis(0).unwrap();
    let to = Timestamp::from_millis(180_000).unwrap();
    let reads = bucket_reads(from, to, Action::Buy, Some("o"), None, Some("c"));
    let buckets = stitch_buckets(&reads, &vec![Some((4, 9))]).unwrap();
    let figures: Vec<(i64, u32, i64)> = buckets
        .iter()
        .map(|bucket| (bucket.minute.millis(), bucket.count, bucket.sum_price))
        .collect();
    assert_eq!(figures, vec![(0, 4, 9), (60_000, 0, 0), (120_000, 0, 0)]);
    // An answer beyond the reads is not looked at.
    let rows = vec![None, None, None, Some((-1, 0))];
    assert_eq!(stitch_buckets(&reads, &rows).unwrap().len(), 3);
}
