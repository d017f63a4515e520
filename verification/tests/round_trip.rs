use allezon::types::{TimeRange, Timestamp, MAX_MILLIS, MIN_MILLIS};

fn millis(value: i64) -> Timestamp {
    Timestamp::from_millis(value).unwrap()
}

#[test]
fn a_written_range_is_read_back_as_the_range_of_its_seconds() {
    for (from, to) in [
        (0, 1_000),
        (1_647_951_300_000, 1_647_952_200_000),
        (1_647_951_300_250, 1_647_952_200_999),
        (-1, 999),
        (-1_000, -1),
        (-62_135_596_800_001, 253_402_300_799_000),
        (MIN_MILLIS, MAX_MILLIS),
        (MIN_MILLIS + 1, MAX_MILLIS - 1),
    ] {
        let range = TimeRange { from: millis(from), to: millis(to) };
        let text = range.to_text();
        assert!(!text.contains('Z'));
        assert_eq!(text.matches('_').count(), 1);
        let read = TimeRange::parse(&text).unwrap();
        assert_eq!(read.from.millis(), from - from.rem_euclid(1000));
        assert_eq!(read.to.millis(), to - to.rem_euclid(1000));
    }
}

#[test]
fn only_a_range_that_spans_a_minute_can_be_aggregated() {
    let range = |from: i64, to: i64| TimeRange { from: millis(from), to: millis(to) };
    assert!(range(0, 60_000).spans_minutes());
    assert!(range(59_999, 60_000).spans_minutes());
    assert!(range(-1, 0).spans_minutes());
    assert!(!range(0, 59_999).spans_minutes());
    assert!(!range(0, 0).spans_minutes());
    assert!(!range(60_000, 0).spans_minutes());
    assert!(!range(-60_000, -1).spans_minutes());
}
