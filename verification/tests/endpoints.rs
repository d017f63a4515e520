use allezon::endpoints::{
    profile_limit, Aggregate, Aggregates, Field, ParamsError, RepeatedAggregate, UseCase3Params,
    UseCase3Response,
};
use allezon::types::{Action, Bucket, TimeRange, TimeRangeError, Timestamp, UtcMinute};
use chrono::NaiveDate;

fn at(year: i32, month: u32, day: u32, hour: u32, minute: u32, second: u32) -> Timestamp {
    let time = NaiveDate::from_ymd_opt(year, month, day)
        .unwrap()
        .and_hms_opt(hour, minute, second)
        .unwrap()
        .and_utc();
    Timestamp::from_millis(time.timestamp_millis()).unwrap()
}

fn pairs(list: &[(&str, &str)]) -> Vec<(String, String)> {
    list.iter().map(|(key, value)| (key.to_string(), value.to_string())).collect()
}

const RANGE: &str = "2022-03-01T00:05:00_2022-03-01T00:08:00";

fn range() -> TimeRange {
    TimeRange { from: at(2022, 3, 1, 0, 5, 0), to: at(2022, 3, 1, 0, 8, 0) }
}

#[test]
fn aggregate_display() {
    assert_eq!(Aggregate::Count.display(), "count");
    assert_eq!(Aggregate::SumPrice.display(), "sum_price");
    assert_eq!(Aggregate::from_name("COUNT"), Some(Aggregate::Count));
    assert_eq!(Aggregate::from_name("SUM_PRICE"), Some(Aggregate::SumPrice));
    assert_eq!(Aggregate::from_name("count"), None);
}

#[test]
fn aggregates_add() {
    let mut aggregates = Aggregates::new();
    assert_eq!(aggregates, Aggregates { fst: None, snd: None });
    assert_eq!(aggregates.add(Aggregate::SumPrice), Ok(()));
    assert_eq!(aggregates, Aggregates { fst: Some(Aggregate::SumPrice), snd: None });
    assert_eq!(aggregates.add(Aggregate::SumPrice), Err(RepeatedAggregate(Aggregate::SumPrice)));
    assert_eq!(aggregates, Aggregates { fst: Some(Aggregate::SumPrice), snd: None });
    assert_eq!(aggregates.add(Aggregate::Count), Ok(()));
    assert_eq!(
        aggregates,
        Aggregates { fst: Some(Aggregate::SumPrice), snd: Some(Aggregate::Count) }
    );
    assert_eq!(aggregates.add(Aggregate::Count), Err(RepeatedAggregate(Aggregate::Count)));
    assert_eq!(
        aggregates,
        Aggregates { fst: Some(Aggregate::SumPrice), snd: Some(Aggregate::Count) }
    );
    assert_eq!(RepeatedAggregate(Aggregate::Count).describe(), "repeated aggregate: Count");
    assert_eq!(RepeatedAggregate(Aggregate::SumPrice).describe(), "repeated aggregate: SumPrice");
}

#[test]
fn profile_limit_accepts_0_to_200() {
    assert_eq!(profile_limit(None), Some(200));
    assert_eq!(profile_limit(Some(0)), Some(0));
    assert_eq!(profile_limit(Some(17)), Some(17));
    assert_eq!(profile_limit(Some(200)), Some(200));
    assert_eq!(profile_limit(Some(201)), None);
    assert_eq!(profile_limit(Some(-1)), None);
    assert_eq!(profile_limit(Some(i32::MIN)), None);
}

#[test]
fn params_are_read_from_pairs() {
    let params = UseCase3Params::from_pairs(&pairs(&[
        ("aggregates", "SUM_PRICE"),
        ("time_range", RANGE),
        ("brand_id", "Nike"),
        ("action", "BUY"),
        ("aggregates", "COUNT"),
    ]))
    .unwrap();
    assert_eq!(
        params,
        UseCase3Params {
            time_range: range(),
            action: Action::Buy,
            aggregates: Aggregates { fst: Some(Aggregate::SumPrice), snd: Some(Aggregate::Count) },
            origin: None,
            brand_id: Some("Nike".to_owned()),
            category_id: None,
        }
    );
    let params = UseCase3Params::from_pairs(&pairs(&[
        ("action", "VIEW"),
        ("origin", ""),
        ("category_id", "c"),
        ("time_range", RANGE),
    ]))
    .unwrap();
    assert_eq!(params.action, Action::View);
    assert_eq!(params.aggregates, Aggregates { fst: None, snd: None });
    assert_eq!(params.origin, Some(String::new()));
    assert_eq!(params.category_id, Some("c".to_owned()));
}

#[test]
fn params_errors() {
    let read = |list: &[(&str, &str)]| UseCase3Params::from_pairs(&pairs(list)).unwrap_err();
    assert_eq!(read(&[]), ParamsError::MissingField(Field::Action));
    assert_eq!(read(&[("time_range", RANGE)]), ParamsError::MissingField(Field::Action));
    assert_eq!(read(&[("action", "BUY")]), ParamsError::MissingField(Field::TimeRange));
    assert_eq!(read(&[("limit", "3"), ("action", "SELL")]), ParamsError::UnknownField);
    assert_eq!(read(&[("action", "SELL")]), ParamsError::InvalidAction);
    assert_eq!(
        read(&[("action", "BUY"), ("action", "SELL")]),
        ParamsError::DuplicateField(Field::Action)
    );
    assert_eq!(
        read(&[("origin", "a"), ("origin", "a")]),
        ParamsError::DuplicateField(Field::Origin)
    );
    assert_eq!(
        read(&[("brand_id", "a"), ("brand_id", "b")]),
        ParamsError::DuplicateField(Field::BrandId)
    );
    assert_eq!(
        read(&[("category_id", "a"), ("category_id", "b")]),
        ParamsError::DuplicateField(Field::CategoryId)
    );
    assert_eq!(
        read(&[("time_range", RANGE), ("time_range", "x")]),
        ParamsError::DuplicateField(Field::TimeRange)
    );
    assert_eq!(
        read(&[("time_range", "2022-03-01T00:05:00")]),
        ParamsError::InvalidTimeRange(TimeRangeError::MissingUnderscore)
    );
    assert_eq!(
        read(&[("time_range", "a_2022-03-01T00:05:00")]),
        ParamsError::InvalidTimeRange(TimeRangeError::InvalidFrom)
    );
    assert_eq!(
        read(&[("time_range", "2022-03-01T00:05:00_b")]),
        ParamsError::InvalidTimeRange(TimeRangeError::InvalidTo)
    );
    assert_eq!(read(&[("aggregates", "AVG")]), ParamsError::InvalidAggregate);
    assert_eq!(
        read(&[("aggregates", "COUNT"), ("action", "BUY"), ("aggregates", "COUNT")]),
        ParamsError::RepeatedAggregate(Aggregate::Count)
    );
    assert_eq!(
        read(&[("aggregates", "COUNT"), ("aggregates", "SUM_PRICE"), ("aggregates", "SUM_PRICE")]),
        ParamsError::RepeatedAggregate(Aggregate::SumPrice)
    );
    // The first refusal is the one reported.
    assert_eq!(
        read(&[("aggregates", "AVG"), ("nonsense", "")]),
        ParamsError::InvalidAggregate
    );
}

fn params(
    aggregates: Aggregates,
    origin: Option<&str>,
    brand_id: Option<&str>,
    category_id: Option<&str>,
) -> UseCase3Params {
    UseCase3Params {
        time_range: range(),
        action: Action::Buy,
        aggregates,
        origin: origin.map(str::to_owned),
        brand_id: brand_id.map(str::to_owned),
        category_id: category_id.map(str::to_owned),
    }
}

fn buckets() -> Vec<Bucket> {
    let first = UtcMinute::from(at(2022, 3, 1, 0, 5, 0));
    vec![
        Bucket { minute: first, count: 3, sum_price: 1000 },
        Bucket { minute: first.next(), count: 4, sum_price: 1500 },
        Bucket { minute: first.next().next(), count: 0, sum_price: -12 },
    ]
}

fn table(rows: &[&[&str]]) -> Vec<Vec<String>> {
    rows.iter().map(|row| row.iter().map(|cell| cell.to_string()).collect()).collect()
}

#[test]
fn response_lists_filters_in_fixed_order_and_figures_in_query_order() {
    let response = UseCase3Response::new(
        params(
            Aggregates { fst: Some(Aggregate::SumPrice), snd: Some(Aggregate::Count) },
            None,
            Some("Nike"),
            None,
        ),
        buckets(),
    );
    assert_eq!(response.columns, vec!["1m_bucket", "action", "brand_id", "sum_price", "count"]);
    assert_eq!(
        response.rows,
        table(&[
            &["2022-03-01T00:05:00", "BUY", "Nike", "1000", "3"],
            &["2022-03-01T00:06:00", "BUY", "Nike", "1500", "4"],
            &["2022-03-01T00:07:00", "BUY", "Nike", "-12", "0"],
        ])
    );
}

#[test]
fn response_with_all_filters_and_one_figure() {
    let response = UseCase3Response::new(
        params(Aggregates { fst: Some(Aggregate::Count), snd: None }, Some("o"), Some("b"), Some("c")),
        buckets(),
    );
    assert_eq!(
        response.columns,
        vec!["1m_bucket", "action", "origin", "brand_id", "category_id", "count"]
    );
    assert_eq!(response.rows[1], vec!["2022-03-01T00:06:00", "BUY", "o", "b", "c", "4"]);
}

#[test]
fn response_without_filters_or_figures() {
    let response =
        UseCase3Response::new(params(Aggregates { fst: None, snd: None }, None, None, None), buckets());
    assert_eq!(response.columns, vec!["1m_bucket", "action"]);
    assert_eq!(response.rows.len(), 3);
    assert_eq!(response.rows[2], vec!["2022-03-01T00:07:00", "BUY"]);
    let response =
        UseCase3Response::new(params(Aggregates { fst: None, snd: None }, None, None, None), vec![]);
    assert!(response.rows.is_empty());
}

#[test]
fn bucket_labels_around_the_year_boundaries() {
    let response = UseCase3Response::new(
        params(Aggregates { fst: None, snd: None }, None, None, None),
        vec![
            Bucket { minute: UtcMinute::from(at(0, 1, 1, 0, 0, 0)), count: 0, sum_price: 0 },
            Bucket { minute: UtcMinute::from(at(1969, 12, 31, 23, 59, 59)), count: 0, sum_price: 0 },
            Bucket { minute: UtcMinute::from(at(9999, 12, 31, 23, 59, 59)), count: 0, sum_price: 0 },
        ],
    );
    assert_eq!(response.rows[0][0], "0000-01-01T00:00:00");
    assert_eq!(response.rows[1][0], "1969-12-31T23:59:00");
    assert_eq!(response.rows[2][0], "9999-12-31T23:59:00");
}
