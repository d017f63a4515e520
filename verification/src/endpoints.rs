//! What the endpoints decide: how query parameters are read and how an
//! aggregate answer is laid out. Transport is not in here.

use crate::calendar::{naive_seconds, naive_seconds_text};
use crate::model::MAX_TAGS_BY_COOKIE;
use crate::text::{decimal_text, signed_decimal_text, signed_to_text, unsigned_to_text};
use crate::types::{optional_text, same_text, Action, Bucket, TimeRange, TimeRangeError};
use vstd::prelude::*;

verus! {

/// The limit of a profile query: the one asked for, where it lies between 0
/// and [`MAX_TAGS_BY_COOKIE`]; [`MAX_TAGS_BY_COOKIE`] where none is asked
/// for; `None` where the one asked for lies outside.
pub fn profile_limit(limit: Option<i32>) -> (r: Option<usize>)
    ensures
        r == match limit {
            None => Some(MAX_TAGS_BY_COOKIE),
            Some(asked) => if 0 <= asked <= MAX_TAGS_BY_COOKIE {
                Some(asked as usize)
            } else {
                None
            },
        },
{
    match limit {
        None => Some(MAX_TAGS_BY_COOKIE),
        Some(asked) => if 0 <= asked && asked <= 200 {
            Some(asked as usize)
        } else {
            None
        },
    }
}

/// A figure that an aggregate query can ask for.
#[derive(Debug, Clone, Copy, PartialEq, Eq, Structural)]
pub enum Aggregate {
    Count,
    SumPrice,
}

impl Aggregate {
    /// The name of the column that holds the figure in an answer.
    pub open spec fn column(self) -> Seq<char> {
        match self {
            Aggregate::Count => "count"@,
            Aggregate::SumPrice => "sum_price"@,
        }
    }

    /// Returns the name of the column that holds the figure.
    pub fn display(&self) -> (name: &'static str)
        ensures
            name@ == self.column(),
    {
        match self {
            Aggregate::Count => "count",
            Aggregate::SumPrice => "sum_price",
        }
    }

    /// The figure that a query names.
    pub open spec fn named(name: Seq<char>) -> Option<Aggregate> {
        if name == "COUNT"@ {
            Some(Aggregate::Count)
        } else if name == "SUM_PRICE"@ {
            Some(Aggregate::SumPrice)
        } else {
            None
        }
    }

    /// Reads a figure from the name a query gives it; any other text gives
    /// `None`.
    pub fn from_name(name: &str) -> (r: Option<Aggregate>)
        ensures
            r == Aggregate::named(name@),
    {
        if same_text(name, "COUNT") {
            Some(Aggregate::Count)
        } else if same_text(name, "SUM_PRICE") {
            Some(Aggregate::SumPrice)
        } else {
            None
        }
    }
}

/// The figures of one query, in the order in which it asked for them.
#[derive(Debug, Clone, Copy, PartialEq, Eq)]
pub struct Aggregates {
    pub fst: Option<Aggregate>,
    pub snd: Option<Aggregate>,
}

/// A figure was asked for once more than a query may.
#[derive(Debug, Clone, Copy, PartialEq, Eq)]
pub struct RepeatedAggregate(pub Aggregate);

impl RepeatedAggregate {
    /// What went wrong, in words.
    pub fn describe(&self) -> (text: String)
        ensures
            text@ == "repeated aggregate: "@ + (match self.0 {
                Aggregate::Count => "Count"@,
                Aggregate::SumPrice => "SumPrice"@,
            }),
    {
        let mut text: String = "repeated aggregate: ".to_owned();
        match self.0 {
            Aggregate::Count => text.append("Count"),
            Aggregate::SumPrice => text.append("SumPrice"),
        }
        text
    }
}

impl Aggregates {
    /// No figure asked for.
    pub fn new() -> (aggregates: Self)
        ensures
            aggregates.fst is None,
            aggregates.snd is None,
    {
        Self { fst: None, snd: None }
    }

    /// The figures after one more is asked for: it takes the first free
    /// place. It is refused where it is the first figure again, or where both
    /// places are taken.
    pub open spec fn added(self, new_agg: Aggregate) -> Result<Aggregates, RepeatedAggregate> {
        match self.fst {
            None => Ok(Aggregates { fst: Some(new_agg), snd: self.snd }),
            Some(agg) => if agg == new_agg || self.snd is Some {
                Err(RepeatedAggregate(new_agg))
            } else {
                Ok(Aggregates { fst: self.fst, snd: Some(new_agg) })
            },
        }
    }

    /// Asks for one more figure. Where it is refused, nothing changes.
    pub fn add(&mut self, new_agg: Aggregate) -> (r: Result<(), RepeatedAggregate>)
        ensures
            match r {
                Ok(_) => old(self).added(new_agg) == Ok::<Aggregates, RepeatedAggregate>(
                    *final(self),
                ),
                Err(error) => old(self).added(new_agg) == Err::<Aggregates, RepeatedAggregate>(
                    error,
                ) && *final(self) == *old(self),
            },
    {
        match self.fst {
            None => {
                self.fst = Some(new_agg);
                Ok(())
            },
            Some(agg) => {
                if agg == new_agg {
                    Err(RepeatedAggregate(new_agg))
                } else if self.snd.is_some() {
                    Err(RepeatedAggregate(new_agg))
                } else {
                    self.snd = Some(new_agg);
                    Ok(())
                }
            },
        }
    }
}

/// A parameter of an aggregate query.
#[derive(Debug, Clone, Copy, PartialEq, Eq, Structural)]
pub enum Field {
    TimeRange,
    Action,
    Aggregates,
    Origin,
    BrandId,
    CategoryId,
}

impl Field {
    /// The parameter that a key names.
    pub open spec fn named(key: Seq<char>) -> Option<Field> {
        if key == "time_range"@ {
            Some(Field::TimeRange)
        } else if key == "action"@ {
            Some(Field::Action)
        } else if key == "aggregates"@ {
            Some(Field::Aggregates)
        } else if key == "origin"@ {
            Some(Field::Origin)
        } else if key == "brand_id"@ {
            Some(Field::BrandId)
        } else if key == "category_id"@ {
            Some(Field::CategoryId)
        } else {
            None
        }
    }

    /// Reads a parameter's key; any other text gives `None`.
    pub fn from_key(key: &str) -> (r: Option<Field>)
        ensures
            r == Field::named(key@),
    {
        if same_text(key, "time_range") {
            Some(Field::TimeRange)
        } else if same_text(key, "action") {
            Some(Field::Action)
        } else if same_text(key, "aggregates") {
            Some(Field::Aggregates)
        } else if same_text(key, "origin") {
            Some(Field::Origin)
        } else if same_text(key, "brand_id") {
            Some(Field::BrandId)
        } else if same_text(key, "category_id") {
            Some(Field::CategoryId)
        } else {
            None
        }
    }
}

/// Why the parameters of an aggregate query are refused.
#[derive(Debug, Clone, Copy, PartialEq, Eq)]
pub enum ParamsError {
    /// A key names no parameter.
    UnknownField,
    /// A parameter that may stand once stands twice.
    DuplicateField(Field),
    /// A parameter that must stand is absent.
    MissingField(Field),
    /// The action is neither `VIEW` nor `BUY`.
    InvalidAction,
    /// A figure is neither `COUNT` nor `SUM_PRICE`.
    InvalidAggregate,
    /// The time range cannot be read.
    InvalidTimeRange(TimeRangeError),
    /// A figure is asked for once more than a query may.
    RepeatedAggregate(Aggregate),
}

/// The parameters of an aggregate query.
#[derive(Debug, PartialEq, Eq)]
pub struct UseCase3Params {
    pub time_range: TimeRange,
    pub action: Action,
    pub aggregates: Aggregates,
    pub origin: Option<String>,
    pub brand_id: Option<String>,
    pub category_id: Option<String>,
}

impl Clone for UseCase3Params {
    fn clone(&self) -> (copy: Self)
        ensures
            copy@ == self@,
    {
        UseCase3Params {
            time_range: self.time_range,
            action: self.action,
            aggregates: self.aggregates,
            origin: match &self.origin {
                Some(text) => Some(text.clone()),
                None => None,
            },
            brand_id: match &self.brand_id {
                Some(text) => Some(text.clone()),
                None => None,
            },
            category_id: match &self.category_id {
                Some(text) => Some(text.clone()),
                None => None,
            },
        }
    }
}

/// The mathematical value of [`UseCase3Params`].
pub struct UseCase3ParamsView {
    pub time_range: (int, int),
    pub action: Action,
    pub aggregates: Aggregates,
    pub origin: Option<Seq<char>>,
    pub brand_id: Option<Seq<char>>,
    pub category_id: Option<Seq<char>>,
}

impl View for UseCase3Params {
    type V = UseCase3ParamsView;

    open spec fn view(&self) -> UseCase3ParamsView {
        UseCase3ParamsView {
            time_range: (self.time_range.from@, self.time_range.to@),
            action: self.action,
            aggregates: self.aggregates,
            origin: optional_text(self.origin),
            brand_id: optional_text(self.brand_id),
            category_id: optional_text(self.category_id),
        }
    }
}

/// The parameters read so far, while the pairs of a query are gone through.
pub struct ParamsDraft {
    pub time_range: Option<(int, int)>,
    pub action: Option<Action>,
    pub aggregates: Aggregates,
    pub origin: Option<Seq<char>>,
    pub brand_id: Option<Seq<char>>,
    pub category_id: Option<Seq<char>>,
}

/// The draft before any pair is read.
pub open spec fn empty_draft() -> ParamsDraft {
    ParamsDraft {
        time_range: None,
        action: None,
        aggregates: Aggregates { fst: None, snd: None },
        origin: None,
        brand_id: None,
        category_id: None,
    }
}

/// The draft after one more pair is read, or why the pair is refused. The
/// key is looked at first, then whether the parameter stands already, then
/// the value.
pub open spec fn draft_step(draft: ParamsDraft, key: Seq<char>, value: Seq<char>) -> Result<
    ParamsDraft,
    ParamsError,
> {
    match Field::named(key) {
        None => Err(ParamsError::UnknownField),
        Some(Field::Action) => if draft.action is Some {
            Err(ParamsError::DuplicateField(Field::Action))
        } else {
            match Action::named(value) {
                None => Err(ParamsError::InvalidAction),
                Some(action) => Ok(ParamsDraft { action: Some(action), ..draft }),
            }
        },
        Some(Field::Origin) => if draft.origin is Some {
            Err(ParamsError::DuplicateField(Field::Origin))
        } else {
            Ok(ParamsDraft { origin: Some(value), ..draft })
        },
        Some(Field::TimeRange) => if draft.time_range is Some {
            Err(ParamsError::DuplicateField(Field::TimeRange))
        } else {
            match TimeRange::parsed(value) {
                Err(error) => Err(ParamsError::InvalidTimeRange(error)),
                Ok(range) => Ok(ParamsDraft { time_range: Some(range), ..draft }),
            }
        },
        Some(Field::BrandId) => if draft.brand_id is Some {
            Err(ParamsError::DuplicateField(Field::BrandId))
        } else {
            Ok(ParamsDraft { brand_id: Some(value), ..draft })
        },
        Some(Field::CategoryId) => if draft.category_id is Some {
            Err(ParamsError::DuplicateField(Field::CategoryId))
        } else {
            Ok(ParamsDraft { category_id: Some(value), ..draft })
        },
        Some(Field::Aggregates) => match Aggregate::named(value) {
            None => Err(ParamsError::InvalidAggregate),
            Some(aggregate) => match draft.aggregates.added(aggregate) {
                Err(error) => Err(ParamsError::RepeatedAggregate(error.0)),
                Ok(aggregates) => Ok(ParamsDraft { aggregates, ..draft }),
            },
        },
    }
}

/// The draft after all pairs are read in order, or the first refusal.
pub open spec fn draft_of(pairs: Seq<(Seq<char>, Seq<char>)>) -> Result<ParamsDraft, ParamsError>
    decreases pairs.len(),
{
    if pairs.len() == 0 {
        Ok(empty_draft())
    } else {
        match draft_of(pairs.drop_last()) {
            Err(error) => Err(error),
            Ok(draft) => draft_step(draft, pairs.last().0, pairs.last().1),
        }
    }
}

/// The parameters that a finished draft holds: the action and the time range
/// must stand, and the action is asked for first.
pub open spec fn finished(draft: ParamsDraft) -> Result<UseCase3ParamsView, ParamsError> {
    match draft.action {
        None => Err(ParamsError::MissingField(Field::Action)),
        Some(action) => match draft.time_range {
            None => Err(ParamsError::MissingField(Field::TimeRange)),
            Some(time_range) => Ok(
                UseCase3ParamsView {
                    time_range,
                    action,
                    aggregates: draft.aggregates,
                    origin: draft.origin,
                    brand_id: draft.brand_id,
                    category_id: draft.category_id,
                },
            ),
        },
    }
}

/// What the key and value pairs of a query mean as parameters.
pub open spec fn parsed_params(pairs: Seq<(Seq<char>, Seq<char>)>) -> Result<
    UseCase3ParamsView,
    ParamsError,
> {
    match draft_of(pairs) {
        Err(error) => Err(error),
        Ok(draft) => finished(draft),
    }
}

/// The texts of key and value pairs, one for one.
pub open spec fn pair_texts(pairs: Seq<(String, String)>) -> Seq<(Seq<char>, Seq<char>)> {
    pairs.map_values(|pair: (String, String)| (pair.0@, pair.1@))
}

/// Once a pair is refused, the pairs that follow change nothing.
pub proof fn lemma_refusal_stands(pairs: Seq<(Seq<char>, Seq<char>)>, n: int)
    requires
        0 <= n <= pairs.len(),
        draft_of(pairs.take(n)) is Err,
    ensures
        draft_of(pairs) == draft_of(pairs.take(n)),
    decreases pairs.len() - n,
{
    if n == pairs.len() {
        assert(pairs.take(n) =~= pairs);
    } else {
        assert(pairs.take(n + 1).drop_last() =~= pairs.take(n));
        lemma_refusal_stands(pairs, n + 1);
    }
}

impl UseCase3Params {
    /// Reads the parameters of an aggregate query from its key and value
    /// pairs, in the order in which the query gives them.
    pub fn from_pairs(pairs: &Vec<(String, String)>) -> (r: Result<UseCase3Params, ParamsError>)
        ensures
            match r {
                Ok(params) => parsed_params(pair_texts(pairs@)) == Ok::<
                    UseCase3ParamsView,
                    ParamsError,
                >(params@),
                Err(error) => parsed_params(pair_texts(pairs@)) == Err::<
                    UseCase3ParamsView,
                    ParamsError,
                >(error),
            },
    {
        let ghost texts = pair_texts(pairs@);
        let mut action: Option<Action> = None;
        let mut origin: Option<String> = None;
        let mut time_range: Option<TimeRange> = None;
        let mut brand_id: Option<String> = None;
        let mut category_id: Option<String> = None;
        let mut aggregates = Aggregates::new();
        let mut at: usize = 0;
        while at < pairs.len()
            invariant
                at <= pairs.len(),
                texts == pair_texts(pairs@),
                draft_of(texts.take(at as int)) == Ok::<ParamsDraft, ParamsError>(
                    ParamsDraft {
                        time_range: match time_range {
                            Some(range) => Some((range.from@, range.to@)),
                            None => None,
                        },
                        action,
                        aggregates,
                        origin: optional_text(origin),
                        brand_id: optional_text(brand_id),
                        category_id: optional_text(category_id),
                    },
                ),
            decreases pairs.len() - at,
        {
            let key = pairs[at].0.as_str();
            let value = pairs[at].1.as_str();
            proof {
                assert(texts.take(at + 1).drop_last() =~= texts.take(at as int));
                assert(texts.take(at + 1).last() == (key@, value@));
                if draft_of(texts.take(at + 1)) is Err {
                    lemma_refusal_stands(texts, at + 1);
                }
            }
            let field = match Field::from_key(key) {
                Some(field) => field,
                None => {
                    return Err(ParamsError::UnknownField);
                },
            };
            match field {
                Field::Action => {
                    if action.is_some() {
                        return Err(ParamsError::DuplicateField(Field::Action));
                    }
                    match Action::from_name(value) {
                        Some(read) => {
                            action = Some(read);
                        },
                        None => {
                            return Err(ParamsError::InvalidAction);
                        },
                    }
                },
                Field::Origin => {
                    if origin.is_some() {
                        return Err(ParamsError::DuplicateField(Field::Origin));
                    }
                    origin = Some(value.to_owned());
                },
                Field::TimeRange => {
                    if time_range.is_some() {
                        return Err(ParamsError::DuplicateField(Field::TimeRange));
                    }
                    match TimeRange::parse(value) {
                        Ok(read) => {
                            time_range = Some(read);
                        },
                        Err(error) => {
                            return Err(ParamsError::InvalidTimeRange(error));
                        },
                    }
                },
                Field::BrandId => {
                    if brand_id.is_some() {
                        return Err(ParamsError::DuplicateField(Field::BrandId));
                    }
                    brand_id = Some(value.to_owned());
                },
                Field::CategoryId => {
                    if category_id.is_some() {
                        return Err(ParamsError::DuplicateField(Field::CategoryId));
                    }
                    category_id = Some(value.to_owned());
                },
                Field::Aggregates => {
                    let read = match Aggregate::from_name(value) {
                        Some(read) => read,
                        None => {
                            return Err(ParamsError::InvalidAggregate);
                        },
                    };
                    match aggregates.add(read) {
                        Ok(_) => {},
                        Err(error) => {
                            return Err(ParamsError::RepeatedAggregate(error.0));
                        },
                    }
                },
            }
            at = at + 1;
        }
        assert(texts.take(at as int) =~= texts);
        let action = match action {
            Some(action) => action,
            None => {
                return Err(ParamsError::MissingField(Field::Action));
            },
        };
        let time_range = match time_range {
            Some(time_range) => time_range,
            None => {
                return Err(ParamsError::MissingField(Field::TimeRange));
            },
        };
        Ok(UseCase3Params { time_range, action, aggregates, origin, brand_id, category_id })
    }
}

/// The answer to an aggregate query: a table in which every cell is a text.
#[derive(Debug, PartialEq, Eq)]
pub struct UseCase3Response {
    pub columns: Vec<String>,
    pub rows: Vec<Vec<String>>,
}

/// The texts of a row of cells, one for one.
pub open spec fn texts(cells: Seq<String>) -> Seq<Seq<char>> {
    cells.map_values(|cell: String| cell@)
}

/// The texts of the rows of a table, one for one.
pub open spec fn row_texts(rows: Seq<Vec<String>>) -> Seq<Seq<Seq<char>>> {
    rows.map_values(|row: Vec<String>| texts(row@))
}

/// The column of a filter: its name where the query gave the filter, nothing
/// where it did not.
pub open spec fn filter_column(value: Option<Seq<char>>, name: Seq<char>) -> Seq<Seq<char>> {
    if value is Some {
        seq![name]
    } else {
        Seq::empty()
    }
}

/// The cell of a filter: its value where the query gave the filter, nothing
/// where it did not.
pub open spec fn filter_cell(value: Option<Seq<char>>) -> Seq<Seq<char>> {
    match value {
        Some(text) => seq![text],
        None => Seq::empty(),
    }
}

/// The columns of the figures, in the order in which the query asked for
/// them.
pub open spec fn aggregate_columns(aggregates: Aggregates) -> Seq<Seq<char>> {
    (match aggregates.fst {
        Some(aggregate) => seq![aggregate.column()],
        None => Seq::empty(),
    }) + (match aggregates.snd {
        Some(aggregate) => seq![aggregate.column()],
        None => Seq::empty(),
    })
}

/// One figure of a bucket in decimal.
pub open spec fn aggregate_cell(aggregate: Aggregate, bucket: Bucket) -> Seq<char> {
    match aggregate {
        Aggregate::Count => decimal_text(bucket.count as nat),
        Aggregate::SumPrice => signed_decimal_text(bucket.sum_price as int),
    }
}

/// The figures of a bucket, in the order in which the query asked for them.
pub open spec fn aggregate_cells(aggregates: Aggregates, bucket: Bucket) -> Seq<Seq<char>> {
    (match aggregates.fst {
        Some(aggregate) => seq![aggregate_cell(aggregate, bucket)],
        None => Seq::empty(),
    }) + (match aggregates.snd {
        Some(aggregate) => seq![aggregate_cell(aggregate, bucket)],
        None => Seq::empty(),
    })
}

/// The column names of an answer: the bucket, the action, the filters that
/// the query gave in the order origin, brand, category, then the figures.
pub open spec fn columns_of(params: UseCase3ParamsView) -> Seq<Seq<char>> {
    seq!["1m_bucket"@, "action"@] + filter_column(params.origin, "origin"@) + filter_column(
        params.brand_id,
        "brand_id"@,
    ) + filter_column(params.category_id, "category_id"@) + aggregate_columns(params.aggregates)
}

/// The row of one bucket, cell for column, with `label` for the minute.
pub open spec fn labelled_row(params: UseCase3ParamsView, bucket: Bucket, label: Seq<char>) -> Seq<
    Seq<char>,
> {
    seq![label, params.action.wire_name()] + filter_cell(params.origin) + filter_cell(
        params.brand_id,
    ) + filter_cell(params.category_id) + aggregate_cells(params.aggregates, bucket)
}

/// The row of one bucket, cell for column: the minute is written as date
/// and time of day in UTC, to the second.
pub open spec fn row_of(params: UseCase3ParamsView, bucket: Bucket) -> Seq<Seq<char>> {
    labelled_row(params, bucket, naive_seconds_text(bucket.minute@))
}

/// The rows of an answer: one for every bucket, in the order of the buckets.
pub open spec fn rows_of(params: UseCase3ParamsView, buckets: Seq<Bucket>) -> Seq<
    Seq<Seq<char>>,
> {
    buckets.map_values(|bucket: Bucket| row_of(params, bucket))
}

/// Appends a cell to a row.
fn push_text(cells: &mut Vec<String>, text: String)
    ensures
        texts(final(cells)@) == texts(old(cells)@).push(text@),
{
    cells.push(text);
    assert(texts(cells@) =~= texts(old(cells)@).push(text@));
}

/// Appends the name of a filter's column where the query gave the filter.
fn push_filter_column(cells: &mut Vec<String>, value: &Option<String>, name: &str)
    ensures
        texts(final(cells)@) == texts(old(cells)@) + filter_column(optional_text(*value), name@),
{
    if value.is_some() {
        push_text(cells, name.to_owned());
        assert(texts(cells@) =~= texts(old(cells)@) + seq![name@]);
    } else {
        assert(texts(cells@) =~= texts(old(cells)@) + Seq::<Seq<char>>::empty());
    }
}

/// Appends the value of a filter where the query gave the filter.
fn push_filter_cell(cells: &mut Vec<String>, value: &Option<String>)
    ensures
        texts(final(cells)@) == texts(old(cells)@) + filter_cell(optional_text(*value)),
{
    match value {
        Some(text) => {
            push_text(cells, text.clone());
            assert(texts(cells@) =~= texts(old(cells)@) + seq![text@]);
        },
        None => {
            assert(texts(cells@) =~= texts(old(cells)@) + Seq::<Seq<char>>::empty());
        },
    }
}

/// Appends the column names of the figures.
fn push_aggregate_columns(cells: &mut Vec<String>, aggregates: Aggregates)
    ensures
        texts(final(cells)@) == texts(old(cells)@) + aggregate_columns(aggregates),
{
    if let Some(aggregate) = aggregates.fst {
        push_text(cells, aggregate.display().to_owned());
    }
    if let Some(aggregate) = aggregates.snd {
        push_text(cells, aggregate.display().to_owned());
    }
    assert(texts(cells@) =~= texts(old(cells)@) + aggregate_columns(aggregates));
}

/// Writes one figure of a bucket.
fn aggregate_text(aggregate: Aggregate, bucket: &Bucket) -> (text: String)
    ensures
        text@ == aggregate_cell(aggregate, *bucket),
{
    match aggregate {
        Aggregate::Count => unsigned_to_text(bucket.count as u64),
        Aggregate::SumPrice => signed_to_text(bucket.sum_price),
    }
}

/// Appends the figures of a bucket.
fn push_aggregate_cells(cells: &mut Vec<String>, aggregates: Aggregates, bucket: &Bucket)
    ensures
        texts(final(cells)@) == texts(old(cells)@) + aggregate_cells(aggregates, *bucket),
{
    if let Some(aggregate) = aggregates.fst {
        push_text(cells, aggregate_text(aggregate, bucket));
    }
    if let Some(aggregate) = aggregates.snd {
        push_text(cells, aggregate_text(aggregate, bucket));
    }
    assert(texts(cells@) =~= texts(old(cells)@) + aggregate_cells(aggregates, *bucket));
}

/// Lays out the row of one bucket under the label given for its minute.
pub fn bucket_row(params: &UseCase3Params, bucket: &Bucket, label: String) -> (row: Vec<String>)
    ensures
        texts(row@) == labelled_row(params@, *bucket, label@),
{
    let mut row: Vec<String> = Vec::new();
    assert(texts(row@) =~= Seq::<Seq<char>>::empty());
    let ghost label_text = label@;
    push_text(&mut row, label);
    push_text(&mut row, params.action.to_text());
    assert(texts(row@) =~= seq![label_text, params.action.wire_name()]);
    push_filter_cell(&mut row, &params.origin);
    push_filter_cell(&mut row, &params.brand_id);
    push_filter_cell(&mut row, &params.category_id);
    push_aggregate_cells(&mut row, params.aggregates, bucket);
    row
}

/// Lays out the row of one bucket.
fn row_for(params: &UseCase3Params, bucket: &Bucket) -> (row: Vec<String>)
    ensures
        texts(row@) == row_of(params@, *bucket),
{
    bucket_row(params, bucket, naive_seconds(bucket.minute.millis()))
}

impl UseCase3Response {
    /// Lays out the buckets of an aggregate query as the table that answers
    /// it.
    pub fn new(params: UseCase3Params, buckets: Vec<Bucket>) -> (response: Self)
        ensures
            texts(response.columns@) == columns_of(params@),
            row_texts(response.rows@) == rows_of(params@, buckets@),
    {
        let mut columns: Vec<String> = Vec::new();
        assert(texts(columns@) =~= Seq::<Seq<char>>::empty());
        push_text(&mut columns, "1m_bucket".to_owned());
        push_text(&mut columns, "action".to_owned());
        assert(texts(columns@) =~= seq!["1m_bucket"@, "action"@]);
        push_filter_column(&mut columns, &params.origin, "origin");
        push_filter_column(&mut columns, &params.brand_id, "brand_id");
        push_filter_column(&mut columns, &params.category_id, "category_id");
        push_aggregate_columns(&mut columns, params.aggregates);
        let mut rows: Vec<Vec<String>> = Vec::new();
        let mut at: usize = 0;
        while at < buckets.len()
            invariant
                at <= buckets.len(),
                rows.len() == at,
                forall|i: int| 0 <= i < at ==> texts((#[trigger] rows@[i])@) == row_of(
                    params@,
                    buckets@[i],
                ),
            decreases buckets.len() - at,
        {
            let row = row_for(&params, &buckets[at]);
            rows.push(row);
            at = at + 1;
        }
        assert(row_texts(rows@) =~= rows_of(params@, buckets@));
        UseCase3Response { columns, rows }
    }
}

} // verus!
