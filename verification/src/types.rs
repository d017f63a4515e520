use crate::calendar::{
    naive_datetime_millis, parse_naive_datetime, rfc3339_seconds, rfc3339_seconds_text,
};
use crate::model::{filter_of, is_bucket_stats, profile_of, MAX_TAGS_BY_COOKIE};
use vstd::prelude::*;

verus! {

/// Smallest instant a [`Timestamp`] can hold: `0000-01-01T00:00:00.000Z`.
pub const MIN_MILLIS: i64 = -62_167_219_200_000;

/// Largest instant a [`Timestamp`] can hold: `9999-12-31T23:59:59.999Z`.
pub const MAX_MILLIS: i64 = 253_402_300_799_999;

/// Length of one aggregation bucket in milliseconds.
pub const MINUTE_MILLIS: i64 = 60_000;

/// The start of the minute that contains the instant `millis`.
pub open spec fn minute_floor(millis: int) -> int {
    millis - millis % 60_000
}

/// A UTC instant with millisecond resolution, held as milliseconds since the
/// Unix epoch and confined to the years 0000 to 9999.
#[derive(Debug, Clone, Copy, PartialEq, Eq, PartialOrd, Ord, Hash)]
pub struct Timestamp {
    millis: i64,
}

impl View for Timestamp {
    type V = int;

    closed spec fn view(&self) -> int {
        self.millis as int
    }
}

impl Timestamp {
    #[verifier::type_invariant]
    spec fn in_range(self) -> bool {
        MIN_MILLIS <= self.millis <= MAX_MILLIS
    }

    /// Makes a timestamp from milliseconds since the Unix epoch, or `None`
    /// when the instant lies outside the years 0000 to 9999.
    pub fn from_millis(millis: i64) -> (r: Option<Timestamp>)
        ensures
            r is Some <==> MIN_MILLIS <= millis <= MAX_MILLIS,
            r is Some ==> r.unwrap()@ == millis,
    {
        if MIN_MILLIS <= millis && millis <= MAX_MILLIS {
            Some(Timestamp { millis })
        } else {
            None
        }
    }

    /// Milliseconds since the Unix epoch.
    pub fn millis(&self) -> (m: i64)
        ensures
            m == self@,
            MIN_MILLIS <= m <= MAX_MILLIS,
    {
        proof {
            use_type_invariant(self);
        }
        self.millis
    }
}

/// A UTC instant truncated to a whole minute.
#[derive(Debug, Clone, Copy, PartialEq, Eq, PartialOrd, Ord, Hash)]
pub struct UtcMinute {
    millis: i64,
}

impl View for UtcMinute {
    type V = int;

    closed spec fn view(&self) -> int {
        self.millis as int
    }
}

impl UtcMinute {
    #[verifier::type_invariant]
    spec fn aligned(self) -> bool {
        &&& MIN_MILLIS <= self.millis <= MAX_MILLIS
        &&& self.millis % 60_000 == 0
    }

    /// Truncates an instant to the minute that contains it.
    pub fn from(time: Timestamp) -> (r: UtcMinute)
        ensures
            r@ == minute_floor(time@),
    {
        let t: i64 = time.millis();
        let r: i64 = t % MINUTE_MILLIS;
        let floor: i64 = if r < 0 {
            t - r - MINUTE_MILLIS
        } else {
            t - r
        };
        UtcMinute { millis: floor }
    }

    /// The instant at which the minute starts.
    pub fn inner(self) -> (t: Timestamp)
        ensures
            t@ == self@,
    {
        proof {
            use_type_invariant(self);
        }
        Timestamp { millis: self.millis }
    }

    /// Milliseconds since the Unix epoch at which the minute starts.
    pub fn millis(&self) -> (m: i64)
        ensures
            m == self@,
            MIN_MILLIS <= m <= MAX_MILLIS,
            m % 60_000 == 0,
    {
        proof {
            use_type_invariant(self);
        }
        self.millis
    }

    /// The minute that follows this one.
    pub fn next(self) -> (r: UtcMinute)
        requires
            self@ + 60_000 <= MAX_MILLIS,
        ensures
            r@ == self@ + 60_000,
    {
        proof {
            use_type_invariant(self);
        }
        UtcMinute { millis: self.millis + MINUTE_MILLIS }
    }
}

/// Truncating twice is truncating once, and a truncated instant is a whole
/// number of minutes that lies at most one minute before the instant.
pub proof fn lemma_minute_floor_idempotent(millis: int)
    ensures
        minute_floor(minute_floor(millis)) == minute_floor(millis),
        minute_floor(millis) % 60_000 == 0,
        minute_floor(millis) <= millis < minute_floor(millis) + 60_000,
{
}

/// Whether two string slices hold the same characters.
pub fn same_text(a: &str, b: &str) -> (r: bool)
    ensures
        r == (a@ == b@),
{
    let x: String = a.to_owned();
    let y: String = b.to_owned();
    x == y
}

/// The text that an optional string slice holds.
pub open spec fn option_text(text: Option<&str>) -> Option<Seq<char>> {
    match text {
        Some(s) => Some(s@),
        None => None,
    }
}

/// The text that an optional string holds.
pub open spec fn optional_text(text: Option<String>) -> Option<Seq<char>> {
    match text {
        Some(s) => Some(s@),
        None => None,
    }
}

/// An owned copy of an optional string slice.
pub fn owned_text(text: Option<&str>) -> (r: Option<String>)
    ensures
        optional_text(r) == option_text(text),
{
    match text {
        Some(s) => Some(s.to_owned()),
        None => None,
    }
}

/// The device on which an event happened.
#[derive(Debug, Clone, Copy, PartialEq, Eq, Structural, Hash)]
pub enum Device {
    Pc,
    Mobile,
    Tv,
}

/// The kind of interaction a tag records.
#[derive(Debug, Clone, Copy, PartialEq, Eq, Structural, Hash)]
pub enum Action {
    View,
    Buy,
}

impl Device {
    /// The upper-case name under which the device travels on the wire.
    pub open spec fn wire_name(self) -> Seq<char> {
        match self {
            Device::Pc => "PC"@,
            Device::Mobile => "MOBILE"@,
            Device::Tv => "TV"@,
        }
    }

    /// Returns the wire name of the device.
    pub fn name(&self) -> (s: &'static str)
        ensures
            s@ == self.wire_name(),
    {
        match self {
            Device::Pc => "PC",
            Device::Mobile => "MOBILE",
            Device::Tv => "TV",
        }
    }

    /// The device that a wire name stands for.
    pub open spec fn named(name: Seq<char>) -> Option<Device> {
        if name == "PC"@ {
            Some(Device::Pc)
        } else if name == "MOBILE"@ {
            Some(Device::Mobile)
        } else if name == "TV"@ {
            Some(Device::Tv)
        } else {
            None
        }
    }

    /// Reads a device from its wire name; any other text gives `None`.
    pub fn from_name(name: &str) -> (r: Option<Device>)
        ensures
            r == Device::named(name@),
    {
        if same_text(name, "PC") {
            Some(Device::Pc)
        } else if same_text(name, "MOBILE") {
            Some(Device::Mobile)
        } else if same_text(name, "TV") {
            Some(Device::Tv)
        } else {
            None
        }
    }
}

impl Action {
    /// The upper-case name under which the action travels on the wire.
    pub open spec fn wire_name(self) -> Seq<char> {
        match self {
            Action::View => "VIEW"@,
            Action::Buy => "BUY"@,
        }
    }

    /// Returns the wire name of the action.
    pub fn name(&self) -> (s: &'static str)
        ensures
            s@ == self.wire_name(),
    {
        match self {
            Action::View => "VIEW",
            Action::Buy => "BUY",
        }
    }

    /// The wire name as an owned string.
    pub fn to_text(&self) -> (s: String)
        ensures
            s@ == self.wire_name(),
    {
        self.name().to_owned()
    }

    /// The action that a wire name stands for.
    pub open spec fn named(name: Seq<char>) -> Option<Action> {
        if name == "VIEW"@ {
            Some(Action::View)
        } else if name == "BUY"@ {
            Some(Action::Buy)
        } else {
            None
        }
    }

    /// Reads an action from its wire name; any other text gives `None`.
    pub fn from_name(name: &str) -> (r: Option<Action>)
        ensures
            r == Action::named(name@),
    {
        if same_text(name, "VIEW") {
            Some(Action::View)
        } else if same_text(name, "BUY") {
            Some(Action::Buy)
        } else {
            None
        }
    }
}

/// Reading a wire name back gives the value it was written from.
pub proof fn lemma_wire_names_round_trip(action: Action, device: Device)
    ensures
        Action::named(action.wire_name()) == Some(action),
        Device::named(device.wire_name()) == Some(device),
{
    reveal_strlit("VIEW");
    reveal_strlit("BUY");
    reveal_strlit("PC");
    reveal_strlit("MOBILE");
    reveal_strlit("TV");
    assert("VIEW"@.len() == 4 && "BUY"@.len() == 3);
    assert("PC"@.len() == 2 && "MOBILE"@.len() == 6 && "TV"@.len() == 2);
    assert("PC"@[0] == 'P' && "TV"@[0] == 'T');
}

/// What was viewed or bought.
#[derive(Debug, PartialEq, Eq, Hash)]
pub struct ProductInfo {
    pub product_id: String,
    pub brand_id: String,
    pub category_id: String,
    pub price: i32,
}

/// The mathematical value of a [`ProductInfo`].
pub struct ProductInfoView {
    pub product_id: Seq<char>,
    pub brand_id: Seq<char>,
    pub category_id: Seq<char>,
    pub price: int,
}

impl View for ProductInfo {
    type V = ProductInfoView;

    open spec fn view(&self) -> ProductInfoView {
        ProductInfoView {
            product_id: self.product_id@,
            brand_id: self.brand_id@,
            category_id: self.category_id@,
            price: self.price as int,
        }
    }
}

impl Clone for ProductInfo {
    fn clone(&self) -> (r: Self)
        ensures
            r == *self,
    {
        ProductInfo {
            product_id: self.product_id.clone(),
            brand_id: self.brand_id.clone(),
            category_id: self.category_id.clone(),
            price: self.price,
        }
    }
}

/// One event: a user viewed or bought a product.
#[derive(Debug, PartialEq, Eq, Hash)]
pub struct UserTag {
    pub time: Timestamp,
    pub cookie: String,
    pub country: String,
    pub device: Device,
    pub action: Action,
    pub origin: String,
    pub product_info: ProductInfo,
}

/// The mathematical value of a [`UserTag`].
pub struct UserTagView {
    pub time: int,
    pub cookie: Seq<char>,
    pub country: Seq<char>,
    pub device: Device,
    pub action: Action,
    pub origin: Seq<char>,
    pub product_info: ProductInfoView,
}

impl View for UserTag {
    type V = UserTagView;

    open spec fn view(&self) -> UserTagView {
        UserTagView {
            time: self.time@,
            cookie: self.cookie@,
            country: self.country@,
            device: self.device,
            action: self.action,
            origin: self.origin@,
            product_info: self.product_info@,
        }
    }
}

impl Clone for UserTag {
    fn clone(&self) -> (r: Self)
        ensures
            r == *self,
    {
        UserTag {
            time: self.time,
            cookie: self.cookie.clone(),
            country: self.country.clone(),
            device: self.device,
            action: self.action,
            origin: self.origin.clone(),
            product_info: self.product_info.clone(),
        }
    }
}

/// The values of a sequence of tags, one for one.
pub open spec fn tag_views(tags: Seq<UserTag>) -> Seq<UserTagView> {
    tags.map_values(|t: UserTag| t@)
}

/// The recent views and buys of one cookie.
#[derive(Debug, PartialEq, Eq, Hash)]
pub struct UserProfile {
    pub cookie: String,
    pub views: Vec<UserTag>,
    pub buys: Vec<UserTag>,
}

/// The mathematical value of a [`UserProfile`].
pub struct UserProfileView {
    pub cookie: Seq<char>,
    pub views: Seq<UserTagView>,
    pub buys: Seq<UserTagView>,
}

impl View for UserProfile {
    type V = UserProfileView;

    open spec fn view(&self) -> UserProfileView {
        UserProfileView {
            cookie: self.cookie@,
            views: tag_views(self.views@),
            buys: tag_views(self.buys@),
        }
    }
}

/// The events of one minute, counted and summed.
#[derive(Debug, Clone, Copy, PartialEq, Eq)]
pub struct Bucket {
    pub minute: UtcMinute,
    pub count: u32,
    pub sum_price: i64,
}

/// A span of time, from `from` up to, and not including, `to`.
#[derive(Debug, Clone, Copy, PartialEq, Eq)]
pub struct TimeRange {
    pub from: Timestamp,
    pub to: Timestamp,
}

/// Why a text is not a time range.
#[derive(Debug, Clone, Copy, PartialEq, Eq, Structural)]
pub enum TimeRangeError {
    /// The text holds no underscore.
    MissingUnderscore,
    /// What stands before the first underscore is not a date and time
    /// between the years 0000 and 9999.
    InvalidFrom,
    /// What stands after the first underscore is not a date and time between
    /// the years 0000 and 9999.
    InvalidTo,
}

/// The instant that a text stands for: what `chrono` reads from it, where
/// that lies in the range of a [`Timestamp`].
pub open spec fn instant_of(text: Seq<char>) -> Option<int> {
    match naive_datetime_millis(text) {
        Some(millis) => if MIN_MILLIS <= millis <= MAX_MILLIS {
            Some(millis)
        } else {
            None
        },
        None => None,
    }
}

/// Reads one side of a time range.
fn parse_instant(text: &str) -> (r: Option<Timestamp>)
    ensures
        match r {
            Some(time) => instant_of(text@) == Some(time@),
            None => instant_of(text@) is None,
        },
{
    match parse_naive_datetime(text) {
        Ok(millis) => Timestamp::from_millis(millis),
        Err(_) => None,
    }
}

/// The start of the second that contains the instant `millis`.
pub open spec fn second_floor(millis: int) -> int {
    millis - millis % 1000
}

/// A text without its last character; an empty text stays empty.
pub open spec fn without_last(text: Seq<char>) -> Seq<char> {
    if text.len() > 0 {
        text.drop_last()
    } else {
        text
    }
}

/// Cuts a text at its first underscore into what stands before it and what
/// stands after it; `None` where the text holds no underscore.
pub fn split_at_underscore(text: &str) -> (r: Option<(&str, &str)>)
    ensures
        match r {
            Some((before, after)) => text@.index_of_first('_') matches Some(at) && before@
                == text@.take(at) && after@ == text@.skip(at + 1),
            None => text@.index_of_first('_') is None,
        },
{
    let n: usize = text.unicode_len();
    let mut at: usize = 0;
    while at < n
        invariant
            n == text@.len(),
            at <= n,
            forall|j: int| 0 <= j < at ==> text@[j] != '_',
        decreases n - at,
    {
        if text.get_char(at) == '_' {
            assert(text@.contains('_'));
            proof {
                text@.index_of_first_ensures('_');
            }
            let before = text.substring_char(0, at);
            let after = text.substring_char(at + 1, n);
            assert(before@ =~= text@.take(at as int));
            assert(after@ =~= text@.skip(at + 1));
            return Some((before, after));
        }
        at = at + 1;
    }
    proof {
        text@.index_of_first_ensures('_');
    }
    None
}

impl TimeRange {
    /// One side of the wire form: the instant as whole seconds, without the
    /// `Z` that ends it.
    pub open spec fn side_text(time: int) -> Seq<char> {
        without_last(rfc3339_seconds_text(time))
    }

    /// The wire form of a range: both sides, an underscore between them.
    pub open spec fn wire_text(from: int, to: int) -> Seq<char> {
        TimeRange::side_text(from) + seq!['_'] + TimeRange::side_text(to)
    }

    /// Joins two texts, each without its last character, with an underscore
    /// between them.
    pub fn wire_form(from: &str, to: &str) -> (text: String)
        ensures
            text@ == without_last(from@) + seq!['_'] + without_last(to@),
    {
        let from_len: usize = from.unicode_len();
        let to_len: usize = to.unicode_len();
        let mut text: String = if from_len > 0 {
            from.substring_char(0, from_len - 1).to_owned()
        } else {
            String::new()
        };
        text.append("_");
        if to_len > 0 {
            text.append(to.substring_char(0, to_len - 1));
        }
        proof {
            reveal_strlit("_");
            assert("_"@ =~= seq!['_']);
            assert(text@ =~= without_last(from@) + seq!['_'] + without_last(to@));
        }
        text
    }

    /// Writes the range in its wire form. What is cut off each side is the
    /// `Z`, and the text is read back as the range of the seconds in which
    /// its two sides lie.
    pub fn to_text(&self) -> (text: String)
        ensures
            text@ == TimeRange::wire_text(self.from@, self.to@),
            rfc3339_seconds_text(self.from@) == TimeRange::side_text(self.from@).push('Z'),
            rfc3339_seconds_text(self.to@) == TimeRange::side_text(self.to@).push('Z'),
            TimeRange::parsed(text@) == Ok::<(int, int), TimeRangeError>(
                (second_floor(self.from@), second_floor(self.to@)),
            ),
    {
        let from = rfc3339_seconds(self.from.millis());
        let to = rfc3339_seconds(self.to.millis());
        assert(from@ =~= from@.drop_last().push('Z'));
        assert(to@ =~= to@.drop_last().push('Z'));
        let text = TimeRange::wire_form(from.as_str(), to.as_str());
        proof {
            let first = TimeRange::side_text(self.from@);
            let second = TimeRange::side_text(self.to@);
            if first.contains('_') {
                let i = choose|i: int| 0 <= i < first.len() && first[i] == '_';
                assert(from@[i] == '_');
            }
            assert(text@ =~= first + seq!['_'] + second);
            assert(text@[first.len() as int] == '_');
            text@.index_of_first_ensures('_');
            let at = text@.index_of_first('_').unwrap();
            if at < first.len() {
                assert(first[at] == '_');
            }
            assert(text@.take(at) =~= first);
            assert(text@.skip(at + 1) =~= second);
        }
        text
    }

    /// The range that two sides make, or the first side that is missing.
    pub open spec fn of_sides(from: Option<int>, to: Option<int>) -> Result<
        (int, int),
        TimeRangeError,
    > {
        match from {
            None => Err(TimeRangeError::InvalidFrom),
            Some(from) => match to {
                None => Err(TimeRangeError::InvalidTo),
                Some(to) => Ok((from, to)),
            },
        }
    }

    /// Makes a range of its two sides, each read or not.
    pub fn from_sides(from: Option<Timestamp>, to: Option<Timestamp>) -> (r: Result<
        TimeRange,
        TimeRangeError,
    >)
        ensures
            match r {
                Ok(range) => from == Some(range.from) && to == Some(range.to),
                Err(error) => error == if from is None {
                    TimeRangeError::InvalidFrom
                } else {
                    TimeRangeError::InvalidTo
                } && (from is None || to is None),
            },
    {
        match from {
            None => Err(TimeRangeError::InvalidFrom),
            Some(from) => match to {
                None => Err(TimeRangeError::InvalidTo),
                Some(to) => Ok(TimeRange { from, to }),
            },
        }
    }

    /// What a text means as a time range: it is cut at its first underscore,
    /// and each side is read as a date and time.
    pub open spec fn parsed(text: Seq<char>) -> Result<(int, int), TimeRangeError> {
        match text.index_of_first('_') {
            None => Err(TimeRangeError::MissingUnderscore),
            Some(at) => TimeRange::of_sides(
                instant_of(text.take(at)),
                instant_of(text.skip(at + 1)),
            ),
        }
    }

    /// Whether the range holds the start of a minute after the minute of
    /// its `from`: only for such a range can aggregates be asked.
    pub fn spans_minutes(&self) -> (r: bool)
        ensures
            r == (minute_floor(self.from@) < minute_floor(self.to@)),
    {
        UtcMinute::from(self.from).millis() < UtcMinute::from(self.to).millis()
    }

    /// Reads a range from its wire form.
    pub fn parse(text: &str) -> (r: Result<TimeRange, TimeRangeError>)
        ensures
            match r {
                Ok(range) => TimeRange::parsed(text@) == Ok::<(int, int), TimeRangeError>(
                    (range.from@, range.to@),
                ),
                Err(error) => TimeRange::parsed(text@) == Err::<(int, int), TimeRangeError>(error),
            },
    {
        match split_at_underscore(text) {
            None => Err(TimeRangeError::MissingUnderscore),
            Some((before, after)) => TimeRange::from_sides(
                parse_instant(before),
                parse_instant(after),
            ),
        }
    }
}

/// The engine: what every backend offers. Its answers are fixed by the
/// history of the tags that were ingested.
pub trait System {
    /// Every tag that was ingested since the backend was made or last
    /// cleared, in the order of ingestion.
    spec fn ingested(&self) -> Seq<UserTagView>;

    /// The invariant of the backend.
    spec fn valid(&self) -> bool;

    /// Ingests a tag.
    fn register_user_tag(&mut self, user_tag: UserTag)
        requires
            old(self).valid(),
            old(self).ingested().len() < u32::MAX,
        ensures
            final(self).valid(),
            final(self).ingested() == old(self).ingested().push(user_tag@),
    ;

    /// The profile of a cookie: its newest views and its newest buys that
    /// lie in the half-open window from `time_from` to `time_to`, each newest
    /// first and cut to `limit`.
    fn last_tags_by_cookie(
        &self,
        cookie: &str,
        time_from: Timestamp,
        time_to: Timestamp,
        limit: usize,
    ) -> (profile: UserProfile)
        requires
            self.valid(),
            limit <= MAX_TAGS_BY_COOKIE,
        ensures
            profile@ == profile_of(self.ingested(), cookie@, time_from@, time_to@, limit as nat),
    ;

    /// Counts and sums, minute by minute, the ingested tags that pass the
    /// filter: one bucket for every minute from the minute of `time_from` up
    /// to, and not including, the minute of `time_to`.
    fn select_bucket_stats(
        &self,
        time_from: Timestamp,
        time_to: Timestamp,
        action: Action,
        origin: Option<&str>,
        brand_id: Option<&str>,
        category_id: Option<&str>,
    ) -> (buckets: Vec<Bucket>)
        requires
            self.valid(),
            minute_floor(time_from@) < minute_floor(time_to@),
        ensures
            is_bucket_stats(
                buckets@,
                self.ingested(),
                time_from@,
                time_to@,
                filter_of(action, origin, brand_id, category_id),
            ),
    ;

    /// Drops everything that was ingested.
    fn clear(&mut self)
        ensures
            final(self).valid(),
            final(self).ingested() == Seq::<UserTagView>::empty(),
    ;
}

} // verus!
