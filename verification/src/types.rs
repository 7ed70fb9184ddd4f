use vstd::prelude::*;

pub use crate::toc::Levels;

verus! {

/// An instant in UTC: whole seconds since the Unix epoch and the nanoseconds
/// past them. Instants are ordered by seconds, then nanoseconds.
#[derive(Clone, Copy, PartialEq, Eq, Debug)]
pub struct Timestamp {
    pub secs: i64,
    pub nanos: u32,
}

/// Whether `chrono::DateTime::<Utc>::from_timestamp` accepts the seconds and
/// nanoseconds (the instant lies in chrono's range and the nanoseconds are valid).
pub uninterp spec fn utc_representable(secs: i64, nanos: u32) -> bool;

/// What `chrono::DateTime::to_rfc3339` writes for the instant.
pub uninterp spec fn rfc3339_text(secs: i64, nanos: u32) -> Seq<char>;

/// What chrono's `format("%B %d, %Y")` writes for the instant (e.g. `March 05, 2024`).
pub uninterp spec fn long_date_text(secs: i64, nanos: u32) -> Seq<char>;

/// Midnight UTC of the date that `chrono::NaiveDate::parse_from_str(text, "%Y-%m-%d")`
/// reads from the text, or `None` when it reads none.
pub uninterp spec fn parsed_midnight(text: Seq<char>) -> Option<Timestamp>;

impl Timestamp {
    /// The instant is one chrono can represent.
    pub open spec fn valid(self) -> bool {
        utc_representable(self.secs, self.nanos)
    }

    /// Whether this instant is strictly before `other`.
    pub open spec fn before(self, other: Timestamp) -> bool {
        self.secs < other.secs || (self.secs == other.secs && self.nanos < other.nanos)
    }

    /// Whether this instant is strictly before `other`.
    pub fn is_before(&self, other: &Timestamp) -> (r: bool)
        ensures
            r == self.before(*other),
    {
        self.secs < other.secs || (self.secs == other.secs && self.nanos < other.nanos)
    }

    /// The instant, if chrono can represent it.
    pub fn new(secs: i64, nanos: u32) -> (r: Option<Timestamp>)
        ensures
            r is Some <==> utc_representable(secs, nanos),
            r matches Some(t) ==> t.secs == secs && t.nanos == nanos,
    {
        if representable(secs, nanos) {
            Some(Timestamp { secs, nanos })
        } else {
            None
        }
    }
}

/// `chrono::DateTime::<Utc>::from_timestamp(secs, nanos).is_some()`.
#[verifier::external_body]
fn representable(secs: i64, nanos: u32) -> (r: bool)
    ensures
        r == utc_representable(secs, nanos),
{
    chrono::DateTime::<chrono::Utc>::from_timestamp(secs, nanos).is_some()
}

/// `chrono::DateTime::to_rfc3339` for the instant (e.g. `2024-03-05T00:00:00+00:00`).
#[verifier::external_body]
pub(crate) fn to_rfc3339(t: &Timestamp) -> (r: String)
    requires
        t.valid(),
    ensures
        r@ == rfc3339_text(t.secs, t.nanos),
{
    chrono::DateTime::<chrono::Utc>::from_timestamp(t.secs, t.nanos).unwrap().to_rfc3339()
}

/// chrono's `format("%B %d, %Y")` for the instant.
#[verifier::external_body]
pub(crate) fn format_long_date(t: &Timestamp) -> (r: String)
    requires
        t.valid(),
    ensures
        r@ == long_date_text(t.secs, t.nanos),
{
    chrono::DateTime::<chrono::Utc>::from_timestamp(t.secs, t.nanos).unwrap().format("%B %d, %Y").to_string()
}

/// `chrono::NaiveDate::parse_from_str(text, "%Y-%m-%d")`, taken at midnight UTC;
/// an instant chrono can represent, as it comes from a chrono date and time.
#[verifier::external_body]
pub(crate) fn parse_date(text: &str) -> (r: Option<Timestamp>)
    ensures
        r == parsed_midnight(text@),
        r matches Some(t) ==> t.valid(),
{
    chrono::NaiveDate::parse_from_str(text, "%Y-%m-%d").ok().map(|d| {
        let t = d.and_hms_opt(0, 0, 0).unwrap().and_utc();
        Timestamp { secs: t.timestamp(), nanos: t.timestamp_subsec_nanos() }
    })
}

/// `chrono::Utc::now()`: the current instant; which one is not stated, only that
/// chrono can represent it, as it comes from a chrono date and time.
#[verifier::external_body]
pub(crate) fn utc_now() -> (r: Timestamp)
    ensures
        r.valid(),
{
    let t = chrono::Utc::now();
    Timestamp { secs: t.timestamp(), nanos: t.timestamp_subsec_nanos() }
}

/// Front matter fields of a page.
#[derive(Clone, Debug)]
pub struct Frontmatter {
    pub title: String,
    pub subtitle: Option<String>,
    pub tags: Option<Vec<String>>,
}

/// A published article as the feeds list it.
#[derive(Clone, Debug)]
pub struct Entry {
    pub title: String,
    pub subtitle: Option<String>,
    pub datetime: Timestamp,
    pub url: String,
}

/// The entries of the sitemap.
pub type Entries = Entry;

} // verus!
