//! Responses, and the messages of those that report a missing name.

use crate::order::is_listing;
use crate::weather::Temperature;
use vstd::prelude::*;
use vstd::string::StringExecFns;

verus! {

/// Status of a response that carries what was asked for.
pub const OK: u16 = 200;

/// Status of a response that sends the client to another path for good.
pub const MOVED_PERMANENTLY: u16 = 301;

/// Status of a response to a request that names something the dataset lacks.
pub const NOT_FOUND: u16 = 404;

/// Where the documentation is served.
pub open spec fn docs_path() -> Seq<char> {
    "/docs/"@
}

/// The message for a country that the dataset lacks.
pub open spec fn country_not_found(country: Seq<char>) -> Seq<char> {
    "Country '"@ + country + "' not found"@
}

/// The message for a city that its country lacks.
pub open spec fn city_not_found(city: Seq<char>, country: Seq<char>) -> Seq<char> {
    "City '"@ + city + "' not found in country '"@ + country + "'"@
}

/// The message for a month that its city lacks.
pub open spec fn month_not_found(month: Seq<char>, city: Seq<char>, country: Seq<char>) -> Seq<
    char,
> {
    "Month '"@ + month + "' not found for city '"@ + city + "' in country '"@ + country + "'"@
}

/// The body of a response that reports a missing name.
#[derive(Clone, Debug, PartialEq, Eq)]
pub struct ErrorResponse {
    pub detail: String,
}

/// What a response carries.
#[derive(Clone, Debug, PartialEq, Eq)]
pub enum Body {
    /// Nothing.
    Empty,
    /// A list of names.
    Names(Vec<String>),
    /// One reading.
    Reading(Temperature),
    /// The report of a missing name.
    Error(ErrorResponse),
}

/// A response: its status, the path it redirects to if it redirects, and
/// what it carries.
#[derive(Clone, Debug, PartialEq, Eq)]
pub struct Response {
    pub status: u16,
    pub location: Option<String>,
    pub body: Body,
}

impl ErrorResponse {
    /// The report that the dataset lacks `country`.
    pub fn country_not_found(country: &str) -> (r: Self)
        ensures
            r.detail@ == country_not_found(country@),
    {
        let mut detail = "Country '".to_owned();
        detail.append(country);
        detail.append("' not found");
        ErrorResponse { detail }
    }

    /// The report that `country` lacks `city`.
    pub fn city_not_found(city: &str, country: &str) -> (r: Self)
        ensures
            r.detail@ == city_not_found(city@, country@),
    {
        let mut detail = "City '".to_owned();
        detail.append(city);
        detail.append("' not found in country '");
        detail.append(country);
        detail.append("'");
        ErrorResponse { detail }
    }

    /// The report that `city` in `country` lacks `month`.
    pub fn month_not_found(month: &str, city: &str, country: &str) -> (r: Self)
        ensures
            r.detail@ == month_not_found(month@, city@, country@),
    {
        let mut detail = "Month '".to_owned();
        detail.append(month);
        detail.append("' not found for city '");
        detail.append(city);
        detail.append("' in country '");
        detail.append(country);
        detail.append("'");
        ErrorResponse { detail }
    }
}

impl Response {
    /// The response redirects to `path` for good and carries nothing.
    pub open spec fn redirects_to(self, path: Seq<char>) -> bool {
        &&& self.status == MOVED_PERMANENTLY
        &&& self.location matches Some(location) && location@ == path
        &&& self.body == Body::Empty
    }

    /// The response succeeds and carries exactly the names in `names`, each
    /// once, in ascending order.
    pub open spec fn lists(self, names: Set<Seq<char>>) -> bool {
        &&& self.status == OK
        &&& self.location.is_none()
        &&& self.body matches Body::Names(list) && is_listing(list.deep_view(), names)
    }

    /// The response succeeds and carries `reading`.
    pub open spec fn carries(self, reading: Temperature) -> bool {
        &&& self.status == OK
        &&& self.location.is_none()
        &&& self.body == Body::Reading(reading)
    }

    /// The response reports a missing name with the message `detail`.
    pub open spec fn reports(self, detail: Seq<char>) -> bool {
        &&& self.status == NOT_FOUND
        &&& self.location.is_none()
        &&& self.body matches Body::Error(error) && error.detail@ == detail
    }

    /// The response that sends the client to `location` for good.
    pub fn moved_permanently(location: String) -> (r: Self)
        ensures
            r.redirects_to(location@),
            r.location == Some(location),
    {
        Response { status: MOVED_PERMANENTLY, location: Some(location), body: Body::Empty }
    }

    /// The response that carries `body` as what was asked for.
    pub fn ok(body: Body) -> (r: Self)
        ensures
            r.status == OK,
            r.location.is_none(),
            r.body == body,
    {
        Response { status: OK, location: None, body }
    }

    /// The response that reports a missing name.
    pub fn not_found(error: ErrorResponse) -> (r: Self)
        ensures
            r.reports(error.detail@),
            r.body == Body::Error(error),
    {
        Response { status: NOT_FOUND, location: None, body: Body::Error(error) }
    }
}

} // verus!
