//! The request handlers: each is a function of the dataset and of the names
//! in the request's path.

use crate::order::{is_listing, lemma_sorted_distinct, sort_names};
use crate::response::{
    country_not_found, docs_path, month_not_found, Body, ErrorResponse, Response,
};
use crate::table::Table;
use crate::weather::{lookup, AppState};
use vstd::prelude::*;

verus! {

/// The names of `table` in ascending order.
pub fn sorted_names<V>(table: &Table<V>) -> (r: Vec<String>)
    ensures
        is_listing(r.deep_view(), table@.dom()),
{
    let names = table.names();
    let sorted = sort_names(names);
    proof {
        lemma_sorted_distinct(names.deep_view(), sorted.deep_view());
    }
    sorted
}

/// Answers a request for `/`: the documentation is elsewhere.
pub fn root() -> (r: Response)
    ensures
        r.redirects_to(docs_path()),
{
    Response::moved_permanently("/docs/".to_owned())
}

/// Answers a request for `/docs`: the documentation is at `/docs/`.
pub fn docs_redirect() -> (r: Response)
    ensures
        r.redirects_to(docs_path()),
{
    Response::moved_permanently("/docs/".to_owned())
}

/// Answers a request for `/countries`: the names of all countries, ascending.
pub fn countries(state: &AppState) -> (r: Response)
    ensures
        r.lists(state.weather@.dom()),
{
    Response::ok(Body::Names(sorted_names(&state.weather)))
}

/// Answers a request for `/countries/{country}`: the names of the country's
/// cities, ascending, or the report that the dataset lacks the country.
pub fn country_cities(state: &AppState, country: &str) -> (r: Response)
    ensures
        state.weather@.contains_key(country@) ==> r.lists(state.weather@[country@]@.dom()),
        !state.weather@.contains_key(country@) ==> r.reports(country_not_found(country@)),
{
    match state.weather.get(country) {
        None => Response::not_found(ErrorResponse::country_not_found(country)),
        Some(cities) => Response::ok(Body::Names(sorted_names(cities))),
    }
}

/// Answers a request for `/countries/{country}/{city}/{month}`: the reading,
/// or the report of the first of country, city and month that is missing.
pub fn monthly_average(state: &AppState, country: &str, city: &str, month: &str) -> (r: Response)
    ensures
        match lookup(state.weather, country@, city@, month@) {
            Ok(reading) => r.carries(reading),
            Err(detail) => r.reports(detail),
        },
        !state.weather@.contains_key(country@) ==> r.reports(country_not_found(country@)),
        state.weather@.contains_key(country@) && state.weather@[country@]@.contains_key(city@)
            && !state.weather@[country@]@[city@]@.contains_key(month@) ==> r.reports(
            month_not_found(month@, city@, country@),
        ),
{
    let cities = match state.weather.get(country) {
        None => {
            return Response::not_found(ErrorResponse::country_not_found(country));
        },
        Some(cities) => cities,
    };
    let months = match cities.get(city) {
        None => {
            return Response::not_found(ErrorResponse::city_not_found(city, country));
        },
        Some(months) => months,
    };
    match months.get(month) {
        None => Response::not_found(ErrorResponse::month_not_found(month, city, country)),
        Some(temperature) => Response::ok(Body::Reading(*temperature)),
    }
}

} // verus!
