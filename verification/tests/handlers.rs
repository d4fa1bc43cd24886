use weather_api::handlers::{countries, country_cities, docs_redirect, monthly_average, root};
use weather_api::response::{Body, ErrorResponse, Response, MOVED_PERMANENTLY, NOT_FOUND, OK};
use weather_api::table::Table;
use weather_api::weather::{AppState, CityEntry, CountryEntry, Temperature, WeatherData};

fn reading(high: f64, low: f64) -> Temperature {
    Temperature::from_bits(high.to_bits(), low.to_bits())
}

fn city(months: Vec<(&str, f64, f64)>) -> CityEntry {
    let mut entry: CityEntry = Table::new();
    for (month, high, low) in months {
        entry.insert(month.to_string(), reading(high, low));
    }
    entry
}

fn country(cities: Vec<(&str, CityEntry)>) -> CountryEntry {
    let mut entry: CountryEntry = Table::new();
    for (name, months) in cities {
        entry.insert(name.to_string(), months);
    }
    entry
}

/// Seven countries, stored in no particular order; only England and Spain
/// hold what the assertions below read.
fn init_app() -> AppState {
    let mut weather: WeatherData = Table::new();
    weather.insert("Peru".to_string(), country(vec![]));
    weather.insert(
        "England".to_string(),
        country(vec![(
            "London",
            city(vec![("March", 57.0, 42.5), ("January", 45.0, 36.0), ("February", 47.5, -1.25)]),
        )]),
    );
    weather.insert("Spain".to_string(), country(vec![("Seville", city(vec![]))]));
    weather.insert("France".to_string(), country(vec![]));
    weather.insert("Portugal".to_string(), country(vec![]));
    weather.insert("Germany".to_string(), country(vec![]));
    weather.insert("Italy".to_string(), country(vec![]));
    AppState { weather }
}

fn names(resp: &Response) -> Vec<String> {
    match &resp.body {
        Body::Names(list) => list.clone(),
        other => panic!("not a list of names: {:?}", other),
    }
}

fn error(resp: &Response) -> ErrorResponse {
    match &resp.body {
        Body::Error(e) => e.clone(),
        other => panic!("not an error: {:?}", other),
    }
}

#[test]
fn root_redirects_to_docs() {
    let resp = root();
    assert_eq!(resp.status, MOVED_PERMANENTLY);
    assert_eq!(resp.status, 301);
    let location = resp.location.expect("missing LOCATION header");
    assert_eq!(location, "/docs/");
}

#[test]
fn docs_redirects_to_trailing_slash() {
    let resp = docs_redirect();
    assert_eq!(resp.status, MOVED_PERMANENTLY);
    let location = resp.location.expect("missing LOCATION header");
    assert_eq!(location, "/docs/");
}

#[test]
fn redirects_carry_nothing() {
    assert_eq!(root().body, Body::Empty);
    assert_eq!(docs_redirect().body, Body::Empty);
}

#[test]
fn countries_returns_sorted_list() {
    let app = init_app();
    let resp = countries(&app);
    assert_eq!(resp.status, OK);
    assert_eq!(resp.status, 200);
    assert_eq!(resp.location, None);
    let body = names(&resp);
    assert_eq!(
        body,
        vec!["England", "France", "Germany", "Italy", "Peru", "Portugal", "Spain"]
    );
}

#[test]
fn countries_of_empty_dataset_is_empty_list() {
    let app = AppState { weather: Table::new() };
    let resp = countries(&app);
    assert_eq!(resp.status, OK);
    assert_eq!(resp.body, Body::Names(vec![]));
}

#[test]
fn countries_lists_each_name_once() {
    let mut weather: WeatherData = Table::new();
    weather.insert("Spain".to_string(), country(vec![]));
    weather.insert("Italy".to_string(), country(vec![]));
    weather.insert("Spain".to_string(), country(vec![("Seville", city(vec![]))]));
    let app = AppState { weather };
    assert_eq!(names(&countries(&app)), vec!["Italy", "Spain"]);
    assert_eq!(names(&country_cities(&app, "Spain")), vec!["Seville"]);
}

#[test]
fn country_cities_success() {
    let app = init_app();
    let resp = country_cities(&app, "Spain");
    assert_eq!(resp.status, OK);
    let body = names(&resp);
    assert_eq!(body, vec!["Seville".to_string()]);
}

#[test]
fn country_cities_sorted() {
    let mut weather: WeatherData = Table::new();
    weather.insert(
        "Italy".to_string(),
        country(vec![
            ("Rome", city(vec![])),
            ("Milan", city(vec![])),
            ("Naples", city(vec![])),
            ("Bari", city(vec![])),
        ]),
    );
    let app = AppState { weather };
    assert_eq!(names(&country_cities(&app, "Italy")), vec!["Bari", "Milan", "Naples", "Rome"]);
}

#[test]
fn country_cities_of_country_without_cities() {
    let app = init_app();
    let resp = country_cities(&app, "Peru");
    assert_eq!(resp.status, OK);
    assert_eq!(resp.body, Body::Names(vec![]));
}

#[test]
fn country_cities_not_found() {
    let app = init_app();
    let resp = country_cities(&app, "Unknownland");
    assert_eq!(resp.status, NOT_FOUND);
    assert_eq!(resp.status, 404);
    assert_eq!(resp.location, None);
    let body = error(&resp);
    assert_eq!(
        body,
        ErrorResponse {
            detail: "Country 'Unknownland' not found".to_string()
        }
    );
}

#[test]
fn country_names_are_matched_as_written() {
    let app = init_app();
    for name in ["spain", "SPAIN", " Spain", "Spain ", "Spai", ""] {
        let resp = country_cities(&app, name);
        assert_eq!(resp.status, NOT_FOUND);
        assert_eq!(error(&resp).detail, format!("Country '{}' not found", name));
    }
}

#[test]
fn monthly_average_success() {
    let app = init_app();
    let resp = monthly_average(&app, "England", "London", "January");
    assert_eq!(resp.status, OK);
    assert_eq!(resp.location, None);
    let body = match resp.body {
        Body::Reading(t) => t,
        other => panic!("not a reading: {:?}", other),
    };
    assert_eq!(body, reading(45.0, 36.0));
    assert_eq!(f64::from_bits(body.high_bits), 45.0);
    assert_eq!(f64::from_bits(body.low_bits), 36.0);
}

#[test]
fn monthly_average_keeps_readings_exact() {
    let app = init_app();
    let resp = monthly_average(&app, "England", "London", "February");
    assert_eq!(resp.body, Body::Reading(reading(47.5, -1.25)));
    let resp = monthly_average(&app, "England", "London", "March");
    assert_eq!(resp.body, Body::Reading(reading(57.0, 42.5)));
}

#[test]
fn monthly_average_missing_month() {
    let app = init_app();
    let resp = monthly_average(&app, "England", "London", "NotAMonth");
    assert_eq!(resp.status, NOT_FOUND);
    let body = error(&resp);
    assert_eq!(
        body,
        ErrorResponse {
            detail: "Month 'NotAMonth' not found for city 'London' in country 'England'"
                .to_string()
        }
    );
}

#[test]
fn monthly_average_month_is_matched_as_written() {
    let app = init_app();
    let resp = monthly_average(&app, "England", "London", "january");
    assert_eq!(resp.status, NOT_FOUND);
    assert_eq!(
        error(&resp).detail,
        "Month 'january' not found for city 'London' in country 'England'"
    );
}

#[test]
fn monthly_average_missing_city() {
    let app = init_app();
    let resp = monthly_average(&app, "England", "Atlantis", "January");
    assert_eq!(resp.status, NOT_FOUND);
    assert_eq!(resp.location, None);
    assert_eq!(error(&resp).detail, "City 'Atlantis' not found in country 'England'");
}

#[test]
fn monthly_average_missing_country() {
    let app = init_app();
    let resp = monthly_average(&app, "Unknownland", "London", "January");
    assert_eq!(resp.status, NOT_FOUND);
    assert_eq!(error(&resp).detail, "Country 'Unknownland' not found");
}

#[test]
fn monthly_average_reports_first_missing_name() {
    let app = init_app();
    let resp = monthly_average(&app, "Unknownland", "Atlantis", "NotAMonth");
    assert_eq!(error(&resp).detail, "Country 'Unknownland' not found");
    let resp = monthly_average(&app, "England", "Atlantis", "NotAMonth");
    assert_eq!(error(&resp).detail, "City 'Atlantis' not found in country 'England'");
    let resp = monthly_average(&app, "Spain", "Seville", "January");
    assert_eq!(
        error(&resp).detail,
        "Month 'January' not found for city 'Seville' in country 'Spain'"
    );
}

#[test]
fn city_of_another_country_is_not_found() {
    let app = init_app();
    let resp = monthly_average(&app, "Spain", "London", "January");
    assert_eq!(resp.status, NOT_FOUND);
    assert_eq!(error(&resp).detail, "City 'London' not found in country 'Spain'");
}
