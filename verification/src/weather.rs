//! The dataset: temperature readings by country, city and month.

use crate::response::{city_not_found, country_not_found, month_not_found};
use crate::table::Table;
use vstd::prelude::*;

verus! {

/// The average high and low temperature of one city in one month.
///
/// A reading is kept as the bit pattern of its IEEE 754 double, so that it
/// leaves the library exactly as it came in. The library never computes with
/// a reading.
#[derive(Clone, Copy, Debug, PartialEq, Eq, Structural)]
pub struct Temperature {
    pub high_bits: u64,
    pub low_bits: u64,
}

/// The readings of one city, by month name.
pub type CityEntry = Table<Temperature>;

/// The cities of one country, by city name.
pub type CountryEntry = Table<CityEntry>;

/// The countries of the dataset, by country name.
pub type WeatherData = Table<CountryEntry>;

/// What every request handler reads. It is built once and never changed.
pub struct AppState {
    pub weather: WeatherData,
}

/// What a request for the reading of `month` in `city` in `country` finds:
/// the reading, or the message for the first of the three names that is
/// missing. A name is found only as it is written; nothing is normalised.
pub open spec fn lookup(
    weather: WeatherData,
    country: Seq<char>,
    city: Seq<char>,
    month: Seq<char>,
) -> Result<Temperature, Seq<char>> {
    if !weather@.contains_key(country) {
        Err(country_not_found(country))
    } else if !weather@[country]@.contains_key(city) {
        Err(city_not_found(city, country))
    } else if !weather@[country]@[city]@.contains_key(month) {
        Err(month_not_found(month, city, country))
    } else {
        Ok(weather@[country]@[city]@[month])
    }
}

impl Temperature {
    /// The reading with the given bit patterns.
    pub fn from_bits(high_bits: u64, low_bits: u64) -> (r: Self)
        ensures
            r == (Temperature { high_bits, low_bits }),
    {
        Temperature { high_bits, low_bits }
    }
}

} // verus!
