//! Read-only lookup of monthly temperature readings by country, city and
//! month, as the handlers of a small HTTP interface.
//!
//! - [`table`]: a table from names to values in which no name occurs twice.
//! - [`order`]: the order of names, and sorting by it.
//! - [`weather`]: the dataset, three tables deep, and what a lookup finds.
//! - [`response`]: responses and the messages for missing names.
//! - [`handlers`]: one function for each route.

pub mod handlers;
pub mod order;
pub mod response;
pub mod table;
pub mod weather;
