//! Reading map coordinates typed one line at a time, and laying out the
//! hourly weather forecast asked for each place.
pub mod coord;
pub mod forecast;
pub mod session;
pub mod text;
