//! Kagane: license challenge encoding and search request building.
pub mod filters;
pub mod helpers;
pub mod series;
pub mod wvd;
