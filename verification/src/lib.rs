//! The verified core of a generator for a GitHub profile README: it turns
//! GitHub, feed and last.fm data into the statistics and lines the README shows.
pub mod github_queries;
pub mod text;
pub mod sorting;
pub mod dates;
pub mod repos;
pub mod languages;
pub mod stats;
pub mod convert;
pub mod pages;
pub mod activity;
pub mod feed;
pub mod artists;
pub mod laws;
