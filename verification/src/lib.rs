//! Verified core of a cricket scorecard scraper: the text handling, page
//! extraction and record building that turn downloaded match pages and
//! player profiles into CSV rows.

pub mod text;
pub mod cleanup;
pub mod player;
pub mod latest;
pub mod html;
pub mod pattern;
pub mod players;
pub mod matches;
pub mod scorecard;
pub mod venue;
