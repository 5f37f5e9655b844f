//! Line-up analysis for team Go (baduk) leagues: squads, the line-ups a
//! team can field, pairings between boards, and the text handling behind
//! the scraped league records and live broadcasts.
pub mod text;
pub mod selection;
pub mod lineup;
pub mod calendar;
pub mod squad;
pub mod records;
pub mod board;
pub mod live;
pub mod menu;
pub mod pages;
