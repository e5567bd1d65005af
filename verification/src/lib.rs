//! Hardware readings for a desktop monitor applet: the parsers that turn
//! `/proc` and `/sys` text into numbers, the bookkeeping that turns counters
//! into rates, and the formatting and state the user interface shows.
pub mod app;
pub mod config;
pub mod hardware;
pub mod text;
pub mod views;
pub mod order;
