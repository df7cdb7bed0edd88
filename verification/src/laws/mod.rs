//! Properties that span several functions of the library.
//!
//! Each public proof function here states one law over the spec functions that the contracts of the
//! executable functions use.
pub mod addr;
pub mod calendar;
pub mod config;
pub mod edits;
pub mod export;
pub mod ipv6;
pub mod letters;
pub mod lexical;
pub mod listing;
pub mod loading;
pub mod lookup;
pub mod message;
pub mod names;
pub mod outcomes;
pub mod pages;
pub mod pieces;
pub mod reading;
pub mod records;
pub mod rendering;
pub mod resolver;
pub mod scanning;
pub mod seeding;
pub mod served;
pub mod session;
pub mod store;
pub mod stored;
pub mod values;
pub mod wire;
