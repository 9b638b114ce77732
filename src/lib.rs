//! Records of a lending library: books, members and the loans between them.
//!
//! `store` holds the three tables and the lending cycle (a book goes from
//! available to borrowed and back, one open loan at a time); `books`,
//! `members` and `borrowings` hold the records and the parameters of their
//! listings; `sort` and `text` the ordering and matching those listings use;
//! `laws` states what holds across calls.

pub mod books;
pub mod borrowings;
pub mod clock;
pub mod laws;
pub mod members;
pub mod params;
pub mod sort;
pub mod store;
pub mod text;
