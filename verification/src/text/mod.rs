//! Text as sequences of characters: classes of characters, searching, cutting,
//! joining, numbers and the layout helpers that every rendering is built from.
pub mod chain;
pub mod class;
pub mod json;
pub mod laws;
pub mod layout;
pub mod make;
pub mod number;
pub mod pieces;
pub mod scan;
pub mod utf8;
