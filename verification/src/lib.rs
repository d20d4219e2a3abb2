//! A template-matching engine for on-screen visual search: given a captured
//! window image and a small template image, it locates the template's
//! best-matching offset by normalized cross-correlation, computed in exact
//! integer arithmetic over fixed-point scores.

pub mod contrast;
pub mod img;
pub mod ncc;
pub mod search;
pub mod session;
