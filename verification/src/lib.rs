//! Core of an image organizer: an ordered sequence of image paths with a
//! current index and cyclic navigation, a sliding-window resource cache
//! with explicit eviction, and a reversible log of filesystem moves that
//! drives single-step undo. The filesystem and the presentation layer
//! stay outside: directory entries come in as strings, renames are
//! performed by the caller between planning and committing a move, and
//! display handles go out as URIs.

pub mod cache;
pub mod listing;
pub mod movelog;
pub mod navigator;
pub mod organizer;
pub mod paths;
pub mod strutil;
