//! A guess-the-character game library.
//!
//! The library holds the logic of a small chat game: a catalog of guessable
//! entries (an id naming the source artwork and a canonical display name), a
//! normalizer that makes free-text guesses comparable, a codec that persists
//! the catalog as a flat JSON file, and the round logic that picks an entry,
//! crops a snippet of its artwork, matches replies, and resolves the round.
//! Network and chat-platform plumbing stay outside; the library states and
//! proves what each step computes.
use vstd::prelude::*;

pub mod catalog;
pub mod codec;
pub mod normalize;
pub mod round;

verus! {

} // verus!
