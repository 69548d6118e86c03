//! What holds of the library as a whole, stated on what goes in and what comes
//! out: the answers that a decision was given, the fields of the accounts that
//! were read, and the actions and values that follow.
pub mod counting;
pub mod cranking;
pub mod drawing;
pub mod encoding;
pub mod reading;
pub mod seeds;
pub mod sending;
pub mod showing;
pub mod upkeep;
pub mod watching;
