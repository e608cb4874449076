//! What holds of the library as a whole: what one call gives back of
//! another, and what no call lets through.
pub mod codes;
pub mod datagrams;
pub mod fragments;
pub mod frames;
pub mod layouts;
pub mod sendings;
pub mod steps;
pub mod sums;
pub mod texts;
pub mod transports;
pub mod views;
pub mod writings;
