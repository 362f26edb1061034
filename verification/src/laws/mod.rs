//! What the library promises, in terms of what goes into its functions and
//! what comes out of them.

pub mod admission;
pub mod basics;
pub mod control;
pub mod datagrams;
pub mod doubles;
pub mod intervals;
pub mod measurement;
pub mod options;
pub mod pace;
pub mod printing;
pub mod results;
pub mod sessions;
pub mod streams;
pub mod texts;
