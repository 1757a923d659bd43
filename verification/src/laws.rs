//! What holds of every run of the multiplexer, proved from what its steps are.
//!
//! Each function of `RequestResponsesBehaviour` that changes the multiplexer says in
//! its contract which state comes of which: the function of `State` that `run::step`
//! applies for the same thing brought in. A use of the multiplexer is therefore a
//! `run::run` from `initial`, and what is proved here of every run holds of every use.

pub mod inbound;
pub mod isolation;
pub mod liveness;
pub mod outbound;
pub mod run;
pub mod search;
