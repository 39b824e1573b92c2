//! The rebuild tracer: dataset parameters, work assignment for the
//! instrumented scan, and the state of its screens.
pub mod args;
pub mod dataset;
pub mod live;
pub mod screen;
pub mod setup;
pub mod worker;
