//! Work and rest time balancer: the log of work periods, the strain that
//! accumulates over them, and the decisions on what to report and when.

pub mod activities;
pub mod app;
pub mod args;
pub mod summary;
pub mod text;
