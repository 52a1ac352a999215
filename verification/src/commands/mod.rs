//! The subcommands.

pub mod check;
pub mod laws;
pub mod ppd;
pub mod ppd_laws;
pub mod ppd_lines;
pub mod ppd_margins;
pub mod print;
pub mod queue;
pub mod queue_laws;
pub mod serve;
pub mod status;
