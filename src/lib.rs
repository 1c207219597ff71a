//! Export planning for daily price bars and corporate-action records:
//! file selection, record filtering, report and warehouse statement logic.

pub mod day;
pub mod gbbq;
pub mod gbbq_cmd;
pub mod sink;
pub mod text;
