//! Verified core of the SecureCrypt evaluation dashboard.

pub mod application;
pub mod containers;
pub mod evaluation;
pub mod formatting;
pub mod lifecycle;
pub mod monitor;
pub mod processes;
pub mod report;
pub mod seq_facts;
pub mod storage;
pub mod summaries;
pub mod text;
pub mod text_order;
pub mod user_application;
pub mod results;
pub mod results_laws;
