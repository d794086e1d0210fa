//! The wire protocol.
pub mod answer_laws;
pub mod byte_buffer;
pub mod cache_planner;
pub mod capture_laws;
pub mod capture_model;
pub mod crawl;
pub mod crawl_laws;
pub mod data_phase;
pub mod encode;
pub mod exchange_laws;
pub mod execution_laws;
pub mod forwarding_laws;
pub mod message_framer;
pub mod messages;
pub mod numbers;
pub mod pipeline_laws;
pub mod plan_model;
pub mod planner_laws;
pub mod reader;
pub mod reading_laws;
pub mod ready_laws;
pub mod session_laws;
pub mod startup_phase;
pub mod types;
pub mod writer;
pub mod writing_laws;
