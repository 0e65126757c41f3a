//! The protocol-buffer payloads that the log and the archive carry.

pub mod log_labeler_data;
pub mod log_labels;
pub mod messages_robocup_ssl_referee;
pub mod messages_robocup_ssl_wrapper;
pub mod schema;
pub mod wire;
