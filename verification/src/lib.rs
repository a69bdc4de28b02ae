//! Core of a job-application mailer: template rendering, an append-only
//! delivery log with a round-tripping stored form, and a sequential bulk
//! dispatch engine with randomized inter-send delays.

pub mod config;
pub mod dispatch;
pub mod log;
pub mod render;
pub mod store;

pub use config::Config;
pub use config::EmailTemplate;
pub use config::Profile;
pub use config::SmtpConfig;
pub use log::SentLog;
pub use log::SentRecord;
pub use render::build_email;
