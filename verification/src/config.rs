//! Configuration data supplied, already validated, by the caller: the
//! sender's profile, the SMTP endpoint, and the message template.

use vstd::prelude::*;

verus! {

/// Sender identity and resume-style fields merged into the template.
#[derive(Debug, Clone)]
pub struct Profile {
    pub name: String,
    pub email: String,
    pub phone: String,
    pub title: String,
    pub summary: String,
    pub skills: Vec<String>,
    pub experience_years: u8,
    pub linkedin: Option<String>,
    pub github: Option<String>,
}

/// SMTP endpoint; consumed only by the transport shell, carried here so a
/// whole configuration is one value.
#[derive(Debug, Clone)]
pub struct SmtpConfig {
    pub host: String,
    pub port: u16,
}

/// A subject and body, each with zero or more `{{...}}` placeholders.
#[derive(Debug, Clone)]
pub struct EmailTemplate {
    pub subject: String,
    pub body: String,
}

/// A full run configuration, immutable for the duration of a run.
#[derive(Debug, Clone)]
pub struct Config {
    pub profile: Profile,
    pub smtp: SmtpConfig,
    pub template: EmailTemplate,
}

} // verus!
