//! Configuration and what makes it valid.
use crate::error::{Error, ErrorView, Result};
use crate::text;
use vstd::prelude::*;

verus! {

/// Where the web pages are served.
#[derive(Debug, Clone)]
pub struct ServerConfig {
    pub bind: String,
    pub port: u16,
}

/// Where the database is.
#[derive(Debug, Clone)]
pub struct DatabaseConfig {
    pub path: String,
}

/// How LibreNMS is talked to.
#[derive(Debug, Clone)]
pub struct LibreNmsConfig {
    pub timeout_seconds: u64,
    pub retry_max: u32,
    pub sleep_ms_between_requests: u64,
}

/// When billing runs.
#[derive(Debug, Clone)]
pub struct BillingConfig {
    pub run_at_day_of_month: u32,
    pub run_at_hour: u32,
    pub run_at_minute: u32,
    pub timezone: String,
}

/// Where files go.
#[derive(Debug, Clone)]
pub struct OutputConfig {
    pub root: String,
    pub soffice_user_installation: String,
}

/// What the web pages need.
#[derive(Debug, Clone)]
pub struct WebConfig {
    pub session_secret: String,
}

/// The whole configuration.
#[derive(Debug, Clone)]
pub struct AppConfig {
    pub server: ServerConfig,
    pub database: DatabaseConfig,
    pub libre_nms: LibreNmsConfig,
    pub billing: BillingConfig,
    pub output: OutputConfig,
    pub web: WebConfig,
}

/// What is wrong with a configuration, where something is: there must be a port, a day that every
/// month has, an hour, a minute and a time zone.
pub open spec fn config_fault(c: AppConfig) -> Option<Seq<char>> {
    if c.server.port == 0 {
        Some("server.port must not be 0"@)
    } else if !(1 <= c.billing.run_at_day_of_month <= 28) {
        Some("billing.run_at_day_of_month must be between 1 and 28"@)
    } else if c.billing.run_at_hour > 23 {
        Some("billing.run_at_hour must be between 0 and 23"@)
    } else if c.billing.run_at_minute > 59 {
        Some("billing.run_at_minute must be between 0 and 59"@)
    } else if c.billing.timezone@.len() == 0 {
        Some("billing.timezone must not be empty"@)
    } else {
        None
    }
}

impl AppConfig {
    /// Whether the configuration is valid.
    pub fn validate(&self) -> (r: Result<()>)
        ensures
            match config_fault(*self) {
                Some(m) => r matches Err(e) && e@ == ErrorView::Config(m),
                None => r is Ok,
            },
    {
        if self.server.port == 0 {
            return Err(Error::Config("server.port must not be 0".to_owned()));
        }
        if self.billing.run_at_day_of_month < 1 || self.billing.run_at_day_of_month > 28 {
            return Err(
                Error::Config("billing.run_at_day_of_month must be between 1 and 28".to_owned()),
            );
        }
        if self.billing.run_at_hour > 23 {
            return Err(Error::Config("billing.run_at_hour must be between 0 and 23".to_owned()));
        }
        if self.billing.run_at_minute > 59 {
            return Err(
                Error::Config("billing.run_at_minute must be between 0 and 59".to_owned()),
            );
        }
        if text::chars_of(&self.billing.timezone).len() == 0 {
            return Err(Error::Config("billing.timezone must not be empty".to_owned()));
        }
        Ok(())
    }
}

/// A configuration is valid exactly where there is a port, a day that every month has, a time of day
/// and a time zone.
pub proof fn law_valid_configuration(c: AppConfig)
    ensures
        config_fault(c) is None <==> {
            &&& c.server.port > 0
            &&& c.billing.run_at_day_of_month >= 1 && c.billing.run_at_day_of_month <= 28
            &&& c.billing.run_at_hour < 24
            &&& c.billing.run_at_minute < 60
            &&& c.billing.timezone@ != Seq::<char>::empty()
        },
{
    assert(c.billing.timezone@.len() == 0 ==> c.billing.timezone@ =~= Seq::<char>::empty());
}

/// What is wrong does not depend on what is right: a change to parts that are not checked changes
/// nothing.
pub proof fn law_only_these_parts_matter(c: AppConfig, d: AppConfig)
    requires
        c.server.port == d.server.port,
        c.billing.run_at_day_of_month == d.billing.run_at_day_of_month,
        c.billing.run_at_hour == d.billing.run_at_hour,
        c.billing.run_at_minute == d.billing.run_at_minute,
        c.billing.timezone@ == d.billing.timezone@,
    ensures
        config_fault(c) == config_fault(d),
{
}

/// What is wrong is said of the first part that is.
pub proof fn law_what_is_wrong(c: AppConfig)
    ensures
        c.server.port == 0 ==> config_fault(c) == Some("server.port must not be 0"@),
        c.server.port > 0 && (c.billing.run_at_day_of_month < 1 || c.billing.run_at_day_of_month
            > 28) ==> config_fault(c) == Some(
            "billing.run_at_day_of_month must be between 1 and 28"@,
        ),
        c.server.port > 0 && 1 <= c.billing.run_at_day_of_month <= 28 && c.billing.run_at_hour >= 24
            ==> config_fault(c) == Some("billing.run_at_hour must be between 0 and 23"@),
        c.server.port > 0 && 1 <= c.billing.run_at_day_of_month <= 28 && c.billing.run_at_hour < 24
            && c.billing.run_at_minute >= 60 ==> config_fault(c) == Some(
            "billing.run_at_minute must be between 0 and 59"@,
        ),
{
}

} // verus!
