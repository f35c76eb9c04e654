use vstd::prelude::*;

use crate::config_loader::InfluxConfig;

verus! {

/// What one download-log record carries.
pub struct SideEffectProps {
    pub request_ip: String,
    pub user_agent: String,
    pub file_name: String,
}

/// The download-log sink: enabled exactly when a metrics store is
/// configured. The write itself is fire-and-forget and happens outside the
/// library; this type only decides whether a record is to be written.
pub struct LogEffect {
    pub config: Option<InfluxConfig>,
}

impl LogEffect {
    pub fn new(config: Option<InfluxConfig>) -> (r: Self)
        ensures
            r.config == config,
    {
        LogEffect { config }
    }

    /// Whether records are written at all.
    pub fn is_enabled(&self) -> (r: bool)
        ensures
            r == (self.config is Some),
    {
        self.config.is_some()
    }
}

} // verus!
