//! Runtime configuration: the capture cadence and retention policy, with
//! the defaults used when no configuration file exists. Reading and parsing
//! the file happen outside the library, which receives the plain values.

use vstd::prelude::*;

verus! {

/// Runtime configuration values.
#[derive(Debug, Clone, Copy, PartialEq, Eq, Structural)]
pub struct Config {
    pub screenshot_interval_secs: u64,
    pub retention_days: u64,
}

impl Default for Config {
    /// The configuration used when none was stored: capture every five
    /// minutes, keep thirty days.
    fn default() -> (r: Config)
        ensures
            r.screenshot_interval_secs == 300,
            r.retention_days == 30,
    {
        Config { screenshot_interval_secs: 300, retention_days: 30 }
    }
}

impl Config {
    /// The configuration file's path under the data directory.
    pub fn path(data_dir: &str) -> (r: String)
        ensures
            r@ == data_dir@ + "/config.toml"@,
    {
        let mut s = String::from_str(data_dir);
        s.append("/config.toml");
        s
    }

    /// The capture interval the screenshot loop runs at: the configured
    /// value, floored at one second.
    pub fn effective_interval_secs(&self) -> (r: u64)
        ensures
            r == if self.screenshot_interval_secs >= 1 {
                self.screenshot_interval_secs
            } else {
                1u64
            },
            r >= 1,
    {
        if self.screenshot_interval_secs >= 1 {
            self.screenshot_interval_secs
        } else {
            1
        }
    }
}

} // verus!
