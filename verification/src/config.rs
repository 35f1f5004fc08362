//! The project configuration, `rozed.toml`, once read.

use vstd::prelude::*;
use crate::mappings::Mappings;

verus! {

/// The sync interval, in milliseconds, where the file sets none.
pub const DEFAULT_SYNC_INTERVAL_MS: u64 = 500;

/// The port the HTTP server listens on, where the file sets none.
pub const DEFAULT_PORT: u16 = 5500;

/// The project configuration.
#[derive(Clone, Debug)]
pub struct Config {
    port: Option<u16>,
    sync_interval_ms: Option<u64>,
    push_on_save: Option<bool>,
    /// Local folders mapped to Roblox paths.
    pub mappings: Mappings,
}

impl Config {
    /// The port that the file sets, if it sets one.
    pub closed spec fn port_setting(&self) -> Option<u16> {
        self.port
    }

    /// The sync interval that the file sets, if it sets one.
    pub closed spec fn interval_setting(&self) -> Option<u64> {
        self.sync_interval_ms
    }

    /// The push-on-save switch that the file sets, if it sets one.
    pub closed spec fn push_setting(&self) -> Option<bool> {
        self.push_on_save
    }

    /// The mappings, as entries.
    pub closed spec fn mapping_entries(&self) -> Seq<(Seq<char>, Seq<char>)> {
        self.mappings@
    }

    /// A configuration with the given settings (`None` where the file sets
    /// none) and mappings.
    pub fn new(
        port: Option<u16>,
        sync_interval_ms: Option<u64>,
        push_on_save: Option<bool>,
        mappings: Mappings,
    ) -> (c: Self)
        ensures
            c.port_setting() == port,
            c.interval_setting() == sync_interval_ms,
            c.push_setting() == push_on_save,
            c.mapping_entries() == mappings@,
    {
        Config { port, sync_interval_ms, push_on_save, mappings }
    }

    /// The mappings.
    pub fn mappings(&self) -> (m: &Mappings)
        ensures
            m@ == self.mapping_entries(),
    {
        &self.mappings
    }

    /// The port the HTTP server listens on: the configured value, or 5500
    /// where the file sets none.
    pub fn port(&self) -> (p: u16)
        ensures
            p == match self.port_setting() {
                Some(v) => v,
                None => DEFAULT_PORT,
            },
    {
        match self.port {
            Some(v) => v,
            None => DEFAULT_PORT,
        }
    }

    /// Milliseconds between background sync ticks: the configured value, or
    /// 500 where the file sets none.
    pub fn sync_interval_ms(&self) -> (ms: u64)
        ensures
            ms == match self.interval_setting() {
                Some(v) => v,
                None => DEFAULT_SYNC_INTERVAL_MS,
            },
    {
        match self.sync_interval_ms {
            Some(v) => v,
            None => DEFAULT_SYNC_INTERVAL_MS,
        }
    }

    /// Whether saved files are pushed to Studio: the configured value, or
    /// `true` where the file sets none.
    pub fn push_on_save(&self) -> (on: bool)
        ensures
            on == match self.push_setting() {
                Some(v) => v,
                None => true,
            },
    {
        match self.push_on_save {
            Some(v) => v,
            None => true,
        }
    }
}

} // verus!
