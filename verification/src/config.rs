//! Node configuration, as plain data.
//!
//! Reading the configuration file and the environment is the embedding
//! program's job; this type only carries the settings and their defaults.

use vstd::prelude::*;

verus! {

/// Everything a node can be configured with.
pub struct Config {
    pub config_file: String,
    pub index_cc_enabled: bool,
    pub web_enabled: bool,
    pub web_listen_address: String,
    pub udp_enabled: bool,
    pub udp_listen_address: String,
    pub accept_insert: bool,
    pub upnp_enabled: bool,
    pub trackers: Vec<String>,
    pub data_dir: String,
    pub debug: usize,
}

impl Default for Config {
    /// The defaults: web and UDP on port 8080, no crawling, no replicated
    /// inserts, no UPnP, no trackers, data in the working directory.
    fn default() -> (r: Config)
        ensures
            !r.index_cc_enabled,
            r.web_enabled,
            r.web_listen_address@ == "0.0.0.0:8080"@,
            r.udp_enabled,
            r.udp_listen_address@ == "0.0.0.0:8080"@,
            !r.accept_insert,
            !r.upnp_enabled,
            r.trackers@.len() == 0,
            r.data_dir@ == "."@,
            r.debug == 0,
    {
        Config {
            config_file: String::new(),
            index_cc_enabled: false,
            web_enabled: true,
            web_listen_address: String::from_str("0.0.0.0:8080"),
            udp_enabled: true,
            udp_listen_address: String::from_str("0.0.0.0:8080"),
            accept_insert: false,
            upnp_enabled: false,
            trackers: Vec::new(),
            data_dir: String::from_str("."),
            debug: 0,
        }
    }
}

} // verus!
