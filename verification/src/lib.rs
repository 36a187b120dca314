//! The core of an SNMP MIB browser: the OID tree of loaded MIB modules as rows to show, and the
//! settings with the loaded files and the device profiles.

pub mod config;
pub mod config_laws;
pub mod mib;
pub mod paths;
pub mod profiles;
pub mod text;
pub mod text_laws;
pub mod tree;
pub mod tree_laws;
pub mod visible;
pub mod visible_laws;
pub mod yaml;
