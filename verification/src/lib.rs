//! Verified core of a collection of network-security tools.
pub mod text;
pub mod hex;
pub mod crypto;
pub mod json;
pub mod chain;
pub mod shield;
pub mod luhn;
pub mod dlp;
pub mod assoc;
pub mod objstore;
pub mod blocklist;
pub mod firewall;
pub mod router;
pub mod lsm;
pub mod events;
pub mod siem;
pub mod clock;
pub mod dns;
pub mod cli;
pub mod fanotify;
pub mod protect;
pub mod sniffer;
