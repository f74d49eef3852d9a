//! Network diagnostics toolkit: packet construction and matching for
//! ICMP probes, table rendering with display-width alignment, interface
//! classification, and the decision logic of the diagnostic commands.

pub mod icmp;
pub mod text;
pub mod table;
pub mod output;
pub mod i18n;
pub mod info;
pub mod report;
pub mod diagnose;
pub mod connectivity;
pub mod portscan;
pub mod traceroute;
pub mod dns;
