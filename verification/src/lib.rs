//! A network intrusion detection library: packet header parsing, port-scan and
//! SYN-flood detection, alert construction and the bookkeeping around them.
pub mod text;
pub mod net;
pub mod time;
pub mod capture;
pub mod assoc;
pub mod detection;
pub mod alert;
pub mod stats;
pub mod api;
pub mod db;
pub mod console;
