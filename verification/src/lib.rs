//! Verified core of the Vyuta drone cockpit sidecars: PX4 flight-mode
//! decoding, parameter-id encoding, the simulator catalogue and launch
//! backends, ROS 2 graph parsing, companion/simulation lifecycle rules and a
//! PX4 ULog flight-log parser.

pub mod backend;
pub mod companion;
pub mod frames;
pub mod graph;
pub mod params;
pub mod preflight;
pub mod probe;
pub mod px4;
pub mod series;
pub mod session;
pub mod text;
pub mod ulog;
pub mod ulog_write;
pub mod worlds;
