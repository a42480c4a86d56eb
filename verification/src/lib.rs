//! Verified core of a controller for a yarn-electrospinning collector: the
//! message log, the reading of the lines that the motor board sends, the
//! commands sent to it, and the connection decisions of the serial link.

pub mod text;
pub mod decimal;
pub mod log;
pub mod lines;
pub mod motor;
pub mod serial;
