//! Diagnostic boot console: a framebuffer text console with corner
//! self-test blocks, a dual-sink logger that mirrors every line to a
//! serial stream, and a real-time-clock reader with stable-read and
//! BCD/12-hour normalization.

pub mod graphical;
pub mod logger;
pub mod time;
