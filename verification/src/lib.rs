//! The display half of Lem's terminal frontend: the protocol's framing
//! and types, the cell painting and compositing of views, key events as
//! Lem's key syms, frame metrics, the display loop's decisions, and how a
//! session's end is reported.

pub mod decimal;
pub mod framing;
pub mod protocol;
pub mod metrics;
pub mod input;
pub mod style;
pub mod cells;
pub mod paint;
pub mod views;
pub mod frame;
pub mod exit;
pub mod session;
