//! Scanning of a key matrix wired to general-purpose digital lines.
//!
//! A [`MatrixScanner`] knows the row lines and the column lines of a matrix.
//! It sets them up once and then scans them as often as it is asked to, each
//! scan giving a bitmask with one position for each key.
//!
//! The scanner decides; it does not touch hardware. A run, whether an
//! [`Initialization`] or a [`Scan`], names the next line operation, the caller
//! performs it and hands back what happened:
//!
//! ```text
//! let mut run = scanner.scan();
//! while let Some(action) = run.pending() {
//!     run.step(driver.perform(action));
//! }
//! let keys = run.outcome();
//! ```
//!
//! The modules, from the ground up:
//!
//! - [`bits`]: the bitmask and its three primitives;
//! - [`layout`]: the index of each key;
//! - [`line`]: line operations and their outcomes;
//! - [`scanner`]: the scanner and the lines it knows;
//! - [`init`] and [`scan`]: the two runs, one operation at a time;
//! - [`plan`]: the operations of each run as one list;
//! - [`levels`]: the levels of the lines during a run, and why no two rows
//!   are ever active together;
//! - [`simulation`]: a scan against a simulated matrix, and why it finds the
//!   keys that are held;
//! - [`render`]: a bitmask as a grid of text.

pub mod bits;
pub mod init;
pub mod layout;
pub mod levels;
pub mod line;
pub mod plan;
pub mod render;
pub mod scan;
pub mod scanner;
pub mod simulation;

pub use crate::bits::{clear_bit_at, get_bit_at, set_bit_at, WIDTH};
pub use crate::init::Initialization;
pub use crate::line::{
    Action, Bias, Event, HardwareAccessError, Level, ACTIVE, IDLE_BIAS, INACTIVE,
};
pub use crate::render::render;
pub use crate::scan::Scan;
pub use crate::scanner::{MatrixScanner, COLS, ROWS, ROW_PULL_DOWN_TIME_US};
