//! Application state machines driven by device reports and user commands.

pub mod abz_zeroing;
pub mod calibration;
pub mod hardware;
pub mod srm_open_loop;
pub mod autosave;
