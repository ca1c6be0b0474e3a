//! Host-side protocol, state and presentation logic for the Viewer2000
//! firmware: wire codec, capture assembly, command state machines,
//! project policy, console buffering and descriptor trees.

pub mod acquisition;
pub mod capture;
pub mod clock;
pub mod console;
pub mod codec;
pub mod display;
pub mod events;
pub mod inspector;
pub mod link;
pub mod natural;
pub mod project;
pub mod release;
pub mod session;
pub mod source;
pub mod state;
pub mod template;
pub mod text;
pub mod tree;
