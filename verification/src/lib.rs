//! Screen and audio capture on PipeWire desktops: the decisions.
//!
//! The crate holds what a capture decides and computes: how frames are handed
//! over in shared memory, how the audio of several sources is mixed, which
//! audio belongs to a captured window, which is left out, how the user is
//! asked to pick, and what runs when. It does no input or output: whoever
//! talks to PipeWire and to the portal hands it what came in, as plain values,
//! and carries out what it decides.
pub mod audio;
pub mod capture;
pub mod portal;
pub mod pw_util;
pub mod registry;
pub mod release;
pub mod session;
pub mod shm;
pub mod text;
