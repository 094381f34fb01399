//! The wire codec. Inbound and outbound both use it: clients send frames, the command log
//! stores them.

pub mod command;
pub mod command_laws;
pub mod crlf;
pub mod frame;
pub mod frame_laws;
pub mod reply;
pub mod verb_laws;
