//! Audio-output control: parsing of the audio server's textual dumps, the
//! device directory and its cycling rule, the cue-player guard and the text
//! of the status notifications.

pub mod command;
pub mod device;
pub mod error;
pub mod notification;
pub mod session;
pub mod text;
pub mod volume;
pub mod volume_control;
