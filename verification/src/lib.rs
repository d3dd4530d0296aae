//! Configuration, validation and IPC logic for the SMBN server manager.
#![allow(unused_imports)]

pub mod autostart;
pub mod config;
pub mod engine;
pub mod forms;
pub mod icons;
pub mod ip;
pub mod paths;
pub mod protocol;
pub mod secret;
pub mod status;
pub mod text;
pub mod util;
pub mod validation;

use vstd::prelude::*;

verus! {

} // verus!
