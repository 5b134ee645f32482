//! The bridge between a native window's web view and its host: the value
//! codec and call protocol, the window-control decoder, borderless hit
//! testing, and the event loop's state machine.

use vstd::prelude::*;

pub mod bridge;
pub mod codec;
pub mod content;
pub mod event_loop;
pub mod hit_test;
pub mod text;
pub mod value;
pub mod window_control;

verus! {

} // verus!
