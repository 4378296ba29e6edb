//! Scaffolding of handlers and tests from captured HTTP traffic: decoding of
//! captured traces, location of anchors in a scanned source file, rendering of
//! code fragments, and line/column text patching.

pub mod error;
pub mod trace;
pub mod message;
pub mod locate;
pub mod render;
pub mod patch;
pub mod scaffold;
