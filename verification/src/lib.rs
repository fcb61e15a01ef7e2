//! The logic of a competitive programming helper for the editor: how the
//! secrets it keeps are named and indexed, which compiler flags a language
//! standard takes, how a test run is judged, and how the debugger is started.
pub mod auth;
pub mod ci;
pub mod compile;
pub mod debug;
pub mod path;
pub mod text;
