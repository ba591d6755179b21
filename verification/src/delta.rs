//! The delta plane: live account updates waiting to be written to segments.
pub mod delta_consumer;
pub mod update_reducer;
