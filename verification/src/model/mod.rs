pub mod diff;
pub mod status;
