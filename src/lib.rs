//! Cumulative line counts over a commit history, and their resampling into
//! evenly spaced windows for charting.
pub mod series;
pub mod window;
pub mod render;
