//! Aligns an observed time series with a forecast sampled on another grid,
//! and derives a rounded value range for drawing both on one chart.

pub mod series;
pub mod align;
pub mod axis;
pub mod timestamp;
pub mod adapter;
pub mod chart;
