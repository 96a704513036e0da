//! Verified core of a dashcam telemetry HUD renderer.
pub mod calendar;
pub mod elements;
pub mod text;
pub mod fields;
pub mod plan;
pub mod canvas;
pub mod font;
pub mod draw;
pub mod panel;
pub mod reorder;
pub mod pipeline;
pub mod ffmpeg;
pub mod widgets;
pub mod fit;
pub mod compass;
pub mod gps_tag;
pub mod gauges;
