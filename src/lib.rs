//! A live media-graph engine: nodes, links, schedules, control points and
//! stream bridges, driven by commands and answered with results.
pub mod control;
pub mod http;
pub mod media_bridge;
pub mod messages;
pub mod node_manager;
pub mod nodes;
pub mod protocol;
pub mod runtime;
pub mod schedule;
pub mod settings;
pub mod text;
