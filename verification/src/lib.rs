//! A real-time 3D scene renderer core: a GPU device backend with explicit
//! device-loss recovery, a hierarchical scene graph with material-aware draw
//! submission, and a fixed multi-pass deferred rendering pipeline emitting a
//! replayable GPU command stream.

pub mod backend;
pub mod cbuffer;
pub mod commands;
pub mod drawable;
pub mod draw_programs;
pub mod error;
pub mod geometry;
pub mod material;
pub mod math;
pub mod renderer;
pub mod scenegraph;
pub mod settings;
