//! GPU resource management and frame-command pipeline for a real-time
//! renderer, modelled over plain values.
//!
//! The crate tracks GPU-side objects behind opaque handles, drives the
//! per-frame timing / resize / acquire cycle, orders command batches by
//! priority for submission, and batches scene geometry into indirect
//! draw commands over shared buffers.  Everything the device itself must
//! do (creating real buffers, submitting queues, presenting) is left to
//! the embedding program, which mirrors the byte-exact decisions made
//! here.

pub mod assets;
pub mod buffer;
pub mod bytes;
pub mod commands;
pub mod entity;
pub mod frame;
pub mod gpu;
pub mod keymap;
pub mod material;
pub mod mesh;
pub mod pbr;
pub mod registry;
pub mod ui;
