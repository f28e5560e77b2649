//! Graphics: command replay, pass recording, presentation and pixel formats.

pub mod backend;
pub mod buffer_pool;
pub mod commands;
pub mod device;
pub mod display;
pub mod dump;
pub mod formats;
pub mod gamepad;
pub mod harness;
pub mod manager;
pub mod offscreen;
pub mod pad;
pub mod passes;
pub mod pipeline;
pub mod pixels;
pub mod png;
pub mod present;
pub mod present_profile;
pub mod record;
pub mod resources;
pub mod spirv;
pub mod steps;
pub mod surface;
pub mod transfer;
pub mod vk;
pub mod walk;
