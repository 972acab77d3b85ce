//! The verified core of a Wayland screensaver daemon and its saver runners:
//! frame-buffer drawing, saver names, screensaver inhibitors and the bus
//! interface's decisions, idle detection, frame planning and GPU render planning.

pub mod frame_loop;
pub mod gpu_render;
pub mod idle;
pub mod inhibit;
pub mod launcher;
pub mod pixels;
pub mod platform;
pub mod screensaver;
