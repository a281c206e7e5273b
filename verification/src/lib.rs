//! Placement, surface bookkeeping and playback decisions of a Wayland
//! overlay that shows images, animations, videos and shaders as popups.

pub mod animation;
pub mod assets;
pub mod draw_order;
pub mod gif;
pub mod gpu_surface;
pub mod interaction;
pub mod placement;
pub mod pointer;
pub mod position;
mod seq_facts;
pub mod shader;
pub mod surfaces;
pub mod target_monitor;
pub mod video;
