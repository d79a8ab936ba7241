//! The viewer of one console.

pub mod cursor_scene;
pub mod damage;
pub mod dmabuf;
pub mod grab;
pub mod head_map;
pub mod head_map_laws;
pub mod input;
pub mod remote;
