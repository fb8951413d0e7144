//! A software ray caster: a tile map, a pixel canvas and the passes that
//! paint a first-person view of the map onto the canvas.

pub mod color;
pub mod description;
pub mod framebuffer;
pub mod image;
pub mod layout;
pub mod map;
pub mod projector;
pub mod raycast;
pub mod render;

pub use color::{decode_color, encode_color};
pub use description::unrecognised_tiles;
pub use framebuffer::{draw_rect, Framebuffer};
pub use image::buffer_to_image;
pub use map::{GameMap, MapError, Tile};
pub use projector::{tile_px_dimensions, ViewSplit};
pub use raycast::{cast_ray, cast_rays, Sample};
pub use render::{
    draw_column, draw_marker, draw_tiles, draw_wall_slice, render_frame, render_map, Marker,
    BACKGROUND_COLOR, MARKER_COLOR, RAY_COLOR, WALL_COLOR,
};
