//! Tile-based 2D rendering core: pixel textures, a camera-relative screen with
//! premultiplied-alpha compositing, tilesets and tilemaps, plus the small sprite,
//! animation and collision helpers that sit on top of them.
pub mod animation;
pub mod collision;
pub mod entity;
pub mod screen;
pub mod sprite;
pub mod texture;
pub mod tiles;
pub mod types;
