//! Decoders for the Quake asset formats: the PAK archive, the BSP29 map lumps,
//! the MDL v6 model header and skin, and the 768-byte palette, together with
//! the integer helpers that turn decoded assets into pixels for a host canvas.
//!
//! Every decoder is a total function over an in-memory byte blob: it never
//! panics and reports malformed input through [`DecodeError`]. Floating-point
//! fields are carried as their IEEE-754 bit patterns.

pub mod bsp;
pub mod error;
pub mod models;
pub mod names;
pub mod pak;
pub mod palette;
pub mod reader;
pub mod render;
pub mod vec3;
pub mod wad;

pub use bsp::{Bsp, BspEntry, BspHeader, Edge, Face, Plane, Vertex};
pub use error::DecodeError;
pub use models::{parse_skins, Model, ModelHeader};
pub use pak::{Pak, PakFile, PakHeader};
pub use palette::convert_palette;
pub use reader::ByteReader;
pub use render::{
    edge_segments, get_color, input_action, palette_grid, skin_to_rgb, Color, InputAction,
    InputEvent, Key, MouseButton, Movement,
};
pub use vec3::Vec3Bits;
pub use wad::{Wad, WadAsset, WadHeader};
