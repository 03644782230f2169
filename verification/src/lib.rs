//! Verified core of the Caevern engine: the Caevern scene-file format, the
//! user-position wire protocol, input and menu state, bone hierarchies,
//! material and texture selection, and the draw plan of a frame.

pub mod bones;
pub mod cae;
pub mod engine;
pub mod input;
pub mod material;
pub mod network;
pub mod render;
pub mod skeleton;
pub mod table;
pub mod transform;
pub mod wire;
