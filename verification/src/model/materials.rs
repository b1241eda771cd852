//! How the textures of materials are sampled and where embedded images lie.
pub mod util;
