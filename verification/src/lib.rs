//! Verified core of a layered image editor: layer and asset positions,
//! the layer stack with its active-layer cursor, the asset list, the
//! command-line value parsers and the binary document format.

pub mod args;
pub mod asset_pos;
pub mod assets;
pub mod codec;
pub mod command;
pub mod command_error;
pub mod document;
pub mod error;
pub mod layer_name;
pub mod layer_pos;
pub mod layers;
pub mod links;
pub mod mask;
pub mod redraw;
pub mod round_trip;
pub mod std_bridge;
pub mod text;
