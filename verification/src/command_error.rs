//! Errors of the editor's commands that carry only plain values.

use vstd::prelude::*;

use crate::asset_pos::SelectAssetError;
use crate::layer_pos::SelectLayerError;

verus! {

/// Why a proposed layer name was rejected.
#[derive(Debug, Clone, PartialEq, Eq, Hash, Structural)]
pub enum LayerNameError {
    /// The name is empty or only whitespace.
    Empty,
    /// The name holds one of [`crate::layer_name::ILLEGAL_LAYER_NAME_CHARS`].
    Illegal,
}

/// Why linking an asset to a layer failed.
#[derive(Debug, Clone, Copy, PartialEq, Eq, Hash, Structural)]
pub enum LinkError {
    SelectAsset(SelectAssetError),
    SelectLayer(SelectLayerError),
    /// A raster cannot replace the contents of a group.
    OverrideGroup,
}

/// Why moving a layer failed: the source or the destination does not exist.
#[derive(Debug, Clone, Copy, PartialEq, Eq, Hash, Structural)]
pub enum ReorderLayersError {
    SrcIndexOutOfBounds(SelectLayerError),
    DstIndexOutOfBounds(SelectLayerError),
}

/// Why removing layers failed.
#[derive(Debug, Clone, Copy, PartialEq, Eq, Hash, Structural)]
pub enum RemoveLayerError {
    Select(SelectLayerError),
}

/// Why switching the active layer failed.
#[derive(Debug, Clone, Copy, PartialEq, Eq, Hash, Structural)]
pub enum SwitchLayerError {
    Select(SelectLayerError),
}

} // verus!
