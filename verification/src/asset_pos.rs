use vstd::prelude::*;

use crate::error::IndexError;
use crate::std_bridge::parse_usize;
use crate::text::{is_ascii_digit, is_digit, unsigned_value};
use std::collections::TryReserveError;
use std::num::ParseIntError;
use std::str::FromStr;
use vstd::string::StrSliceExecFns;

verus! {

/// A position in the asset list.
#[derive(Debug, Clone, Copy, PartialEq, Eq, Hash, Default, Structural)]
pub enum AssetPos {
    /// The built-in asset; no asset list entry stands for it yet.
    #[default]
    Basic,
    Index(usize),
}

/// Why an asset could not be appended.
#[derive(Debug, Clone, PartialEq, Eq)]
pub enum PushAssetError {
    TooManyAssets,
    AllocError(TryReserveError),
}

/// Why a position does not name an existing asset.
#[derive(Debug, Clone, Copy, PartialEq, Eq, Hash, Structural)]
pub enum SelectAssetError {
    IndexOutOfBounds(IndexError),
}

impl AssetPos {
    /// The index of the existing asset named by a position, in `0..count`.
    /// The built-in position names no entry; the functions that select an
    /// asset take indices only, so the error given for it is never reached.
    pub open spec fn spec_select_asset_idx(self, asset_count: usize) -> Result<usize, SelectAssetError> {
        match self {
            AssetPos::Basic => Err(SelectAssetError::IndexOutOfBounds(IndexError::Overflow)),
            AssetPos::Index(idx) => if idx < asset_count {
                Ok(idx)
            } else {
                Err(SelectAssetError::IndexOutOfBounds(IndexError::Value(idx)))
            },
        }
    }

    /// Determine the asset index that must exist so it can be accessed.
    ///
    /// Valid indices: `0..asset_count`. The built-in position has no index
    /// yet and is not accepted.
    pub fn select_asset_idx(self, asset_count: usize) -> (r: Result<usize, SelectAssetError>)
        requires
            self is Index,
        ensures
            r == self.spec_select_asset_idx(asset_count),
            r matches Ok(idx) ==> idx < asset_count,
    {
        match self {
            AssetPos::Basic => Err(SelectAssetError::IndexOutOfBounds(IndexError::Overflow)),
            AssetPos::Index(idx) => {
                if idx < asset_count {
                    Ok(idx)
                } else {
                    Err(SelectAssetError::IndexOutOfBounds(IndexError::Value(idx)))
                }
            },
        }
    }
}


/// Why an asset position could not be read from text.
#[derive(Debug)]
pub enum ParseAssetPosError {
    /// Does not start with a digit.
    Unknown(String),
    /// Starts with a digit but is not a valid index.
    IndexInt(ParseIntError),
}

/// How a text reads as an asset position, leaving out the error payloads.
pub enum AssetPosReading {
    Pos(AssetPos),
    Unknown,
    IndexInt,
}

/// The asset position that a text names: only an index is accepted.
pub open spec fn spec_read_asset_pos(s: Seq<char>) -> AssetPosReading {
    if s.len() > 0 && is_digit(s[0]) {
        match unsigned_value(s) {
            Some(v) => if v <= usize::MAX {
                AssetPosReading::Pos(AssetPos::Index(v as usize))
            } else {
                AssetPosReading::IndexInt
            },
            None => AssetPosReading::IndexInt,
        }
    } else {
        AssetPosReading::Unknown
    }
}

impl AssetPos {
    /// Reads an asset position: a decimal index.
    pub fn parse(s: &str) -> (r: Result<AssetPos, ParseAssetPosError>)
        ensures
            match spec_read_asset_pos(s@) {
                AssetPosReading::Pos(p) => r matches Ok(q) && q == p,
                AssetPosReading::Unknown => r matches Err(ParseAssetPosError::Unknown(t)) && t@ == s@,
                AssetPosReading::IndexInt => r matches Err(ParseAssetPosError::IndexInt(_)),
            },
    {
        if s.unicode_len() > 0 && is_ascii_digit(s.get_char(0)) {
            match parse_usize(s) {
                Ok(v) => Ok(AssetPos::Index(v)),
                Err(e) => Err(ParseAssetPosError::IndexInt(e)),
            }
        } else {
            Err(ParseAssetPosError::Unknown(s.to_owned()))
        }
    }
}

impl FromStr for AssetPos {
    type Err = ParseAssetPosError;

    fn from_str(s: &str) -> (r: Result<Self, Self::Err>)
        ensures
            match spec_read_asset_pos(s@) {
                AssetPosReading::Pos(p) => r matches Ok(q) && q == p,
                AssetPosReading::Unknown => r matches Err(ParseAssetPosError::Unknown(t)) && t@ == s@,
                AssetPosReading::IndexInt => r matches Err(ParseAssetPosError::IndexInt(_)),
            },
    {
        AssetPos::parse(s)
    }
}

impl From<usize> for AssetPos {
    fn from(value: usize) -> (r: Self) {
        AssetPos::Index(value)
    }
}

impl vstd::std_specs::convert::FromSpecImpl<usize> for AssetPos {
    open spec fn obeys_from_spec() -> bool {
        true
    }

    open spec fn from_spec(v: usize) -> AssetPos {
        AssetPos::Index(v)
    }
}

impl From<IndexError> for SelectAssetError {
    fn from(e: IndexError) -> (r: Self) {
        SelectAssetError::IndexOutOfBounds(e)
    }
}

impl vstd::std_specs::convert::FromSpecImpl<IndexError> for SelectAssetError {
    open spec fn obeys_from_spec() -> bool {
        true
    }

    open spec fn from_spec(e: IndexError) -> SelectAssetError {
        SelectAssetError::IndexOutOfBounds(e)
    }
}

} // verus!
