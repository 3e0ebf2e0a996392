use vstd::prelude::*;

use crate::error::IndexError;
use crate::std_bridge::{parse_isize, parse_usize};
use crate::text::{is_ascii_digit, is_digit, signed_value, str_eq, unsigned_value};
use std::collections::TryReserveError;
use std::num::ParseIntError;
use std::str::FromStr;
use vstd::string::StrSliceExecFns;

verus! {

/// A position in the layer stack, relative to the active layer or absolute.
#[derive(Debug, Clone, Copy, PartialEq, Eq, Hash, Default, Structural)]
pub enum LayerPos {
    /// `*`, `[h]ere` - the active target
    #[default]
    Current,
    /// `k`, `]`, `[n]ext` - the active target + 1
    Next,
    /// `j`, `[`, `[p]rev` - the active target minus 1
    Prev,
    /// `]]`, `[f]ront` - furthest in the `Next` direction
    Front,
    /// `[[`, `[b]ack` - furthest in the `Prev` direction
    Back,
    /// number - Specific position
    Index(usize),
    /// `+`/`-`number - Offset from current index
    Offset(isize),
}

/// Why a layer cannot be created at a position.
#[derive(Debug, Clone, PartialEq, Eq)]
pub enum InsertLayerError {
    /// The stack already holds `usize::MAX` layers.
    TooManyLayers,
    /// Growing the stack failed.
    AllocError(TryReserveError),
    /// The position lies beyond the end of the stack.
    IndexOutOfBounds(IndexError),
}

/// Why a position does not name an existing layer.
#[derive(Debug, Clone, Copy, PartialEq, Eq, Hash, Structural)]
pub enum SelectLayerError {
    IndexOutOfBounds(IndexError),
}

/// The cursor rule of the layer stack: zero when the stack is empty, a valid
/// index otherwise.
pub open spec fn cursor_ok(curr: usize, count: usize) -> bool {
    if count == 0 {
        curr == 0
    } else {
        curr < count
    }
}

/// `curr + amnt` as a `usize`, or `None` when it leaves the `usize` range.
pub open spec fn offset_index(curr: usize, amnt: isize) -> Option<usize> {
    if curr + amnt < 0 || curr + amnt > usize::MAX {
        None
    } else {
        Some((curr + amnt) as usize)
    }
}

impl LayerPos {
    /// Inputs on which computing an insertion index does not rely on an
    /// invalid cursor: only `Current` and `Next` read the cursor, and `Next`
    /// only when the stack is not full.
    pub open spec fn insert_defined(self, curr: usize, count: usize) -> bool {
        match self {
            LayerPos::Current => cursor_ok(curr, count),
            LayerPos::Next => count == usize::MAX || cursor_ok(curr, count),
            _ => true,
        }
    }

    /// Inputs on which selecting an existing layer does not rely on an
    /// invalid cursor: only `Current` and `Next` read it.
    pub open spec fn select_defined(self, curr: usize, count: usize) -> bool {
        match self {
            LayerPos::Current | LayerPos::Next => cursor_ok(curr, count),
            _ => true,
        }
    }

    /// The insertion index named by a position, in `0..=count`.
    pub open spec fn spec_insert_idx(self, curr: usize, count: usize) -> Result<usize, InsertLayerError> {
        match self {
            LayerPos::Current => if count == 0 { Ok(0) } else { Ok(curr) },
            LayerPos::Next => {
                if count == usize::MAX {
                    Err(InsertLayerError::TooManyLayers)
                } else if count == 0 {
                    Ok(0)
                } else {
                    Ok((curr + 1) as usize)
                }
            },
            LayerPos::Prev => Ok(if curr >= 1 { (curr - 1) as usize } else { 0 }),
            LayerPos::Front => Ok(count),
            LayerPos::Back => Ok(0),
            LayerPos::Index(idx) => {
                if idx <= count {
                    Ok(idx)
                } else {
                    Err(InsertLayerError::IndexOutOfBounds(IndexError::Value(idx)))
                }
            },
            LayerPos::Offset(amnt) => match offset_index(curr, amnt) {
                None => Err(InsertLayerError::IndexOutOfBounds(IndexError::Overflow)),
                Some(idx) => if idx <= count {
                    Ok(idx)
                } else {
                    Err(InsertLayerError::IndexOutOfBounds(IndexError::Value(idx)))
                },
            },
        }
    }

    /// The index of the existing layer named by a position, in `0..count`.
    pub open spec fn spec_select_idx(self, curr: usize, count: usize) -> Result<usize, SelectLayerError> {
        match self {
            LayerPos::Current => {
                if count == 0 {
                    Err(SelectLayerError::IndexOutOfBounds(IndexError::Value(0)))
                } else {
                    Ok(curr)
                }
            },
            LayerPos::Next => {
                if count == 0 {
                    Err(SelectLayerError::IndexOutOfBounds(IndexError::Value(1)))
                } else if curr + 1 < count {
                    Ok((curr + 1) as usize)
                } else {
                    Err(SelectLayerError::IndexOutOfBounds(IndexError::Value((curr + 1) as usize)))
                }
            },
            LayerPos::Prev => {
                if curr >= 1 {
                    Ok((curr - 1) as usize)
                } else {
                    Err(SelectLayerError::IndexOutOfBounds(IndexError::Overflow))
                }
            },
            LayerPos::Front => {
                if count >= 1 {
                    Ok((count - 1) as usize)
                } else {
                    Err(SelectLayerError::IndexOutOfBounds(IndexError::Overflow))
                }
            },
            LayerPos::Back => {
                if count > 0 {
                    Ok(0)
                } else {
                    Err(SelectLayerError::IndexOutOfBounds(IndexError::Value(0)))
                }
            },
            LayerPos::Index(idx) => {
                if idx < count {
                    Ok(idx)
                } else {
                    Err(SelectLayerError::IndexOutOfBounds(IndexError::Value(idx)))
                }
            },
            LayerPos::Offset(amnt) => match offset_index(curr, amnt) {
                None => Err(SelectLayerError::IndexOutOfBounds(IndexError::Overflow)),
                Some(idx) => if idx < count {
                    Ok(idx)
                } else {
                    Err(SelectLayerError::IndexOutOfBounds(IndexError::Value(idx)))
                },
            },
        }
    }

    /// Determine the layer index that may not exist yet so it can be created.
    ///
    /// Valid indices: `0..=layer_count`
    pub fn insert_layer_idx(self, curr_layer: usize, layer_count: usize) -> (r: Result<
        usize,
        InsertLayerError,
    >)
        requires
            self.insert_defined(curr_layer, layer_count),
        ensures
            r == self.spec_insert_idx(curr_layer, layer_count),
            cursor_ok(curr_layer, layer_count) ==> (r matches Ok(idx) ==> idx <= layer_count),
    {
        match self {
            LayerPos::Current => {
                if layer_count == 0 {
                    Ok(0)
                } else {
                    Ok(curr_layer)
                }
            },
            LayerPos::Next => {
                if layer_count == usize::MAX {
                    Err(InsertLayerError::TooManyLayers)
                } else if layer_count == 0 {
                    Ok(0)
                } else {
                    Ok(curr_layer + 1)
                }
            },
            LayerPos::Prev => Ok(curr_layer.saturating_sub(1)),
            LayerPos::Front => Ok(layer_count),
            LayerPos::Back => Ok(0),
            LayerPos::Index(idx) => {
                if idx <= layer_count {
                    Ok(idx)
                } else {
                    Err(InsertLayerError::IndexOutOfBounds(IndexError::Value(idx)))
                }
            },
            LayerPos::Offset(amnt) => match curr_layer.checked_add_signed(amnt) {
                None => Err(InsertLayerError::IndexOutOfBounds(IndexError::Overflow)),
                Some(idx) => {
                    if idx <= layer_count {
                        Ok(idx)
                    } else {
                        Err(InsertLayerError::IndexOutOfBounds(IndexError::Value(idx)))
                    }
                },
            },
        }
    }

    /// Determine the layer index that must exist so it can be accessed.
    ///
    /// Valid indices: `0..layer_count`
    pub fn select_layer_idx(self, curr_layer: usize, layer_count: usize) -> (r: Result<
        usize,
        SelectLayerError,
    >)
        requires
            self.select_defined(curr_layer, layer_count),
        ensures
            r == self.spec_select_idx(curr_layer, layer_count),
            cursor_ok(curr_layer, layer_count) ==> (r matches Ok(idx) ==> idx < layer_count),
    {
        match self {
            LayerPos::Current => {
                if layer_count == 0 {
                    Err(SelectLayerError::IndexOutOfBounds(IndexError::Value(0)))
                } else {
                    Ok(curr_layer)
                }
            },
            LayerPos::Next => {
                if layer_count == 0 {
                    Err(SelectLayerError::IndexOutOfBounds(IndexError::Value(1)))
                } else {
                    let idx = curr_layer + 1;
                    if idx < layer_count {
                        Ok(idx)
                    } else {
                        Err(SelectLayerError::IndexOutOfBounds(IndexError::Value(idx)))
                    }
                }
            },
            LayerPos::Prev => match curr_layer.checked_sub(1) {
                Some(idx) => Ok(idx),
                None => Err(SelectLayerError::IndexOutOfBounds(IndexError::Overflow)),
            },
            LayerPos::Front => match layer_count.checked_sub(1) {
                Some(idx) => Ok(idx),
                None => Err(SelectLayerError::IndexOutOfBounds(IndexError::Overflow)),
            },
            LayerPos::Back => {
                if layer_count > 0 {
                    Ok(0)
                } else {
                    Err(SelectLayerError::IndexOutOfBounds(IndexError::Value(0)))
                }
            },
            LayerPos::Index(idx) => {
                if idx < layer_count {
                    Ok(idx)
                } else {
                    Err(SelectLayerError::IndexOutOfBounds(IndexError::Value(idx)))
                }
            },
            LayerPos::Offset(amnt) => match curr_layer.checked_add_signed(amnt) {
                None => Err(SelectLayerError::IndexOutOfBounds(IndexError::Overflow)),
                Some(idx) => {
                    if idx < layer_count {
                        Ok(idx)
                    } else {
                        Err(SelectLayerError::IndexOutOfBounds(IndexError::Value(idx)))
                    }
                },
            },
        }
    }
}


/// Why a position could not be read from text.
#[derive(Debug)]
pub enum ParseLayerPosError {
    /// Neither a keyword nor something that starts like a number.
    Unknown(String),
    /// Starts with a digit but is not a valid index.
    IndexInt(ParseIntError),
    /// Starts with `+` or `-` but is not a valid offset.
    OffsetInt(ParseIntError),
}

/// How a text reads as a position, leaving out the error payloads.
pub enum LayerPosReading {
    Pos(LayerPos),
    Unknown,
    IndexInt,
    OffsetInt,
}

/// The position that a text names: a keyword, a signed offset or an index.
pub open spec fn spec_read_layer_pos(s: Seq<char>) -> LayerPosReading {
    if s == "*"@ || s == "h"@ || s == "here"@ {
        LayerPosReading::Pos(LayerPos::Current)
    } else if s == "k"@ || s == "]"@ || s == "n"@ || s == "next"@ {
        LayerPosReading::Pos(LayerPos::Next)
    } else if s == "j"@ || s == "["@ || s == "p"@ || s == "prev"@ {
        LayerPosReading::Pos(LayerPos::Prev)
    } else if s == "]]"@ || s == "f"@ || s == "front"@ {
        LayerPosReading::Pos(LayerPos::Front)
    } else if s == "[["@ || s == "b"@ || s == "back"@ {
        LayerPosReading::Pos(LayerPos::Back)
    } else if s.len() > 0 && (s[0] == '+' || s[0] == '-') {
        match signed_value(s) {
            Some(v) => if isize::MIN <= v <= isize::MAX {
                LayerPosReading::Pos(LayerPos::Offset(v as isize))
            } else {
                LayerPosReading::OffsetInt
            },
            None => LayerPosReading::OffsetInt,
        }
    } else if s.len() > 0 && is_digit(s[0]) {
        match unsigned_value(s) {
            Some(v) => if v <= usize::MAX {
                LayerPosReading::Pos(LayerPos::Index(v as usize))
            } else {
                LayerPosReading::IndexInt
            },
            None => LayerPosReading::IndexInt,
        }
    } else {
        LayerPosReading::Unknown
    }
}

impl LayerPos {
    /// Reads a position: `*`/`h`/`here`, `k`/`]`/`n`/`next`, `j`/`[`/`p`/`prev`,
    /// `]]`/`f`/`front`, `[[`/`b`/`back`, a signed offset or an index.
    pub fn parse(s: &str) -> (r: Result<LayerPos, ParseLayerPosError>)
        ensures
            match spec_read_layer_pos(s@) {
                LayerPosReading::Pos(p) => r matches Ok(q) && q == p,
                LayerPosReading::Unknown => r matches Err(ParseLayerPosError::Unknown(t)) && t@ == s@,
                LayerPosReading::IndexInt => r matches Err(ParseLayerPosError::IndexInt(_)),
                LayerPosReading::OffsetInt => r matches Err(ParseLayerPosError::OffsetInt(_)),
            },
    {
        if str_eq(s, "*") || str_eq(s, "h") || str_eq(s, "here") {
            Ok(LayerPos::Current)
        } else if str_eq(s, "k") || str_eq(s, "]") || str_eq(s, "n") || str_eq(s, "next") {
            Ok(LayerPos::Next)
        } else if str_eq(s, "j") || str_eq(s, "[") || str_eq(s, "p") || str_eq(s, "prev") {
            Ok(LayerPos::Prev)
        } else if str_eq(s, "]]") || str_eq(s, "f") || str_eq(s, "front") {
            Ok(LayerPos::Front)
        } else if str_eq(s, "[[") || str_eq(s, "b") || str_eq(s, "back") {
            Ok(LayerPos::Back)
        } else if s.unicode_len() > 0 && (s.get_char(0) == '+' || s.get_char(0) == '-') {
            match parse_isize(s) {
                Ok(v) => Ok(LayerPos::Offset(v)),
                Err(e) => Err(ParseLayerPosError::OffsetInt(e)),
            }
        } else if s.unicode_len() > 0 && is_ascii_digit(s.get_char(0)) {
            match parse_usize(s) {
                Ok(v) => Ok(LayerPos::Index(v)),
                Err(e) => Err(ParseLayerPosError::IndexInt(e)),
            }
        } else {
            Err(ParseLayerPosError::Unknown(s.to_owned()))
        }
    }
}

impl FromStr for LayerPos {
    type Err = ParseLayerPosError;

    fn from_str(s: &str) -> (r: Result<Self, Self::Err>)
        ensures
            match spec_read_layer_pos(s@) {
                LayerPosReading::Pos(p) => r matches Ok(q) && q == p,
                LayerPosReading::Unknown => r matches Err(ParseLayerPosError::Unknown(t)) && t@ == s@,
                LayerPosReading::IndexInt => r matches Err(ParseLayerPosError::IndexInt(_)),
                LayerPosReading::OffsetInt => r matches Err(ParseLayerPosError::OffsetInt(_)),
            },
    {
        LayerPos::parse(s)
    }
}

impl From<usize> for LayerPos {
    fn from(value: usize) -> (r: Self) {
        LayerPos::Index(value)
    }
}

impl vstd::std_specs::convert::FromSpecImpl<usize> for LayerPos {
    open spec fn obeys_from_spec() -> bool {
        true
    }

    open spec fn from_spec(v: usize) -> LayerPos {
        LayerPos::Index(v)
    }
}

impl From<isize> for LayerPos {
    fn from(value: isize) -> (r: Self) {
        LayerPos::Offset(value)
    }
}

impl vstd::std_specs::convert::FromSpecImpl<isize> for LayerPos {
    open spec fn obeys_from_spec() -> bool {
        true
    }

    open spec fn from_spec(v: isize) -> LayerPos {
        LayerPos::Offset(v)
    }
}

impl From<IndexError> for InsertLayerError {
    fn from(e: IndexError) -> (r: Self) {
        InsertLayerError::IndexOutOfBounds(e)
    }
}

impl vstd::std_specs::convert::FromSpecImpl<IndexError> for InsertLayerError {
    open spec fn obeys_from_spec() -> bool {
        true
    }

    open spec fn from_spec(e: IndexError) -> InsertLayerError {
        InsertLayerError::IndexOutOfBounds(e)
    }
}

impl From<IndexError> for SelectLayerError {
    fn from(e: IndexError) -> (r: Self) {
        SelectLayerError::IndexOutOfBounds(e)
    }
}

impl vstd::std_specs::convert::FromSpecImpl<IndexError> for SelectLayerError {
    open spec fn obeys_from_spec() -> bool {
        true
    }

    open spec fn from_spec(e: IndexError) -> SelectLayerError {
        SelectLayerError::IndexOutOfBounds(e)
    }
}

/// `Front` is the furthest insertion point in the `Next` direction: it
/// inserts past the last layer, and no position inserts beyond it.
pub proof fn law_front_inserts_past_the_end(curr: usize, count: usize)
    requires
        cursor_ok(curr, count),
    ensures
        LayerPos::Front.spec_insert_idx(curr, count) == Ok::<usize, InsertLayerError>(count),
        forall|at: LayerPos|
            #[trigger] at.spec_insert_idx(curr, count) matches Ok(i) ==> i <= count,
{
}

/// A position that names an existing layer also names an insertion point,
/// at the same index (except `Next` on a stack of `usize::MAX` layers,
/// which cannot grow, and `Front`, which inserts past the last layer).
pub proof fn law_selectable_is_insertable(at: LayerPos, curr: usize, count: usize)
    requires
        cursor_ok(curr, count),
        !(at is Next && count == usize::MAX),
        !(at is Front),
    ensures
        at.spec_select_idx(curr, count) matches Ok(i) ==> at.spec_insert_idx(curr, count) == Ok::<
            usize,
            InsertLayerError,
        >(i),
{
}

/// `Prev` inserts just below the active layer: never above it, and at most
/// one place below it (at the bottom when the active layer is the bottom
/// one).
pub proof fn law_prev_inserts_below_active(curr: usize, count: usize)
    requires
        cursor_ok(curr, count),
    ensures
        LayerPos::Prev.spec_insert_idx(curr, count) matches Ok(i) && i <= curr && curr <= i + 1,
{
}

/// `Next` names the layer right above the active one whenever there is one.
pub proof fn law_next_selects_above(curr: usize, count: usize)
    requires
        cursor_ok(curr, count),
        curr + 1 < count,
    ensures
        LayerPos::Next.spec_select_idx(curr, count) == Ok::<usize, SelectLayerError>(
            (curr + 1) as usize,
        ),
{
}

/// An insertion point that lies on an existing layer is the layer the same
/// position selects (except `Front`, which inserts past the last layer, and
/// `Prev` at the bottom, which has no layer below to select).
pub proof fn law_insertable_below_count_is_selectable(at: LayerPos, curr: usize, count: usize)
    requires
        cursor_ok(curr, count),
        !(at is Front),
        !(at is Prev && curr == 0),
    ensures
        forall|i: usize|
            #[trigger] at.spec_insert_idx(curr, count) == Ok::<usize, InsertLayerError>(i) && i
                < count ==> at.spec_select_idx(curr, count) == Ok::<usize, SelectLayerError>(i),
{
}

/// What each position selects on a stack with layers: `Current` the active
/// layer, `Back` the bottom one, `Front` the top one, `Prev` the one below
/// the active layer, `Index(i)` layer `i`, and `Offset(d)` the layer `d`
/// away from the active one; every selected index names an existing layer.
pub proof fn law_select_meanings(curr: usize, count: usize, i: usize, d: isize)
    requires
        cursor_ok(curr, count),
        count > 0,
    ensures
        LayerPos::Current.spec_select_idx(curr, count) == Ok::<usize, SelectLayerError>(curr),
        LayerPos::Back.spec_select_idx(curr, count) == Ok::<usize, SelectLayerError>(0),
        LayerPos::Front.spec_select_idx(curr, count) == Ok::<usize, SelectLayerError>(
            (count - 1) as usize,
        ),
        curr >= 1 ==> LayerPos::Prev.spec_select_idx(curr, count) == Ok::<usize, SelectLayerError>(
            (curr - 1) as usize,
        ),
        i < count ==> LayerPos::Index(i).spec_select_idx(curr, count) == Ok::<
            usize,
            SelectLayerError,
        >(i),
        0 <= curr + d < count ==> LayerPos::Offset(d).spec_select_idx(curr, count) == Ok::<
            usize,
            SelectLayerError,
        >((curr + d) as usize),
        forall|at: LayerPos| #[trigger] at.spec_select_idx(curr, count) matches Ok(j) ==> j < count,
{
}

/// What each position inserts at: `Current` at the active layer's place,
/// `Next` right above it, `Back` at the bottom, `Index(i)` at `i`, and
/// `Offset(d)` at `d` away from the active layer.
pub proof fn law_insert_meanings(curr: usize, count: usize, i: usize, d: isize)
    requires
        cursor_ok(curr, count),
        count > 0,
        count < usize::MAX,
    ensures
        LayerPos::Current.spec_insert_idx(curr, count) == Ok::<usize, InsertLayerError>(curr),
        LayerPos::Next.spec_insert_idx(curr, count) == Ok::<usize, InsertLayerError>(
            (curr + 1) as usize,
        ),
        LayerPos::Back.spec_insert_idx(curr, count) == Ok::<usize, InsertLayerError>(0),
        i <= count ==> LayerPos::Index(i).spec_insert_idx(curr, count) == Ok::<
            usize,
            InsertLayerError,
        >(i),
        0 <= curr + d <= count ==> LayerPos::Offset(d).spec_insert_idx(curr, count) == Ok::<
            usize,
            InsertLayerError,
        >((curr + d) as usize),
{
}

} // verus!
