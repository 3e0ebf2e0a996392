//! Validation of user-given layer names.

use vstd::prelude::*;

use crate::command_error::LayerNameError;
use crate::text::{str_trim, trim};
use vstd::string::StrSliceExecFns;

verus! {

/// Characters that a layer name may not hold: they would break the command
/// line or the listing.
pub const ILLEGAL_LAYER_NAME_CHARS: [char; 6] = ['\n', '\r', '\t', '\\', '"', ';'];

pub open spec fn is_illegal_name_char(c: char) -> bool {
    c == '\n' || c == '\r' || c == '\t' || c == '\\' || c == '"' || c == ';'
}

/// A layer name is the given text without surrounding white space; it must
/// not be empty and must not hold an illegal character.
pub open spec fn spec_valid_layer_name(s: Seq<char>) -> Result<Seq<char>, LayerNameError> {
    let t = trim(s);
    if t.len() == 0 {
        Err(LayerNameError::Empty)
    } else if exists|i: int| 0 <= i < t.len() && is_illegal_name_char(#[trigger] t[i]) {
        Err(LayerNameError::Illegal)
    } else {
        Ok(t)
    }
}

/// Whether `c` is one of [`ILLEGAL_LAYER_NAME_CHARS`].
pub fn is_illegal_char(c: char) -> (r: bool)
    ensures
        r == is_illegal_name_char(c),
{
    let mut k: usize = 0;
    while k < 6
        invariant
            k <= 6,
            ILLEGAL_LAYER_NAME_CHARS@ == seq!['\n', '\r', '\t', '\\', '"', ';'],
            forall|j: int| 0 <= j < k ==> ILLEGAL_LAYER_NAME_CHARS@[j] != c,
        decreases 6 - k,
    {
        if ILLEGAL_LAYER_NAME_CHARS[k] == c {
            return true;
        }
        k = k + 1;
    }
    false
}

/// Checks and cleans a layer name given on the command line.
pub fn valid_layer_name(s: &str) -> (r: Result<String, LayerNameError>)
    ensures
        match spec_valid_layer_name(s@) {
            Ok(t) => r matches Ok(name) && name@ == t,
            Err(e) => r matches Err(e2) && e2 == e,
        },
{
    let t = str_trim(s);
    let n = t.unicode_len();
    if n == 0 {
        return Err(LayerNameError::Empty);
    }
    let mut i: usize = 0;
    while i < n
        invariant
            n == t@.len(),
            t@ == trim(s@),
            i <= n,
            forall|j: int| 0 <= j < i ==> !is_illegal_name_char(#[trigger] t@[j]),
        decreases n - i,
    {
        if is_illegal_char(t.get_char(i)) {
            proof {
                assert(is_illegal_name_char(t@[i as int]));
            }
            return Err(LayerNameError::Illegal);
        }
        i = i + 1;
    }
    Ok(t.to_owned())
}

/// A name is the given text without surrounding white space. It is refused
/// as empty exactly when nothing else is left, and as illegal exactly when
/// what is left holds a line break, a carriage return, a tab, a backslash, a
/// double quote or a semicolon; any other name is accepted as it is.
pub proof fn law_layer_name_rules(s: Seq<char>)
    ensures
        spec_valid_layer_name(s) == Err::<Seq<char>, LayerNameError>(LayerNameError::Empty) <==> trim(
            s,
        ).len() == 0,
        spec_valid_layer_name(s) == Err::<Seq<char>, LayerNameError>(LayerNameError::Illegal)
            <==> (trim(s).len() > 0 && exists|i: int|
            0 <= i < trim(s).len() && {
                let c = #[trigger] trim(s)[i];
                c == '\n' || c == '\r' || c == '\t' || c == '\\' || c == '"' || c == ';'
            }),
        spec_valid_layer_name(s) is Ok ==> spec_valid_layer_name(s) == Ok::<
            Seq<char>,
            LayerNameError,
        >(trim(s)),
{
}

} // verus!
