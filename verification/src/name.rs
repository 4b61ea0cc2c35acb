//! Names as they are asked for: lower case and the reversal suffix.

use vstd::prelude::*;
use vstd::string::*;

verus! {

/// The lowercase form of a string, as `str::to_lowercase` computes it from
/// the Unicode character tables.
pub uninterp spec fn lowercase(s: Seq<char>) -> Seq<char>;

/// `str::to_lowercase` of the standard library returns the lowercase form of
/// its argument, which depends on nothing but the characters given.
pub assume_specification[ str::to_lowercase ](s: &str) -> (lowered: String)
    ensures
        lowered@ == lowercase(s@),
;

/// Whether a name asks for the reversed palette: it ends in `_r`.
pub open spec fn is_reversed(name: Seq<char>) -> bool {
    name.len() >= 2 && name[name.len() - 2] == '_' && name[name.len() - 1] == 'r'
}

/// The name without its reversal suffix, if it has one.
pub open spec fn base_name(name: Seq<char>) -> Seq<char> {
    if is_reversed(name) {
        name.subrange(0, name.len() - 2)
    } else {
        name
    }
}

/// The reversal suffix.
pub open spec fn reversal_suffix() -> Seq<char> {
    seq!['_', 'r']
}

/// A name that is written as a catalog writes its names: it is in lower
/// case already and does not end in the reversal suffix.
pub open spec fn plain(name: Seq<char>) -> bool {
    lowercase(name) == name && !is_reversed(name)
}

/// Splits a normalized name into the name to look up and the request to
/// reverse the palette.
pub fn split_reversal(name: &str) -> (parts: (&str, bool))
    ensures
        parts.0@ == base_name(name@),
        parts.1 == is_reversed(name@),
{
    let n = name.unicode_len();
    if n >= 2 && name.get_char(n - 2) == '_' && name.get_char(n - 1) == 'r' {
        (name.substring_char(0, n - 2), true)
    } else {
        (name, false)
    }
}

/// Whether a name is written as a catalog writes its names.
pub fn is_plain(name: &str) -> (b: bool)
    ensures
        b == plain(name@),
{
    let lowered = name.to_lowercase();
    let unchanged = lowered == name.to_owned();
    let (_, reversed) = split_reversal(name);
    unchanged && !reversed
}

/// Whether two names differ in case at most.
pub fn same_ignoring_case(a: &str, b: &str) -> (same: bool)
    ensures
        same == (lowercase(a@) == lowercase(b@)),
{
    a.to_lowercase() == b.to_lowercase()
}

/// Whether a name is put in lower case in the same way with the reversal
/// suffix behind it as without it.
pub fn lowering_keeps_suffix(name: &str) -> (kept: bool)
    ensures
        kept == (lowercase(name@ + reversal_suffix()) == lowercase(name@) + reversal_suffix()),
{
    proof {
        reveal_strlit("_r");
        assert("_r"@ =~= reversal_suffix());
    }
    let suffixed = name.to_owned().concat("_r");
    let lowered_whole = suffixed.as_str().to_lowercase();
    let lowered_first = name.to_lowercase().concat("_r");
    lowered_whole == lowered_first
}

} // verus!
