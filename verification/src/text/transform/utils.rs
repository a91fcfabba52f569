//! Checks and conversions that every renderer applies before it lays out text.

use vstd::prelude::*;
use crate::text::transform::{TransformError, TransformResult};

verus! {

/// Whether a text of `len` characters lies within the inclusive bounds.
pub open spec fn len_in_bounds(min: usize, max: usize, len: usize) -> bool {
    min <= len && len <= max
}

/// Accepts a character count within `min..=max` and rejects every other one
/// with the bounds and the offending count.
pub fn validate_len(min: usize, max: usize, len: usize) -> (r: TransformResult<()>)
    ensures
        r is Ok <==> len_in_bounds(min, max, len),
        r is Err ==> r == Err::<(), TransformError>(
            (TransformError::InvalidLength { min, max, actual: len }),
        ),
{
    if len < min || len > max {
        Err(TransformError::InvalidLength { min, max, actual: len })
    } else {
        Ok(())
    }
}

/// The characters that `char::to_uppercase` yields for `c`, in order.
pub uninterp spec fn uppercase_mapping(c: char) -> Seq<char>;

/// Collects what `char::to_uppercase` yields for `c`.
///
/// Trusted: the contract only gives that outcome its name. The mapping comes
/// from the Unicode tables built into std and depends on `c` alone; nothing
/// is claimed of its length or of its characters.
#[verifier::external_body]
pub(crate) fn to_uppercase(c: char) -> (mapping: Vec<char>)
    ensures
        mapping@ == uppercase_mapping(c),
{
    c.to_uppercase().collect()
}

/// The one character that stands for `c` once a mapping is known: the mapping
/// itself where it is a single character, and `c` unchanged where it is not.
pub open spec fn single_upper(c: char, mapping: Seq<char>) -> char {
    if mapping.len() == 1 {
        mapping[0]
    } else {
        c
    }
}

/// The uppercase form of `c`, one character for one.
pub open spec fn upper(c: char) -> char {
    single_upper(c, uppercase_mapping(c))
}

/// The canonical form of a text: each character replaced by its uppercase
/// form, order and count kept.
pub open spec fn canonical(text: Seq<char>) -> Seq<char> {
    Seq::new(text.len(), |i: int| upper(text[i]))
}

/// Chooses the character that stands for `c`, given its uppercase mapping.
pub fn pick_upper(c: char, mapping: &Vec<char>) -> (u: char)
    ensures
        u == single_upper(c, mapping@),
{
    if mapping.len() == 1 {
        mapping[0]
    } else {
        c
    }
}

/// Maps every character to its uppercase form, keeping order and count.
pub fn collect_uppercase_chars(text: &str) -> (chars: Vec<char>)
    ensures
        chars@ == canonical(text@),
        chars@.len() == text@.len(),
        forall|i: int| 0 <= i < text@.len() ==> chars@[i] == upper(#[trigger] text@[i]),
{
    broadcast use vstd::string::group_string_axioms;

    let mut chars: Vec<char> = Vec::new();
    for c in it: text.chars()
        invariant
            it.seq() == text@,
            chars@ == canonical(text@.take(it.index() as int)),
    {
        let mapping = to_uppercase(c);
        let u = pick_upper(c, &mapping);
        chars.push(u);
        assert(chars@ =~= canonical(text@.take(it.index() + 1)));
    }
    assert(text@.take(text@.len() as int) =~= text@);
    chars
}

} // verus!
