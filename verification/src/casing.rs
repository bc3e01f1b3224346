//! Lowercasing, which the standard library does and this library only names.

use vstd::prelude::*;

verus! {

/// The lowercase form of `text`, as Unicode defines it.
///
/// The mapping is a table of the standard library; nothing here says what it
/// is on any text, only that equal texts have equal lowercase forms.
pub uninterp spec fn lowercase(text: Seq<char>) -> Seq<char>;

/// `str::to_lowercase` of the standard library. Assumed, not proved: the
/// string it returns is a function of the characters of `text` alone, and
/// [`lowercase`] is the name of that function.
pub assume_specification[ str::to_lowercase ](text: &str) -> (lowered: String)
    ensures
        lowered@ == lowercase(text@),
;

} // verus!
