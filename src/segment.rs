use unicode_segmentation::UnicodeSegmentation;
use vstd::prelude::*;

verus! {

/// The extended grapheme clusters of a text, in order.
pub uninterp spec fn grapheme_clusters(s: Seq<char>) -> Seq<Seq<char>>;

/// Relies on `UnicodeSegmentation::graphemes` of unicode-segmentation, in its
/// extended form: it yields consecutive, non-empty slices of the text that
/// together cover it.
#[verifier::external_body]
pub(crate) fn graphemes(word: &str) -> (r: Vec<String>)
    ensures
        r@.map_values(|g: String| g@) == grapheme_clusters(word@),
        r@.map_values(|g: String| g@).flatten() == word@,
        forall|k: int| 0 <= k < r@.len() ==> (#[trigger] r@[k])@.len() > 0,
{
    word.graphemes(true).map(|g| g.to_string()).collect()
}

} // verus!
