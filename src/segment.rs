//! Grapheme-cluster segmentation, as given by the `unicode_segmentation` crate.
use unicode_segmentation::UnicodeSegmentation;
use vstd::prelude::*;
use vstd::string::*;
use vstd::utf8::*;

verus! {

/// Byte length of the leading extended grapheme cluster of the text `s`, as the
/// Unicode segmentation rules place its end.
pub uninterp spec fn first_grapheme_len(s: Seq<char>) -> nat;

/// Byte length of the leading cluster of the UTF-8 bytes `b`.
///
/// The segmenter always ends the first cluster of non-empty text at a character
/// boundary inside the text; the fallback to the whole text only keeps this
/// function total on values that never occur.
pub open spec fn cluster_len(b: Seq<u8>) -> int {
    let n = first_grapheme_len(decode_utf8(b)) as int;
    if 0 < n <= b.len() && is_char_boundary(b, n) {
        n
    } else {
        b.len() as int
    }
}

/// The clusters of the UTF-8 bytes `b`, left to right, each as its bytes.
pub open spec fn clusters(b: Seq<u8>) -> Seq<Seq<u8>>
    decreases b.len(),
{
    if b.len() == 0 {
        seq![]
    } else {
        seq![b.take(cluster_len(b))] + clusters(b.skip(cluster_len(b)))
    }
}

/// Relies on `UnicodeSegmentation::graphemes` in extended mode: the first item
/// of the iterator is the leading cluster of `s`, a non-empty slice of `s` that
/// starts at its start; there is none exactly when `s` is empty.
#[verifier::external_body]
pub(crate) fn leading_cluster_len(s: &str) -> (r: usize)
    ensures
        r as nat == first_grapheme_len(s@),
        s@.len() == 0 ==> r == 0,
        s@.len() > 0 ==> 0 < r <= s.spec_bytes().len() && is_char_boundary(s.spec_bytes(), r as int),
{
    match s.graphemes(true).next() {
        Some(g) => g.len(),
        None => 0,
    }
}

} // verus!
