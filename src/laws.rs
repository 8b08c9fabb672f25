//! What holds of reversal by grapheme clusters over all texts.
use crate::reverse::{lemma_cluster_split_valid, reversed_by_clusters};
use crate::segment::{cluster_len, clusters};
use vstd::prelude::*;
use vstd::seq_lib::*;
use vstd::utf8::*;

verus! {

/// The clusters of `b`, joined in their order, give `b` back.
pub proof fn lemma_clusters_join(b: Seq<u8>)
    ensures
        clusters(b).flatten() == b,
    decreases b.len(),
{
    if b.len() > 0 {
        let n = cluster_len(b);
        lemma_clusters_join(b.skip(n));
        assert(clusters(b).drop_first() =~= clusters(b.skip(n)));
        assert(b.take(n) + b.skip(n) =~= b);
    }
}

/// Reversal by clusters is the join of the clusters of `b` taken in reverse
/// order, each intact; the clusters taken are those of `b`, each as often as
/// in `b`. Where the result is segmented into the same clusters in reverse
/// order, its clusters and those of `b` are the same multiset.
pub proof fn clusters_preserved(b: Seq<u8>)
    ensures
        reversed_by_clusters(b) == clusters(b).reverse().flatten(),
        clusters(b).reverse().to_multiset() == clusters(b).to_multiset(),
        clusters(reversed_by_clusters(b)) == clusters(b).reverse() ==> clusters(
            reversed_by_clusters(b),
        ).to_multiset() == clusters(b).to_multiset(),
    decreases b.len(),
{
    clusters(b).lemma_reverse_to_multiset();
    if b.len() > 0 {
        let n = cluster_len(b);
        let rest = clusters(b.skip(n));
        clusters_preserved(b.skip(n));
        assert(clusters(b).reverse() =~= rest.reverse().push(b.take(n)));
        rest.reverse().lemma_flatten_push(b.take(n));
    }
}

/// Reversal by clusters keeps the byte length.
pub proof fn length_preserved(b: Seq<u8>)
    ensures
        reversed_by_clusters(b).len() == b.len(),
    decreases b.len(),
{
    if b.len() > 0 {
        length_preserved(b.skip(cluster_len(b)));
    }
}

/// Reversal by clusters turns valid UTF-8 into valid UTF-8.
pub proof fn validity_preserved(b: Seq<u8>)
    requires
        valid_utf8(b),
    ensures
        valid_utf8(reversed_by_clusters(b)),
    decreases b.len(),
{
    if b.len() > 0 {
        let n = cluster_len(b);
        lemma_cluster_split_valid(b);
        validity_preserved(b.skip(n));
        valid_utf8_concat(reversed_by_clusters(b.skip(n)), b.take(n));
    }
}

/// Reversing twice gives the text back, wherever the reversed text falls into
/// the same clusters as the text, in reverse order. (It need not: a combining
/// mark at the start of a text is a cluster of its own, but it joins the
/// letter before it once the text is reversed.)
pub proof fn reversal_is_involution(b: Seq<u8>)
    requires
        clusters(reversed_by_clusters(b)) == clusters(b).reverse(),
    ensures
        reversed_by_clusters(reversed_by_clusters(b)) == b,
{
    let r = reversed_by_clusters(b);
    clusters_preserved(b);
    clusters_preserved(r);
    assert(clusters(b).reverse().reverse() =~= clusters(b));
    lemma_clusters_join(b);
}

} // verus!
