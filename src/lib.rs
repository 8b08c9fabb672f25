//! Reversal of UTF-8 text by extended grapheme clusters.
//!
//! A cluster is a user-perceived character: a base letter with its combining
//! marks, an emoji sequence, a pair of regional indicators. Reversing such text
//! means reversing the order of its clusters while each cluster keeps its bytes
//! in their own order, so that marks stay on their letters and multi-byte
//! characters stay well formed.

mod laws;
mod reverse;
mod segment;

pub use laws::{
    clusters_preserved, length_preserved, reversal_is_involution, validity_preserved,
};
pub use reverse::{
    clusters_each_reversed, reverse_each_cluster, reverse_grapheme_clusters_in_place,
    reverse_range, reversed_by_clusters,
};
pub use segment::{cluster_len, clusters, first_grapheme_len};
