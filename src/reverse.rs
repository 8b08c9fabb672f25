//! Reversal of text by grapheme clusters, in two passes over its bytes.
use crate::laws::{length_preserved, validity_preserved};
use crate::segment::{cluster_len, leading_cluster_len};
use vstd::prelude::*;
use vstd::slice::slice_to_vec;
use vstd::string::*;
use vstd::utf8::*;

verus! {

broadcast use group_utf8_lib;

/// The bytes of `b` with the bytes of each cluster reversed where the cluster
/// stands: what the first pass leaves.
pub open spec fn clusters_each_reversed(b: Seq<u8>) -> Seq<u8>
    decreases b.len(),
{
    if b.len() == 0 {
        seq![]
    } else {
        b.take(cluster_len(b)).reverse() + clusters_each_reversed(b.skip(cluster_len(b)))
    }
}

/// The clusters of `b` in reverse order, each with its own bytes in order.
pub open spec fn reversed_by_clusters(b: Seq<u8>) -> Seq<u8>
    decreases b.len(),
{
    if b.len() == 0 {
        seq![]
    } else {
        reversed_by_clusters(b.skip(cluster_len(b))) + b.take(cluster_len(b))
    }
}

/// Reversing all bytes after each cluster was reversed on its own puts the
/// clusters in reverse order with their bytes back in order.
pub proof fn lemma_second_pass(b: Seq<u8>)
    ensures
        clusters_each_reversed(b).reverse() == reversed_by_clusters(b),
    decreases b.len(),
{
    if b.len() > 0 {
        let n = cluster_len(b);
        let head = b.take(n);
        let rest = clusters_each_reversed(b.skip(n));
        lemma_second_pass(b.skip(n));
        assert((head.reverse() + rest).reverse() =~= rest.reverse() + head);
    }
}

/// Reverses the bytes of `buf` between `lo` (included) and `hi` (excluded),
/// leaving the others where they are.
pub fn reverse_range(buf: &mut Vec<u8>, lo: usize, hi: usize)
    requires
        lo <= hi <= old(buf)@.len(),
    ensures
        final(buf)@.len() == old(buf)@.len(),
        forall|k: int|
            0 <= k < old(buf)@.len() ==> #[trigger] final(buf)@[k] == if lo <= k < hi {
                old(buf)@[lo + hi - 1 - k]
            } else {
                old(buf)@[k]
            },
{
    let mut i: usize = lo;
    let mut j: usize = hi;
    while j - i >= 2
        invariant
            lo <= i <= j <= hi <= buf@.len(),
            i - lo == hi - j,
            buf@.len() == old(buf)@.len(),
            forall|k: int|
                0 <= k < buf@.len() ==> #[trigger] buf@[k] == if (lo <= k < i || j <= k < hi) {
                    old(buf)@[lo + hi - 1 - k]
                } else {
                    old(buf)@[k]
                },
        decreases j - i,
    {
        let a = buf[i];
        let z = buf[j - 1];
        buf[i] = z;
        buf[j - 1] = a;
        i = i + 1;
        j = j - 1;
    }
}

/// The leading cluster of valid UTF-8 bytes and what follows it are valid
/// UTF-8 too.
pub proof fn lemma_cluster_split_valid(b: Seq<u8>)
    requires
        valid_utf8(b),
        b.len() > 0,
    ensures
        0 < cluster_len(b) <= b.len(),
        valid_utf8(b.take(cluster_len(b))),
        valid_utf8(b.skip(cluster_len(b))),
{
    let n = cluster_len(b);
    is_char_boundary_start_end_of_seq(b);
    valid_utf8_split(b, n);
    assert(b.take(n) =~= b.subrange(0, n));
    assert(b.skip(n) =~= b.subrange(n, b.len() as int));
}

/// Relies on `String::from_utf8`: bytes that are valid UTF-8 become the string
/// that they encode.
#[verifier::external_body]
fn string_from_utf8(v: Vec<u8>) -> (r: String)
    requires
        valid_utf8(v@),
    ensures
        r@ == decode_utf8(v@),
{
    match String::from_utf8(v) {
        Ok(t) => t,
        Err(_) => String::new(),
    }
}

/// First pass: reverses in `buf`, a copy of the bytes of `text`, the bytes of
/// each cluster of `text` where the cluster stands.
///
/// The clusters are found on `text`, which stays intact, while `buf` is
/// rewritten: its bytes are no UTF-8 text until the second pass.
pub fn reverse_each_cluster(text: &str, buf: &mut Vec<u8>)
    requires
        old(buf)@ == text.spec_bytes(),
    ensures
        final(buf)@ == clusters_each_reversed(text.spec_bytes()),
{
    let ghost bytes = text.spec_bytes();
    let n: usize = text.as_bytes().len();
    let mut tail: &str = text;
    let mut pos: usize = 0;
    assert(bytes.subrange(0, n as int) =~= bytes);
    assert(buf@.subrange(0, 0) + clusters_each_reversed(bytes) =~= clusters_each_reversed(bytes));
    while pos < n
        invariant
            n == bytes.len(),
            pos <= n,
            buf@.len() == n,
            tail.spec_bytes() == bytes.subrange(pos as int, n as int),
            buf@.subrange(pos as int, n as int) == bytes.subrange(pos as int, n as int),
            buf@.subrange(0, pos as int) + clusters_each_reversed(tail.spec_bytes())
                == clusters_each_reversed(bytes),
        decreases n - pos,
    {
        let ghost tb = tail.spec_bytes();
        let ghost old_buf = buf@;
        let g = leading_cluster_len(tail);
        proof {
            if tail@.len() == 0 {
                assert(tb =~= Seq::<u8>::empty());
            }
            assert(decode_utf8(tb) == tail@);
            assert(cluster_len(tb) == g as int);
        }
        let (_, rest) = tail.split_at(g);
        reverse_range(buf, pos, pos + g);
        proof {
            let p = pos as int;
            let q = p + g as int;
            assert(rest.spec_bytes() =~= bytes.subrange(q, n as int));
            assert(buf@.subrange(q, n as int) =~= old_buf.subrange(q, n as int));
            assert(buf@.subrange(q, n as int) =~= bytes.subrange(q, n as int));
            assert(buf@.subrange(0, q) =~= old_buf.subrange(0, p) + tb.take(g as int).reverse());
            assert(tb.skip(g as int) =~= rest.spec_bytes());
            let done = old_buf.subrange(0, p);
            assert(buf@.subrange(0, q) + clusters_each_reversed(rest.spec_bytes())
                =~= done + clusters_each_reversed(tb));
        }
        tail = rest;
        pos = pos + g;
    }
    assert(buf@.subrange(0, n as int) =~= buf@);
    assert(tail.spec_bytes() =~= Seq::<u8>::empty());
}

/// Reverses the text `s` by grapheme clusters: its clusters come in reverse
/// order, each with its own bytes in their order, so that combining marks stay
/// on their letters and every character stays well formed.
///
/// The first pass reverses the bytes within each cluster, the second all the
/// bytes; each byte of a cluster is thereby moved twice and comes back into
/// its order inside the cluster.
///
/// Safe code cannot look at bytes as text while they are being rewritten, so
/// the passes work on a byte copy of `s` while the clusters are read from `s`
/// itself; the rewritten bytes, which the proof shows to be valid UTF-8, then
/// take the place of the old contents.
pub fn reverse_grapheme_clusters_in_place(s: &mut String)
    ensures
        encode_utf8(final(s)@) == reversed_by_clusters(encode_utf8(old(s)@)),
        encode_utf8(final(s)@).len() == encode_utf8(old(s)@).len(),
{
    let text: &str = s.as_str();
    let ghost bytes = text.spec_bytes();
    let mut buf: Vec<u8> = slice_to_vec(text.as_bytes());
    reverse_each_cluster(text, &mut buf);
    let n: usize = buf.len();
    reverse_range(&mut buf, 0, n);
    proof {
        assert(buf@ =~= clusters_each_reversed(bytes).reverse());
        lemma_second_pass(bytes);
        validity_preserved(bytes);
        length_preserved(bytes);
    }
    *s = string_from_utf8(buf);
}

} // verus!
