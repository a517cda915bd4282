//! Longest-prefix matching: which prefixes cover an address, and which of the
//! covering ones wins.
//!
//! Among the candidates that cover an address the winner is the one with the
//! longest prefix. Candidates of equal length are told apart by metric, the
//! lowest winning, and candidates that still tie by their position in the
//! table, the later one winning.

use vstd::prelude::*;

verus! {

/// The message of the error that rejects a prefix length above 32.
pub const PREFIX_LENGTH_OUT_OF_RANGE: &'static str = "Prefix length out of range";

/// What longest-prefix matching reads of a route or of a table entry.
pub struct LpmCandidate {
    pub prefix: u32,
    pub prefix_len: u8,
    pub metric: u32,
}

/// Whether `addr` lies in the network `prefix/prefix_len`: the two agree in
/// their `prefix_len` most significant bits. Lengths above 32 cover nothing.
pub open spec fn prefix_matches(prefix: u32, prefix_len: u8, addr: u32) -> bool {
    prefix_len == 0 || (prefix_len <= 32 && (prefix >> ((32 - prefix_len) as u32)) == (addr >> ((32
        - prefix_len) as u32)))
}

/// The netmask of a prefix length: its `prefix_len` most significant bits are
/// set. Lengths above 32 are treated as 32.
pub open spec fn prefix_mask(prefix_len: u8) -> u32 {
    if prefix_len == 0 {
        0
    } else if prefix_len >= 32 {
        0xffff_ffff
    } else {
        !(0xffff_ffffu32 >> (prefix_len as u32))
    }
}

/// Whether the candidate covers `addr`.
pub open spec fn covers(c: LpmCandidate, addr: u32) -> bool {
    prefix_matches(c.prefix, c.prefix_len, addr)
}

/// Whether the candidate at `i` is at least as good a match as the one at `j`.
pub open spec fn outranks(cands: Seq<LpmCandidate>, i: int, j: int) -> bool {
    let a = cands[i];
    let b = cands[j];
    a.prefix_len > b.prefix_len || (a.prefix_len == b.prefix_len && (a.metric < b.metric || (
    a.metric == b.metric && i >= j)))
}

/// Whether any candidate covers `addr`.
pub open spec fn has_match(cands: Seq<LpmCandidate>, addr: u32) -> bool {
    exists|j: int| 0 <= j < cands.len() && #[trigger] covers(cands[j], addr)
}

/// Whether `i` is the longest-prefix match for `addr`: it covers `addr` and
/// outranks every other candidate that does.
pub open spec fn is_best_match(cands: Seq<LpmCandidate>, addr: u32, i: int) -> bool {
    &&& 0 <= i < cands.len()
    &&& covers(cands[i], addr)
    &&& forall|j: int|
        0 <= j < cands.len() && #[trigger] covers(cands[j], addr) ==> outranks(cands, i, j)
}

/// At most one candidate is the longest-prefix match.
pub proof fn lemma_best_match_unique(cands: Seq<LpmCandidate>, addr: u32, i: int, j: int)
    requires
        is_best_match(cands, addr, i),
        is_best_match(cands, addr, j),
    ensures
        i == j,
{
    assert(outranks(cands, i, j));
    assert(outranks(cands, j, i));
}

/// A prefix of length zero covers every address.
pub proof fn lemma_zero_length_matches_all(prefix: u32, addr: u32)
    ensures
        prefix_matches(prefix, 0, addr),
{
}

/// A prefix of length 32 covers exactly its own address.
pub proof fn lemma_full_length_matches_exactly(prefix: u32, addr: u32)
    ensures
        prefix_matches(prefix, 32, addr) <==> prefix == addr,
{
    assert((prefix >> 0u32) == prefix) by (bit_vector);
    assert((addr >> 0u32) == addr) by (bit_vector);
}

/// A prefix covers an address exactly when the two are equal under the
/// prefix's netmask.
pub proof fn lemma_matches_under_mask(prefix: u32, prefix_len: u8, addr: u32)
    requires
        prefix_len <= 32,
    ensures
        prefix_matches(prefix, prefix_len, addr) <==> (prefix & prefix_mask(prefix_len)) == (addr
            & prefix_mask(prefix_len)),
{
    let len = prefix_len as u32;
    if prefix_len == 0 {
        assert((prefix & 0u32) == (addr & 0u32)) by (bit_vector);
    } else if prefix_len == 32 {
        assert((prefix >> 0u32) == prefix) by (bit_vector);
        assert((addr >> 0u32) == addr) by (bit_vector);
        assert((prefix & 0xffff_ffffu32) == prefix) by (bit_vector);
        assert((addr & 0xffff_ffffu32) == addr) by (bit_vector);
    } else {
        let shift = (32 - prefix_len) as u32;
        assert(((prefix >> shift) == (addr >> shift)) <==> ((prefix & !(0xffff_ffffu32 >> len))
            == (addr & !(0xffff_ffffu32 >> len)))) by (bit_vector)
            requires
                0 < len < 32,
                shift == 32 - len,
        ;
    }
}

/// Computes the netmask of a prefix length.
pub fn netmask(prefix_len: u8) -> (mask: u32)
    ensures
        mask == prefix_mask(prefix_len),
{
    if prefix_len == 0 {
        0
    } else if prefix_len >= 32 {
        0xffff_ffff
    } else {
        !(0xffff_ffffu32 >> (prefix_len as u32))
    }
}

/// Decides whether `addr` lies in the network `prefix/prefix_len`.
pub fn address_in_prefix(prefix: u32, prefix_len: u8, addr: u32) -> (r: bool)
    ensures
        r == prefix_matches(prefix, prefix_len, addr),
{
    if prefix_len > 32 {
        false
    } else {
        proof {
            lemma_matches_under_mask(prefix, prefix_len, addr);
        }
        let mask = netmask(prefix_len);
        (prefix & mask) == (addr & mask)
    }
}

/// Decides whether a candidate of length `len_a` and metric `metric_a` that
/// stands later in the table replaces one of length `len_b` and metric
/// `metric_b` as the best match.
pub fn later_outranks(len_a: u8, metric_a: u32, len_b: u8, metric_b: u32) -> (r: bool)
    ensures
        r == (len_a > len_b || (len_a == len_b && metric_a <= metric_b)),
{
    len_a > len_b || (len_a == len_b && metric_a <= metric_b)
}

} // verus!
