//! Deterministic hash-to-bucket helper used to partition agents coarsely.

use vstd::prelude::*;

verus! {

/// The low 64 bits, read little-endian, of the MD5 digest of the UTF-8 bytes
/// of the given characters; a function of the characters alone.
pub uninterp spec fn md5_low64(id: Seq<char>) -> u64;

/// Relies on `md5::compute`: the digest depends on the input bytes alone;
/// the first eight digest bytes are combined little-endian.
#[verifier::external_body]
fn md5_hash64(id: &str) -> (r: u64)
    ensures
        r == md5_low64(id@),
{
    let digest = md5::compute(id.as_bytes());
    u64::from_le_bytes([
        digest[0], digest[1], digest[2], digest[3], digest[4], digest[5], digest[6], digest[7],
    ])
}

/// Bucket for `id` among `num_of_shards` buckets: the MD5-derived hash of
/// `id` reduced modulo the bucket count.  Deterministic, and always in
/// `[0, num_of_shards)`.
pub fn get_shard_number(id: String, num_of_shards: u32) -> (r: u32)
    requires
        num_of_shards > 0,
    ensures
        r as u64 == md5_low64(id@) % (num_of_shards as u64),
        r < num_of_shards,
{
    let hash = md5_hash64(id.as_str());
    let shard = hash % (num_of_shards as u64);
    proof {
        assert(shard < num_of_shards as u64) by (nonlinear_arith)
            requires
                shard == hash % (num_of_shards as u64),
                num_of_shards > 0,
        ;
    }
    shard as u32
}

/// With a single bucket every id lands in bucket 0; with `n` buckets the
/// bucket is always below `n`.
pub proof fn lemma_shard_properties(id: Seq<char>, n: u32)
    requires
        n > 0,
    ensures
        md5_low64(id) % (n as u64) < n as u64,
        md5_low64(id) % 1u64 == 0,
{
    assert(md5_low64(id) % (n as u64) < n as u64) by (nonlinear_arith)
        requires
            n > 0,
    ;
    assert(md5_low64(id) % 1u64 == 0) by (nonlinear_arith);
}

} // verus!
