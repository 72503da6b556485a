//! The shared cache region: an 8-byte little-endian length, then the payload.
//!
//! A region is a fixed-size byte buffer that several processes map. The functions
//! here read and write it in place; encoding a snapshot to bytes happens outside.
use vstd::prelude::*;
use vstd::bytes::{spec_u64_from_le_bytes, spec_u64_to_le_bytes, spec_u64_to_le_bytes_to_open, u64_from_le_bytes, u64_to_le_bytes, lemma_auto_spec_u64_to_from_le_bytes};
use crate::vars::VariableSet;

verus! {

/// Size of the shared region in bytes.
pub const CACHE_CAPACITY: usize = 1048576;

/// Size of the length prefix in bytes.
pub const LEN_PREFIX: usize = 8;

/// Why a write was refused.
#[derive(Debug, PartialEq, Eq, Structural)]
pub enum CacheError {
    /// The payload does not fit after the length prefix.
    CapacityExceeded,
}

/// One cached copy of a project environment's variables.
pub struct SharedEnvData {
    pub version: u64,
    pub project_id: String,
    pub environment: String,
    pub variables: VariableSet,
    pub last_updated: String,
}

/// Whether a payload of `n` bytes fits in a region of `size` bytes.
pub open spec fn fits(n: int, size: int) -> bool {
    n <= size - 8
}

/// The payload a region holds: none when the length is zero or does not fit.
pub open spec fn stored_payload(region: Seq<u8>) -> Option<Seq<u8>> {
    if region.len() < 8 {
        None
    } else {
        let n = spec_u64_from_le_bytes(region.take(8)) as int;
        if n == 0 || !fits(n, region.len() as int) {
            None
        } else {
            Some(region.subrange(8, 8 + n))
        }
    }
}

/// The region after `payload` is written over it.
pub open spec fn written(region: Seq<u8>, payload: Seq<u8>) -> Seq<u8> {
    spec_u64_to_le_bytes(payload.len() as u64) + payload + region.skip(8 + payload.len() as int)
}

/// Writes `payload` behind its length. A payload that does not fit leaves the region as it was.
pub fn write_payload(region: &mut [u8], payload: &[u8]) -> (r: Result<(), CacheError>)
    requires
        old(region)@.len() >= LEN_PREFIX,
    ensures
        final(region)@.len() == old(region)@.len(),
        fits(payload@.len() as int, old(region)@.len() as int) ==> r is Ok && final(region)@
            == written(old(region)@, payload@),
        !fits(payload@.len() as int, old(region)@.len() as int) ==> r == Err::<(), CacheError>(
            CacheError::CapacityExceeded,
        ) && final(region)@ == old(region)@,
{
    if payload.len() > region.len() - LEN_PREFIX {
        return Err(CacheError::CapacityExceeded);
    }
    let ghost r0 = region@;
    let size = region.len();
    let n = payload.len();
    let prefix = u64_to_le_bytes(n as u64);
    proof {
        lemma_auto_spec_u64_to_from_le_bytes();
    }
    let mut i: usize = 0;
    while i < LEN_PREFIX
        invariant
            i <= 8 <= r0.len() == size,
            prefix@ == spec_u64_to_le_bytes(n as u64),
            prefix@.len() == 8,
            region@.len() == r0.len(),
            forall|j: int| 0 <= j < i ==> region@[j] == prefix@[j],
            forall|j: int| i <= j < r0.len() ==> region@[j] == r0[j],
        decreases 8 - i,
    {
        region[i] = prefix[i];
        i = i + 1;
    }
    let mut k: usize = 0;
    while k < n
        invariant
            k <= n == payload@.len(),
            8 + n <= r0.len() == size,
            prefix@.len() == 8,
            region@.len() == r0.len(),
            forall|j: int| 0 <= j < 8 ==> region@[j] == prefix@[j],
            forall|j: int| 0 <= j < k ==> region@[8 + j] == payload@[j],
            forall|j: int| 8 + k <= j < r0.len() ==> region@[j] == r0[j],
        decreases n - k,
    {
        region[LEN_PREFIX + k] = payload[k];
        k = k + 1;
    }
    assert(region@ =~= written(r0, payload@));
    Ok(())
}

/// The payload the region holds, if its length prefix is in range and not zero.
pub fn read_payload(region: &[u8]) -> (r: Option<Vec<u8>>)
    ensures
        match r {
            Some(v) => stored_payload(region@) == Some(v@),
            None => stored_payload(region@) is None,
        },
{
    if region.len() < LEN_PREFIX {
        return None;
    }
    let mut head: Vec<u8> = Vec::new();
    let mut i: usize = 0;
    while i < LEN_PREFIX
        invariant
            i <= 8 <= region@.len(),
            head@ == region@.take(i as int),
        decreases 8 - i,
    {
        head.push(region[i]);
        assert(head@ =~= region@.take(i + 1));
        i = i + 1;
    }
    let n = u64_from_le_bytes(head.as_slice());
    if n == 0 || n > (region.len() - LEN_PREFIX) as u64 {
        return None;
    }
    let n = n as usize;
    let size = region.len();
    let mut out: Vec<u8> = Vec::new();
    let mut k: usize = 0;
    while k < n
        invariant
            k <= n,
            8 + n <= region@.len() == size,
            out@ == region@.subrange(8, 8 + k),
        decreases n - k,
    {
        out.push(region[LEN_PREFIX + k]);
        assert(out@ =~= region@.subrange(8, 8 + k + 1));
        k = k + 1;
    }
    Some(out)
}

/// Reading a region right after a write gives back the payload written, for any
/// non-empty payload that fits. An encoded snapshot is never empty; a length of zero
/// is how a region says it holds nothing.
pub proof fn law_read_after_write(region: Seq<u8>, payload: Seq<u8>)
    requires
        8 <= region.len() <= usize::MAX,
        0 < payload.len(),
        fits(payload.len() as int, region.len() as int),
    ensures
        written(region, payload).len() == region.len(),
        stored_payload(written(region, payload)) == Some(payload),
{
    lemma_auto_spec_u64_to_from_le_bytes();
    let w = written(region, payload);
    let n = payload.len() as u64;
    assert(w.take(8) =~= spec_u64_to_le_bytes(n));
    assert(spec_u64_from_le_bytes(spec_u64_to_le_bytes(n)) == n);
    assert(w.subrange(8, 8 + payload.len() as int) =~= payload);
}

/// Of two writes in a row, the second is what a read sees (a non-empty second payload,
/// as every encoded snapshot is).
pub proof fn law_last_write_wins(region: Seq<u8>, first: Seq<u8>, second: Seq<u8>)
    requires
        8 <= region.len() <= usize::MAX,
        fits(first.len() as int, region.len() as int),
        0 < second.len(),
        fits(second.len() as int, region.len() as int),
    ensures
        stored_payload(written(written(region, first), second)) == Some(second),
{
    lemma_auto_spec_u64_to_from_le_bytes();
    assert(written(region, first).len() == region.len());
    law_read_after_write(written(region, first), second);
}

/// A region that was never written (all zero bytes) holds no payload.
pub proof fn law_zeroed_region_is_empty(region: Seq<u8>)
    requires
        region.len() >= 8,
        forall|j: int| 0 <= j < region.len() ==> region[j] == 0,
    ensures
        stored_payload(region) is None,
{
    lemma_auto_spec_u64_to_from_le_bytes();
    spec_u64_to_le_bytes_to_open(0);
    assert(((0u64 & 0xff) as u8) == 0 && (((0u64 >> 8) & 0xff) as u8) == 0 && (((0u64 >> 16)
        & 0xff) as u8) == 0 && (((0u64 >> 24) & 0xff) as u8) == 0 && (((0u64 >> 32) & 0xff)
        as u8) == 0 && (((0u64 >> 40) & 0xff) as u8) == 0 && (((0u64 >> 48) & 0xff) as u8) == 0
        && (((0u64 >> 56) & 0xff) as u8) == 0) by (bit_vector);
    assert(region.take(8) =~= spec_u64_to_le_bytes(0));
}

/// A length prefix torn into a value past the region's end reads as no payload.
pub proof fn law_out_of_range_length_is_empty(region: Seq<u8>)
    requires
        region.len() >= 8,
        !fits(spec_u64_from_le_bytes(region.take(8)) as int, region.len() as int),
    ensures
        stored_payload(region) is None,
{
}

/// Sets every byte of the region to zero.
pub fn clear_region(region: &mut [u8])
    ensures
        final(region)@.len() == old(region)@.len(),
        forall|j: int| 0 <= j < final(region)@.len() ==> final(region)@[j] == 0,
{
    let mut i: usize = 0;
    while i < region.len()
        invariant
            i <= region@.len() == old(region)@.len(),
            forall|j: int| 0 <= j < i ==> region@[j] == 0,
        decreases region@.len() - i,
    {
        region[i] = 0;
        i = i + 1;
    }
}

/// The version of a cached snapshot; 0 when there is none.
pub fn cached_version(snapshot: &Option<SharedEnvData>) -> (r: u64)
    ensures
        r == match snapshot {
            Some(s) => s.version,
            None => 0,
        },
{
    match snapshot {
        Some(s) => s.version,
        None => 0,
    }
}

} // verus!
