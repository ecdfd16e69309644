//! The archive record framing: a fixed big-endian header written once per
//! archived burst, and the byte layout of a channel's sink region.

use vstd::prelude::*;

verus! {

/// The stream tag that opens every archive header.
pub const HEADER_MAGIC: u32 = 0x0000C0DE;

/// Byte `k` (big-endian, `k` in `0..4`) of a 32-bit value.
pub open spec fn be_byte32(x: u32, k: int) -> u8 {
    ((x >> ((24 - 8 * k) as u32)) & 0xFF) as u8
}

/// Byte `k` (big-endian, `k` in `0..8`) of a 64-bit value.
pub open spec fn be_byte64(x: u64, k: int) -> u8 {
    ((x >> ((56 - 8 * k) as u32)) & 0xFF) as u8
}

/// Byte `k` (big-endian, `k` in `0..16`) of a 128-bit value.
pub open spec fn be_byte128(x: u128, k: int) -> u8 {
    ((x >> ((120 - 8 * k) as u32)) & 0xFF) as u8
}

/// Byte `k` (little-endian, `k` in `0..8`) of a channel output value, in
/// the two's-complement reinterpretation that the sink region stores.
pub open spec fn le_byte64(x: i64, k: int) -> u8 {
    (((x as u64) >> ((8 * k) as u32)) & 0xFF) as u8
}

/// Encodes the archive header: the 4-byte stream tag, the 4-byte sample
/// count, then the capture timestamp — 16 bytes, or 8 holding its low
/// half, both big-endian, by configuration.
pub fn encode_header(sample_count: u32, timestamp_ns: u128, wide_timestamp: bool) -> (r: Vec<u8>)
    ensures
        r@.len() == if wide_timestamp { 24int } else { 16int },
        forall|k: int| 0 <= k < 4 ==> #[trigger] r@[k] == be_byte32(HEADER_MAGIC, k),
        forall|k: int| 0 <= k < 4 ==> #[trigger] r@[4 + k] == be_byte32(sample_count, k),
        wide_timestamp ==> forall|k: int| 0 <= k < 16 ==>
            #[trigger] r@[8 + k] == be_byte128(timestamp_ns, k),
        !wide_timestamp ==> forall|k: int| 0 <= k < 8 ==>
            #[trigger] r@[8 + k] == be_byte64(timestamp_ns as u64, k),
{
    let mut r: Vec<u8> = Vec::new();
    let mut k: usize = 0;
    while k < 4
        invariant
            k <= 4,
            r@.len() == k,
            forall|j: int| 0 <= j < k ==> #[trigger] r@[j] == be_byte32(HEADER_MAGIC, j),
        decreases 4 - k,
    {
        let shift: u32 = 24 - 8 * (k as u32);
        r.push(#[verifier::truncate] (((HEADER_MAGIC >> shift) & 0xFF) as u8));
        k = k + 1;
    }
    let mut k2: usize = 0;
    while k2 < 4
        invariant
            k2 <= 4,
            r@.len() == 4 + k2,
            forall|j: int| 0 <= j < 4 ==> #[trigger] r@[j] == be_byte32(HEADER_MAGIC, j),
            forall|j: int| 0 <= j < k2 ==> #[trigger] r@[4 + j] == be_byte32(sample_count, j),
        decreases 4 - k2,
    {
        let shift: u32 = 24 - 8 * (k2 as u32);
        r.push(#[verifier::truncate] (((sample_count >> shift) & 0xFF) as u8));
        k2 = k2 + 1;
    }
    if wide_timestamp {
        let mut k3: usize = 0;
        while k3 < 16
            invariant
                k3 <= 16,
                r@.len() == 8 + k3,
                forall|j: int| 0 <= j < 4 ==> #[trigger] r@[j] == be_byte32(HEADER_MAGIC, j),
                forall|j: int| 0 <= j < 4 ==> #[trigger] r@[4 + j] == be_byte32(sample_count, j),
                forall|j: int| 0 <= j < k3 ==> #[trigger] r@[8 + j] == be_byte128(timestamp_ns, j),
            decreases 16 - k3,
        {
            let shift: u32 = 120 - 8 * (k3 as u32);
            r.push(#[verifier::truncate] (((timestamp_ns >> shift) & 0xFF) as u8));
            k3 = k3 + 1;
        }
    } else {
        let low: u64 = #[verifier::truncate] (timestamp_ns as u64);
        let mut k3: usize = 0;
        while k3 < 8
            invariant
                k3 <= 8,
                r@.len() == 8 + k3,
                low == timestamp_ns as u64,
                forall|j: int| 0 <= j < 4 ==> #[trigger] r@[j] == be_byte32(HEADER_MAGIC, j),
                forall|j: int| 0 <= j < 4 ==> #[trigger] r@[4 + j] == be_byte32(sample_count, j),
                forall|j: int| 0 <= j < k3 ==> #[trigger] r@[8 + j] == be_byte64(low, j),
            decreases 8 - k3,
        {
            let shift: u32 = 56 - 8 * (k3 as u32);
            r.push(#[verifier::truncate] (((low >> shift) & 0xFF) as u8));
            k3 = k3 + 1;
        }
    }
    r
}

/// Lays a channel's output values into the fixed-size byte region the
/// sink overwrites on every burst: eight little-endian bytes per value,
/// addressable by value index.
pub fn channel_bytes(samples: &Vec<i64>) -> (r: Vec<u8>)
    requires
        samples@.len() <= 268435455,
    ensures
        r@.len() == samples@.len() * 8,
        forall|t: int| 0 <= t < r@.len() ==>
            #[trigger] r@[t] == le_byte64(samples@[t / 8], t % 8),
{
    let n: usize = samples.len();
    let mut r: Vec<u8> = Vec::new();
    let mut i: usize = 0;
    while i < n
        invariant
            i <= n,
            n == samples@.len(),
            n <= 268435455,
            r@.len() == i * 8,
            forall|t: int| 0 <= t < r@.len() ==>
                #[trigger] r@[t] == le_byte64(samples@[t / 8], t % 8),
        decreases n - i,
    {
        let v: u64 = #[verifier::truncate] (samples[i] as u64);
        let mut k: usize = 0;
        while k < 8
            invariant
                k <= 8,
                i < n,
                n == samples@.len(),
                n <= 268435455,
                v == samples@[i as int] as u64,
                r@.len() == i * 8 + k,
                forall|t: int| 0 <= t < r@.len() ==>
                    #[trigger] r@[t] == le_byte64(samples@[t / 8], t % 8),
            decreases 8 - k,
        {
            let shift: u32 = 8 * (k as u32);
            proof {
                vstd::arithmetic::div_mod::lemma_fundamental_div_mod_converse(
                    (i * 8 + k) as int,
                    8,
                    i as int,
                    k as int,
                );
            }
            r.push(#[verifier::truncate] (((v >> shift) & 0xFF) as u8));
            k = k + 1;
        }
        i = i + 1;
    }
    r
}

} // verus!
