//! Ordered search for an LZ4 block decoding of a payload whose framing is
//! not known in advance.
use vstd::prelude::*;

use crate::LZ4MessagePackProcessor;

verus! {

/// Hard ceiling on the output bound handed to the first strategy, whatever
/// the size hint says.
pub const MAX_OUTPUT_BOUND: usize = 67108864;

/// Factor applied to the size hint (or payload length) for the output bound.
pub const BOUND_FACTOR: usize = 10;

/// Number of leading payload bytes searched for a magic marker or tried as
/// start offsets.
pub const SCAN_WINDOW: usize = 20;

/// First offset of the brute-force strategy; offsets below it were tried
/// by earlier strategies.
pub const BRUTE_FORCE_START: usize = 5;

/// Identifier reported for an empty payload, which needs no strategy.
pub const EMPTY_PAYLOAD: usize = 0;

/// What `lz4::block::decompress(src, size)` yields: the decoded bytes, or
/// `None` where it reports an error.
pub uninterp spec fn lz4_block_decoded(src: Seq<u8>, size: Option<i32>) -> Option<Seq<u8>>;

/// Relies on `lz4::block::decompress`: decoding is a function of the source
/// bytes and the size argument alone; its error becomes `None`.
#[verifier::external_body]
fn lz4_decompress(src: &[u8], size: Option<i32>) -> (r: Option<Vec<u8>>)
    ensures
        r is None ==> lz4_block_decoded(src@, size) is None,
        r matches Some(v) ==> lz4_block_decoded(src@, size) == Some(v@),
{
    lz4::block::decompress(src, size).ok()
}

/// What `lz4::block::compress(src, None, false)` yields: a raw LZ4 block
/// without size prefix, or `None` where it reports an error.
pub uninterp spec fn lz4_block_compressed(src: Seq<u8>) -> Option<Seq<u8>>;

/// Relies on `lz4::block::compress` with the default mode and no size
/// prefix: the output is a function of the input bytes alone; its error
/// (input too long) becomes `None`.
#[verifier::external_body]
pub(crate) fn lz4_compress(src: &[u8]) -> (r: Option<Vec<u8>>)
    ensures
        r is None ==> lz4_block_compressed(src@) is None,
        r matches Some(v) ==> lz4_block_compressed(src@) == Some(v@),
{
    lz4::block::compress(src, None, false).ok()
}

/// The output bound of the first strategy: ten times the hint, or ten times
/// the payload length when the hint is zero, capped by `MAX_OUTPUT_BOUND`.
pub open spec fn output_bound(hint: nat, payload_len: nat) -> nat {
    let b = if hint > 0 {
        hint * BOUND_FACTOR
    } else {
        payload_len * BOUND_FACTOR
    };
    if b > MAX_OUTPUT_BOUND {
        MAX_OUTPUT_BOUND as nat
    } else {
        b as nat
    }
}

/// Decoding of the payload from offset `k` on, with a size prefix read from
/// the data itself.
pub open spec fn decoded_from(data: Seq<u8>, k: int) -> Option<Seq<u8>> {
    lz4_block_decoded(data.subrange(k, data.len() as int), None)
}

/// The scanned prefix: the first `SCAN_WINDOW` bytes, or fewer.
pub open spec fn scan_end(data: Seq<u8>) -> nat {
    if data.len() < SCAN_WINDOW {
        data.len()
    } else {
        SCAN_WINDOW as nat
    }
}

/// The LZ4 frame magic number `04 22 4D 18` starts at offset `i`.
pub open spec fn magic_at(data: Seq<u8>, i: int) -> bool {
    &&& 0 <= i
    &&& i + 4 <= data.len()
    &&& data[i] == 0x04u8
    &&& data[i + 1] == 0x22u8
    &&& data[i + 2] == 0x4Du8
    &&& data[i + 3] == 0x18u8
}

/// First offset in `i .. scan_end` where the magic number starts.
pub open spec fn first_magic(data: Seq<u8>, i: nat) -> Option<nat>
    decreases SCAN_WINDOW - i,
{
    if i >= scan_end(data) {
        None
    } else if magic_at(data, i as int) {
        Some(i)
    } else {
        first_magic(data, i + 1)
    }
}

/// First successful decoding at an offset in `i .. scan_end`.
pub open spec fn brute_force(data: Seq<u8>, i: nat) -> Option<Seq<u8>>
    decreases SCAN_WINDOW - i,
{
    if i >= scan_end(data) {
        None
    } else if decoded_from(data, i as int) is Some {
        decoded_from(data, i as int)
    } else {
        brute_force(data, i + 1)
    }
}

/// Result of the magic-number strategy: a decoding from the first magic
/// offset, if there is one and it decodes.
pub open spec fn magic_strategy(data: Seq<u8>) -> Option<Seq<u8>> {
    match first_magic(data, 0) {
        Some(i) => decoded_from(data, i as int),
        None => None,
    }
}

/// Attaches a strategy identifier to an optional decoding.
pub open spec fn tagged(d: Option<Seq<u8>>, id: nat) -> Option<(Seq<u8>, nat)> {
    match d {
        Some(b) => Some((b, id)),
        None => None,
    }
}

/// The waterfall of strategies, in order; the first that decodes wins and
/// is reported with its number (1 to 7).
pub open spec fn decompression_search(data: Seq<u8>, hint: nat) -> Option<(Seq<u8>, nat)> {
    let n = data.len();
    if n == 0 {
        Some((Seq::empty(), EMPTY_PAYLOAD as nat))
    } else if lz4_block_decoded(data, Some(output_bound(hint, n) as i32)) is Some {
        tagged(lz4_block_decoded(data, Some(output_bound(hint, n) as i32)), 1)
    } else if lz4_block_decoded(data, None) is Some {
        tagged(lz4_block_decoded(data, None), 2)
    } else if n > 1 && decoded_from(data, 1) is Some {
        tagged(decoded_from(data, 1), 3)
    } else if n > 2 && decoded_from(data, 2) is Some {
        tagged(decoded_from(data, 2), 4)
    } else if n > 4 && decoded_from(data, 4) is Some {
        tagged(decoded_from(data, 4), 5)
    } else if magic_strategy(data) is Some {
        tagged(magic_strategy(data), 6)
    } else {
        tagged(brute_force(data, BRUTE_FORCE_START as nat), 7)
    }
}

/// Decodes `data[k..]` with a size prefix read from the data.
fn decode_at(data: &[u8], k: usize) -> (r: Option<Vec<u8>>)
    requires
        k <= data@.len(),
    ensures
        r is None ==> decoded_from(data@, k as int) is None,
        r matches Some(v) ==> decoded_from(data@, k as int) == Some(v@),
{
    lz4_decompress(&data[k..data.len()], None)
}

/// Finds the first offset below the scan window where the magic number starts.
fn find_magic(data: &[u8]) -> (r: Option<usize>)
    ensures
        r matches Some(i) ==> first_magic(data@, 0) == Some(i as nat) && magic_at(data@, i as int),
        r is None ==> first_magic(data@, 0) is None,
{
    let len = data.len();
    let end = if len < SCAN_WINDOW {
        len
    } else {
        SCAN_WINDOW
    };
    let mut i: usize = 0;
    while i < end
        invariant
            len == data@.len(),
            end == scan_end(data@),
            i <= end,
            first_magic(data@, 0) == first_magic(data@, i as nat),
        decreases end - i,
    {
        if i + 4 <= len && data[i] == 0x04u8 && data[i + 1] == 0x22u8 && data[i + 2] == 0x4Du8
            && data[i + 3] == 0x18u8 {
            return Some(i);
        }
        i = i + 1;
    }
    None
}

/// Tries every offset from `BRUTE_FORCE_START` up to the scan window.
fn brute_force_search(data: &[u8]) -> (r: Option<Vec<u8>>)
    ensures
        r is None ==> brute_force(data@, BRUTE_FORCE_START as nat) is None,
        r matches Some(v) ==> brute_force(data@, BRUTE_FORCE_START as nat) == Some(v@),
{
    let len = data.len();
    let end = if len < SCAN_WINDOW {
        len
    } else {
        SCAN_WINDOW
    };
    let mut i: usize = BRUTE_FORCE_START;
    if i >= end {
        return None;
    }
    while i < end
        invariant
            len == data@.len(),
            end == scan_end(data@),
            BRUTE_FORCE_START <= i <= end,
            brute_force(data@, BRUTE_FORCE_START as nat) == brute_force(data@, i as nat),
        decreases end - i,
    {
        let attempt = decode_at(data, i);
        if attempt.is_some() {
            return attempt;
        }
        i = i + 1;
    }
    None
}

impl LZ4MessagePackProcessor {
    /// Runs the decompression waterfall on a payload.
    ///
    /// An empty payload succeeds at once with no output. Otherwise the
    /// strategies are tried in their fixed order and the first decoding is
    /// returned with its strategy number; `None` when all fail.
    pub fn decompress_data(data: &[u8], uncompressed_size: usize) -> (r: Option<(Vec<u8>, usize)>)
        ensures
            r is None ==> decompression_search(data@, uncompressed_size as nat) is None,
            r matches Some((v, id)) ==> decompression_search(data@, uncompressed_size as nat)
                == Some((v@, id as nat)),
    {
        let n = data.len();
        if n == 0 {
            return Some((Vec::new(), EMPTY_PAYLOAD));
        }
        let base = if uncompressed_size > 0 {
            uncompressed_size
        } else {
            n
        };
        let bound: usize = if base > MAX_OUTPUT_BOUND / BOUND_FACTOR {
            MAX_OUTPUT_BOUND
        } else {
            base * BOUND_FACTOR
        };
        assert(bound == output_bound(uncompressed_size as nat, n as nat));
        if let Some(v) = lz4_decompress(data, Some(bound as i32)) {
            return Some((v, 1));
        }
        if let Some(v) = lz4_decompress(data, None) {
            return Some((v, 2));
        }
        proof {
            assert(data@.subrange(0, n as int) == data@);
        }
        if n > 1 {
            if let Some(v) = decode_at(data, 1) {
                return Some((v, 3));
            }
        }
        if n > 2 {
            if let Some(v) = decode_at(data, 2) {
                return Some((v, 4));
            }
        }
        if n > 4 {
            if let Some(v) = decode_at(data, 4) {
                return Some((v, 5));
            }
        }
        if let Some(i) = find_magic(data) {
            if let Some(v) = decode_at(data, i) {
                return Some((v, 6));
            }
        }
        match brute_force_search(data) {
            Some(v) => Some((v, 7)),
            None => None,
        }
    }
}

/// An empty payload needs no strategy: it decodes to no bytes, whatever
/// the size hint.
pub proof fn lemma_empty_payload(hint: nat)
    ensures
        decompression_search(Seq::empty(), hint) == Some((Seq::<u8>::empty(), EMPTY_PAYLOAD as nat)),
{
}

} // verus!
