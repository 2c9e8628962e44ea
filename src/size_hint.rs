//! Best-effort estimate of a block's uncompressed length from its header.
use vstd::prelude::*;

use crate::LZ4MessagePackProcessor;

verus! {

/// MessagePack marker of an unsigned 8-bit integer; the usual header lead byte.
pub const MARKER_U8: u8 = 204;

/// MessagePack marker of an unsigned 16-bit integer.
pub const MARKER_U16: u8 = 205;

/// MessagePack marker of an unsigned 32-bit integer.
pub const MARKER_U32: u8 = 206;

/// Estimate returned for the one header shape `[204, 12, 229, 205, ..]`
/// seen in a captured sample; it is not derived from the header bytes.
pub const KNOWN_SAMPLE_SIZE: usize = 3941;

/// Upper bound (exclusive) accepted for a little-endian 16-bit size.
pub const LE16_LIMIT: usize = 100000;

/// Upper bound (exclusive) accepted for a little-endian 32-bit size.
pub const LE32_LIMIT: usize = 1000000;

/// Assumed compression ratio used when no size can be read from the header.
pub const FALLBACK_RATIO: usize = 4;

/// Big-endian value of `h[start .. start + n]`.
pub open spec fn be(h: Seq<u8>, start: int, n: nat) -> nat
    decreases n,
{
    if n == 0 {
        0
    } else {
        be(h, start, (n - 1) as nat) * 256 + h[start + n - 1] as nat
    }
}

/// Little-endian value of `h[start .. start + n]`.
pub open spec fn le(h: Seq<u8>, start: int, n: nat) -> nat
    decreases n,
{
    if n == 0 {
        0
    } else {
        h[start] as nat + 256 * le(h, start + 1, (n - 1) as nat)
    }
}

/// `header length × 4`, saturated at the largest `usize`.
pub open spec fn fallback_size(h: Seq<u8>) -> nat {
    if h.len() * FALLBACK_RATIO <= usize::MAX {
        (h.len() * FALLBACK_RATIO) as nat
    } else {
        usize::MAX as nat
    }
}

/// True for the one header shape of the captured sample.
pub open spec fn is_known_sample(h: Seq<u8>) -> bool {
    h.len() >= 4 && h[0] == MARKER_U8 && h[1] == 12 && h[2] == 229 && h[3] == MARKER_U16
}

/// Size read from a `204`-led header longer than five bytes: a 16/32-bit
/// marker in the second byte, else a plausible little-endian value, else the
/// fallback estimate.
pub open spec fn long_u8_header_size(h: Seq<u8>) -> nat {
    if h[1] == MARKER_U16 {
        be(h, 2, 2)
    } else if h[1] == MARKER_U32 {
        be(h, 2, 4)
    } else if 0 < le(h, 1, 2) < LE16_LIMIT {
        le(h, 1, 2)
    } else if 0 < le(h, 1, 4) < LE32_LIMIT {
        le(h, 1, 4)
    } else {
        fallback_size(h)
    }
}

/// The size-hint decision table, evaluated in order; the first rule that
/// applies gives the estimate.
pub open spec fn size_hint(h: Seq<u8>) -> nat {
    if h.len() >= 3 && h[0] == MARKER_U16 {
        be(h, 1, 2)
    } else if h.len() >= 5 && h[0] == MARKER_U32 {
        be(h, 1, 4)
    } else if is_known_sample(h) {
        KNOWN_SAMPLE_SIZE as nat
    } else if h.len() >= 1 && h[0] == MARKER_U8 {
        if 2 <= h.len() <= 5 {
            be(h, 1, (h.len() - 1) as nat)
        } else if h.len() > 5 {
            long_u8_header_size(h)
        } else {
            fallback_size(h)
        }
    } else {
        fallback_size(h)
    }
}

proof fn lemma_be_bound(h: Seq<u8>, start: int, n: nat)
    requires
        0 <= start,
        start + n <= h.len(),
    ensures
        be(h, start, n) < pow256(n),
    decreases n,
{
    if n > 0 {
        lemma_be_bound(h, start, (n - 1) as nat);
        assert(be(h, start, n) <= (pow256((n - 1) as nat) - 1) * 256 + 255) by (nonlinear_arith)
            requires
                be(h, start, (n - 1) as nat) < pow256((n - 1) as nat),
                be(h, start, n) == be(h, start, (n - 1) as nat) * 256 + h[start + n - 1] as nat,
                h[start + n - 1] <= 255,
        ;
    }
}

/// `256^n`.
pub open spec fn pow256(n: nat) -> nat
    decreases n,
{
    if n == 0 {
        1
    } else {
        256 * pow256((n - 1) as nat)
    }
}

/// Big-endian value of `n <= 4` header bytes starting at `start`.
fn read_be(h: &[u8], start: usize, n: usize) -> (r: usize)
    requires
        n <= 4,
        start + n <= h@.len(),
    ensures
        r == be(h@, start as int, n as nat),
{
    let len = h.len();
    let mut acc: usize = 0;
    let mut k: usize = 0;
    while k < n
        invariant
            len == h@.len(),
            n <= 4,
            k <= n,
            start + n <= h@.len(),
            acc == be(h@, start as int, k as nat),
        decreases n - k,
    {
        proof {
            lemma_be_bound(h@, start as int, k as nat);
            assert(pow256(k as nat) <= pow256(3)) by {
                reveal_with_fuel(pow256, 4);
            }
            assert(pow256(3) == 16777216) by {
                reveal_with_fuel(pow256, 4);
            }
        }
        acc = acc * 256 + h[start + k] as usize;
        k = k + 1;
    }
    acc
}

impl LZ4MessagePackProcessor {
    /// Estimates the uncompressed length announced by a block header.
    ///
    /// The estimate is advisory only; the function is total and never fails.
    pub fn get_uncompressed_size(header: &[u8]) -> (r: usize)
        ensures
            r == size_hint(header@),
    {
        let len = header.len();
        let fallback: usize = if len <= usize::MAX / FALLBACK_RATIO {
            len * FALLBACK_RATIO
        } else {
            usize::MAX
        };
        if len >= 3 && header[0] == MARKER_U16 {
            return read_be(header, 1, 2);
        }
        if len >= 5 && header[0] == MARKER_U32 {
            return read_be(header, 1, 4);
        }
        if len >= 4 && header[0] == MARKER_U8 && header[1] == 12 && header[2] == 229
            && header[3] == MARKER_U16 {
            return KNOWN_SAMPLE_SIZE;
        }
        if len >= 1 && header[0] == MARKER_U8 {
            if 2 <= len && len <= 5 {
                return read_be(header, 1, len - 1);
            }
            if len > 5 {
                if header[1] == MARKER_U16 {
                    return read_be(header, 2, 2);
                }
                if header[1] == MARKER_U32 {
                    return read_be(header, 2, 4);
                }
                let le16 = header[1] as usize + 256 * header[2] as usize;
                proof {
                    reveal_with_fuel(le, 3);
                }
                if 0 < le16 && le16 < LE16_LIMIT {
                    return le16;
                }
                let le32 = header[1] as usize + 256 * (header[2] as usize + 256 * (
                header[3] as usize + 256 * header[4] as usize));
                proof {
                    reveal_with_fuel(le, 5);
                }
                if 0 < le32 && le32 < LE32_LIMIT {
                    return le32;
                }
            }
        }
        fallback
    }
}

/// Number of big-endian bytes `size_header` uses for `n`: the fewest of 1
/// to 3 that hold it, else 4 (keeping only the low 32 bits).
pub open spec fn header_width(n: nat) -> nat {
    if n < 0x100 {
        1
    } else if n < 0x10000 {
        2
    } else if n < 0x1000000 {
        3
    } else {
        4
    }
}

/// The header written for an uncompressed length `n`: the `204` lead byte,
/// then `n` (modulo 2^32) in `header_width(n)` big-endian bytes.
pub open spec fn is_size_header(n: nat, h: Seq<u8>) -> bool {
    &&& h.len() == 1 + header_width(n)
    &&& h[0] == MARKER_U8
    &&& be(h, 1, header_width(n)) == n % 0x100000000
}

/// Writes the header announcing an uncompressed length.
pub fn size_header(size: usize) -> (r: Vec<u8>)
    ensures
        is_size_header(size as nat, r@),
{
    let width: usize = if size < 0x100 {
        1
    } else if size < 0x10000 {
        2
    } else if size < 0x1000000 {
        3
    } else {
        4
    };
    let wide = size as u64;
    let low: usize = if wide < 0x100000000u64 {
        size
    } else {
        (wide % 0x100000000u64) as usize
    };
    assert(low == size as nat % 0x100000000);
    let mut out: Vec<u8> = Vec::new();
    out.push(MARKER_U8);
    let mut k: usize = 0;
    proof {
        let e = be(out@, 1, k as nat);
        let m = pow256((width - k) as nat);
        assert(m == pow256(width as nat));
        assert(e == 0);
        lemma_pow256_pos((width - k) as nat);
        assert(e * m + (low as nat) % m == (low as nat) % m) by (nonlinear_arith)
            requires
                e == 0,
                m > 0,
        ;
    }
    while k < width
        invariant
            1 <= width <= 4,
            width == header_width(size as nat),
            low == size as nat % 0x100000000,
            k <= width,
            out@.len() == 1 + k,
            out@[0] == MARKER_U8,
            be(out@, 1, k as nat) * pow256((width - k) as nat) + (low as nat) % pow256(
                (width - k) as nat,
            ) == (low as nat) % pow256(width as nat),
        decreases width - k,
    {
        let shift = width - k - 1;
        let ghost p = pow256((width - k) as nat);
        let ghost q = pow256(shift as nat);
        let divisor: usize = if shift == 0 {
            1
        } else if shift == 1 {
            0x100
        } else if shift == 2 {
            0x10000
        } else {
            0x1000000
        };
        assert(divisor == q) by {
            reveal_with_fuel(pow256, 4);
        }
        assert(p == 256 * q);
        let digit = (low / divisor) % 256;
        let ghost before = out@;
        out.push(digit as u8);
        proof {
            assert(be(out@, 1, (k + 1) as nat) == be(before, 1, k as nat) * 256 + digit) by {
                assert(out@[1 + k] == digit as u8);
                lemma_be_ext(out@, before, 1, k as nat);
            }
            lemma_digit_split(low as nat, q, be(before, 1, k as nat), pow256(width as nat));
        }
        k = k + 1;
    }
    proof {
        assert((low as nat) % 1 == 0);
        lemma_low_fits(size as nat, width as nat);
        let e = be(out@, 1, width as nat);
        let p0 = pow256(0);
        assert(p0 == 1);
        assert(e * p0 == e) by (nonlinear_arith)
            requires
                p0 == 1,
        ;
    }
    out
}

proof fn lemma_pow256_pos(n: nat)
    ensures
        pow256(n) > 0,
    decreases n,
{
    if n > 0 {
        lemma_pow256_pos((n - 1) as nat);
    }
}

proof fn lemma_be_ext(a: Seq<u8>, b: Seq<u8>, start: int, k: nat)
    requires
        forall|i: int| start <= i < start + k ==> a[i] == b[i],
    ensures
        be(a, start, k) == be(b, start, k),
    decreases k,
{
    if k > 0 {
        lemma_be_ext(a, b, start, (k - 1) as nat);
    }
}

proof fn lemma_digit_split(low: nat, q: nat, acc: nat, total: nat)
    requires
        q > 0,
        acc * (256 * q) + low % (256 * q) == low % total,
    ensures
        (acc * 256 + (low / q) % 256) * q + low % q == low % total,
{
    assert(low % (256 * q) == ((low / q) % 256) * q + low % q) by (nonlinear_arith)
        requires
            q > 0,
    {
        vstd::arithmetic::div_mod::lemma_breakdown(low as int, q as int, 256);
    }
    assert((acc * 256 + (low / q) % 256) * q == acc * (256 * q) + ((low / q) % 256) * q) by (nonlinear_arith);
}

proof fn lemma_low_fits(n: nat, w: nat)
    requires
        w == header_width(n),
    ensures
        (n % 0x100000000) % pow256(w) == n % 0x100000000,
{
    reveal_with_fuel(pow256, 5);
    if w < 4 {
        assert(n < pow256(w));
        assert(n % 0x100000000 == n);
    }
    vstd::arithmetic::div_mod::lemma_small_mod((n % 0x100000000) as nat, pow256(w));
}

/// A header written for a length below 2^32 gives that length back as its
/// size hint, unless it happens to match the known-sample pattern, whose
/// fixed estimate takes precedence.
pub proof fn lemma_size_header_round_trip(n: nat, h: Seq<u8>)
    requires
        n < 0x100000000,
        is_size_header(n, h),
        !is_known_sample(h),
    ensures
        size_hint(h) == n,
{
    assert(n % 0x100000000 == n);
}

} // verus!
