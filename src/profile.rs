//! Statistical summary of bytes that decode neither as values nor as text.
use vstd::prelude::*;

use crate::LZ4MessagePackProcessor;

verus! {

/// Number of most frequent byte values listed in a summary.
pub const TOP_BYTES: usize = 10;

/// Number of leading bytes kept for a hex dump.
pub const DUMP_BYTES: usize = 32;

/// Classification of a byte stream by fixed thresholds.
#[derive(Clone, Copy, Debug, PartialEq, Eq, Structural)]
pub enum ByteClass {
    /// Printable bytes make up more than three quarters.
    MostlyText,
    /// Zero bytes make up more than a third.
    ManyZeros,
    /// Bytes above 127 make up more than half.
    ManyHighBytes,
    /// None of the above.
    GeneralBinary,
}

/// A byte value and how often it occurs.
#[derive(Clone, Copy, Debug, PartialEq, Eq, Structural)]
pub struct ByteCount {
    pub byte: u8,
    pub count: usize,
}

/// The statistics the profiler produces.
pub struct ProfileSummary {
    pub total_bytes: usize,
    pub zero_bytes: usize,
    /// Printable ASCII (32 to 126) plus tab, line feed and carriage return.
    pub text_bytes: usize,
    /// Bytes below 32 other than tab, line feed and carriage return.
    pub control_bytes: usize,
    /// Bytes above 127.
    pub high_bytes: usize,
    /// Occurrences of each byte value, indexed by the value.
    pub histogram: Vec<usize>,
    /// The most frequent byte values, most frequent first, ties by value.
    pub most_common: Vec<ByteCount>,
    /// The first bytes of the stream, at most `DUMP_BYTES`.
    pub first_bytes: Vec<u8>,
    pub class: ByteClass,
}

/// A set of byte values that the profiler counts.
pub enum ByteSet {
    /// The single value.
    Value(u8),
    /// Printable ASCII (32 to 126) plus tab, line feed and carriage return.
    Text,
    /// Bytes below 32 other than tab, line feed and carriage return.
    Control,
    /// Bytes above 127.
    High,
}

pub open spec fn in_set(x: u8, set: ByteSet) -> bool {
    match set {
        ByteSet::Value(v) => x == v,
        ByteSet::Text => (32 <= x <= 126) || x == 9 || x == 10 || x == 13,
        ByteSet::Control => x < 32 && x != 9 && x != 10 && x != 13,
        ByteSet::High => x > 127,
    }
}

/// Number of elements of `s` in `set`.
pub open spec fn count_in(s: Seq<u8>, set: ByteSet) -> nat
    decreases s.len(),
{
    if s.len() == 0 {
        0
    } else {
        count_in(s.drop_last(), set) + if in_set(s.last(), set) {
            1nat
        } else {
            0nat
        }
    }
}

/// Occurrences of the value `b` in `s`.
pub open spec fn occurrences(s: Seq<u8>, b: int) -> nat {
    count_in(s, ByteSet::Value(b as u8))
}

/// `(b1, c1)` comes before `(b2, c2)` in the frequency listing: a higher
/// count first, and among equal counts the smaller byte value.
pub open spec fn ranks_before(b1: u8, c1: nat, b2: u8, c2: nat) -> bool {
    c1 > c2 || (c1 == c2 && b1 < b2)
}

/// `top` lists the `TOP_BYTES` most frequent values of `s` (all of them
/// if fewer occur), in listing order, each with its count.
pub open spec fn is_top_listing(s: Seq<u8>, top: Seq<ByteCount>) -> bool {
    &&& top.len() <= TOP_BYTES
    &&& forall|i: int| 0 <= i < top.len() ==> #[trigger] top[i].count == occurrences(s, top[i].byte as int)
        && top[i].count > 0
    &&& forall|i: int, j: int| 0 <= i < j < top.len() ==> ranks_before(
        #[trigger] top[i].byte,
        top[i].count as nat,
        #[trigger] top[j].byte,
        top[j].count as nat,
    )
    &&& forall|b: u8| occurrences(s, b as int) > 0 ==> (exists|i: int| 0 <= i < top.len() && #[trigger] top[i].byte == b)
        || (top.len() == TOP_BYTES && forall|i: int| 0 <= i < top.len() ==> ranks_before(
        #[trigger] top[i].byte,
        top[i].count as nat,
        b,
        occurrences(s, b as int),
    ))
}

/// The class given by the thresholds, tested in order.
pub open spec fn class_of(total: nat, zeros: nat, text: nat, high: nat) -> ByteClass {
    if text > total * 3 / 4 {
        ByteClass::MostlyText
    } else if zeros > total / 3 {
        ByteClass::ManyZeros
    } else if high > total / 2 {
        ByteClass::ManyHighBytes
    } else {
        ByteClass::GeneralBinary
    }
}

/// `p` is the profile of `s`.
pub open spec fn is_profile_of(s: Seq<u8>, p: ProfileSummary) -> bool {
    &&& p.total_bytes == s.len()
    &&& p.zero_bytes == count_in(s, ByteSet::Value(0))
    &&& p.text_bytes == count_in(s, ByteSet::Text)
    &&& p.control_bytes == count_in(s, ByteSet::Control)
    &&& p.high_bytes == count_in(s, ByteSet::High)
    &&& p.histogram@.len() == 256
    &&& forall|b: int| 0 <= b < 256 ==> #[trigger] p.histogram@[b] == occurrences(s, b)
    &&& is_top_listing(s, p.most_common@)
    &&& p.first_bytes@ == s.subrange(0, if s.len() < DUMP_BYTES { s.len() as int } else { DUMP_BYTES as int })
    &&& p.class == class_of(
        s.len(),
        p.zero_bytes as nat,
        p.text_bytes as nat,
        p.high_bytes as nat,
    )
}

proof fn lemma_count_step(s: Seq<u8>, set: ByteSet, i: int)
    requires
        0 <= i < s.len(),
    ensures
        count_in(s.subrange(0, i + 1), set) == count_in(s.subrange(0, i), set) + if in_set(s[i], set) {
            1nat
        } else {
            0nat
        },
        count_in(s.subrange(0, i), set) <= i,
    decreases i,
{
    assert(s.subrange(0, i + 1).drop_last() == s.subrange(0, i));
    if i > 0 {
        lemma_count_step(s, set, i - 1);
    }
}

/// `b` may be listed after `last` (or first, when nothing is listed yet).
pub open spec fn candidate(hist: Seq<usize>, last: Option<ByteCount>, b: int) -> bool {
    &&& 0 <= b < 256
    &&& hist[b] > 0
    &&& match last {
        Some(l) => ranks_before(l.byte, l.count as nat, b as u8, hist[b] as nat),
        None => true,
    }
}

/// The candidate that comes first in listing order, if any.
fn best_after(hist: &Vec<usize>, last: Option<ByteCount>) -> (r: Option<ByteCount>)
    requires
        hist@.len() == 256,
    ensures
        r matches Some(m) ==> candidate(hist@, last, m.byte as int) && m.count == hist@[m.byte as int]
            && forall|b: int| #[trigger] candidate(hist@, last, b) && b != m.byte ==> ranks_before(
            m.byte,
            m.count as nat,
            b as u8,
            hist@[b] as nat,
        ),
        r is None ==> forall|b: int| !#[trigger] candidate(hist@, last, b),
{
    let mut best: Option<ByteCount> = None;
    let mut j: usize = 0;
    while j < 256
        invariant
            hist@.len() == 256,
            j <= 256,
            best matches Some(m) ==> candidate(hist@, last, m.byte as int) && m.count
                == hist@[m.byte as int] && m.byte < j && forall|b: int|
                0 <= b < j && #[trigger] candidate(hist@, last, b) && b != m.byte ==> ranks_before(
                m.byte,
                m.count as nat,
                b as u8,
                hist@[b] as nat,
            ),
            best is None ==> forall|b: int| 0 <= b < j ==> !#[trigger] candidate(hist@, last, b),
        decreases 256 - j,
    {
        let c = hist[j];
        let is_candidate = c > 0 && match last {
            Some(l) => l.count > c || (l.count == c && l.byte < j as u8),
            None => true,
        };
        if is_candidate {
            let better = match best {
                Some(m) => c > m.count,
                None => true,
            };
            if better {
                best = Some(ByteCount { byte: j as u8, count: c });
            }
        }
        j = j + 1;
    }
    best
}

/// Lists the most frequent values of a histogram in listing order.
fn most_common_bytes(hist: &Vec<usize>, Ghost(s): Ghost<Seq<u8>>) -> (r: Vec<ByteCount>)
    requires
        hist@.len() == 256,
        forall|b: int| 0 <= b < 256 ==> #[trigger] hist@[b] == occurrences(s, b),
    ensures
        is_top_listing(s, r@),
{
    let mut top: Vec<ByteCount> = Vec::new();
    let mut last: Option<ByteCount> = None;
    loop
        invariant
            hist@.len() == 256,
            forall|b: int| 0 <= b < 256 ==> #[trigger] hist@[b] == occurrences(s, b),
            top@.len() <= TOP_BYTES,
            last == if top@.len() == 0 {
                None
            } else {
                Some(top@[top@.len() - 1])
            },
            forall|i: int| 0 <= i < top@.len() ==> #[trigger] top@[i].count == occurrences(s, top@[i].byte as int)
                && top@[i].count > 0,
            forall|i: int, j: int| 0 <= i < j < top@.len() ==> ranks_before(
                #[trigger] top@[i].byte,
                top@[i].count as nat,
                #[trigger] top@[j].byte,
                top@[j].count as nat,
            ),
            forall|b: u8| occurrences(s, b as int) > 0 ==> (exists|i: int| 0 <= i < top@.len() && #[trigger] top@[i].byte == b)
                || (forall|i: int| 0 <= i < top@.len() ==> ranks_before(
                #[trigger] top@[i].byte,
                top@[i].count as nat,
                b,
                occurrences(s, b as int),
            )),
        ensures
            is_top_listing(s, top@),
        decreases TOP_BYTES - top@.len(),
    {
        if top.len() >= TOP_BYTES {
            break;
        }
        match best_after(hist, last) {
            None => {
                proof {
                    assert forall|b: u8| occurrences(s, b as int) > 0 implies (exists|i: int|
                        0 <= i < top@.len() && #[trigger] top@[i].byte == b) by {
                        if !(exists|i: int| 0 <= i < top@.len() && #[trigger] top@[i].byte == b) {
                            assert(candidate(hist@, last, b as int));
                        }
                    }
                }
                break;
            },
            Some(m) => {
                let ghost old_top = top@;
                top.push(m);
                last = Some(m);
                proof {
                    assert forall|b: u8| occurrences(s, b as int) > 0 implies (exists|i: int|
                        0 <= i < top@.len() && #[trigger] top@[i].byte == b) || (forall|i: int|
                        0 <= i < top@.len() ==> ranks_before(
                        #[trigger] top@[i].byte,
                        top@[i].count as nat,
                        b,
                        occurrences(s, b as int),
                    )) by {
                        if exists|i: int| 0 <= i < old_top.len() && #[trigger] old_top[i].byte == b {
                            let i = choose|i: int| 0 <= i < old_top.len() && #[trigger] old_top[i].byte == b;
                            assert(top@[i].byte == b);
                        } else if b == m.byte {
                            assert(top@[old_top.len() as int].byte == b);
                        } else {
                            if old_top.len() > 0 {
                                assert(ranks_before(old_top[old_top.len() - 1].byte, old_top[old_top.len() - 1].count as nat, b, occurrences(s, b as int)));
                            }
                            assert(candidate(hist@, if old_top.len() == 0 { None } else { Some(old_top[old_top.len() - 1]) }, b as int));
                        }
                    }
                }
            },
        }
    }
    top
}

impl LZ4MessagePackProcessor {
    /// Profiles a byte stream: class counts, a histogram, the most frequent
    /// values, the leading bytes and a classification. Empty input gives
    /// all counts zero.
    pub fn summarize_binary_data(data: &[u8]) -> (r: ProfileSummary)
        ensures
            is_profile_of(data@, r),
    {
        let len = data.len();
        let mut zeros: usize = 0;
        let mut text: usize = 0;
        let mut control: usize = 0;
        let mut high: usize = 0;
        let mut hist: Vec<usize> = Vec::new();
        let mut b: usize = 0;
        while b < 256
            invariant
                b <= 256,
                hist@.len() == b,
                forall|k: int| 0 <= k < b ==> #[trigger] hist@[k] == 0,
            decreases 256 - b,
        {
            hist.push(0);
            b = b + 1;
        }
        proof {
            assert forall|k: int| 0 <= k < 256 implies #[trigger] hist@[k] == occurrences(
                data@.subrange(0, 0),
                k,
            ) by {
                assert(data@.subrange(0, 0).len() == 0);
            }
        }
        let mut i: usize = 0;
        while i < len
            invariant
                len == data@.len(),
                i <= len,
                hist@.len() == 256,
                zeros == count_in(data@.subrange(0, i as int), ByteSet::Value(0)),
                text == count_in(data@.subrange(0, i as int), ByteSet::Text),
                control == count_in(data@.subrange(0, i as int), ByteSet::Control),
                high == count_in(data@.subrange(0, i as int), ByteSet::High),
                forall|k: int| 0 <= k < 256 ==> #[trigger] hist@[k] == occurrences(
                    data@.subrange(0, i as int),
                    k,
                ),
            decreases len - i,
        {
            let x = data[i];
            proof {
                lemma_count_step(data@, ByteSet::Value(0), i as int);
                lemma_count_step(data@, ByteSet::Text, i as int);
                lemma_count_step(data@, ByteSet::Control, i as int);
                lemma_count_step(data@, ByteSet::High, i as int);
                lemma_count_step(data@, ByteSet::Value(x), i as int);
            }
            if x == 0 {
                zeros = zeros + 1;
            }
            if (32 <= x && x <= 126) || x == 9 || x == 10 || x == 13 {
                text = text + 1;
            }
            if x < 32 && x != 9 && x != 10 && x != 13 {
                control = control + 1;
            }
            if x > 127 {
                high = high + 1;
            }
            let c = hist[x as usize];
            assert(c == occurrences(data@.subrange(0, i as int), x as int));
            assert(c <= i);
            hist.set(x as usize, c + 1);
            proof {
                assert forall|k: int| 0 <= k < 256 implies #[trigger] hist@[k] == occurrences(
                    data@.subrange(0, i + 1),
                    k,
                ) by {
                    lemma_count_step(data@, ByteSet::Value(k as u8), i as int);
                }
            }
            i = i + 1;
        }
        proof {
            assert(data@.subrange(0, len as int) == data@);
        }
        let most_common = most_common_bytes(&hist, Ghost(data@));
        let dump_len = if len < DUMP_BYTES {
            len
        } else {
            DUMP_BYTES
        };
        let mut first_bytes: Vec<u8> = Vec::new();
        let mut k: usize = 0;
        while k < dump_len
            invariant
                dump_len <= len == data@.len(),
                k <= dump_len,
                first_bytes@ == data@.subrange(0, k as int),
            decreases dump_len - k,
        {
            first_bytes.push(data[k]);
            k = k + 1;
        }
        let three_quarters = len / 4 * 3 + len % 4 * 3 / 4;
        assert(three_quarters == len * 3 / 4) by (nonlinear_arith)
            requires
                three_quarters == len / 4 * 3 + len % 4 * 3 / 4,
        ;
        let class = if text > three_quarters {
            ByteClass::MostlyText
        } else if zeros > len / 3 {
            ByteClass::ManyZeros
        } else if high > len / 2 {
            ByteClass::ManyHighBytes
        } else {
            ByteClass::GeneralBinary
        };
        ProfileSummary {
            total_bytes: len,
            zero_bytes: zeros,
            text_bytes: text,
            control_bytes: control,
            high_bytes: high,
            histogram: hist,
            most_common,
            first_bytes,
            class,
        }
    }
}

/// The profile of an empty stream has every count at zero, an empty
/// listing, no leading bytes and the general class.
pub proof fn lemma_empty_profile(p: ProfileSummary)
    requires
        is_profile_of(Seq::empty(), p),
    ensures
        p.total_bytes == 0,
        p.zero_bytes == 0,
        p.text_bytes == 0,
        p.control_bytes == 0,
        p.high_bytes == 0,
        forall|b: int| 0 <= b < 256 ==> #[trigger] p.histogram@[b] == 0,
        p.most_common@.len() == 0,
        p.first_bytes@.len() == 0,
        p.class == ByteClass::GeneralBinary,
{
    if p.most_common@.len() > 0 {
        assert(p.most_common@[0].count == occurrences(Seq::empty(), p.most_common@[0].byte as int));
    }
}

} // verus!
