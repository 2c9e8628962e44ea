//! Best-effort extraction of the complete values in a damaged stream.
use vstd::prelude::*;

use crate::msgpack::{msgpack_prefix, read_msgpack_prefix};
use crate::value::{json_of, DecodedValue, JsonValue};
use crate::LZ4MessagePackProcessor;

verus! {

/// Most values the recovery parser extracts from one stream.
pub const MAX_RECOVERED: usize = 100;

/// One step of the scan at `offset`: the value read there and the bytes it
/// took, when a value is read that fits in what remains.
pub open spec fn step_at(data: Seq<u8>, offset: nat) -> Option<(DecodedValue, nat)> {
    match msgpack_prefix(data.subrange(offset as int, data.len() as int)) {
        Some((v, n)) => if 0 < n && offset + n <= data.len() {
            Some((v, n))
        } else {
            None
        },
        None => None,
    }
}

/// Values recovered from `offset` on with room for `budget` more: read a
/// value and move past it, or skip one byte; stop at the end of the data or
/// when the budget is spent.
pub open spec fn recovered_from(data: Seq<u8>, offset: nat, budget: nat) -> Seq<DecodedValue>
    decreases data.len() - offset,
{
    if offset >= data.len() || budget == 0 {
        Seq::empty()
    } else {
        match step_at(data, offset) {
            Some((v, n)) => seq![v] + recovered_from(data, offset + n, (budget - 1) as nat),
            None => recovered_from(data, offset + 1, budget),
        }
    }
}

/// Number of times the scan's loop condition is evaluated from `offset` on.
pub open spec fn recovery_steps(data: Seq<u8>, offset: nat, budget: nat) -> nat
    decreases data.len() - offset,
{
    if offset >= data.len() || budget == 0 {
        1
    } else {
        match step_at(data, offset) {
            Some((v, n)) => 1 + recovery_steps(data, offset + n, (budget - 1) as nat),
            None => 1 + recovery_steps(data, offset + 1, budget),
        }
    }
}

/// The values the recovery parser extracts from a whole stream.
pub open spec fn recovered(data: Seq<u8>) -> Seq<DecodedValue> {
    recovered_from(data, 0, MAX_RECOVERED as nat)
}

proof fn lemma_recovery_bounds(data: Seq<u8>, offset: nat, budget: nat)
    requires
        offset <= data.len(),
    ensures
        recovery_steps(data, offset, budget) <= data.len() - offset + 1,
        recovered_from(data, offset, budget).len() <= budget,
    decreases data.len() - offset,
{
    if offset < data.len() && budget > 0 {
        match step_at(data, offset) {
            Some((v, n)) => lemma_recovery_bounds(data, offset + n, (budget - 1) as nat),
            None => lemma_recovery_bounds(data, offset + 1, budget),
        }
    }
}

/// The recovery scan ends after at most one step per input byte plus one,
/// and extracts at most `MAX_RECOVERED` values, whatever the input.
pub proof fn lemma_recovery_terminates(data: Seq<u8>)
    ensures
        recovery_steps(data, 0, MAX_RECOVERED as nat) <= data.len() + 1,
        recovered(data).len() <= MAX_RECOVERED,
{
    lemma_recovery_bounds(data, 0, MAX_RECOVERED as nat);
}

impl LZ4MessagePackProcessor {
    /// Extracts as many complete values as possible from a stream that does
    /// not decode as a whole, each in its JSON form.
    pub fn parse_partial_messagepack(data: &[u8]) -> (r: Vec<JsonValue>)
        ensures
            r@.len() == recovered(data@).len(),
            forall|i: int| 0 <= i < r@.len() ==> json_of(recovered(data@)[i], #[trigger] r@[i]),
    {
        let len = data.len();
        let mut out: Vec<JsonValue> = Vec::new();
        let ghost mut vals: Seq<DecodedValue> = Seq::empty();
        let mut offset: usize = 0;
        while offset < len && out.len() < MAX_RECOVERED
            invariant
                len == data@.len(),
                offset <= len,
                out@.len() == vals.len(),
                vals.len() <= MAX_RECOVERED,
                forall|i: int| 0 <= i < out@.len() ==> json_of(vals[i], #[trigger] out@[i]),
                vals + recovered_from(data@, offset as nat, (MAX_RECOVERED - vals.len()) as nat)
                    == recovered(data@),
            decreases len - offset,
        {
            let rest = &data[offset..len];
            match read_msgpack_prefix(rest) {
                Some((v, n)) => {
                    proof {
                        assert(step_at(data@, offset as nat) == Some((v, n as nat)));
                        assert(vals.push(v) + recovered_from(
                            data@,
                            (offset + n) as nat,
                            (MAX_RECOVERED - vals.len() - 1) as nat,
                        ) == vals + recovered_from(
                            data@,
                            offset as nat,
                            (MAX_RECOVERED - vals.len()) as nat,
                        ));
                        vals = vals.push(v);
                    }
                    out.push(Self::convert_value_to_json(&v));
                    offset = offset + n;
                },
                None => {
                    proof {
                        assert(step_at(data@, offset as nat) is None);
                    }
                    offset = offset + 1;
                },
            }
        }
        proof {
            assert(recovered_from(data@, offset as nat, (MAX_RECOVERED - vals.len()) as nat)
                == Seq::<DecodedValue>::empty());
            assert(vals + Seq::<DecodedValue>::empty() == vals);
        }
        out
    }
}

} // verus!
