//! The broadcast distributor's pure core. One decoded inbound message is
//! encoded once, framed once, and the very same framed bytes are assigned to
//! every registered peer — the originating sender included, since the wire
//! carries no sender identity. Writing the bytes to each peer's stream, and
//! logging the writes that fail, is the surrounding process's loop; which
//! peers received the message is a function of each peer's own write outcome
//! alone.

use vstd::prelude::*;
use vstd::slice::slice_to_vec;

use crate::codec::{spec_encode, Message};
use crate::frame::{encode_frame, spec_frame};
use crate::registry::Registry;

verus! {

/// Encodes a message and wraps it in one frame: the exact bytes every peer is
/// sent. `None` only when the encoding is too long for the frame's 32-bit
/// length prefix.
pub fn frame_message(msg: &Message) -> (r: Option<Vec<u8>>)
    ensures
        r is Some <==> spec_encode(msg@).len() <= u32::MAX,
        r matches Some(f) ==> f@ == spec_frame(spec_encode(msg@)),
{
    let encoded = match msg.encode() {
        Ok(b) => b,
        Err(_) => {
            proof {
                assert(false);
            }
            return None;
        },
    };
    encode_frame(encoded.as_slice())
}

/// One broadcast, planned: every registered peer, in registry order, paired
/// with the identical framed bytes to write to it.
pub fn plan_broadcast<H>(reg: &Registry<H>, msg: &Message) -> (r: Option<Vec<(u64, Vec<u8>)>>)
    ensures
        r is Some <==> spec_encode(msg@).len() <= u32::MAX,
        r matches Some(plan) ==> {
            &&& plan@.len() == reg@.len()
            &&& forall|i: int| 0 <= i < plan@.len() ==> (#[trigger] plan@[i]).0 == reg@[i].0
            &&& forall|i: int|
                0 <= i < plan@.len() ==> (#[trigger] plan@[i]).1@ == spec_frame(
                    spec_encode(msg@),
                )
        },
{
    let frame = match frame_message(msg) {
        Some(f) => f,
        None => {
            return None;
        },
    };
    let n = reg.len();
    let mut plan: Vec<(u64, Vec<u8>)> = Vec::new();
    let mut i: usize = 0;
    while i < n
        invariant
            n == reg@.len(),
            i <= n,
            frame@ == spec_frame(spec_encode(msg@)),
            plan@.len() == i,
            forall|j: int| 0 <= j < i ==> (#[trigger] plan@[j]).0 == reg@[j].0,
            forall|j: int|
                0 <= j < i ==> (#[trigger] plan@[j]).1@ == spec_frame(spec_encode(msg@)),
        decreases n - i,
    {
        let copy = slice_to_vec(frame.as_slice());
        plan.push((reg.key_at(i), copy));
        i += 1;
    }
    Some(plan)
}

/// The peers that received a broadcast, given each peer's own write outcome,
/// in plan order.
pub open spec fn spec_delivered(keys: Seq<u64>, ok: Seq<bool>) -> Seq<u64>
    recommends
        keys.len() == ok.len(),
    decreases keys.len(),
{
    if keys.len() == 0 {
        seq![]
    } else {
        let rest = spec_delivered(keys.drop_last(), ok.drop_last());
        if ok.last() {
            rest.push(keys.last())
        } else {
            rest
        }
    }
}

/// The keys of a broadcast plan, in order.
pub open spec fn spec_plan_keys(plan: Seq<(u64, Vec<u8>)>) -> Seq<u64> {
    plan.map_values(|p: (u64, Vec<u8>)| p.0)
}

/// Collects the peers whose write succeeded. A failed write to one peer is
/// skipped, never aborting the rest of the fan-out.
pub fn delivered_peers(plan: &Vec<(u64, Vec<u8>)>, ok: &Vec<bool>) -> (r: Vec<u64>)
    requires
        plan@.len() == ok@.len(),
    ensures
        r@ == spec_delivered(spec_plan_keys(plan@), ok@),
{
    let n = plan.len();
    let mut r: Vec<u64> = Vec::new();
    let mut i: usize = 0;
    while i < n
        invariant
            n == plan@.len(),
            plan@.len() == ok@.len(),
            i <= n,
            r@ == spec_delivered(spec_plan_keys(plan@.take(i as int)), ok@.take(i as int)),
        decreases n - i,
    {
        if ok[i] {
            r.push(plan[i].0);
        }
        proof {
            let keys_next = spec_plan_keys(plan@.take(i + 1));
            assert(keys_next.drop_last() =~= spec_plan_keys(plan@.take(i as int)));
            assert(ok@.take(i + 1).drop_last() =~= ok@.take(i as int));
            assert(keys_next.last() == plan@[i as int].0);
            assert(ok@.take(i + 1).last() == ok@[i as int]);
        }
        i += 1;
    }
    proof {
        assert(plan@.take(n as int) =~= plan@);
        assert(ok@.take(n as int) =~= ok@);
    }
    r
}

/// Partial failure is isolated: a peer whose own write succeeded received the
/// message, whatever the outcome of the writes to every other peer.
pub proof fn lemma_partial_failure(keys: Seq<u64>, ok: Seq<bool>, i: int)
    requires
        keys.len() == ok.len(),
        0 <= i < keys.len(),
        ok[i],
    ensures
        spec_delivered(keys, ok).contains(keys[i]),
    decreases keys.len(),
{
    if i == keys.len() - 1 {
        let d = spec_delivered(keys, ok);
        assert(d.last() == keys[i]);
        assert(d.contains(keys[i])) by {
            assert(d[d.len() - 1] == keys[i]);
        }
    } else {
        lemma_partial_failure(keys.drop_last(), ok.drop_last(), i);
        let rest = spec_delivered(keys.drop_last(), ok.drop_last());
        let w = choose|w: int| 0 <= w < rest.len() && rest[w] == keys.drop_last()[i];
        assert(keys.drop_last()[i] == keys[i]);
        if ok.last() {
            assert(rest.push(keys.last())[w] == keys[i]);
        }
    }
}

} // verus!
