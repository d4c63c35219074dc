use vstd::prelude::*;

use crate::db::types::{Address, B256};

verus! {

/// The first 12 bytes of the topic are zero.
pub open spec fn is_padded(topic: B256) -> bool {
    forall|i: int| 0 <= i < 12 ==> topic@[i] == 0
}

/// The topic is `a`, padded to 32 bytes with 12 zero bytes in front.
pub open spec fn topic_names(topic: B256, a: Address) -> bool {
    is_padded(topic) && a@ == topic@.subrange(12, 32)
}

/// Reads a topic as an address: the last 20 bytes of a topic whose first 12
/// bytes are zero. No other topic is an address.
pub fn topic_as_address(topic: &B256) -> (r: Option<Address>)
    ensures
        r is Some <==> is_padded(*topic),
        r matches Some(a) ==> topic_names(*topic, a),
{
    let mut i: usize = 0;
    while i < 12
        invariant
            0 <= i <= 12,
            forall|j: int| 0 <= j < i ==> topic@[j] == 0,
        decreases 12 - i,
    {
        if topic.0[i] != 0 {
            assert(topic@[i as int] != 0);
            return None;
        }
        i += 1;
    }
    let mut out = [0u8; 20];
    let mut k: usize = 0;
    while k < 20
        invariant
            0 <= k <= 20,
            forall|j: int| 0 <= j < k ==> out@[j] == topic@[j + 12],
        decreases 20 - k,
    {
        out[k] = topic.0[k + 12];
        k += 1;
    }
    let a = Address(out);
    assert(a@ =~= topic@.subrange(12, 32));
    Some(a)
}

/// Two addresses that one topic names are one address.
pub proof fn lemma_topic_names_one(topic: B256, a: Address, b: Address)
    requires
        topic_names(topic, a),
        topic_names(topic, b),
    ensures
        a == b,
{
    assert(a.0@ =~= b.0@);
    assert(a.0 =~= b.0);
}

} // verus!
