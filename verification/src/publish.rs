//! Building the messages the scanner publishes.
//!
//! Each matched sighting yields one message: its topic is the configured
//! prefix, a slash, the canonical identifier, and `/last_seen`; its
//! payload is the Unix timestamp in decimal.

use vstd::prelude::*;

verus! {

/// The ten bytes `/last_seen`.
pub open spec fn last_seen_suffix() -> Seq<u8> {
    seq![47u8, 108, 97, 115, 116, 95, 115, 101, 101, 110]
}

/// The topic a sighting of canonical identifier `id` is published on,
/// under the configured `prefix`.
pub open spec fn topic_of(prefix: Seq<u8>, id: Seq<u8>) -> Seq<u8> {
    prefix + seq![47u8] + id + last_seen_suffix()
}

/// The decimal digits of `n`, most significant first, without leading
/// zeros (a single `0` for zero).
pub open spec fn decimal_digits(n: nat) -> Seq<u8>
    decreases n,
{
    if n < 10 {
        seq![(48 + n) as u8]
    } else {
        decimal_digits(n / 10) + seq![(48 + n % 10) as u8]
    }
}

/// One planned publish: a topic and a payload.
pub struct OutboundMessage {
    pub topic: Vec<u8>,
    pub payload: Vec<u8>,
}

/// The mathematical shape of an outbound message.
pub ghost struct MessageModel {
    pub topic: Seq<u8>,
    pub payload: Seq<u8>,
}

impl DeepView for OutboundMessage {
    type V = MessageModel;

    open spec fn deep_view(&self) -> MessageModel {
        MessageModel { topic: self.topic@, payload: self.payload@ }
    }
}

/// Appends every byte of `src` to `out`.
pub(crate) fn append_bytes(out: &mut Vec<u8>, src: &Vec<u8>)
    ensures
        final(out)@ == old(out)@ + src@,
{
    let mut i: usize = 0;
    while i < src.len()
        invariant
            i <= src.len(),
            out@ == old(out)@ + src@.take(i as int),
        decreases src.len() - i,
    {
        out.push(src[i]);
        proof {
            assert(old(out)@ + src@.take(i as int) + seq![src@[i as int]] =~= old(out)@
                + src@.take(i as int + 1));
        }
        i = i + 1;
    }
    proof {
        assert(src@.take(src.len() as int) =~= src@);
    }
}

/// Builds the topic `{prefix}/{id}/last_seen`.
pub fn build_topic(prefix: &Vec<u8>, id: &Vec<u8>) -> (topic: Vec<u8>)
    ensures
        topic@ == topic_of(prefix@, id@),
{
    let mut topic: Vec<u8> = Vec::new();
    append_bytes(&mut topic, prefix);
    topic.push(47);
    append_bytes(&mut topic, id);
    topic.push(47);
    topic.push(108);
    topic.push(97);
    topic.push(115);
    topic.push(116);
    topic.push(95);
    topic.push(115);
    topic.push(101);
    topic.push(101);
    topic.push(110);
    proof {
        assert(topic@ =~= topic_of(prefix@, id@));
    }
    topic
}

/// Appends the decimal digits of `n` to `out`.
fn push_decimal(n: u64, out: &mut Vec<u8>)
    ensures
        final(out)@ == old(out)@ + decimal_digits(n as nat),
    decreases n,
{
    if n >= 10 {
        push_decimal(n / 10, out);
    }
    out.push(48 + (n % 10) as u8);
    proof {
        if n < 10 {
            assert(out@ =~= old(out)@ + decimal_digits(n as nat));
        } else {
            assert(old(out)@ + decimal_digits((n / 10) as nat) + seq![(48 + n % 10) as u8]
                =~= old(out)@ + decimal_digits(n as nat));
        }
    }
}

/// The decimal representation of a Unix timestamp, as the payload bytes.
pub fn decimal_bytes(n: u64) -> (out: Vec<u8>)
    ensures
        out@ == decimal_digits(n as nat),
{
    let mut out: Vec<u8> = Vec::new();
    push_decimal(n, &mut out);
    proof {
        assert(Seq::<u8>::empty() + decimal_digits(n as nat) =~= decimal_digits(n as nat));
    }
    out
}

/// Topics are injective in the identifier: under one prefix, two
/// identifiers publish on the same topic only when they are equal.
pub proof fn lemma_topic_injective(prefix: Seq<u8>, a: Seq<u8>, b: Seq<u8>)
    requires
        topic_of(prefix, a) == topic_of(prefix, b),
    ensures
        a == b,
{
    assert(topic_of(prefix, a).len() == prefix.len() + 1 + a.len() + 10);
    assert(topic_of(prefix, b).len() == prefix.len() + 1 + b.len() + 10);
    assert(a.len() == b.len());
    assert forall|i: int| 0 <= i < a.len() implies a[i] == b[i] by {
        assert(topic_of(prefix, a)[prefix.len() + 1 + i] == a[i]);
        assert(topic_of(prefix, b)[prefix.len() + 1 + i] == b[i]);
    }
    assert(a =~= b);
}

} // verus!
