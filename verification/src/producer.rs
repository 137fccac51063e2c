//! The production side of the broker boundary: the records to publish for a
//! batch of messages, and the report over the delivery acknowledgments that
//! come back. The broker client that performs the sends and awaits every
//! acknowledgment stays outside.

use vstd::prelude::*;
use vstd::string::StringExecFns;

use crate::codec::{enc_message, encode_message};
use crate::messages::Message;

verus! {

/// One record ready to publish: the encoded envelope and its partition key.
pub struct OutboundRecord {
    pub payload: String,
    pub key: String,
}

/// The partition key of a message: the literal `Key ` followed by its
/// identifier.
pub open spec fn partition_key(uuid: Seq<char>) -> Seq<char> {
    "Key "@ + uuid
}

/// Builds the record that publishes `msg`.
pub fn make_record(msg: &Message) -> (r: OutboundRecord)
    ensures
        r.payload@ == enc_message(msg@),
        r.key@ == partition_key(msg@.uuid),
{
    let payload = encode_message(msg);
    let mut key = "Key ".to_owned();
    key.append(msg.uuid().as_str());
    OutboundRecord { payload, key }
}

/// Builds the records that publish a whole batch, in order.
pub fn prepare_batch(messages: &Vec<Message>) -> (r: Vec<OutboundRecord>)
    ensures
        r@.len() == messages@.len(),
        forall|i: int|
            0 <= i < r@.len() ==> #[trigger] r@[i].payload@ == enc_message(messages@[i]@)
                && r@[i].key@ == partition_key(messages@[i]@.uuid),
{
    let n = messages.len();
    let mut out: Vec<OutboundRecord> = Vec::new();
    let mut i: usize = 0;
    while i < n
        invariant
            i <= n,
            n == messages@.len(),
            out@.len() == i,
            forall|j: int|
                0 <= j < i ==> #[trigger] out@[j].payload@ == enc_message(messages@[j]@)
                    && out@[j].key@ == partition_key(messages@[j]@.uuid),
        decreases n - i,
    {
        out.push(make_record(&messages[i]));
        i += 1;
    }
    out
}

/// The acknowledgment observed for one issued send.
pub enum DeliveryOutcome {
    /// The broker confirmed the record.
    Delivered,
    /// The broker reported a failure; its description is carried here.
    Failed(String),
}

/// How many of the outcomes are confirmations.
pub open spec fn count_delivered(s: Seq<DeliveryOutcome>) -> int
    decreases s.len(),
{
    if s.len() == 0 {
        0
    } else {
        count_delivered(s.drop_last()) + (match s.last() {
            DeliveryOutcome::Delivered => 1int,
            DeliveryOutcome::Failed(_) => 0int,
        })
    }
}

/// The caller-visible report of a bulk send: every acknowledgment was
/// observed, and this is how they divided.
pub struct BulkSendReport {
    pub delivered: usize,
    pub failed: usize,
}

/// Aggregates the delivery acknowledgments of a batch, one per issued send,
/// into a report. The call that gathers `outcomes` returns only after every
/// acknowledgment — success or failure — has been observed, so the report
/// always accounts for the whole batch.
pub fn summarize_deliveries(outcomes: &Vec<DeliveryOutcome>) -> (r: BulkSendReport)
    ensures
        r.delivered == count_delivered(outcomes@),
        r.delivered + r.failed == outcomes@.len(),
{
    let n = outcomes.len();
    let mut delivered: usize = 0;
    let mut i: usize = 0;
    proof {
        assert(outcomes@.take(0) =~= Seq::<DeliveryOutcome>::empty());
    }
    while i < n
        invariant
            i <= n,
            n == outcomes@.len(),
            delivered == count_delivered(outcomes@.take(i as int)),
            delivered <= i,
        decreases n - i,
    {
        match outcomes[i] {
            DeliveryOutcome::Delivered => {
                delivered += 1;
            },
            DeliveryOutcome::Failed(_) => {},
        }
        proof {
            assert(outcomes@.take(i + 1).drop_last() =~= outcomes@.take(i as int));
            assert(outcomes@.take(i + 1).last() == outcomes@[i as int]);
        }
        i += 1;
    }
    proof {
        assert(outcomes@.take(n as int) =~= outcomes@);
    }
    BulkSendReport { delivered, failed: n - delivered }
}

} // verus!
