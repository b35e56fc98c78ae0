//! One scan cycle's publish plan.
//!
//! A cycle hands this module, as plain values, what the radio reported:
//! for each adapter, the peripherals it saw, each with its raw
//! identifier, its advertised local name when the property fetch
//! succeeded, and whether that fetch succeeded at all. The plan is the
//! exact sequence of messages to publish: one per peripheral whose
//! properties were read and whose canonical identifier is on the
//! allow-list, in discovery order.

use vstd::prelude::*;

use crate::allow_list::AllowList;
use crate::normalize::canonical;
use crate::normalize::normalize;
use crate::publish::append_bytes;
use crate::publish::build_topic;
use crate::publish::decimal_bytes;
use crate::publish::decimal_digits;
use crate::publish::lemma_topic_injective;
use crate::publish::topic_of;
use crate::publish::MessageModel;
use crate::publish::OutboundMessage;

verus! {

/// What one scan observed of one peripheral.
pub struct Sighting {
    /// The raw platform identifier, before normalization.
    pub raw_id: Vec<u8>,
    /// The advertised local name, when the properties carried one.
    pub local_name: Option<Vec<u8>>,
    /// Whether the peripheral's property fetch succeeded. A failed
    /// fetch isolates this peripheral: it is skipped, not fatal.
    pub props_ok: bool,
}

/// The mathematical shape of a sighting.
pub ghost struct SightingModel {
    pub raw_id: Seq<u8>,
    pub local_name: Option<Seq<u8>>,
    pub props_ok: bool,
}

impl DeepView for Sighting {
    type V = SightingModel;

    open spec fn deep_view(&self) -> SightingModel {
        SightingModel {
            raw_id: self.raw_id@,
            local_name: match self.local_name {
                Option::Some(ref n) => Option::Some(n@),
                Option::None => Option::None,
            },
            props_ok: self.props_ok,
        }
    }
}

impl Sighting {
    /// The advertised local name, or `<unknown>` when none was read:
    /// the label a log line shows for this peripheral.
    pub fn display_name(&self) -> (r: Vec<u8>)
        ensures
            match self.deep_view().local_name {
                Option::Some(n) => r@ == n,
                Option::None => r@ == seq![60u8, 117, 110, 107, 110, 111, 119, 110, 62],
            },
    {
        let mut out: Vec<u8> = Vec::new();
        match &self.local_name {
            Option::Some(n) => {
                append_bytes(&mut out, n);
                proof {
                    assert(out@ =~= n@);
                }
            },
            Option::None => {
                out.push(60);
                out.push(117);
                out.push(110);
                out.push(107);
                out.push(110);
                out.push(111);
                out.push(119);
                out.push(110);
                out.push(62);
                proof {
                    assert(out@ =~= seq![60u8, 117, 110, 107, 110, 111, 119, 110, 62]);
                }
            },
        }
        out
    }
}

/// What one scan observed on one adapter.
pub struct AdapterReport {
    /// A label naming the adapter, for observability only.
    pub adapter: Vec<u8>,
    /// The peripherals the dwell window accumulated, in discovery order.
    pub sightings: Vec<Sighting>,
}

/// The mathematical shape of an adapter's report.
pub ghost struct AdapterReportModel {
    pub adapter: Seq<u8>,
    pub sightings: Seq<SightingModel>,
}

impl DeepView for AdapterReport {
    type V = AdapterReportModel;

    open spec fn deep_view(&self) -> AdapterReportModel {
        AdapterReportModel { adapter: self.adapter@, sightings: self.sightings.deep_view() }
    }
}

/// Whether a sighting is published: its properties were read and its
/// canonical identifier is on the allow-list.
pub open spec fn publishes(s: SightingModel, allow: Seq<Seq<u8>>) -> bool {
    s.props_ok && allow.contains(canonical(s.raw_id))
}

/// The message one matched sighting of canonical identifier `id` yields.
pub open spec fn message_for(prefix: Seq<u8>, id: Seq<u8>, timestamp: u64) -> MessageModel {
    MessageModel { topic: topic_of(prefix, id), payload: decimal_digits(timestamp as nat) }
}

/// The messages one adapter's sightings yield, in discovery order.
pub open spec fn sighting_messages(
    sightings: Seq<SightingModel>,
    allow: Seq<Seq<u8>>,
    prefix: Seq<u8>,
    timestamp: u64,
) -> Seq<MessageModel>
    decreases sightings.len(),
{
    if sightings.len() == 0 {
        Seq::empty()
    } else {
        let rest = sighting_messages(sightings.skip(1), allow, prefix, timestamp);
        if publishes(sightings[0], allow) {
            seq![message_for(prefix, canonical(sightings[0].raw_id), timestamp)] + rest
        } else {
            rest
        }
    }
}

/// The full plan of one cycle: each adapter's messages, adapters in
/// enumeration order.
pub open spec fn cycle_messages(
    reports: Seq<AdapterReportModel>,
    allow: Seq<Seq<u8>>,
    prefix: Seq<u8>,
    timestamp: u64,
) -> Seq<MessageModel>
    decreases reports.len(),
{
    if reports.len() == 0 {
        Seq::empty()
    } else {
        sighting_messages(reports[0].sightings, allow, prefix, timestamp) + cycle_messages(
            reports.skip(1),
            allow,
            prefix,
            timestamp,
        )
    }
}

/// Plans one cycle's publishes: for every peripheral whose properties
/// were read and whose canonical identifier is allow-listed, one message
/// on `{prefix}/{canonical id}/last_seen` carrying `timestamp` in
/// decimal. A cycle with no adapters, or with no matched peripheral,
/// plans nothing; planning never fails.
pub fn plan_cycle(
    reports: &Vec<AdapterReport>,
    allow: &AllowList,
    prefix: &Vec<u8>,
    timestamp: u64,
) -> (plan: Vec<OutboundMessage>)
    ensures
        plan.deep_view() == cycle_messages(reports.deep_view(), allow@, prefix@, timestamp),
        reports@.len() == 0 ==> plan@.len() == 0,
{
    let ghost all = reports.deep_view();
    let mut plan: Vec<OutboundMessage> = Vec::new();
    let mut i: usize = 0;
    proof {
        assert(all.skip(0) =~= all);
        assert(plan.deep_view() + cycle_messages(all, allow@, prefix@, timestamp) =~= cycle_messages(
            all,
            allow@,
            prefix@,
            timestamp,
        ));
    }
    while i < reports.len()
        invariant
            i <= reports.len(),
            all == reports.deep_view(),
            all.len() == reports@.len(),
            plan.deep_view() + cycle_messages(all.skip(i as int), allow@, prefix@, timestamp)
                == cycle_messages(all, allow@, prefix@, timestamp),
        decreases reports.len() - i,
    {
        let report = &reports[i];
        let ghost sgs = report.deep_view().sightings;
        proof {
            assert(all.skip(i as int)[0] == all[i as int]);
            assert(all.skip(i as int).skip(1) =~= all.skip(i as int + 1));
            assert(cycle_messages(all.skip(i as int), allow@, prefix@, timestamp)
                == sighting_messages(sgs, allow@, prefix@, timestamp) + cycle_messages(
                all.skip(i as int + 1),
                allow@,
                prefix@,
                timestamp,
            ));
        }
        let mut j: usize = 0;
        proof {
            assert(sgs.skip(0) =~= sgs);
        }
        while j < report.sightings.len()
            invariant
                j <= report.sightings.len(),
                sgs == report.deep_view().sightings,
                sgs.len() == report.sightings@.len(),
                plan.deep_view() + sighting_messages(sgs.skip(j as int), allow@, prefix@, timestamp)
                    + cycle_messages(all.skip(i as int + 1), allow@, prefix@, timestamp)
                    == cycle_messages(all, allow@, prefix@, timestamp),
            decreases report.sightings.len() - j,
        {
            let s = &report.sightings[j];
            let ghost sm = sgs[j as int];
            proof {
                assert(sgs.skip(j as int)[0] == sgs[j as int]);
                assert(sgs.skip(j as int).skip(1) =~= sgs.skip(j as int + 1));
                assert(sm == s.deep_view());
            }
            let id = normalize(&s.raw_id);
            let matched = allow.contains_id(&id);
            if s.props_ok && matched {
                let ghost old_plan = plan.deep_view();
                let msg = OutboundMessage {
                    topic: build_topic(prefix, &id),
                    payload: decimal_bytes(timestamp),
                };
                proof {
                    assert(msg.deep_view() == message_for(prefix@, canonical(sm.raw_id), timestamp));
                }
                plan.push(msg);
                proof {
                    assert(publishes(sm, allow@));
                    assert(plan.deep_view() =~= old_plan + seq![
                        message_for(prefix@, canonical(sm.raw_id), timestamp),
                    ]);
                    assert(plan.deep_view() + sighting_messages(
                        sgs.skip(j as int + 1),
                        allow@,
                        prefix@,
                        timestamp,
                    ) =~= old_plan + sighting_messages(sgs.skip(j as int), allow@, prefix@, timestamp));
                    assert(plan.deep_view() + sighting_messages(
                        sgs.skip(j as int + 1),
                        allow@,
                        prefix@,
                        timestamp,
                    ) + cycle_messages(all.skip(i as int + 1), allow@, prefix@, timestamp)
                        =~= old_plan + sighting_messages(sgs.skip(j as int), allow@, prefix@, timestamp)
                        + cycle_messages(all.skip(i as int + 1), allow@, prefix@, timestamp));
                }
            } else {
                proof {
                    assert(!publishes(sm, allow@));
                    assert(sighting_messages(sgs.skip(j as int), allow@, prefix@, timestamp)
                        == sighting_messages(sgs.skip(j as int + 1), allow@, prefix@, timestamp));
                }
            }
            j = j + 1;
        }
        proof {
            assert(sgs.skip(report.sightings.len() as int) =~= Seq::<SightingModel>::empty());
            assert(sighting_messages(
                Seq::<SightingModel>::empty(),
                allow@,
                prefix@,
                timestamp,
            ) =~= Seq::<MessageModel>::empty());
            assert(plan.deep_view() + Seq::<MessageModel>::empty() + cycle_messages(
                all.skip(i as int + 1),
                allow@,
                prefix@,
                timestamp,
            ) =~= plan.deep_view() + cycle_messages(all.skip(i as int + 1), allow@, prefix@, timestamp));
        }
        i = i + 1;
    }
    proof {
        assert(all.skip(reports.len() as int) =~= Seq::<AdapterReportModel>::empty());
        assert(plan.deep_view() + Seq::<MessageModel>::empty() =~= plan.deep_view());
        assert(plan.deep_view().len() == plan@.len());
    }
    plan
}

/// A failed property fetch is isolated: dropping a sighting whose fetch
/// failed changes nothing in an adapter's messages — every other
/// matched, successfully-read peripheral is still published.
pub proof fn lemma_failed_fetch_isolated(
    sightings: Seq<SightingModel>,
    allow: Seq<Seq<u8>>,
    prefix: Seq<u8>,
    timestamp: u64,
    j: int,
)
    requires
        0 <= j < sightings.len(),
        !sightings[j].props_ok,
    ensures
        sighting_messages(sightings, allow, prefix, timestamp) == sighting_messages(
            sightings.remove(j),
            allow,
            prefix,
            timestamp,
        ),
    decreases sightings.len(),
{
    if j == 0 {
        assert(sightings.remove(0) =~= sightings.skip(1));
        assert(!publishes(sightings[0], allow));
    } else {
        lemma_failed_fetch_isolated(sightings.skip(1), allow, prefix, timestamp, j - 1);
        assert(sightings.remove(j).skip(1) =~= sightings.skip(1).remove(j - 1));
        assert(sightings.remove(j)[0] == sightings[0]);
        assert(sighting_messages(sightings.remove(j), allow, prefix, timestamp)
            == sighting_messages(sightings, allow, prefix, timestamp));
    }
}

/// The cycle-level form of fetch isolation: dropping one failed-fetch
/// sighting from one adapter's report leaves the whole cycle's plan
/// unchanged.
pub proof fn lemma_cycle_failed_fetch_isolated(
    reports: Seq<AdapterReportModel>,
    allow: Seq<Seq<u8>>,
    prefix: Seq<u8>,
    timestamp: u64,
    i: int,
    j: int,
)
    requires
        0 <= i < reports.len(),
        0 <= j < reports[i].sightings.len(),
        !reports[i].sightings[j].props_ok,
    ensures
        cycle_messages(reports, allow, prefix, timestamp) == cycle_messages(
            reports.update(
                i,
                AdapterReportModel {
                    sightings: reports[i].sightings.remove(j),
                    ..reports[i]
                },
            ),
            allow,
            prefix,
            timestamp,
        ),
    decreases reports.len(),
{
    let updated = reports.update(
        i,
        AdapterReportModel { sightings: reports[i].sightings.remove(j), ..reports[i] },
    );
    if i == 0 {
        lemma_failed_fetch_isolated(reports[0].sightings, allow, prefix, timestamp, j);
        assert(updated.skip(1) =~= reports.skip(1));
        assert(updated[0].sightings == reports[0].sightings.remove(j));
    } else {
        lemma_cycle_failed_fetch_isolated(
            reports.skip(1),
            allow,
            prefix,
            timestamp,
            i - 1,
            j,
        );
        assert(reports.skip(1)[i - 1] == reports[i]);
        assert(updated[0] == reports[0]);
        assert(updated.skip(1) =~= reports.skip(1).update(
            i - 1,
            AdapterReportModel {
                sightings: reports.skip(1)[i - 1].sightings.remove(j),
                ..reports.skip(1)[i - 1]
            },
        ));
    }
}

/// No message of an adapter's plan carries the topic of an identifier
/// that is not on the allow-list.
pub proof fn lemma_sighting_unmatched(
    sightings: Seq<SightingModel>,
    allow: Seq<Seq<u8>>,
    prefix: Seq<u8>,
    timestamp: u64,
    id: Seq<u8>,
)
    requires
        !allow.contains(id),
    ensures
        forall|k: int|
            0 <= k < sighting_messages(sightings, allow, prefix, timestamp).len() ==> (
            #[trigger] sighting_messages(sightings, allow, prefix, timestamp)[k]).topic
                != topic_of(prefix, id),
    decreases sightings.len(),
{
    if sightings.len() == 0 {
    } else {
        lemma_sighting_unmatched(sightings.skip(1), allow, prefix, timestamp, id);
        let msgs = sighting_messages(sightings, allow, prefix, timestamp);
        let rest = sighting_messages(sightings.skip(1), allow, prefix, timestamp);
        assert forall|k: int| 0 <= k < msgs.len() implies (#[trigger] msgs[k]).topic != topic_of(
            prefix,
            id,
        ) by {
            if publishes(sightings[0], allow) {
                if k == 0 {
                    if msgs[0].topic == topic_of(prefix, id) {
                        lemma_topic_injective(prefix, canonical(sightings[0].raw_id), id);
                    }
                } else {
                    assert(msgs[k] == rest[k - 1]);
                }
            } else {
                assert(msgs[k] == rest[k]);
            }
        }
    }
}

/// An unmatched peripheral is never published: when an identifier is not
/// on the allow-list, no message of the cycle's plan carries its topic.
pub proof fn lemma_unmatched_not_published(
    reports: Seq<AdapterReportModel>,
    allow: Seq<Seq<u8>>,
    prefix: Seq<u8>,
    timestamp: u64,
    id: Seq<u8>,
)
    requires
        !allow.contains(id),
    ensures
        forall|k: int|
            0 <= k < cycle_messages(reports, allow, prefix, timestamp).len() ==> (
            #[trigger] cycle_messages(reports, allow, prefix, timestamp)[k]).topic != topic_of(
                prefix,
                id,
            ),
    decreases reports.len(),
{
    if reports.len() == 0 {
    } else {
        lemma_unmatched_not_published(reports.skip(1), allow, prefix, timestamp, id);
        lemma_sighting_unmatched(reports[0].sightings, allow, prefix, timestamp, id);
        let msgs = cycle_messages(reports, allow, prefix, timestamp);
        let head = sighting_messages(reports[0].sightings, allow, prefix, timestamp);
        let rest = cycle_messages(reports.skip(1), allow, prefix, timestamp);
        assert forall|k: int| 0 <= k < msgs.len() implies (#[trigger] msgs[k]).topic != topic_of(
            prefix,
            id,
        ) by {
            if k < head.len() {
                assert(msgs[k] == head[k]);
            } else {
                assert(msgs[k] == rest[k - head.len()]);
            }
        }
    }
}

} // verus!
