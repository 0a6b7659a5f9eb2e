//! Display-ready views of broker, topic and consumer-group metadata.
//!
//! The broker client fetches the raw metadata; these functions do the
//! tool's own part: per-partition message counts, the topic overview,
//! the broker and group listing rows, and the per-group answer to "who
//! consumes this topic" built on the assignment aggregator.

use vstd::prelude::*;
use vstd::string::StringExecFns;
use crate::aggregate::{
    aggregate_assignments, failures_view, sorted_unique, spec_aggregate, spec_failures,
    MemberFailure,
};
use crate::numfmt::{
    i32_to_string, i64_to_string, join_partitions, spec_idec, spec_join_partitions, spec_udec,
    usize_to_string,
};

verus! {

/// What one partition of a topic reports: its id, leader broker and the
/// two watermarks.
#[derive(Debug)]
pub struct PartitionSummary {
    pub id: i32,
    pub leader: i32,
    pub low_watermark: i64,
    pub high_watermark: i64,
}

impl PartitionSummary {
    /// How many messages the partition retains: the distance between
    /// the watermarks, clamped at zero.
    pub open spec fn spec_message_count(self) -> int {
        if self.high_watermark > self.low_watermark {
            self.high_watermark - self.low_watermark
        } else {
            0
        }
    }

    /// The offset of the partition's live head.
    pub fn latest_offset(&self) -> (r: i64)
        ensures
            r == self.high_watermark,
    {
        self.high_watermark
    }

    /// The number of retained messages, never negative.
    pub fn message_count(&self) -> (r: i64)
        requires
            self.high_watermark - self.low_watermark <= i64::MAX,
        ensures
            r == self.spec_message_count(),
    {
        if self.high_watermark > self.low_watermark {
            self.high_watermark - self.low_watermark
        } else {
            0
        }
    }
}

/// The total of the retained message counts from partition `i` on.
pub open spec fn spec_total_messages(s: Seq<PartitionSummary>, i: int) -> int
    decreases s.len() - i,
{
    if i < 0 || i >= s.len() {
        0
    } else {
        s[i].spec_message_count() + spec_total_messages(s, i + 1)
    }
}

/// A partial total of message counts is never negative.
pub proof fn lemma_total_messages_nonneg(s: Seq<PartitionSummary>, i: int)
    ensures
        spec_total_messages(s, i) >= 0,
    decreases s.len() - i,
{
    if 0 <= i < s.len() {
        lemma_total_messages_nonneg(s, i + 1);
    }
}

/// Sums the retained message counts of a topic's partitions.
#[verifier::loop_isolation(false)]
pub fn total_message_count(summaries: &Vec<PartitionSummary>) -> (total: i64)
    requires
        forall|i: int| 0 <= i < summaries.len() ==> (#[trigger] summaries[i]).high_watermark
            - summaries[i].low_watermark <= i64::MAX,
        spec_total_messages(summaries@, 0) <= i64::MAX,
    ensures
        total == spec_total_messages(summaries@, 0),
{
    let mut total: i64 = 0;
    let mut i: usize = 0;
    while i < summaries.len()
        invariant
            i <= summaries.len(),
            spec_total_messages(summaries@, 0) == total + spec_total_messages(
                summaries@,
                i as int,
            ),
            total >= 0,
        decreases summaries.len() - i,
    {
        proof {
            lemma_total_messages_nonneg(summaries@, i as int + 1);
        }
        total = total + summaries[i].message_count();
        i = i + 1;
    }
    total
}

/// One display row of a topic's partition table: id, leader and latest
/// offset, rendered in decimal.
#[derive(Debug)]
pub struct PartitionRow {
    pub id: String,
    pub leader: String,
    pub latest_offset: String,
}

/// Builds the per-partition display rows of a topic, in partition order.
#[verifier::loop_isolation(false)]
pub fn partition_rows(summaries: &Vec<PartitionSummary>) -> (rows: Vec<PartitionRow>)
    ensures
        rows.len() == summaries.len(),
        forall|i: int| 0 <= i < rows.len() ==> {
            &&& (#[trigger] rows[i]).id@ == spec_idec(summaries[i].id as int)
            &&& rows[i].leader@ == spec_idec(summaries[i].leader as int)
            &&& rows[i].latest_offset@ == spec_idec(summaries[i].high_watermark as int)
        },
{
    let mut rows: Vec<PartitionRow> = Vec::new();
    let mut i: usize = 0;
    while i < summaries.len()
        invariant
            i <= summaries.len(),
            rows.len() == i,
            forall|t: int| 0 <= t < i ==> {
                &&& (#[trigger] rows[t]).id@ == spec_idec(summaries[t].id as int)
                &&& rows[t].leader@ == spec_idec(summaries[t].leader as int)
                &&& rows[t].latest_offset@ == spec_idec(summaries[t].high_watermark as int)
            },
        decreases summaries.len() - i,
    {
        let s = &summaries[i];
        rows.push(
            PartitionRow {
                id: i32_to_string(s.id),
                leader: i32_to_string(s.leader),
                latest_offset: i64_to_string(s.latest_offset()),
            },
        );
        i = i + 1;
    }
    rows
}

/// The overview line of a topic: how many partitions, which ids, how
/// many messages in total.
#[derive(Debug)]
pub struct TopicOverview {
    pub partition_count: String,
    pub partition_ids: String,
    pub total_messages: String,
}

/// The ids of a topic's partitions, in order.
pub open spec fn spec_partition_ids(s: Seq<PartitionSummary>) -> Seq<i32> {
    s.map_values(|p: PartitionSummary| p.id)
}

/// Builds the overview line of a topic from its partition summaries.
#[verifier::loop_isolation(false)]
pub fn topic_overview(summaries: &Vec<PartitionSummary>) -> (o: TopicOverview)
    requires
        forall|i: int| 0 <= i < summaries.len() ==> (#[trigger] summaries[i]).high_watermark
            - summaries[i].low_watermark <= i64::MAX,
        spec_total_messages(summaries@, 0) <= i64::MAX,
    ensures
        o.partition_count@ == spec_udec(summaries.len() as int),
        o.partition_ids@ == spec_join_partitions(spec_partition_ids(summaries@), 0),
        o.total_messages@ == spec_idec(spec_total_messages(summaries@, 0)),
{
    let mut ids: Vec<i32> = Vec::new();
    let mut i: usize = 0;
    while i < summaries.len()
        invariant
            i <= summaries.len(),
            ids@ =~= spec_partition_ids(summaries@).take(i as int),
        decreases summaries.len() - i,
    {
        ids.push(summaries[i].id);
        i = i + 1;
    }
    proof {
        assert(ids@ =~= spec_partition_ids(summaries@));
    }
    let total = total_message_count(summaries);
    TopicOverview {
        partition_count: usize_to_string(summaries.len()),
        partition_ids: join_partitions(&ids),
        total_messages: i64_to_string(total),
    }
}

/// One broker as the client reports it: id, host and port.
#[derive(Debug)]
pub struct BrokerInfo {
    pub id: i32,
    pub host: String,
    pub port: i32,
}

/// One display row of the broker table.
#[derive(Debug)]
pub struct BrokerRow {
    pub id: String,
    pub host: String,
    pub port: String,
}

/// Builds the broker listing rows: each broker's id and port rendered
/// in decimal, the host taken as is, in broker order.
#[verifier::loop_isolation(false)]
pub fn get_broker_detail(brokers: &Vec<BrokerInfo>) -> (rows: Vec<BrokerRow>)
    ensures
        rows.len() == brokers.len(),
        forall|i: int| 0 <= i < rows.len() ==> {
            &&& (#[trigger] rows[i]).id@ == spec_idec(brokers[i].id as int)
            &&& rows[i].host@ == brokers[i].host@
            &&& rows[i].port@ == spec_idec(brokers[i].port as int)
        },
{
    let mut rows: Vec<BrokerRow> = Vec::new();
    let mut i: usize = 0;
    while i < brokers.len()
        invariant
            i <= brokers.len(),
            rows.len() == i,
            forall|t: int| 0 <= t < i ==> {
                &&& (#[trigger] rows[t]).id@ == spec_idec(brokers[t].id as int)
                &&& rows[t].host@ == brokers[t].host@
                &&& rows[t].port@ == spec_idec(brokers[t].port as int)
            },
        decreases brokers.len() - i,
    {
        let b = &brokers[i];
        rows.push(
            BrokerRow {
                id: i32_to_string(b.id),
                host: b.host.clone(),
                port: i32_to_string(b.port),
            },
        );
        i = i + 1;
    }
    rows
}

/// One consumer group as the client lists it.
#[derive(Debug)]
pub struct GroupInfo {
    pub name: String,
    pub state: String,
    pub protocol_type: String,
    pub protocol: String,
}

/// One display row of the consumer-group listing.
#[derive(Debug)]
pub struct GroupRow {
    pub name: String,
    pub state: String,
    pub protocol_type: String,
    pub protocol: String,
}

/// Builds the consumer-group listing rows, one per group, in group
/// order, carrying each group's name, state, protocol type and protocol.
#[verifier::loop_isolation(false)]
pub fn get_consumer_groups(groups: &Vec<GroupInfo>) -> (rows: Vec<GroupRow>)
    ensures
        rows.len() == groups.len(),
        forall|i: int| 0 <= i < rows.len() ==> {
            &&& (#[trigger] rows[i]).name@ == groups[i].name@
            &&& rows[i].state@ == groups[i].state@
            &&& rows[i].protocol_type@ == groups[i].protocol_type@
            &&& rows[i].protocol@ == groups[i].protocol@
        },
{
    let mut rows: Vec<GroupRow> = Vec::new();
    let mut i: usize = 0;
    while i < groups.len()
        invariant
            i <= groups.len(),
            rows.len() == i,
            forall|t: int| 0 <= t < i ==> {
                &&& (#[trigger] rows[t]).name@ == groups[t].name@
                &&& rows[t].state@ == groups[t].state@
                &&& rows[t].protocol_type@ == groups[t].protocol_type@
                &&& rows[t].protocol@ == groups[t].protocol@
            },
        decreases groups.len() - i,
    {
        let g = &groups[i];
        rows.push(
            GroupRow {
                name: g.name.clone(),
                state: g.state.clone(),
                protocol_type: g.protocol_type.clone(),
                protocol: g.protocol.clone(),
            },
        );
        i = i + 1;
    }
    rows
}

/// One row of the "who consumes this topic" table: a group that owns at
/// least one partition of the topic, with the owned partitions both as
/// the sorted id list and rendered for display.
#[derive(Debug)]
pub struct TopicConsumerRow {
    pub group: String,
    pub state: String,
    pub protocol_type: String,
    pub partitions: Vec<i32>,
    pub partition_list: String,
}

/// Answers, for one group, whether it consumes the topic, by decoding
/// and aggregating its members' assignments.
///
/// The row is present exactly when the aggregated ownership of `topic`
/// across the group's members is non-empty; it then carries the group's
/// identity and the owned partitions, sorted, deduplicated and rendered
/// as `id, id, id`.  Members whose assignments fail to decode are
/// reported alongside and never abort the group.
#[verifier::loop_isolation(false)]
pub fn topic_ownership_row(
    group: &GroupInfo,
    members: &Vec<Option<Vec<u8>>>,
    topic: &String,
) -> (r: (Option<TopicConsumerRow>, Vec<MemberFailure>))
    ensures
        failures_view(r.1@) == spec_failures(members.deep_view(), 0),
        ({
            let m = spec_aggregate(members.deep_view(), Some(topic@));
            match r.0 {
                Some(row) => {
                    &&& m.dom().contains(topic@)
                    &&& m[topic@] != Set::<i32>::empty()
                    &&& row.group@ == group.name@
                    &&& row.state@ == group.state@
                    &&& row.protocol_type@ == group.protocol_type@
                    &&& sorted_unique(row.partitions@)
                    &&& row.partitions@.to_set() == m[topic@]
                    &&& row.partition_list@ == spec_join_partitions(row.partitions@, 0)
                },
                None => !m.dom().contains(topic@) || m[topic@] == Set::<i32>::empty(),
            }
        }),
{
    let outcome = aggregate_assignments(members, Some(topic));
    let row = match outcome.map.find_topic(topic) {
        Some(parts) => {
            if parts.len() > 0 {
                proof {
                    assert(parts@.to_set().contains(parts@[0]));
                    assert(parts@.to_set() != Set::<i32>::empty());
                }
                let owned: Vec<i32> = copy_partitions(parts);
                let partition_list = join_partitions(&owned);
                Some(
                    TopicConsumerRow {
                        group: group.name.clone(),
                        state: group.state.clone(),
                        protocol_type: group.protocol_type.clone(),
                        partitions: owned,
                        partition_list,
                    },
                )
            } else {
                proof {
                    assert(parts@ =~= Seq::<i32>::empty());
                    assert(parts@.to_set() =~= Set::<i32>::empty());
                }
                None
            }
        },
        None => None,
    };
    (row, outcome.failures)
}

/// One member of a consumer group, as the client reports it, with its
/// raw assignment payload when it has one.
#[derive(Debug)]
pub struct MemberInfo {
    pub id: String,
    pub client_id: String,
    pub host: String,
    pub assignment: Option<Vec<u8>>,
}

/// One row of the group-details member table: which topic and
/// partitions the member owns, or dashes when it owns nothing yet.
#[derive(Debug)]
pub struct MemberRow {
    pub member_id: String,
    pub client_id: String,
    pub host: String,
    pub topic: String,
    pub partitions: String,
}

/// Builds the member table rows for one group member.
///
/// A member without an assignment, or with an assignment naming no
/// topic, yields a single dash row; otherwise one row per decoded topic
/// entry, in encounter order, with the partitions rendered in wire
/// order.  A payload that fails to decode is the member's error.
#[verifier::loop_isolation(false)]
pub fn member_assignment_rows(member: &MemberInfo) -> (r: Result<
    Vec<MemberRow>,
    crate::assignment::DecodeError,
>)
    ensures
        ({
            let identity_ok = |row: MemberRow|
                {
                    &&& row.member_id@ == member.id@
                    &&& row.client_id@ == member.client_id@
                    &&& row.host@ == member.host@
                };
            match member.assignment {
                None => r matches Ok(rows) && rows.len() == 1 && identity_ok(rows[0])
                    && rows[0].topic@ == "-"@ && rows[0].partitions@ == "-"@,
                Some(bytes) => match crate::assignment::spec_deserialize(bytes@) {
                    Err(e) => r == Err::<Vec<MemberRow>, crate::assignment::DecodeError>(e),
                    Ok(a) => r matches Ok(rows) && (if a.len() == 0 {
                        rows.len() == 1 && identity_ok(rows[0]) && rows[0].topic@ == "-"@
                            && rows[0].partitions@ == "-"@
                    } else {
                        rows.len() == a.len() && forall|k: int|
                            0 <= k < a.len() ==> identity_ok(#[trigger] rows[k]) && rows[k].topic@
                                == a[k].0 && rows[k].partitions@ == spec_join_partitions(a[k].1, 0)
                    }),
                },
            }
        }),
{
    match &member.assignment {
        None => Ok(vec![dash_row(member)]),
        Some(bytes) => {
            match crate::assignment::deserialize_assignment(bytes) {
                Err(e) => Err(e),
                Ok(assignment) => {
                    if assignment.entries.len() == 0 {
                        Ok(vec![dash_row(member)])
                    } else {
                        let ghost a = assignment@;
                        let mut rows: Vec<MemberRow> = Vec::new();
                        let mut k: usize = 0;
                        while k < assignment.entries.len()
                            invariant
                                k <= assignment.entries.len(),
                                rows.len() == k,
                                forall|t: int| 0 <= t < k ==> {
                                    &&& (#[trigger] rows[t]).member_id@ == member.id@
                                    &&& rows[t].client_id@ == member.client_id@
                                    &&& rows[t].host@ == member.host@
                                    &&& rows[t].topic@ == a[t].0
                                    &&& rows[t].partitions@ == spec_join_partitions(a[t].1, 0)
                                },
                            decreases assignment.entries.len() - k,
                        {
                            let entry = &assignment.entries[k];
                            proof {
                                assert(a[k as int] == (entry.name@, entry.partitions@));
                            }
                            rows.push(
                                MemberRow {
                                    member_id: member.id.clone(),
                                    client_id: member.client_id.clone(),
                                    host: member.host.clone(),
                                    topic: entry.name.clone(),
                                    partitions: join_partitions(&entry.partitions),
                                },
                            );
                            k = k + 1;
                        }
                        Ok(rows)
                    }
                },
            }
        },
    }
}

/// The dash row shown for a member that owns nothing yet.
fn dash_row(member: &MemberInfo) -> (row: MemberRow)
    ensures
        row.member_id@ == member.id@,
        row.client_id@ == member.client_id@,
        row.host@ == member.host@,
        row.topic@ == "-"@,
        row.partitions@ == "-"@,
{
    MemberRow {
        member_id: member.id.clone(),
        client_id: member.client_id.clone(),
        host: member.host.clone(),
        topic: String::from_str("-"),
        partitions: String::from_str("-"),
    }
}

/// Copies a partition list.
#[verifier::loop_isolation(false)]
fn copy_partitions(parts: &Vec<i32>) -> (r: Vec<i32>)
    ensures
        r@ == parts@,
{
    let mut r: Vec<i32> = Vec::new();
    let mut k: usize = 0;
    while k < parts.len()
        invariant
            k <= parts.len(),
            r@ =~= parts@.take(k as int),
        decreases parts.len() - k,
    {
        r.push(parts[k]);
        k = k + 1;
    }
    proof {
        assert(r@ =~= parts@);
    }
    r
}

} // verus!
