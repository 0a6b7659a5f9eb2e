//! Aggregation of partition ownership across the members of consumer
//! groups.
//!
//! Every member of a group reports (or does not yet report) a raw binary
//! assignment.  Aggregation decodes each present assignment, folds the
//! decoded topics into one mapping from topic name to the deduplicated
//! union of owned partitions, and records, per member, every decode that
//! failed — one bad member never aborts the others.  An optional topic
//! filter keeps only that topic's partitions; other topics are dropped
//! silently.

use vstd::prelude::*;
use crate::assignment::{
    deserialize_assignment, has_name, index_of_name, spec_deserialize, unique_names,
    AssignmentSeq, DecodeError,
};

verus! {

/// A strictly increasing run of partition ids: sorted, no duplicates.
pub open spec fn sorted_unique(s: Seq<i32>) -> bool {
    forall|i: int, j: int| 0 <= i < j < s.len() ==> s[i] < s[j]
}

/// One aggregated topic: its name and the sorted, deduplicated union of
/// the partitions that group members own for it.
#[derive(Debug)]
pub struct GroupTopic {
    pub name: String,
    pub partitions: Vec<i32>,
}

impl View for GroupTopic {
    type V = (Seq<char>, Seq<i32>);

    open spec fn view(&self) -> (Seq<char>, Seq<i32>) {
        (self.name@, self.partitions@)
    }
}

/// The aggregated ownership mapping of a consumer group: topic name to
/// sorted set of owned partitions, topics in first-encounter order.
#[derive(Debug)]
pub struct GroupPartitionMap {
    pub topics: Vec<GroupTopic>,
}

impl View for GroupPartitionMap {
    type V = AssignmentSeq;

    open spec fn view(&self) -> AssignmentSeq {
        self.topics@.map_values(|t: GroupTopic| t@)
    }
}

impl GroupPartitionMap {
    /// Topic names are unique and every partition list is sorted with no
    /// duplicates.
    pub open spec fn wf(self) -> bool {
        &&& unique_names(self@)
        &&& forall|i: int| 0 <= i < self@.len() ==> sorted_unique(#[trigger] self@[i].1)
    }

    /// The mapping read as a mathematical map from topic name to the set
    /// of owned partitions.
    pub open spec fn as_map(self) -> Map<Seq<char>, Set<i32>> {
        Map::new(
            |name: Seq<char>| has_name(self@, name),
            |name: Seq<char>| self@[index_of_name(self@, name)].1.to_set(),
        )
    }

    /// Looks up the aggregated partitions of one topic.
    pub fn find_topic(&self, topic: &String) -> (r: Option<&Vec<i32>>)
        requires
            self.wf(),
        ensures
            match r {
                Some(v) => self.as_map().dom().contains(topic@) && v@.to_set()
                    == self.as_map()[topic@] && sorted_unique(v@),
                None => !self.as_map().dom().contains(topic@),
            },
    {
        let mut k: usize = 0;
        while k < self.topics.len()
            invariant
                self.wf(),
                k <= self.topics.len(),
                forall|t: int| 0 <= t < k ==> self@[t].0 != topic@,
            decreases self.topics.len() - k,
        {
            if self.topics[k].name == *topic {
                proof {
                    assert(self@[k as int].0 == topic@);
                    crate::assignment::lemma_unique_index(self@, topic@, k as int);
                }
                return Some(&self.topics[k].partitions);
            }
            k = k + 1;
        }
        None
    }
}

/// One member whose reported assignment could not be decoded.
#[derive(Debug)]
pub struct MemberFailure {
    /// Position of the member in the sequence handed to the aggregator.
    pub member: usize,
    /// What went wrong decoding that member's assignment.
    pub error: DecodeError,
}

impl View for MemberFailure {
    type V = (int, DecodeError);

    open spec fn view(&self) -> (int, DecodeError) {
        (self.member as int, self.error)
    }
}

/// The view of a gathered failure list.
pub open spec fn failures_view(fs: Seq<MemberFailure>) -> Seq<(int, DecodeError)> {
    fs.map_values(|f: MemberFailure| f@)
}

/// Whether the topic filter lets this topic through.
pub open spec fn filter_allows(filter: Option<Seq<char>>, name: Seq<char>) -> bool {
    match filter {
        Some(f) => f == name,
        None => true,
    }
}

/// The view of an optional topic filter.
pub open spec fn filter_view(filter: Option<&String>) -> Option<Seq<char>> {
    match filter {
        Some(s) => Some(s@),
        None => None,
    }
}

/// Adds one topic's partitions to the aggregated map: the topic's set
/// becomes the union of what it had (nothing, if absent) and `parts`.
pub open spec fn upsert_union(
    m: Map<Seq<char>, Set<i32>>,
    name: Seq<char>,
    parts: Set<i32>,
) -> Map<Seq<char>, Set<i32>> {
    let before = if m.dom().contains(name) {
        m[name]
    } else {
        Set::empty()
    };
    m.insert(name, before.union(parts))
}

/// Folds the topics of one decoded assignment, from index `k` on, into
/// the aggregated map.
pub open spec fn spec_fold_member(
    m: Map<Seq<char>, Set<i32>>,
    a: AssignmentSeq,
    filter: Option<Seq<char>>,
    k: int,
) -> Map<Seq<char>, Set<i32>>
    decreases a.len() - k,
{
    if k < 0 || k >= a.len() {
        m
    } else {
        let m2 = if filter_allows(filter, a[k].0) {
            upsert_union(m, a[k].0, a[k].1.to_set())
        } else {
            m
        };
        spec_fold_member(m2, a, filter, k + 1)
    }
}

/// Folds the assignments of all members, from member `i` on, into the
/// aggregated map.  Absent assignments and failed decodes contribute
/// nothing.
pub open spec fn spec_fold_members(
    m: Map<Seq<char>, Set<i32>>,
    members: Seq<Option<Seq<u8>>>,
    filter: Option<Seq<char>>,
    i: int,
) -> Map<Seq<char>, Set<i32>>
    decreases members.len() - i,
{
    if i < 0 || i >= members.len() {
        m
    } else {
        let m2 = match members[i] {
            Some(bytes) => match spec_deserialize(bytes) {
                Ok(a) => spec_fold_member(m, a, filter, 0),
                Err(_) => m,
            },
            None => m,
        };
        spec_fold_members(m2, members, filter, i + 1)
    }
}

/// The aggregated ownership map of a whole member list.
pub open spec fn spec_aggregate(
    members: Seq<Option<Seq<u8>>>,
    filter: Option<Seq<char>>,
) -> Map<Seq<char>, Set<i32>> {
    spec_fold_members(Map::empty(), members, filter, 0)
}

/// The decode failures of a member list from member `i` on, in member
/// order: one entry per present assignment that does not decode.
pub open spec fn spec_failures(members: Seq<Option<Seq<u8>>>, i: int) -> Seq<(int, DecodeError)>
    decreases members.len() - i,
{
    if i < 0 || i >= members.len() {
        Seq::empty()
    } else {
        let rest = spec_failures(members, i + 1);
        match members[i] {
            Some(bytes) => match spec_deserialize(bytes) {
                Ok(_) => rest,
                Err(e) => seq![(i, e)] + rest,
            },
            None => rest,
        }
    }
}

/// Inserts a partition id into a sorted, duplicate-free list, keeping it
/// sorted and ignoring an id that is already present.
#[verifier::loop_isolation(false)]
fn insert_sorted(v: &mut Vec<i32>, p: i32)
    requires
        sorted_unique(old(v)@),
    ensures
        sorted_unique(final(v)@),
        final(v)@.to_set() == old(v)@.to_set().insert(p),
{
    let mut idx: usize = 0;
    while idx < v.len() && v[idx] < p
        invariant
            idx <= v.len(),
            v@ == old(v)@,
            forall|t: int| 0 <= t < idx ==> v@[t] < p,
        decreases v.len() - idx,
    {
        idx = idx + 1;
    }
    if idx < v.len() {
        if v[idx] == p {
            proof {
                assert(old(v)@.contains(p));
                assert(v@.to_set() =~= old(v)@.to_set().insert(p));
            }
            return ;
        }
    }
    let ghost before = v@;
    v.insert(idx, p);
    proof {
        before.insert_ensures(idx as int, p);
        assert forall|i: int, j: int| 0 <= i < j < v@.len() implies v@[i] < v@[j] by {
            if j < idx {
                assert(v@[i] == before[i] && v@[j] == before[j]);
            } else if j == idx {
                assert(v@[i] == before[i] && v@[j] == p);
            } else if i == idx {
                assert(v@[i] == p && v@[j] == before[j - 1]);
                assert(p < before[idx as int] || idx == j - 1);
                assert(before[idx as int] <= before[j - 1]);
            } else if i < idx {
                assert(v@[i] == before[i] && v@[j] == before[j - 1]);
            } else {
                assert(v@[i] == before[i - 1] && v@[j] == before[j - 1]);
            }
        }
        assert forall|x: i32| v@.to_set().contains(x) implies old(v)@.to_set().insert(
            p,
        ).contains(x) by {
            let k = choose|k: int| 0 <= k < v@.len() && v@[k] == x;
            if k < idx {
                assert(before[k] == x);
            } else if k > idx {
                assert(before[k - 1] == x);
            }
        }
        assert forall|x: i32| old(v)@.to_set().insert(p).contains(x) implies v@.to_set().contains(
            x,
        ) by {
            if x == p {
                assert(v@[idx as int] == p);
            } else {
                let k = choose|k: int| 0 <= k < before.len() && before[k] == x;
                if k < idx {
                    assert(v@[k] == x);
                } else {
                    assert(v@[k + 1] == x);
                }
            }
        }
        assert(v@.to_set() =~= old(v)@.to_set().insert(p));
    }
}

/// The sorted, duplicate-free union of a sorted list and an arbitrary
/// partition list.
#[verifier::loop_isolation(false)]
fn merge_partitions(dst: &Vec<i32>, src: &Vec<i32>) -> (r: Vec<i32>)
    requires
        sorted_unique(dst@),
    ensures
        sorted_unique(r@),
        r@.to_set() == dst@.to_set().union(src@.to_set()),
{
    let mut r: Vec<i32> = Vec::new();
    let mut k: usize = 0;
    while k < dst.len()
        invariant
            k <= dst.len(),
            r@ == dst@.take(k as int),
        decreases dst.len() - k,
    {
        r.push(dst[k]);
        k = k + 1;
    }
    proof {
        assert(r@ =~= dst@);
        assert(src@.take(0) =~= Seq::<i32>::empty());
        assert(src@.take(0).to_set() =~= Set::<i32>::empty());
        assert(r@.to_set() =~= dst@.to_set().union(src@.take(0).to_set()));
    }
    let mut j: usize = 0;
    while j < src.len()
        invariant
            j <= src.len(),
            sorted_unique(r@),
            r@.to_set() == dst@.to_set().union(src@.take(j as int).to_set()),
        decreases src.len() - j,
    {
        insert_sorted(&mut r, src[j]);
        proof {
            assert(src@.take(j as int).push(src@[j as int]) =~= src@.take(j as int + 1));
            assert forall|x: i32| src@.take(j as int + 1).to_set().contains(x) implies src@.take(
                j as int,
            ).to_set().insert(src@[j as int]).contains(x) by {
                let k = choose|k: int|
                    0 <= k < src@.take(j as int + 1).len() && #[trigger] src@.take(
                        j as int + 1,
                    )[k] == x;
                if k < j {
                    assert(src@.take(j as int)[k] == x);
                }
            }
            assert forall|x: i32|
                src@.take(j as int).to_set().insert(src@[j as int]).contains(
                    x,
                ) implies src@.take(j as int + 1).to_set().contains(x) by {
                if x == src@[j as int] {
                    assert(src@.take(j as int + 1)[j as int] == x);
                } else {
                    let k = choose|k: int|
                        0 <= k < src@.take(j as int).len() && #[trigger] src@.take(
                            j as int,
                        )[k] == x;
                    assert(src@.take(j as int + 1)[k] == x);
                }
            }
            assert(src@.take(j as int + 1).to_set() =~= src@.take(j as int).to_set().insert(
                src@[j as int],
            ));
            assert(r@.to_set() =~= dst@.to_set().union(src@.take(j as int + 1).to_set()));
        }
        j = j + 1;
    }
    proof {
        assert(src@.take(src.len() as int) =~= src@);
    }
    r
}

/// Folds one topic of one member's decoded assignment into the map: the
/// topic's aggregated set grows by the member's partitions for it.
#[verifier::loop_isolation(false)]
fn fold_topic(gmap: &mut GroupPartitionMap, name: &String, parts: &Vec<i32>)
    requires
        old(gmap).wf(),
    ensures
        final(gmap).wf(),
        final(gmap).as_map() == upsert_union(old(gmap).as_map(), name@, parts@.to_set()),
{
    let ghost v1 = gmap@;
    let ghost m1 = gmap.as_map();
    let mut k: usize = 0;
    while k < gmap.topics.len()
        invariant
            gmap.wf(),
            gmap@ == v1,
            k <= gmap.topics.len(),
            forall|t: int| 0 <= t < k ==> v1[t].0 != name@,
        decreases gmap.topics.len() - k,
    {
        if gmap.topics[k].name == *name {
            proof {
                assert(v1[k as int].0 == name@);
                crate::assignment::lemma_unique_index(v1, name@, k as int);
                assert(v1[k as int].1 == gmap.topics@[k as int].partitions@);
                assert(sorted_unique(gmap.topics@[k as int].partitions@));
            }
            let merged = merge_partitions(&gmap.topics[k].partitions, parts);
            let topic_name = gmap.topics[k].name.clone();
            gmap.topics.set(k, GroupTopic { name: topic_name, partitions: merged });
            proof {
                let v2 = gmap@;
                assert(v2.len() == v1.len());
                assert forall|t: int| 0 <= t < v2.len() implies v2[t].0 == v1[t].0 && (t
                    != k ==> v2[t] == v1[t]) by {}
                assert forall|i: int, j: int| 0 <= i < j < v2.len() implies v2[i].0
                    != v2[j].0 by {
                    assert(v1[i].0 != v1[j].0);
                }
                assert forall|i: int| 0 <= i < v2.len() implies sorted_unique(
                    #[trigger] v2[i].1,
                ) by {
                    if i != k {
                        assert(v2[i].1 == v1[i].1);
                    }
                }
                let m2 = gmap.as_map();
                let target = upsert_union(m1, name@, parts@.to_set());
                assert forall|n: Seq<char>| #[trigger] has_name(v2, n) implies has_name(
                    v1,
                    n,
                ) by {
                    let t = index_of_name(v2, n);
                    assert(v1[t].0 == n);
                }
                assert forall|n: Seq<char>| #[trigger] has_name(v1, n) implies has_name(
                    v2,
                    n,
                ) by {
                    let t = index_of_name(v1, n);
                    assert(v2[t].0 == n);
                }
                assert forall|n: Seq<char>| #[trigger] has_name(v2, n) implies m2[n]
                    == target[n] by {
                    let i1 = index_of_name(v1, n);
                    assert(v1[i1].0 == n);
                    crate::assignment::lemma_unique_index(v2, n, i1);
                    if n == name@ {
                        assert(i1 == k);
                        assert(m2[n] == v2[k as int].1.to_set());
                        assert(m1[n] == v1[k as int].1.to_set());
                    } else {
                        assert(i1 != k);
                        assert(v2[i1].1 == v1[i1].1);
                    }
                }
                assert(m2 =~= target);
            }
            return ;
        }
        k = k + 1;
    }
    let empty: Vec<i32> = Vec::new();
    let sorted = merge_partitions(&empty, parts);
    proof {
        assert(empty@.to_set() =~= Set::<i32>::empty());
        assert(sorted@.to_set() =~= parts@.to_set());
    }
    gmap.topics.push(GroupTopic { name: name.clone(), partitions: sorted });
    proof {
        let v2 = gmap@;
        assert(v2.len() == v1.len() + 1);
        assert(v2[v1.len() as int].0 == name@);
        assert forall|t: int| 0 <= t < v1.len() implies v2[t] == v1[t] by {}
        assert forall|i: int, j: int| 0 <= i < j < v2.len() implies v2[i].0 != v2[j].0 by {
            if j < v1.len() {
                assert(v1[i].0 != v1[j].0);
            } else {
                assert(v2[j].0 == name@);
                assert(v1[i].0 != name@);
            }
        }
        assert forall|i: int| 0 <= i < v2.len() implies sorted_unique(#[trigger] v2[i].1) by {
            if i < v1.len() {
                assert(v2[i].1 == v1[i].1);
            }
        }
        let m2 = gmap.as_map();
        let target = upsert_union(m1, name@, parts@.to_set());
        assert(!has_name(v1, name@));
        assert forall|n: Seq<char>| #[trigger] has_name(v2, n) implies has_name(v1, n) || n
            == name@ by {
            let t = index_of_name(v2, n);
            if t < v1.len() {
                assert(v1[t].0 == n);
            }
        }
        assert forall|n: Seq<char>| #[trigger] has_name(v2, n) implies m2[n] == target[n] by {
            if n == name@ {
                crate::assignment::lemma_unique_index(v2, name@, v1.len() as int);
                assert(m2[n] == sorted@.to_set());
                assert(Set::<i32>::empty().union(parts@.to_set()) =~= parts@.to_set());
            } else {
                let t = index_of_name(v2, n);
                assert(t < v1.len() && v1[t].0 == n);
                crate::assignment::lemma_unique_index(v1, n, t);
                assert(m1[n] == v1[t].1.to_set());
                crate::assignment::lemma_unique_index(v2, n, t);
            }
        }
        assert forall|n: Seq<char>| #[trigger] has_name(v1, n) implies has_name(v2, n) by {
            let t = index_of_name(v1, n);
            assert(v2[t].0 == n);
        }
        assert(m2 =~= target);
    }
}

/// What one aggregation pass over a group's members produced: the
/// aggregated ownership map and the members whose assignments failed to
/// decode.
#[derive(Debug)]
pub struct AggregateOutcome {
    pub map: GroupPartitionMap,
    pub failures: Vec<MemberFailure>,
}

/// Aggregates the raw assignments reported by the members of one or more
/// groups.
///
/// A member with an absent assignment contributes nothing and is no
/// error.  A member whose assignment fails to decode is recorded, with
/// its position and the decode error, and processing continues with the
/// remaining members.  When a topic filter is given, only that topic's
/// partitions are folded in; other topics are dropped silently.
#[verifier::loop_isolation(false)]
pub fn aggregate_assignments(members: &Vec<Option<Vec<u8>>>, topic_filter: Option<&String>) -> (out:
    AggregateOutcome)
    ensures
        out.map.wf(),
        out.map.as_map() == spec_aggregate(members.deep_view(), filter_view(topic_filter)),
        failures_view(out.failures@) == spec_failures(members.deep_view(), 0),
{
    let ghost mv = members.deep_view();
    let ghost f = filter_view(topic_filter);
    let mut map = GroupPartitionMap { topics: Vec::new() };
    let mut failures: Vec<MemberFailure> = Vec::new();
    proof {
        assert(map@ =~= Seq::<(Seq<char>, Seq<i32>)>::empty());
        assert(map.as_map() =~= Map::<Seq<char>, Set<i32>>::empty());
        assert(failures_view(failures@) =~= Seq::<(int, DecodeError)>::empty());
    }
    let mut i: usize = 0;
    while i < members.len()
        invariant
            i <= members.len(),
            map.wf(),
            spec_fold_members(Map::empty(), mv, f, 0) == spec_fold_members(
                map.as_map(),
                mv,
                f,
                i as int,
            ),
            spec_failures(mv, 0) == failures_view(failures@) + spec_failures(mv, i as int),
        decreases members.len() - i,
    {
        let ghost m_at_i = map.as_map();
        proof {
            assert(mv[i as int] == members@[i as int].deep_view());
        }
        match &members[i] {
            None => {
                proof {
                    assert(mv[i as int] is None);
                }
            },
            Some(bytes) => {
                proof {
                    assert(mv[i as int] == Some(bytes.deep_view()));
                    assert(bytes.deep_view() =~= bytes@);
                }
                match deserialize_assignment(bytes) {
                    Err(e) => {
                        let ghost fv0 = failures_view(failures@);
                        failures.push(MemberFailure { member: i, error: e });
                        proof {
                            assert(failures_view(failures@) =~= fv0.push((i as int, e)));
                            assert(spec_failures(mv, i as int) == seq![(i as int, e)]
                                + spec_failures(mv, i as int + 1));
                            assert(fv0.push((i as int, e)) + spec_failures(mv, i as int + 1)
                                =~= fv0 + spec_failures(mv, i as int));
                        }
                    },
                    Ok(assignment) => {
                        let ghost a = assignment@;
                        let mut k: usize = 0;
                        while k < assignment.entries.len()
                            invariant
                                k <= assignment.entries.len(),
                                map.wf(),
                                spec_fold_member(m_at_i, a, f, 0) == spec_fold_member(
                                    map.as_map(),
                                    a,
                                    f,
                                    k as int,
                                ),
                            decreases assignment.entries.len() - k,
                        {
                            let entry = &assignment.entries[k];
                            proof {
                                assert(a[k as int] == (entry.name@, entry.partitions@));
                            }
                            let allowed = match topic_filter {
                                Some(t) => entry.name == *t,
                                None => true,
                            };
                            proof {
                                assert(allowed == filter_allows(f, a[k as int].0));
                            }
                            if allowed {
                                fold_topic(&mut map, &entry.name, &entry.partitions);
                            }
                            k = k + 1;
                        }
                        proof {
                            assert(spec_fold_member(m_at_i, a, f, 0) == map.as_map());
                        }
                    },
                }
            },
        }
        i = i + 1;
    }
    proof {
        assert(spec_failures(mv, members@.len() as int) =~= Seq::<(int, DecodeError)>::empty());
        assert(failures_view(failures@) + spec_failures(mv, members@.len() as int)
            =~= failures_view(failures@));
    }
    AggregateOutcome { map, failures }
}

} // verus!
