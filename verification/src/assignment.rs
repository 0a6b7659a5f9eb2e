//! Decoder for the broker's binary consumer-group member-assignment payload.
//!
//! The payload layout is big-endian with no padding: an `int16` version
//! (read and discarded), an `int32` topic count, and for each topic an
//! `int16` name length, that many bytes of UTF-8 topic name, an `int32`
//! partition count and that many `int32` partition ids.  Decoding is
//! strictly sequential and fails closed: any short read, negative count or
//! invalid UTF-8 name aborts the whole decode with an error naming the
//! field that failed.  Duplicate topic names within one payload overwrite
//! the earlier entry (last write wins) while keeping its position.

use vstd::prelude::*;
use vstd::utf8::{decode_utf8, valid_utf8};
use crate::wire::{be_i16_at, be_i32_at, read_i16_be, read_i32_be};

verus! {

/// Which field of the member-assignment payload failed to decode.
#[derive(Clone, Copy, Debug, PartialEq, Eq, Structural)]
pub enum DecodeError {
    /// The two version bytes were missing.
    Version,
    /// The four topic-count bytes were missing, or the count was negative.
    TopicCount,
    /// The two bytes of a topic-name length were missing.
    TopicNameLength,
    /// A topic-name length was negative or ran past the end of the buffer.
    TopicName,
    /// The bytes of a topic name were not valid UTF-8.
    TopicNameEncoding,
    /// The four partition-count bytes were missing, or the count was negative.
    PartitionCount,
    /// A partition id ran past the end of the buffer.
    Partition,
}

impl DecodeError {
    /// The diagnostic text for this decode failure.
    pub open spec fn spec_message(self) -> Seq<char> {
        match self {
            DecodeError::Version => "Error while reading assignment version:"@,
            DecodeError::TopicCount => "Error while reading topic count:"@,
            DecodeError::TopicNameLength => "Error while reading topic length:"@,
            DecodeError::TopicName => "Error while reading topic name:"@,
            DecodeError::TopicNameEncoding => "Error while converting topic name"@,
            DecodeError::PartitionCount => "Error while reading partition count:"@,
            DecodeError::Partition => "Error while reading partition:"@,
        }
    }

    /// Renders the diagnostic text for this decode failure.
    pub fn message(&self) -> (m: &'static str)
        ensures
            m@ == self.spec_message(),
    {
        match self {
            DecodeError::Version => "Error while reading assignment version:",
            DecodeError::TopicCount => "Error while reading topic count:",
            DecodeError::TopicNameLength => "Error while reading topic length:",
            DecodeError::TopicName => "Error while reading topic name:",
            DecodeError::TopicNameEncoding => "Error while converting topic name",
            DecodeError::PartitionCount => "Error while reading partition count:",
            DecodeError::Partition => "Error while reading partition:",
        }
    }
}

/// One decoded topic entry: a topic name and the partition ids assigned to
/// the member for that topic, in wire order.
#[derive(Debug)]
pub struct TopicEntry {
    pub name: String,
    pub partitions: Vec<i32>,
}

impl View for TopicEntry {
    type V = (Seq<char>, Seq<i32>);

    open spec fn view(&self) -> (Seq<char>, Seq<i32>) {
        (self.name@, self.partitions@)
    }
}

/// The mathematical content of a decoded assignment: topic names paired
/// with their partition lists, in encounter order.
pub type AssignmentSeq = Seq<(Seq<char>, Seq<i32>)>;

/// The view of a sequence of decoded topic entries.
pub open spec fn entries_view(entries: Seq<TopicEntry>) -> AssignmentSeq {
    entries.map_values(|e: TopicEntry| e@)
}

/// True when no topic name occurs twice.
pub open spec fn unique_names(m: AssignmentSeq) -> bool {
    forall|i: int, j: int| 0 <= i < j < m.len() ==> m[i].0 != m[j].0
}

/// True when some entry carries the given topic name.
pub open spec fn has_name(m: AssignmentSeq, name: Seq<char>) -> bool {
    exists|i: int| 0 <= i < m.len() && m[i].0 == name
}

/// The index of an entry carrying the given topic name.
pub open spec fn index_of_name(m: AssignmentSeq, name: Seq<char>) -> int {
    choose|i: int| 0 <= i < m.len() && m[i].0 == name
}

/// Replaces the partitions of an existing entry with this name (keeping
/// its position), or appends a new entry: last write wins.
pub open spec fn spec_upsert(m: AssignmentSeq, name: Seq<char>, parts: Seq<i32>) -> AssignmentSeq {
    if has_name(m, name) {
        m.update(index_of_name(m, name), (name, parts))
    } else {
        m.push((name, parts))
    }
}

/// An ordered mapping from topic name to assigned partition ids, decoded
/// from one member-assignment payload.  Well-formed values never repeat a
/// topic name.
#[derive(Debug)]
pub struct TopicAssignment {
    pub entries: Vec<TopicEntry>,
}

impl View for TopicAssignment {
    type V = AssignmentSeq;

    open spec fn view(&self) -> AssignmentSeq {
        entries_view(self.entries@)
    }
}

impl TopicAssignment {
    /// Topic names are unique, so the mapping reads as a map.
    pub open spec fn wf(self) -> bool {
        unique_names(self@)
    }

    /// Looks up the partition list recorded for a topic name.
    pub fn find_topic(&self, topic: &String) -> (r: Option<&Vec<i32>>)
        requires
            self.wf(),
        ensures
            match r {
                Some(v) => has_name(self@, topic@) && v@ == self@[index_of_name(
                    self@,
                    topic@,
                )].1,
                None => !has_name(self@, topic@),
            },
    {
        let mut k: usize = 0;
        while k < self.entries.len()
            invariant
                self.wf(),
                k <= self.entries.len(),
                forall|t: int| 0 <= t < k ==> self@[t].0 != topic@,
            decreases self.entries.len() - k,
        {
            if self.entries[k].name == *topic {
                proof {
                    assert(self@[k as int].0 == topic@);
                    lemma_unique_index(self@, topic@, k as int);
                }
                return Some(&self.entries[k].partitions);
            }
            k = k + 1;
        }
        None
    }
}

/// In a duplicate-free mapping, an entry whose name matches is the entry
/// the name points at.
pub proof fn lemma_unique_index(m: AssignmentSeq, name: Seq<char>, k: int)
    requires
        unique_names(m),
        0 <= k < m.len(),
        m[k].0 == name,
    ensures
        has_name(m, name),
        index_of_name(m, name) == k,
{
    assert(has_name(m, name));
    let i = index_of_name(m, name);
    assert(0 <= i < m.len() && m[i].0 == name);
    if i < k {
        assert(m[i].0 != m[k].0);
    } else if k < i {
        assert(m[k].0 != m[i].0);
    }
}

/// The partition ids of one topic entry: `count` big-endian `int32`
/// values starting at `pos`.
pub open spec fn spec_partitions(data: Seq<u8>, pos: int, count: int) -> Seq<i32> {
    Seq::new(count as nat, |j: int| be_i32_at(data, pos + 4 * j) as i32)
}

/// Parses the remaining `n` topic entries starting at `pos`, folding each
/// into the accumulated mapping.
pub open spec fn spec_parse_topics(data: Seq<u8>, pos: int, n: int, acc: AssignmentSeq) -> Result<
    AssignmentSeq,
    DecodeError,
>
    decreases n,
{
    if n <= 0 {
        Ok(acc)
    } else if pos + 2 > data.len() {
        Err(DecodeError::TopicNameLength)
    } else {
        let name_len = be_i16_at(data, pos);
        if name_len < 0 || pos + 2 + name_len > data.len() {
            Err(DecodeError::TopicName)
        } else {
            let name_bytes = data.subrange(pos + 2, pos + 2 + name_len);
            if !valid_utf8(name_bytes) {
                Err(DecodeError::TopicNameEncoding)
            } else {
                let ppos = pos + 2 + name_len;
                if ppos + 4 > data.len() {
                    Err(DecodeError::PartitionCount)
                } else {
                    let pcount = be_i32_at(data, ppos);
                    if pcount < 0 {
                        Err(DecodeError::PartitionCount)
                    } else if ppos + 4 + 4 * pcount > data.len() {
                        Err(DecodeError::Partition)
                    } else {
                        spec_parse_topics(
                            data,
                            ppos + 4 + 4 * pcount,
                            n - 1,
                            spec_upsert(
                                acc,
                                decode_utf8(name_bytes),
                                spec_partitions(data, ppos + 4, pcount),
                            ),
                        )
                    }
                }
            }
        }
    }
}

/// What decoding a member-assignment payload yields: the topic mapping in
/// encounter order, or the first field that failed.
pub open spec fn spec_deserialize(data: Seq<u8>) -> Result<AssignmentSeq, DecodeError> {
    if data.len() < 2 {
        Err(DecodeError::Version)
    } else if data.len() < 6 {
        Err(DecodeError::TopicCount)
    } else {
        let topic_count = be_i32_at(data, 2);
        if topic_count < 0 {
            Err(DecodeError::TopicCount)
        } else {
            spec_parse_topics(data, 6, topic_count, Seq::empty())
        }
    }
}

/// Relies on `core::str::from_utf8`: it succeeds exactly on valid UTF-8
/// input, and the characters of the result are the UTF-8 decoding of the
/// input bytes.
#[verifier::external_body]
fn bytes_to_string(bytes: &Vec<u8>) -> (r: Option<String>)
    ensures
        r is Some <==> valid_utf8(bytes@),
        r matches Some(s) ==> s@ == decode_utf8(bytes@),
{
    match core::str::from_utf8(bytes.as_slice()) {
        Ok(s) => Some(s.to_owned()),
        Err(_) => None,
    }
}

/// Folds one decoded topic into the entries gathered so far: overwrites
/// the partitions of an entry already carrying this name, else appends.
#[verifier::loop_isolation(false)]
fn upsert_entry(entries: &mut Vec<TopicEntry>, name: String, partitions: Vec<i32>)
    requires
        unique_names(entries_view(old(entries)@)),
    ensures
        entries_view(final(entries)@) == spec_upsert(
            entries_view(old(entries)@),
            name@,
            partitions@,
        ),
        unique_names(entries_view(final(entries)@)),
{
    let ghost m = entries_view(entries@);
    let ghost gname = name@;
    let ghost gparts = partitions@;
    let mut k: usize = 0;
    while k < entries.len()
        invariant
            unique_names(m),
            m == entries_view(entries@),
            k <= entries.len(),
            forall|t: int| 0 <= t < k ==> m[t].0 != name@,
        decreases entries.len() - k,
    {
        if entries[k].name == name {
            proof {
                lemma_unique_index(m, name@, k as int);
            }
            entries.set(k, TopicEntry { name, partitions });
            proof {
                let m2 = entries_view(entries@);
                assert(m2 =~= m.update(k as int, (gname, gparts)));
                assert forall|i: int, j: int| 0 <= i < j < m2.len() implies m2[i].0
                    != m2[j].0 by {
                    assert(m[i].0 != m[j].0);
                }
            }
            return ;
        }
        k = k + 1;
    }
    entries.push(TopicEntry { name, partitions });
    proof {
        let m2 = entries_view(entries@);
        assert(m2 =~= m.push((gname, gparts)));
        assert(!has_name(m, gname));
        assert forall|i: int, j: int| 0 <= i < j < m2.len() implies m2[i].0 != m2[j].0 by {
            if j < m.len() {
                assert(m[i].0 != m[j].0);
            } else {
                assert(m2[j].0 == gname);
                assert(m2[i].0 == m[i].0);
            }
        }
    }
}

/// Decodes one member-assignment payload.
///
/// On success the result lists each topic with its assigned partition ids
/// exactly as `spec_deserialize` reads them from the bytes; on failure the
/// error names the first field that could not be read.  The input buffer
/// is only read; bytes after the declared content are ignored.
#[verifier::loop_isolation(false)]
pub fn deserialize_assignment(data: &Vec<u8>) -> (r: Result<TopicAssignment, DecodeError>)
    ensures
        match r {
            Ok(a) => a.wf() && spec_deserialize(data@) == Ok::<AssignmentSeq, DecodeError>(a@),
            Err(e) => spec_deserialize(data@) == Err::<AssignmentSeq, DecodeError>(e),
        },
{
    if data.len() < 2 {
        return Err(DecodeError::Version);
    }
    if data.len() < 6 {
        return Err(DecodeError::TopicCount);
    }
    let _version = read_i16_be(data, 0);
    let topic_count = read_i32_be(data, 2);
    if topic_count < 0 {
        return Err(DecodeError::TopicCount);
    }
    let tc = topic_count as usize;
    let mut entries: Vec<TopicEntry> = Vec::new();
    proof {
        assert(entries_view(entries@) =~= Seq::<(Seq<char>, Seq<i32>)>::empty());
    }
    let mut pos: usize = 6;
    let mut i: usize = 0;
    while i < tc
        invariant
            data.len() >= 6,
            tc == spec_deserialize_count(data@),
            i <= tc,
            6 <= pos <= data.len(),
            unique_names(entries_view(entries@)),
            spec_parse_topics(data@, 6, tc as int, Seq::empty()) == spec_parse_topics(
                data@,
                pos as int,
                tc - i,
                entries_view(entries@),
            ),
        decreases tc - i,
    {
        let ghost acc = entries_view(entries@);
        if data.len() - pos < 2 {
            return Err(DecodeError::TopicNameLength);
        }
        let name_len = read_i16_be(data, pos);
        if name_len < 0 {
            return Err(DecodeError::TopicName);
        }
        let nl = name_len as usize;
        if data.len() - (pos + 2) < nl {
            return Err(DecodeError::TopicName);
        }
        let mut name_bytes: Vec<u8> = Vec::new();
        let mut j: usize = 0;
        while j < nl
            invariant
                pos + 2 + nl <= data.len(),
                j <= nl,
                name_bytes@ =~= data@.subrange(pos + 2, pos + 2 + j),
            decreases nl - j,
        {
            name_bytes.push(data[pos + 2 + j]);
            j = j + 1;
        }
        proof {
            assert(name_bytes@ =~= data@.subrange(pos as int + 2, pos as int + 2 + nl));
        }
        let name = match bytes_to_string(&name_bytes) {
            Some(s) => s,
            None => {
                return Err(DecodeError::TopicNameEncoding);
            },
        };
        let ppos = pos + 2 + nl;
        if data.len() - ppos < 4 {
            return Err(DecodeError::PartitionCount);
        }
        let partition_count = read_i32_be(data, ppos);
        if partition_count < 0 {
            return Err(DecodeError::PartitionCount);
        }
        let pc = partition_count as usize;
        let body = ppos + 4;
        if (data.len() - body) / 4 < pc {
            proof {
                vstd::arithmetic::div_mod::lemma_fundamental_div_mod(
                    data.len() - body as int,
                    4,
                );
            }
            return Err(DecodeError::Partition);
        }
        proof {
            vstd::arithmetic::div_mod::lemma_fundamental_div_mod(data.len() - body as int, 4);
            assert(body + 4 * pc <= data.len());
        }
        let mut partitions: Vec<i32> = Vec::new();
        let mut k: usize = 0;
        while k < pc
            invariant
                body + 4 * pc <= data.len(),
                k <= pc,
                partitions.len() == k,
                forall|t: int| 0 <= t < k ==> partitions@[t] as int == be_i32_at(
                    data@,
                    body + 4 * t,
                ),
            decreases pc - k,
        {
            partitions.push(read_i32_be(data, body + 4 * k));
            k = k + 1;
        }
        proof {
            assert(partitions@ =~= spec_partitions(data@, body as int, pc as int));
        }
        let ghost gname = name@;
        upsert_entry(&mut entries, name, partitions);
        let new_pos = body + 4 * pc;
        proof {
            assert(gname == decode_utf8(data@.subrange(pos as int + 2, pos as int + 2 + nl)));
            assert(entries_view(entries@) == spec_upsert(
                acc,
                gname,
                spec_partitions(data@, body as int, pc as int),
            ));
            assert(spec_parse_topics(data@, pos as int, tc - i, acc) == spec_parse_topics(
                data@,
                new_pos as int,
                tc - i - 1,
                entries_view(entries@),
            ));
        }
        pos = new_pos;
        i = i + 1;
    }
    Ok(TopicAssignment { entries })
}

/// The topic count the payload declares, once the fixed header is known
/// to be present and non-negative.
pub open spec fn spec_deserialize_count(data: Seq<u8>) -> int {
    be_i32_at(data, 2)
}

/// The wire bytes of a partition-id list: each id as a big-endian `int32`.
pub open spec fn spec_encode_partitions(parts: Seq<i32>) -> Seq<u8>
    decreases parts.len(),
{
    if parts.len() == 0 {
        Seq::empty()
    } else {
        crate::wire::i32_be_bytes(parts[0] as int) + spec_encode_partitions(parts.drop_first())
    }
}

/// The wire bytes of one topic entry: name length, name, partition count,
/// partition ids.
pub open spec fn spec_encode_entry(name: Seq<char>, parts: Seq<i32>) -> Seq<u8> {
    crate::wire::i16_be_bytes(vstd::utf8::encode_utf8(name).len() as int) + vstd::utf8::encode_utf8(
        name,
    ) + crate::wire::i32_be_bytes(parts.len() as int) + spec_encode_partitions(parts)
}

/// The wire bytes of a sequence of topic entries, in order.
pub open spec fn spec_encode_entries(m: AssignmentSeq) -> Seq<u8>
    decreases m.len(),
{
    if m.len() == 0 {
        Seq::empty()
    } else {
        spec_encode_entry(m[0].0, m[0].1) + spec_encode_entries(m.drop_first())
    }
}

/// The full wire payload: version, topic count, topic entries.
pub open spec fn spec_encode(version: i16, m: AssignmentSeq) -> Seq<u8> {
    crate::wire::i16_be_bytes(version as int) + crate::wire::i32_be_bytes(m.len() as int)
        + spec_encode_entries(m)
}

/// True when one topic entry fits the wire format's field widths: the
/// UTF-8 name no longer than an `int16` can say, the partition list no
/// longer than an `int32` can say.
pub open spec fn encodable_entry(name: Seq<char>, parts: Seq<i32>) -> bool {
    &&& vstd::utf8::encode_utf8(name).len() <= 0x7FFF
    &&& parts.len() <= 0x7FFF_FFFF
}

/// True when a whole assignment fits the wire format's field widths.
pub open spec fn encodable(m: AssignmentSeq) -> bool {
    &&& m.len() <= 0x7FFF_FFFF
    &&& forall|i: int| 0 <= i < m.len() ==> encodable_entry(m[i].0, m[i].1)
}

/// The encoded partition list is four bytes per partition id.
pub proof fn lemma_encode_partitions_len(parts: Seq<i32>)
    ensures
        spec_encode_partitions(parts).len() == 4 * parts.len(),
    decreases parts.len(),
{
    if parts.len() > 0 {
        lemma_encode_partitions_len(parts.drop_first());
    }
}

/// Appending one partition id appends its four bytes.
pub proof fn lemma_encode_partitions_push(parts: Seq<i32>, p: i32)
    ensures
        spec_encode_partitions(parts.push(p)) == spec_encode_partitions(parts)
            + crate::wire::i32_be_bytes(p as int),
    decreases parts.len(),
{
    if parts.len() == 0 {
        assert(parts.push(p).drop_first() =~= Seq::<i32>::empty());
        assert(spec_encode_partitions(Seq::<i32>::empty()) =~= Seq::<u8>::empty());
        assert(parts.push(p)[0] == p);
        assert(spec_encode_partitions(parts.push(p)) =~= crate::wire::i32_be_bytes(p as int));
        assert(spec_encode_partitions(parts) + crate::wire::i32_be_bytes(p as int)
            =~= crate::wire::i32_be_bytes(p as int));
    } else {
        assert(parts.push(p).drop_first() =~= parts.drop_first().push(p));
        lemma_encode_partitions_push(parts.drop_first(), p);
        assert(spec_encode_partitions(parts.push(p)) =~= spec_encode_partitions(parts)
            + crate::wire::i32_be_bytes(p as int));
    }
}

/// The four bytes of partition `j` sit at offset `4 * j` of the encoded
/// partition list.
pub proof fn lemma_encode_partitions_index(parts: Seq<i32>, j: int)
    requires
        0 <= j < parts.len(),
    ensures
        spec_encode_partitions(parts).subrange(4 * j, 4 * j + 4) == crate::wire::i32_be_bytes(
            parts[j] as int,
        ),
    decreases j,
{
    lemma_encode_partitions_len(parts);
    lemma_encode_partitions_len(parts.drop_first());
    if j == 0 {
        assert(spec_encode_partitions(parts).subrange(0, 4) =~= crate::wire::i32_be_bytes(
            parts[0] as int,
        ));
    } else {
        lemma_encode_partitions_index(parts.drop_first(), j - 1);
        assert(spec_encode_partitions(parts).subrange(4 * j, 4 * j + 4) =~= spec_encode_partitions(
            parts.drop_first(),
        ).subrange(4 * (j - 1), 4 * (j - 1) + 4));
    }
}

/// Appending one topic entry appends its wire bytes.
pub proof fn lemma_encode_entries_push(m: AssignmentSeq, e: (Seq<char>, Seq<i32>))
    ensures
        spec_encode_entries(m.push(e)) == spec_encode_entries(m) + spec_encode_entry(e.0, e.1),
    decreases m.len(),
{
    if m.len() == 0 {
        assert(m.push(e).drop_first() =~= Seq::<(Seq<char>, Seq<i32>)>::empty());
        assert(spec_encode_entries(Seq::<(Seq<char>, Seq<i32>)>::empty()) =~= Seq::<u8>::empty());
        assert(m.push(e)[0] == e);
        assert(spec_encode_entries(m.push(e)) =~= spec_encode_entry(e.0, e.1));
        assert(spec_encode_entries(m) + spec_encode_entry(e.0, e.1) =~= spec_encode_entry(
            e.0,
            e.1,
        ));
    } else {
        assert(m.push(e).drop_first() =~= m.drop_first().push(e));
        lemma_encode_entries_push(m.drop_first(), e);
        assert(spec_encode_entries(m.push(e)) =~= spec_encode_entries(m) + spec_encode_entry(
            e.0,
            e.1,
        ));
    }
}

/// Appends a copy of `bytes` to `out`.
fn push_bytes(out: &mut Vec<u8>, bytes: &Vec<u8>)
    ensures
        final(out)@ == old(out)@ + bytes@,
{
    let mut j: usize = 0;
    while j < bytes.len()
        invariant
            j <= bytes.len(),
            out@ =~= old(out)@ + bytes@.take(j as int),
        decreases bytes.len() - j,
    {
        out.push(bytes[j]);
        j = j + 1;
    }
    proof {
        assert(out@ =~= old(out)@ + bytes@);
    }
}

/// A reference encoder for member-assignment payloads: produces exactly
/// the bytes that `deserialize_assignment` reads back.
#[verifier::loop_isolation(false)]
pub fn encode_assignment(version: i16, assignment: &TopicAssignment) -> (out: Vec<u8>)
    requires
        encodable(assignment@),
    ensures
        out@ == spec_encode(version, assignment@),
{
    let ghost m = assignment@;
    let mut out: Vec<u8> = Vec::new();
    crate::wire::push_i16_be(&mut out, version);
    crate::wire::push_i32_be(&mut out, assignment.entries.len() as i32);
    proof {
        assert(out@ =~= crate::wire::i16_be_bytes(version as int) + crate::wire::i32_be_bytes(
            m.len() as int,
        ) + spec_encode_entries(m.take(0)));
    }
    let mut i: usize = 0;
    while i < assignment.entries.len()
        invariant
            i <= assignment.entries.len(),
            out@ == crate::wire::i16_be_bytes(version as int) + crate::wire::i32_be_bytes(
                m.len() as int,
            ) + spec_encode_entries(m.take(i as int)),
        decreases assignment.entries.len() - i,
    {
        let ghost out0 = out@;
        let entry = &assignment.entries[i];
        let name_bytes = entry.name.as_str().as_bytes_vec();
        crate::wire::push_i16_be(&mut out, name_bytes.len() as i16);
        push_bytes(&mut out, &name_bytes);
        crate::wire::push_i32_be(&mut out, entry.partitions.len() as i32);
        let ghost base = out@;
        let mut k: usize = 0;
        while k < entry.partitions.len()
            invariant
                k <= entry.partitions.len(),
                out@ == base + spec_encode_partitions(entry.partitions@.take(k as int)),
            decreases entry.partitions.len() - k,
        {
            crate::wire::push_i32_be(&mut out, entry.partitions[k]);
            proof {
                lemma_encode_partitions_push(
                    entry.partitions@.take(k as int),
                    entry.partitions@[k as int],
                );
                assert(entry.partitions@.take(k as int).push(entry.partitions@[k as int])
                    =~= entry.partitions@.take(k as int + 1));
            }
            k = k + 1;
        }
        proof {
            assert(entry.partitions@.take(entry.partitions.len() as int) =~= entry.partitions@);
            assert(out@ =~= out0 + spec_encode_entry(m[i as int].0, m[i as int].1));
            lemma_encode_entries_push(m.take(i as int), m[i as int]);
            assert(m.take(i as int).push(m[i as int]) =~= m.take(i as int + 1));
            assert(out@ =~= crate::wire::i16_be_bytes(version as int) + crate::wire::i32_be_bytes(
                m.len() as int,
            ) + spec_encode_entries(m.take(i as int + 1)));
        }
        i = i + 1;
    }
    proof {
        assert(m.take(m.len() as int) =~= m);
    }
    out
}

/// The number of wire bytes one topic entry occupies.
pub open spec fn spec_entry_len(name: Seq<char>, parts: Seq<i32>) -> int {
    2 + vstd::utf8::encode_utf8(name).len() as int + 4 + 4 * parts.len() as int
}

/// Where an encoded entry sits in a larger buffer, each of its fields
/// reads back as the value that was encoded.
proof fn lemma_entry_parse_fields(data: Seq<u8>, pos: int, name: Seq<char>, parts: Seq<i32>)
    requires
        0 <= pos,
        pos + spec_entry_len(name, parts) <= data.len(),
        data.subrange(pos, pos + spec_entry_len(name, parts)) == spec_encode_entry(name, parts),
        encodable_entry(name, parts),
    ensures
        be_i16_at(data, pos) == vstd::utf8::encode_utf8(name).len(),
        data.subrange(
            pos + 2,
            pos + 2 + vstd::utf8::encode_utf8(name).len(),
        ) == vstd::utf8::encode_utf8(name),
        be_i32_at(data, pos + 2 + vstd::utf8::encode_utf8(name).len()) == parts.len(),
        spec_partitions(
            data,
            pos + 2 + vstd::utf8::encode_utf8(name).len() + 4,
            parts.len() as int,
        ) == parts,
{
    let nb = vstd::utf8::encode_utf8(name);
    let nl = nb.len() as int;
    let el = spec_entry_len(name, parts);
    let eb = spec_encode_entry(name, parts);
    let pe = spec_encode_partitions(parts);
    lemma_encode_partitions_len(parts);
    assert(eb.len() == el);
    assert forall|t: int| 0 <= t < el implies data[pos + t] == eb[t] by {
        assert(data.subrange(pos, pos + el)[t] == data[pos + t]);
    }
    crate::wire::lemma_i16_be_roundtrip(nl);
    assert(eb[0] == crate::wire::i16_be_bytes(nl)[0]);
    assert(eb[1] == crate::wire::i16_be_bytes(nl)[1]);
    assert(be_i16_at(data, pos) == nl);
    assert(data.subrange(pos + 2, pos + 2 + nl) =~= nb) by {
        assert forall|t: int| 0 <= t < nl implies data[pos + 2 + t] == nb[t] by {
            assert(eb[2 + t] == nb[t]);
        }
    }
    let ppos = pos + 2 + nl;
    crate::wire::lemma_i32_be_roundtrip(parts.len() as int);
    assert(eb[2 + nl] == crate::wire::i32_be_bytes(parts.len() as int)[0]);
    assert(eb[2 + nl + 1] == crate::wire::i32_be_bytes(parts.len() as int)[1]);
    assert(eb[2 + nl + 2] == crate::wire::i32_be_bytes(parts.len() as int)[2]);
    assert(eb[2 + nl + 3] == crate::wire::i32_be_bytes(parts.len() as int)[3]);
    assert(be_i32_at(data, ppos) == parts.len());
    assert(spec_partitions(data, ppos + 4, parts.len() as int) =~= parts) by {
        assert forall|j: int| 0 <= j < parts.len() implies spec_partitions(
            data,
            ppos + 4,
            parts.len() as int,
        )[j] == parts[j] by {
            lemma_encode_partitions_index(parts, j);
            crate::wire::lemma_i32_be_roundtrip(parts[j] as int);
            let pb = crate::wire::i32_be_bytes(parts[j] as int);
            assert forall|t: int| 0 <= t < 4 implies data[ppos + 4 + 4 * j + t] == pb[t] by {
                assert(pe.subrange(4 * j, 4 * j + 4)[t] == pe[4 * j + t]);
                assert(eb[2 + nl + 4 + 4 * j + t] == pe[4 * j + t]);
            }
            assert(be_i32_at(data, ppos + 4 + 4 * j) == parts[j]);
        }
    }
}

/// Parsing the encoding of `rest`, with `acc` already gathered and no
/// name repeated anywhere, appends exactly `rest`.
proof fn lemma_parse_encoded(data: Seq<u8>, pos: int, rest: AssignmentSeq, acc: AssignmentSeq)
    requires
        0 <= pos <= data.len(),
        data.subrange(pos, data.len() as int) == spec_encode_entries(rest),
        forall|i: int| 0 <= i < rest.len() ==> encodable_entry(rest[i].0, rest[i].1),
        unique_names(acc + rest),
    ensures
        spec_parse_topics(data, pos, rest.len() as int, acc) == Ok::<AssignmentSeq, DecodeError>(
            acc + rest,
        ),
    decreases rest.len(),
{
    if rest.len() == 0 {
        assert(acc + rest =~= acc);
    } else {
        let name = rest[0].0;
        let parts = rest[0].1;
        let nb = vstd::utf8::encode_utf8(name);
        let nl = nb.len() as int;
        let el = spec_entry_len(name, parts);
        let tail = spec_encode_entries(rest.drop_first());
        assert(encodable_entry(name, parts));
        lemma_encode_partitions_len(parts);
        assert(spec_encode_entries(rest) == spec_encode_entry(name, parts) + tail);
        assert(data.len() - pos == el + tail.len());
        assert(data.subrange(pos, pos + el) =~= spec_encode_entry(name, parts)) by {
            assert forall|t: int| 0 <= t < el implies data.subrange(pos, pos + el)[t]
                == spec_encode_entry(name, parts)[t] by {
                assert(data[pos + t] == data.subrange(pos, data.len() as int)[t]);
            }
        }
        lemma_entry_parse_fields(data, pos, name, parts);
        vstd::utf8::encode_utf8_valid_utf8(name);
        vstd::utf8::encode_utf8_decode_utf8(name);
        assert(!has_name(acc, name)) by {
            if has_name(acc, name) {
                let i = index_of_name(acc, name);
                assert((acc + rest)[i].0 == name);
                assert((acc + rest)[acc.len() as int].0 == name);
            }
        }
        let acc2 = acc.push(rest[0]);
        assert((name, parts) == rest[0]);
        assert(spec_upsert(acc, decode_utf8(data.subrange(pos + 2, pos + 2 + nl)), spec_partitions(
            data,
            pos + 2 + nl + 4,
            parts.len() as int,
        )) == acc2);
        assert(spec_parse_topics(data, pos, rest.len() as int, acc) == spec_parse_topics(
            data,
            pos + el,
            rest.len() - 1,
            acc2,
        ));
        assert(data.subrange(pos + el, data.len() as int) =~= tail) by {
            assert forall|t: int| 0 <= t < tail.len() implies data.subrange(
                pos + el,
                data.len() as int,
            )[t] == tail[t] by {
                assert(data[pos + el + t] == data.subrange(pos, data.len() as int)[el + t]);
                assert(spec_encode_entries(rest)[el + t] == tail[t]);
            }
        }
        assert(unique_names(acc2 + rest.drop_first())) by {
            assert(acc2 + rest.drop_first() =~= acc + rest);
        }
        lemma_parse_encoded(data, pos + el, rest.drop_first(), acc2);
        assert(acc2 + rest.drop_first() =~= acc + rest);
    }
}

/// Round trip: decoding any payload that the reference encoder produced
/// from a duplicate-free assignment yields that assignment back, whatever
/// the version field says.
pub proof fn lemma_encode_decode(version: i16, m: AssignmentSeq)
    requires
        encodable(m),
        unique_names(m),
    ensures
        spec_deserialize(spec_encode(version, m)) == Ok::<AssignmentSeq, DecodeError>(m),
{
    let data = spec_encode(version, m);
    let vb = crate::wire::i16_be_bytes(version as int);
    let cb = crate::wire::i32_be_bytes(m.len() as int);
    let eb = spec_encode_entries(m);
    assert(data.len() == 6 + eb.len());
    crate::wire::lemma_i32_be_roundtrip(m.len() as int);
    assert(data[2] == cb[0]);
    assert(data[3] == cb[1]);
    assert(data[4] == cb[2]);
    assert(data[5] == cb[3]);
    assert(be_i32_at(data, 2) == m.len());
    assert(data.subrange(6, data.len() as int) =~= eb) by {
        assert forall|t: int| 0 <= t < eb.len() implies data.subrange(6, data.len() as int)[t]
            == eb[t] by {
            assert(data[6 + t] == eb[t]);
        }
    }
    assert(unique_names(Seq::<(Seq<char>, Seq<i32>)>::empty() + m)) by {
        assert(Seq::<(Seq<char>, Seq<i32>)>::empty() + m =~= m);
    }
    lemma_parse_encoded(data, 6, m, Seq::empty());
    assert(Seq::<(Seq<char>, Seq<i32>)>::empty() + m =~= m);
}


/// The field that a cut at byte `j` lands in, within the entries whose
/// encoding starts at `pos`: the name length, the name bytes, the
/// partition count, a partition id, or a field of a later entry.
pub open spec fn spec_cut_field(rest: AssignmentSeq, pos: int, j: int) -> DecodeError
    decreases rest.len(),
{
    if rest.len() == 0 {
        DecodeError::TopicNameLength
    } else {
        let nl = vstd::utf8::encode_utf8(rest[0].0).len() as int;
        let el = spec_entry_len(rest[0].0, rest[0].1);
        if j < pos + 2 {
            DecodeError::TopicNameLength
        } else if j < pos + 2 + nl {
            DecodeError::TopicName
        } else if j < pos + 2 + nl + 4 {
            DecodeError::PartitionCount
        } else if j < pos + el {
            DecodeError::Partition
        } else {
            spec_cut_field(rest.drop_first(), pos + el, j)
        }
    }
}

/// The field that truncating the encoded payload at byte `j` cuts: the
/// version or topic count within the six header bytes, else a field of
/// the topic entry the cut lands in.
pub open spec fn spec_truncation_field(m: AssignmentSeq, j: int) -> DecodeError {
    if j < 2 {
        DecodeError::Version
    } else if j < 6 {
        DecodeError::TopicCount
    } else {
        spec_cut_field(m, 6, j)
    }
}

/// Parsing a truncated encoding fails, naming the cut field: with the
/// cut strictly inside the bytes that the remaining entries occupy, the
/// field it lands in runs past the end.
proof fn lemma_parse_truncated(
    data: Seq<u8>,
    pos: int,
    rest: AssignmentSeq,
    acc: AssignmentSeq,
    j: int,
)
    requires
        0 <= pos <= j < data.len(),
        data.subrange(pos, data.len() as int) == spec_encode_entries(rest),
        forall|i: int| 0 <= i < rest.len() ==> encodable_entry(rest[i].0, rest[i].1),
    ensures
        spec_parse_topics(data.take(j), pos, rest.len() as int, acc) == Err::<
            AssignmentSeq,
            DecodeError,
        >(spec_cut_field(rest, pos, j)),
    decreases rest.len(),
{
    let d2 = data.take(j);
    if rest.len() == 0 {
        assert(data.subrange(pos, data.len() as int).len() == 0);
        assert(false);
    } else {
        let name = rest[0].0;
        let parts = rest[0].1;
        let nb = vstd::utf8::encode_utf8(name);
        let nl = nb.len() as int;
        let el = spec_entry_len(name, parts);
        let tail = spec_encode_entries(rest.drop_first());
        assert(encodable_entry(name, parts));
        lemma_encode_partitions_len(parts);
        assert(spec_encode_entries(rest) == spec_encode_entry(name, parts) + tail);
        assert(data.len() - pos == el + tail.len());
        assert(data.subrange(pos, pos + el) =~= spec_encode_entry(name, parts)) by {
            assert forall|t: int| 0 <= t < el implies data.subrange(pos, pos + el)[t]
                == spec_encode_entry(name, parts)[t] by {
                assert(data[pos + t] == data.subrange(pos, data.len() as int)[t]);
            }
        }
        lemma_entry_parse_fields(data, pos, name, parts);
        if j < pos + 2 {
            assert(spec_parse_topics(d2, pos, rest.len() as int, acc) == Err::<
                AssignmentSeq,
                DecodeError,
            >(DecodeError::TopicNameLength));
        } else {
            assert(be_i16_at(d2, pos) == nl) by {
                assert(d2[pos] == data[pos]);
                assert(d2[pos + 1] == data[pos + 1]);
            }
            if j < pos + 2 + nl {
                assert(spec_parse_topics(d2, pos, rest.len() as int, acc) == Err::<
                    AssignmentSeq,
                    DecodeError,
                >(DecodeError::TopicName));
            } else {
                assert(d2.subrange(pos + 2, pos + 2 + nl) =~= nb) by {
                    assert forall|t: int| 0 <= t < nl implies d2.subrange(
                        pos + 2,
                        pos + 2 + nl,
                    )[t] == nb[t] by {
                        assert(d2[pos + 2 + t] == data[pos + 2 + t]);
                        assert(data.subrange(pos + 2, pos + 2 + nl)[t] == nb[t]);
                    }
                }
                vstd::utf8::encode_utf8_valid_utf8(name);
                let ppos = pos + 2 + nl;
                if j < ppos + 4 {
                    assert(spec_parse_topics(d2, pos, rest.len() as int, acc) == Err::<
                        AssignmentSeq,
                        DecodeError,
                    >(DecodeError::PartitionCount));
                } else {
                    assert(be_i32_at(d2, ppos) == parts.len()) by {
                        assert(d2[ppos] == data[ppos]);
                        assert(d2[ppos + 1] == data[ppos + 1]);
                        assert(d2[ppos + 2] == data[ppos + 2]);
                        assert(d2[ppos + 3] == data[ppos + 3]);
                    }
                    if j < ppos + 4 + 4 * parts.len() {
                        assert(spec_parse_topics(d2, pos, rest.len() as int, acc) == Err::<
                            AssignmentSeq,
                            DecodeError,
                        >(DecodeError::Partition));
                    } else {
                        let acc2 = spec_upsert(
                            acc,
                            decode_utf8(d2.subrange(pos + 2, pos + 2 + nl)),
                            spec_partitions(d2, ppos + 4, parts.len() as int),
                        );
                        assert(spec_parse_topics(d2, pos, rest.len() as int, acc)
                            == spec_parse_topics(d2, pos + el, rest.len() - 1, acc2));
                        assert(data.subrange(pos + el, data.len() as int) =~= tail) by {
                            assert forall|t: int| 0 <= t < tail.len() implies data.subrange(
                                pos + el,
                                data.len() as int,
                            )[t] == tail[t] by {
                                assert(data[pos + el + t] == data.subrange(
                                    pos,
                                    data.len() as int,
                                )[el + t]);
                                assert(spec_encode_entries(rest)[el + t] == tail[t]);
                            }
                        }
                        lemma_parse_truncated(data, pos + el, rest.drop_first(), acc2, j);
                    }
                }
            }
        }
    }
}

/// Truncating an encoded payload at any byte boundary before its declared
/// end makes decoding fail with the error that names the cut field —
/// never succeed, panic or read out of bounds.
pub proof fn lemma_truncated_decode_errs(version: i16, m: AssignmentSeq, j: int)
    requires
        encodable(m),
        0 <= j < spec_encode(version, m).len(),
    ensures
        spec_deserialize(spec_encode(version, m).take(j)) == Err::<AssignmentSeq, DecodeError>(
            spec_truncation_field(m, j),
        ),
{
    let data = spec_encode(version, m);
    let d2 = data.take(j);
    let cb = crate::wire::i32_be_bytes(m.len() as int);
    let eb = spec_encode_entries(m);
    assert(data.len() == 6 + eb.len());
    if j >= 6 {
        crate::wire::lemma_i32_be_roundtrip(m.len() as int);
        assert(be_i32_at(d2, 2) == m.len()) by {
            assert(d2[2] == data[2] && data[2] == cb[0]);
            assert(d2[3] == data[3] && data[3] == cb[1]);
            assert(d2[4] == data[4] && data[4] == cb[2]);
            assert(d2[5] == data[5] && data[5] == cb[3]);
        }
        assert(data.subrange(6, data.len() as int) =~= eb) by {
            assert forall|t: int| 0 <= t < eb.len() implies data.subrange(
                6,
                data.len() as int,
            )[t] == eb[t] by {
                assert(data[6 + t] == eb[t]);
            }
        }
        lemma_parse_truncated(data, 6, m, Seq::empty(), j);
    }
}


} // verus!
