//! Administrative requests: argument validation and result handling.
//!
//! Creating a topic, deleting one and growing a partition count are
//! pass-throughs to the broker client; what the tool itself decides is
//! checked here: the `key=value` configuration overrides are parsed and
//! trimmed, the numeric arguments are validated, and the broker's
//! per-topic answer is turned into the tool's own error values.

use vstd::prelude::*;
use vstd::string::StringExecFns;
use crate::assignment::DecodeError;
use crate::filter::{find_char, first_eq, lemma_first_eq_bounds};

verus! {

/// The tool's error values for broker-facing operations.  Each carries
/// its rendered message; a decode failure also carries which field of
/// the assignment payload failed.
#[derive(Debug)]
pub enum KafkaError {
    MetadataFetch(String),
    Generic(String),
    AdminClient(String),
    AdminOperation(String),
    Deserialize(String, DecodeError),
    GroupListFetch(String),
    TopicNotExists(String),
    InvalidArgument(String),
}

/// The whitespace the override parser trims: the ASCII blank characters.
pub open spec fn is_space(c: char) -> bool {
    c == ' ' || c == '\t' || c == '\n' || c == '\r'
}

/// How many blank characters the sequence starts with.
pub open spec fn leading_spaces(s: Seq<char>) -> int
    decreases s.len(),
{
    if s.len() == 0 || !is_space(s[0]) {
        0
    } else {
        1 + leading_spaces(s.drop_first())
    }
}

/// How many blank characters the sequence ends with.
pub open spec fn trailing_spaces(s: Seq<char>) -> int
    decreases s.len(),
{
    if s.len() == 0 || !is_space(s.last()) {
        0
    } else {
        1 + trailing_spaces(s.drop_last())
    }
}

/// The sequence with leading and trailing blanks removed.
pub open spec fn spec_trim(s: Seq<char>) -> Seq<char> {
    if leading_spaces(s) == s.len() {
        Seq::empty()
    } else {
        s.subrange(leading_spaces(s), s.len() - trailing_spaces(s))
    }
}

/// A count of leading blanks bears out when everything before it is
/// blank and it is the length or points at a non-blank.
proof fn lemma_leading_spaces_is(s: Seq<char>, k: int)
    requires
        0 <= k <= s.len(),
        forall|t: int| 0 <= t < k ==> is_space(s[t]),
        k < s.len() ==> !is_space(s[k]),
    ensures
        leading_spaces(s) == k,
    decreases k,
{
    if k == 0 {
    } else {
        assert(is_space(s[0]));
        assert forall|t: int| 0 <= t < k - 1 implies is_space(s.drop_first()[t]) by {
            assert(is_space(s[t + 1]));
        }
        lemma_leading_spaces_is(s.drop_first(), k - 1);
    }
}

/// A count of trailing blanks bears out when everything after it is
/// blank and it is the length or points past a non-blank.
proof fn lemma_trailing_spaces_is(s: Seq<char>, k: int)
    requires
        0 <= k <= s.len(),
        forall|t: int| s.len() - k <= t < s.len() ==> is_space(s[t]),
        k < s.len() ==> !is_space(s[s.len() - k - 1]),
    ensures
        trailing_spaces(s) == k,
    decreases k,
{
    if k == 0 {
    } else {
        assert(is_space(s.last()));
        assert forall|t: int| s.drop_last().len() - (k - 1) <= t < s.drop_last().len() implies
            is_space(s.drop_last()[t]) by {
            assert(is_space(s[t]));
        }
        lemma_trailing_spaces_is(s.drop_last(), k - 1);
    }
}

/// Removes leading and trailing blanks from a string.
#[verifier::loop_isolation(false)]
fn trim(s: &str) -> (r: String)
    ensures
        r@ == spec_trim(s@),
{
    let n = s.unicode_len();
    let mut a: usize = 0;
    while a < n && is_space_char(s.get_char(a))
        invariant
            a <= n,
            n == s@.len(),
            forall|t: int| 0 <= t < a ==> is_space(s@[t]),
        decreases n - a,
    {
        a = a + 1;
    }
    if a == n {
        proof {
            lemma_leading_spaces_is(s@, n as int);
        }
        return String::new();
    }
    proof {
        lemma_leading_spaces_is(s@, a as int);
    }
    let mut b: usize = n;
    while b > a && is_space_char(s.get_char(b - 1))
        invariant
            a <= b <= n,
            forall|t: int| b <= t < n ==> is_space(s@[t]),
        decreases b,
    {
        b = b - 1;
    }
    proof {
        assert(!is_space(s@[a as int]));
        assert(b > a) by {
            if b == a {
                assert(is_space(s@[a as int]));
            }
        }
        assert(!is_space(s@[b - 1]));
        lemma_trailing_spaces_is(s@, n as int - b as int);
    }
    String::from_str(s.substring_char(a, b))
}

/// Whether one character is ASCII blank.
fn is_space_char(c: char) -> (r: bool)
    ensures
        r == is_space(c),
{
    c == ' ' || c == '\t' || c == '\n' || c == '\r'
}

/// What one `key=value` override parses to: the trimmed key and value,
/// or nothing when the `=` is missing or either side trims to empty.
pub open spec fn spec_parse_override(e: Seq<char>) -> Option<(Seq<char>, Seq<char>)> {
    if !e.contains('=') {
        None
    } else {
        let k = spec_trim(e.take(first_eq(e, '=')));
        let v = spec_trim(e.skip(first_eq(e, '=') + 1));
        if k.len() == 0 || v.len() == 0 {
            None
        } else {
            Some((k, v))
        }
    }
}

/// The message reported for an override that does not parse.
pub open spec fn spec_override_error(e: Seq<char>) -> Seq<char> {
    "Invalid config override '"@ + e + "'. Expected key=value"@
}

/// Parses topic configuration overrides of the form `key=value`.
///
/// Each entry is split at its first `=` and both sides are trimmed; an
/// entry without `=`, or whose key or value trims to empty, stops the
/// parse with an `InvalidArgument` error naming that entry.  On success
/// the pairs come back in entry order.
#[verifier::loop_isolation(false)]
pub fn parse_config_overrides(configs: &Vec<String>) -> (r: Result<
    Vec<(String, String)>,
    KafkaError,
>)
    ensures
        match r {
            Ok(v) => v.len() == configs.len() && forall|i: int|
                0 <= i < configs.len() ==> spec_parse_override(configs.deep_view()[i]) == Some(
                    (#[trigger] v[i].0@, v[i].1@),
                ),
            Err(e) => exists|i: int|
                0 <= i < configs.len() && spec_parse_override(#[trigger] configs.deep_view()[i])
                    is None && (e matches KafkaError::InvalidArgument(m) && m@
                    == spec_override_error(configs.deep_view()[i])),
        },
{
    let ghost cv = configs.deep_view();
    let mut overrides: Vec<(String, String)> = Vec::new();
    let mut i: usize = 0;
    while i < configs.len()
        invariant
            i <= configs.len(),
            overrides.len() == i,
            forall|t: int| 0 <= t < i ==> spec_parse_override(cv[t]) == Some(
                (#[trigger] overrides[t].0@, overrides[t].1@),
            ),
        decreases configs.len() - i,
    {
        let entry = &configs[i];
        proof {
            assert(cv[i as int] == entry@);
        }
        let eq_at = find_char(entry.as_str(), '=');
        proof {
            if entry@.contains('=') {
                lemma_first_eq_bounds(entry@, '=');
            }
        }
        match eq_at {
            None => {
                return Err(KafkaError::InvalidArgument(override_error(entry)));
            },
            Some(p) => {
                let n = entry.as_str().unicode_len();
                let key = trim(entry.as_str().substring_char(0, p));
                let value = trim(entry.as_str().substring_char(p + 1, n));
                if key.as_str().unicode_len() == 0 || value.as_str().unicode_len() == 0 {
                    return Err(KafkaError::InvalidArgument(override_error(entry)));
                }
                proof {
                    assert(key@ =~= spec_trim(entry@.take(first_eq(entry@, '='))));
                    assert(value@ =~= spec_trim(entry@.skip(first_eq(entry@, '=') + 1)));
                }
                overrides.push((key, value));
            },
        }
        i = i + 1;
    }
    Ok(overrides)
}

/// Renders the error message for one bad override entry.
fn override_error(entry: &String) -> (r: String)
    ensures
        r@ == spec_override_error(entry@),
{
    let mut m = String::from_str("Invalid config override '");
    m.append(entry.as_str());
    m.append("'. Expected key=value");
    m
}

/// The message reported when the broker answers an admin request with a
/// per-topic error code.
pub open spec fn spec_topic_failure_message(
    operation: Seq<char>,
    name: Seq<char>,
    code: Seq<char>,
) -> Seq<char> {
    "Failed to "@ + operation + " topic '"@ + name + "': "@ + code
}

/// The message reported when the broker returns no per-topic answer at
/// all.
pub open spec fn spec_no_response_message(operation: Seq<char>, topic: Seq<char>) -> Seq<char> {
    "Kafka returned no response while attempting to "@ + operation + " topic '"@ + topic + "'"@
}

/// Turns the broker's per-topic answer to an admin request into the
/// tool's own result.
///
/// An acknowledged name — even one differing from the requested topic —
/// is success; a per-topic error code becomes a `Generic` error naming
/// the operation, topic and code; a missing answer becomes a `Generic`
/// error saying the broker did not respond.
pub fn handle_topic_result(
    operation: &str,
    topic: &str,
    result: Option<Result<String, (String, String)>>,
) -> (r: Result<(), KafkaError>)
    ensures
        match result {
            Some(Ok(_)) => r is Ok,
            Some(Err((name, code))) => r matches Err(KafkaError::Generic(m)) && m@
                == spec_topic_failure_message(operation@, name@, code@),
            None => r matches Err(KafkaError::Generic(m)) && m@ == spec_no_response_message(
                operation@,
                topic@,
            ),
        },
{
    match result {
        Some(Ok(_name)) => Ok(()),
        Some(Err((name, code))) => {
            let mut m = String::from_str("Failed to ");
            m.append(operation);
            m.append(" topic '");
            m.append(name.as_str());
            m.append("': ");
            m.append(code.as_str());
            Err(KafkaError::Generic(m))
        },
        None => {
            let mut m = String::from_str("Kafka returned no response while attempting to ");
            m.append(operation);
            m.append(" topic '");
            m.append(topic);
            m.append("'");
            Err(KafkaError::Generic(m))
        },
    }
}

/// Validates the numeric arguments of a create-topic request: both the
/// partition count and the replication factor must be positive, with the
/// partition count checked first.
pub fn validate_create_topic(partitions: i32, replication: i32) -> (r: Result<(), KafkaError>)
    ensures
        r is Ok <==> partitions > 0 && replication > 0,
        partitions <= 0 ==> (r matches Err(KafkaError::InvalidArgument(m)) && m@
            == "Partitions must be greater than zero"@),
        partitions > 0 && replication <= 0 ==> (r matches Err(KafkaError::InvalidArgument(m))
            && m@ == "Replication factor must be greater than zero"@),
{
    if partitions <= 0 {
        return Err(
            KafkaError::InvalidArgument(String::from_str("Partitions must be greater than zero")),
        );
    }
    if replication <= 0 {
        return Err(
            KafkaError::InvalidArgument(
                String::from_str("Replication factor must be greater than zero"),
            ),
        );
    }
    Ok(())
}

/// Validates the new total partition count of a grow-partitions request:
/// it must be positive.
pub fn validate_partition_increase(total_partitions: i32) -> (r: Result<(), KafkaError>)
    ensures
        r is Ok <==> total_partitions > 0,
        total_partitions <= 0 ==> (r matches Err(KafkaError::InvalidArgument(m)) && m@
            == "Total partitions must be greater than zero"@),
{
    if total_partitions <= 0 {
        return Err(
            KafkaError::InvalidArgument(
                String::from_str("Total partitions must be greater than zero"),
            ),
        );
    }
    Ok(())
}

} // verus!
