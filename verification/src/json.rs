//! The JSON layer: a payload is parsed by `serde_json` into an object, and
//! the members of that object are handed out one by one as plain values.

use vstd::prelude::*;

verus! {

/// `serde_json::Value`: a JSON value, which stays closed.
#[verifier::external_type_specification]
#[verifier::external_body]
pub struct ExJsonValue(serde_json::Value);

/// `serde_json::Map`: a JSON object, read through [`record_get`] alone.
#[verifier::external_type_specification]
#[verifier::external_body]
#[verifier::reject_recursive_types(K)]
#[verifier::reject_recursive_types(V)]
pub struct ExJsonMap<K, V>(serde_json::Map<K, V>);

/// `serde_json::Error`: why a payload did not parse, which stays closed.
#[verifier::external_type_specification]
#[verifier::external_body]
pub struct ExJsonError(serde_json::Error);

/// One member of a JSON object, as far as a bar record reads it: scalars
/// with their content, arrays and objects by their kind alone.
#[derive(Debug, Clone, PartialEq, Eq)]
pub enum Member {
    Null,
    Bool(bool),
    /// A number: its literal as written, and its value where the literal is
    /// an integer that fits 64 bits.
    Number { literal: String, integer: Option<i64> },
    Text(String),
    Array,
    Object,
}

/// The mathematical content of a [`Member`].
pub enum MemberView {
    Null,
    Bool(bool),
    Number { literal: Seq<char>, integer: Option<i64> },
    Text(Seq<char>),
    Array,
    Object,
}

impl View for Member {
    type V = MemberView;

    open spec fn view(&self) -> MemberView {
        match self {
            Member::Null => MemberView::Null,
            Member::Bool(b) => MemberView::Bool(*b),
            Member::Number { literal, integer } => MemberView::Number {
                literal: literal@,
                integer: *integer,
            },
            Member::Text(s) => MemberView::Text(s@),
            Member::Array => MemberView::Array,
            Member::Object => MemberView::Object,
        }
    }
}

/// The view of a member that may be absent.
pub open spec fn member_view(member: Option<Member>) -> Option<MemberView> {
    match member {
        Some(m) => Some(m@),
        None => None,
    }
}

/// What `serde_json::from_slice` makes of a payload when asked for an
/// object: the members by name, or `None` where it reports an error.
pub uninterp spec fn json_record(bytes: Seq<u8>) -> Option<Map<Seq<char>, MemberView>>;

/// The members that a parsed object holds, by name.
pub uninterp spec fn record_members(
    record: serde_json::Map<String, serde_json::Value>,
) -> Map<Seq<char>, MemberView>;

/// The member of a record under a name, if there is one.
pub open spec fn member_of(members: Map<Seq<char>, MemberView>, name: Seq<char>) -> Option<
    MemberView,
> {
    if members.contains_key(name) {
        Some(members[name])
    } else {
        None
    }
}

/// Calls `serde_json::from_slice` for a `Map<String, Value>`. The contract
/// gives the outcome its name, [`json_record`], and says that the members
/// of the object returned are the ones so named.
#[verifier::external_body]
pub(crate) fn json_from_slice(bytes: &[u8]) -> (r: Result<
    serde_json::Map<String, serde_json::Value>,
    serde_json::Error,
>)
    ensures
        match r {
            Ok(record) => json_record(bytes@) == Some(record_members(record)),
            Err(_) => json_record(bytes@) is None,
        },
{
    serde_json::from_slice(bytes)
}

/// Calls `Map::get` and copies the value found into a [`Member`], one arm
/// for each kind of JSON value; a number gives its literal (`as_str`) and
/// its integer value (`as_i64`). The contract says that the member handed
/// out is the one that the record holds under the name.
#[verifier::external_body]
pub(crate) fn record_get(record: &serde_json::Map<String, serde_json::Value>, name: &str) -> (r:
    Option<Member>)
    ensures
        member_view(r) == member_of(record_members(*record), name@),
{
    match record.get(name) {
        None => None,
        Some(serde_json::Value::Null) => Some(Member::Null),
        Some(serde_json::Value::Bool(b)) => Some(Member::Bool(*b)),
        Some(serde_json::Value::Number(n)) => Some(
            Member::Number { literal: n.as_str().to_owned(), integer: n.as_i64() },
        ),
        Some(serde_json::Value::String(s)) => Some(Member::Text(s.clone())),
        Some(serde_json::Value::Array(_)) => Some(Member::Array),
        Some(serde_json::Value::Object(_)) => Some(Member::Object),
    }
}

} // verus!
