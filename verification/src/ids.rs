//! Fresh identifiers and the clock.
use crate::text::join;
use openai_protocol::responses::generate_id;
use uuid::Uuid;
use vstd::prelude::*;

verus! {

/// A lower case hexadecimal digit.
pub open spec fn is_hex(c: char) -> bool {
    ('0' <= c && c <= '9') || ('a' <= c && c <= 'f')
}

/// The text of a version 7 UUID without hyphens.
pub open spec fn is_simple_uuid(s: Seq<char>) -> bool {
    &&& s.len() == 32
    &&& s[12] == '7'
    &&& forall|i: int| 0 <= i < s.len() ==> is_hex(#[trigger] s[i])
}

/// The text of a version 7 UUID with hyphens.
pub open spec fn is_hyphenated_uuid(s: Seq<char>) -> bool {
    &&& s.len() == 36
    &&& s[14] == '7'
    &&& forall|i: int| #![trigger s[i]]
        0 <= i < s.len() ==> if i == 8 || i == 13 || i == 18 || i == 23 {
            s[i] == '-'
        } else {
            is_hex(s[i])
        }
}

/// An identifier made by [`generate_item_id`].
pub open spec fn is_item_id(prefix: Seq<char>, id: Seq<char>) -> bool {
    exists|unique: Seq<char>| #[trigger] is_simple_uuid(unique) && id == prefix + "_"@ + unique
}

/// An identifier made by [`new_response_id`].
pub open spec fn is_response_id(id: Seq<char>) -> bool {
    exists|unique: Seq<char>| #[trigger] is_hyphenated_uuid(unique) && id == "resp_"@ + unique
}

/// The fifty hexadecimal digits behind the prefix of a warmup response's identifier.
pub open spec fn is_random_hex(s: Seq<char>) -> bool {
    &&& s.len() == 50
    &&& forall|i: int| 0 <= i < s.len() ==> is_hex(#[trigger] s[i])
}

/// An identifier made by `openai_protocol::responses::generate_id`.
pub open spec fn is_generated_id(prefix: Seq<char>, id: Seq<char>) -> bool {
    exists|unique: Seq<char>| #[trigger] is_random_hex(unique) && id == prefix + "_"@ + unique
}

/// Calls `Uuid::now_v7` and formats the result with `Uuid::simple`: 32 lower case hexadecimal
/// digits, the thirteenth of which is the version. Which digits they are is left open.
#[verifier::external_body]
fn simple_uuid() -> (res: String)
    ensures
        is_simple_uuid(res@),
{
    Uuid::now_v7().simple().to_string()
}

/// Calls `Uuid::now_v7` and formats the result as it displays: lower case hexadecimal digits in
/// five groups joined by hyphens, the third of which starts with the version. Which digits they
/// are is left open.
#[verifier::external_body]
fn hyphenated_uuid() -> (res: String)
    ensures
        is_hyphenated_uuid(res@),
{
    Uuid::now_v7().to_string()
}

/// Calls `openai_protocol::responses::generate_id`: the prefix, an underscore and fifty random
/// lower case hexadecimal digits. Which digits they are is left open.
#[verifier::external_body]
pub(crate) fn random_id(prefix: &str) -> (res: String)
    ensures
        is_generated_id(prefix@, res@),
{
    generate_id(prefix)
}

/// Calls `chrono::Utc::now` and takes its seconds since the Unix epoch. Which second it is is left
/// open.
#[verifier::external_body]
pub(crate) fn unix_seconds() -> (res: i64) {
    chrono::Utc::now().timestamp()
}

/// A fresh identifier of an output item: the prefix, an underscore and a version 7 UUID.
pub fn generate_item_id(prefix: &str) -> (res: String)
    ensures
        is_item_id(prefix@, res@),
{
    let unique = simple_uuid();
    let head = join(prefix, "_");
    let res = join(head.as_str(), unique.as_str());
    proof {
        assert(is_simple_uuid(unique@) && res@ == prefix@ + "_"@ + unique@);
    }
    res
}

/// A fresh identifier of a streamed response.
pub fn new_response_id() -> (res: String)
    ensures
        is_response_id(res@),
{
    let unique = hyphenated_uuid();
    let res = join("resp_", unique.as_str());
    proof {
        assert(is_hyphenated_uuid(unique@) && res@ == "resp_"@ + unique@);
    }
    res
}

/// An identifier of an output item is its prefix, an underscore and 32 hexadecimal digits.
pub proof fn law_item_identifiers_bear_their_prefix(prefix: Seq<char>, id: Seq<char>)
    requires
        is_item_id(prefix, id),
    ensures
        id.len() == prefix.len() + 33,
        id.take(prefix.len() as int) == prefix,
        id[prefix.len() as int] == '_',
        forall|i: int| prefix.len() < i < id.len() ==> is_hex(#[trigger] id[i]),
{
    reveal_strlit("_");
    let unique = choose|unique: Seq<char>| #[trigger]
        is_simple_uuid(unique) && id == prefix + "_"@ + unique;
    assert(id.take(prefix.len() as int) =~= prefix);
    assert forall|i: int| prefix.len() < i < id.len() implies is_hex(#[trigger] id[i]) by {
        assert(id[i] == unique[i - prefix.len() - 1]);
    }
}

/// An identifier of a streamed response is `resp_` and 36 characters, four hyphens among
/// hexadecimal digits.
pub proof fn law_response_identifiers_bear_their_prefix(id: Seq<char>)
    requires
        is_response_id(id),
    ensures
        id.len() == 41,
        id.take(5) == "resp_"@,
        forall|i: int|
            5 <= i < 41 ==> (is_hex(#[trigger] id[i]) <==> !(i == 13 || i == 18 || i == 23 || i
                == 28)),
{
    reveal_strlit("resp_");
    let unique = choose|unique: Seq<char>| #[trigger]
        is_hyphenated_uuid(unique) && id == "resp_"@ + unique;
    assert(id.take(5) =~= "resp_"@);
    assert forall|i: int| 5 <= i < 41 implies (is_hex(#[trigger] id[i]) <==> !(i == 13 || i == 18
        || i == 23 || i == 28)) by {
        assert(id[i] == unique[i - 5]);
    }
}

} // verus!
