//! Table locations: a unique URI under the configured bucket, derived
//! from a freshly generated random identifier under a fixed prefix.

use vstd::prelude::*;

verus! {

/// The URI of a table: scheme and bucket fixed by configuration, a
/// fixed prefix, and the generated token.
pub open spec fn uri_of(bucket: Seq<char>, token: Seq<char>) -> Seq<char> {
    "s3://"@ + bucket + "/minimal_example/"@ + token
}

/// A token in the generated identifier's shape: 36 characters,
/// hyphens at the four fixed positions, lowercase hexadecimal digits
/// everywhere else.
pub open spec fn uuid_shaped(t: Seq<char>) -> bool {
    &&& t.len() == 36
    &&& forall|i: int|
        0 <= i < 36 ==> (if i == 8 || i == 13 || i == 18 || i == 23 {
            t[i] == '-'
        } else {
            ('0' <= t[i] && t[i] <= '9') || ('a' <= t[i] && t[i] <= 'f')
        })
}

/// Relies on uuid::Uuid::new_v4 and the hyphenated lowercase form its
/// Display implementation documents: every outcome is a 36-character
/// token of lowercase hexadecimal digits with hyphens at the four
/// fixed positions; which token comes back is random.
#[verifier::external_body]
fn random_token() -> (r: String)
    ensures
        uuid_shaped(r@),
{
    uuid::Uuid::new_v4().to_string()
}

/// Builds the table URI for `bucket` and `token`.
pub fn table_uri(bucket: &str, token: &str) -> (r: String)
    ensures
        r@ == uri_of(bucket@, token@),
{
    let mut r: String = "s3://".to_owned();
    r.append(bucket);
    r.append("/minimal_example/");
    r.append(token);
    r
}

/// Derives a fresh table location under `bucket` from a newly
/// generated random identifier. Each run targets a location no other
/// run derives, barring a collision of the random tokens.
pub fn fresh_table_uri(bucket: &str) -> (r: String)
    ensures
        exists|t: Seq<char>| #[trigger] uuid_shaped(t) && r@ == uri_of(bucket@, t),
{
    let token = random_token();
    let r = table_uri(bucket, token.as_str());
    proof {
        assert(uuid_shaped(token@) && r@ == uri_of(bucket@, token@));
    }
    r
}

} // verus!
