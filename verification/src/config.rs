//! Connection configuration: the six values required to reach an
//! object-storage-backed table location, resolved from the process
//! environment (read by the caller) and validated here, fail-closed.

use vstd::prelude::*;
use std::collections::HashMap;
use crate::error::WorkflowError;

verus! {

/// The validated set of storage connection parameters. `resolve`
/// establishes the invariant that every field is non-empty.
#[derive(Debug)]
pub struct StorageOptions {
    pub allow_http: String,
    pub endpoint_url: String,
    pub region: String,
    pub access_key_id: String,
    pub secret_access_key: String,
    pub bucket_name: String,
}

/// The parameter names expected by the storage backend, paired with
/// the configuration values they carry. The region is duplicated
/// under a generic and a backend-specific key, reflecting the two
/// configuration namespaces consumed by provisioning and by the query
/// engine.
pub open spec fn parameter_pairs(c: StorageOptions) -> Seq<(Seq<char>, Seq<char>)> {
    seq![
        ("allow_http"@, c.allow_http@),
        ("endpoint_url"@, c.endpoint_url@),
        ("region"@, c.region@),
        ("AWS_REGION"@, c.region@),
        ("access_key_id"@, c.access_key_id@),
        ("secret_access_key"@, c.secret_access_key@),
        ("bucket_name"@, c.bucket_name@),
    ]
}

/// The same parameters as a key-value mapping.
pub open spec fn parameter_map(c: StorageOptions) -> Map<Seq<char>, Seq<char>> {
    map![
        "allow_http"@ => c.allow_http@,
        "endpoint_url"@ => c.endpoint_url@,
        "region"@ => c.region@,
        "AWS_REGION"@ => c.region@,
        "access_key_id"@ => c.access_key_id@,
        "secret_access_key"@ => c.secret_access_key@,
        "bucket_name"@ => c.bucket_name@,
    ]
}

/// `m` carries exactly the entries of `t`: every key of `m` reads as a
/// key of `t` with the matching value, and every key of `t` is
/// covered.
pub open spec fn map_models(m: Map<String, String>, t: Map<Seq<char>, Seq<char>>) -> bool {
    &&& forall|k: String| #[trigger] m.contains_key(k) ==> t.contains_key(k@) && m[k]@ == t[k@]
    &&& forall|s: Seq<char>| #[trigger]
        t.contains_key(s) ==> exists|k: String| #[trigger] m.contains_key(k) && k@ == s
}

/// A configuration value is present when it was found in the
/// environment and is non-empty.
pub open spec fn present(v: Option<String>) -> bool {
    v is Some && v->0@.len() > 0
}

/// The environment key named by a `ConfigMissing` error: the first of
/// the six values, in declaration order, that is absent or empty.
pub open spec fn first_missing_key(
    allow_http: Option<String>,
    endpoint_url: Option<String>,
    region: Option<String>,
    access_key_id: Option<String>,
    secret_access_key: Option<String>,
    bucket_name: Option<String>,
) -> Seq<char> {
    if !present(allow_http) {
        "ALLOW_HTTP"@
    } else if !present(endpoint_url) {
        "MINIO_URL"@
    } else if !present(region) {
        "MINIO_STORAGE_REGION"@
    } else if !present(access_key_id) {
        "MINIO_LOGIN"@
    } else if !present(secret_access_key) {
        "MINIO_PASSWORD"@
    } else if !present(bucket_name) {
        "MINIO_SOURCE_BUCKET"@
    } else {
        Seq::<char>::empty()
    }
}

/// Accepts a configuration value only if it is present and non-empty;
/// otherwise reports the missing environment key.
fn require_value(v: Option<String>, key: &str) -> (r: Result<String, WorkflowError>)
    ensures
        r is Ok <==> present(v),
        r matches Ok(s) ==> s == v->0,
        r matches Err(e) ==> (e matches WorkflowError::ConfigMissing { key: k } && k@ == key@),
{
    match v {
        Some(s) => {
            if s.as_str().is_empty() {
                Err(WorkflowError::ConfigMissing { key: key.to_owned() })
            } else {
                Ok(s)
            }
        },
        None => Err(WorkflowError::ConfigMissing { key: key.to_owned() }),
    }
}

impl StorageOptions {
    /// Every field of a resolved configuration is non-empty.
    pub open spec fn wf(self) -> bool {
        &&& self.allow_http@.len() > 0
        &&& self.endpoint_url@.len() > 0
        &&& self.region@.len() > 0
        &&& self.access_key_id@.len() > 0
        &&& self.secret_access_key@.len() > 0
        &&& self.bucket_name@.len() > 0
    }

    /// Validates the six environment values, in declaration order.
    /// Succeeds exactly when all six are present and non-empty; the
    /// first absent or empty one is reported as `ConfigMissing` with
    /// the environment key that names it. No partial configuration is
    /// ever produced.
    pub fn resolve(
        allow_http: Option<String>,
        endpoint_url: Option<String>,
        region: Option<String>,
        access_key_id: Option<String>,
        secret_access_key: Option<String>,
        bucket_name: Option<String>,
    ) -> (r: Result<StorageOptions, WorkflowError>)
        ensures
            r is Ok <==> {
                &&& present(allow_http)
                &&& present(endpoint_url)
                &&& present(region)
                &&& present(access_key_id)
                &&& present(secret_access_key)
                &&& present(bucket_name)
            },
            r matches Ok(c) ==> {
                &&& c.allow_http == allow_http->0
                &&& c.endpoint_url == endpoint_url->0
                &&& c.region == region->0
                &&& c.access_key_id == access_key_id->0
                &&& c.secret_access_key == secret_access_key->0
                &&& c.bucket_name == bucket_name->0
                &&& c.wf()
            },
            r matches Err(e) ==> (e matches WorkflowError::ConfigMissing { key: k } && k@
                == first_missing_key(
                allow_http,
                endpoint_url,
                region,
                access_key_id,
                secret_access_key,
                bucket_name,
            )),
    {
        let allow_http = match require_value(allow_http, "ALLOW_HTTP") {
            Ok(s) => s,
            Err(e) => {
                return Err(e);
            },
        };
        let endpoint_url = match require_value(endpoint_url, "MINIO_URL") {
            Ok(s) => s,
            Err(e) => {
                return Err(e);
            },
        };
        let region = match require_value(region, "MINIO_STORAGE_REGION") {
            Ok(s) => s,
            Err(e) => {
                return Err(e);
            },
        };
        let access_key_id = match require_value(access_key_id, "MINIO_LOGIN") {
            Ok(s) => s,
            Err(e) => {
                return Err(e);
            },
        };
        let secret_access_key = match require_value(secret_access_key, "MINIO_PASSWORD") {
            Ok(s) => s,
            Err(e) => {
                return Err(e);
            },
        };
        let bucket_name = match require_value(bucket_name, "MINIO_SOURCE_BUCKET") {
            Ok(s) => s,
            Err(e) => {
                return Err(e);
            },
        };
        Ok(
            StorageOptions {
                allow_http,
                endpoint_url,
                region,
                access_key_id,
                secret_access_key,
                bucket_name,
            },
        )
    }

    /// The backend parameters as an ordered list of key-value pairs,
    /// exactly the entries of `parameter_pairs`.
    pub fn to_pairs(&self) -> (r: Vec<(String, String)>)
        ensures
            r@.map_values(|p: (String, String)| (p.0@, p.1@)) == parameter_pairs(*self),
    {
        let mut r: Vec<(String, String)> = Vec::new();
        r.push(("allow_http".to_owned(), self.allow_http.clone()));
        r.push(("endpoint_url".to_owned(), self.endpoint_url.clone()));
        r.push(("region".to_owned(), self.region.clone()));
        r.push(("AWS_REGION".to_owned(), self.region.clone()));
        r.push(("access_key_id".to_owned(), self.access_key_id.clone()));
        r.push(("secret_access_key".to_owned(), self.secret_access_key.clone()));
        r.push(("bucket_name".to_owned(), self.bucket_name.clone()));
        proof {
            assert(r@.map_values(|p: (String, String)| (p.0@, p.1@)) =~= parameter_pairs(*self));
        }
        r
    }

    /// The backend parameters as the key-value mapping handed to the
    /// storage backend. The mapping carries exactly the entries of
    /// `parameter_map`; this is conditional on the hash-table key
    /// model for `String`, which vstd leaves open.
    pub fn to_hashmap(&self) -> (r: HashMap<String, String>)
        ensures
            vstd::std_specs::hash::obeys_key_model::<String>() ==> {
                &&& r@.len() == 7
                &&& map_models(r@, parameter_map(*self))
            },
    {
        let mut m: HashMap<String, String> = HashMap::new();
        let k1 = "allow_http".to_owned();
        let k2 = "endpoint_url".to_owned();
        let k3 = "region".to_owned();
        let k4 = "AWS_REGION".to_owned();
        let k5 = "access_key_id".to_owned();
        let k6 = "secret_access_key".to_owned();
        let k7 = "bucket_name".to_owned();
        let ghost gk1 = k1;
        let ghost gk2 = k2;
        let ghost gk3 = k3;
        let ghost gk4 = k4;
        let ghost gk5 = k5;
        let ghost gk6 = k6;
        let ghost gk7 = k7;
        m.insert(k1, self.allow_http.clone());
        m.insert(k2, self.endpoint_url.clone());
        m.insert(k3, self.region.clone());
        m.insert(k4, self.region.clone());
        m.insert(k5, self.access_key_id.clone());
        m.insert(k6, self.secret_access_key.clone());
        m.insert(k7, self.bucket_name.clone());
        proof {
            if vstd::std_specs::hash::obeys_key_model::<String>() {
                broadcast use vstd::std_specs::hash::group_hash_axioms;

                reveal_strlit("allow_http");
                reveal_strlit("endpoint_url");
                reveal_strlit("region");
                reveal_strlit("AWS_REGION");
                reveal_strlit("access_key_id");
                reveal_strlit("secret_access_key");
                reveal_strlit("bucket_name");
                assert(m@ == Map::<String, String>::empty().insert(gk1, m@[gk1]).insert(
                    gk2,
                    m@[gk2],
                ).insert(gk3, m@[gk3]).insert(gk4, m@[gk4]).insert(gk5, m@[gk5]).insert(
                    gk6,
                    m@[gk6],
                ).insert(gk7, m@[gk7]));
                assert(m@.dom() =~= set![gk1, gk2, gk3, gk4, gk5, gk6, gk7]);
                assert(gk1@.len() == 10 && gk2@.len() == 12 && gk3@.len() == 6 && gk4@.len() == 10
                    && gk5@.len() == 13 && gk6@.len() == 17 && gk7@.len() == 11);
                assert(gk1@[0] == 'a' && gk4@[0] == 'A');
                assert(gk1 != gk2 && gk1 != gk3 && gk1 != gk4 && gk1 != gk5 && gk1 != gk6 && gk1
                    != gk7);
                assert(gk2 != gk3 && gk2 != gk4 && gk2 != gk5 && gk2 != gk6 && gk2 != gk7);
                assert(gk3 != gk4 && gk3 != gk5 && gk3 != gk6 && gk3 != gk7);
                assert(gk4 != gk5 && gk4 != gk6 && gk4 != gk7);
                assert(gk5 != gk6 && gk5 != gk7 && gk6 != gk7);
                assert(Set::<String>::empty().insert(gk1).insert(gk2).insert(gk3).insert(
                    gk4,
                ).insert(gk5).insert(gk6).insert(gk7).len() == 7) by {
                    broadcast use vstd::set::group_set_axioms;

                };
                assert(m@.len() == 7);
                let ghost t = parameter_map(*self);
                assert forall|k: String| #[trigger] m@.contains_key(k) implies t.contains_key(k@)
                    && m@[k]@ == t[k@] by {
                    assert(set![gk1, gk2, gk3, gk4, gk5, gk6, gk7].contains(k));
                }
                assert forall|s: Seq<char>| #[trigger] t.contains_key(s) implies exists|k: String|
                    #[trigger] m@.contains_key(k) && k@ == s by {
                    if s == gk1@ {
                        assert(m@.contains_key(gk1) && gk1@ == s);
                    } else if s == gk2@ {
                        assert(m@.contains_key(gk2) && gk2@ == s);
                    } else if s == gk3@ {
                        assert(m@.contains_key(gk3) && gk3@ == s);
                    } else if s == gk4@ {
                        assert(m@.contains_key(gk4) && gk4@ == s);
                    } else if s == gk5@ {
                        assert(m@.contains_key(gk5) && gk5@ == s);
                    } else if s == gk6@ {
                        assert(m@.contains_key(gk6) && gk6@ == s);
                    } else {
                        assert(s == gk7@);
                        assert(m@.contains_key(gk7) && gk7@ == s);
                    }
                }
                assert(map_models(m@, parameter_map(*self)));
            }
        }
        m
    }
}

} // verus!
