//! Boilerplates: named sets of mappings from a location on the client to
//! the path of a stored file, with an optional provisioning script.
use vstd::prelude::*;

use crate::CabinetError;

verus! {

/// A stored boilerplate; `files` pairs each client location with the full
/// path of the stored file placed there.
#[derive(Debug, Clone, PartialEq, Eq)]
pub struct Boilerplate {
    pub id: usize,
    pub name: String,
    /// Seconds since the Unix epoch.
    pub modified: u64,
    pub script: Option<String>,
    pub files: Vec<(String, String)>,
}

/// A boilerplate as a client sends it: `files` pairs each client location
/// with the path of a stored file.
#[derive(Debug, Clone, PartialEq, Eq)]
pub struct NewBoilerplate {
    pub name: String,
    pub script: Option<String>,
    pub files: Vec<(String, String)>,
}

#[verifier::external_type_specification]
#[verifier::external_body]
pub struct ExJsonError(serde_json::Error);

/// The views of a sequence of string pairs.
pub open spec fn pair_views(s: Seq<(String, String)>) -> Seq<(Seq<char>, Seq<char>)> {
    s.map_values(|p: (String, String)| (p.0@, p.1@))
}

/// No two pairs share their first element.
pub open spec fn distinct_locations(s: Seq<(Seq<char>, Seq<char>)>) -> bool {
    forall|a: int, b: int| 0 <= a < s.len() && 0 <= b < s.len() && a != b ==> #[trigger] s[a].0 != #[trigger] s[b].0
}

/// The entries of the JSON object of strings that `bytes` hold, in key
/// order; `None` when the bytes are not such an object.
pub uninterp spec fn json_string_map(bytes: Seq<u8>) -> Option<Seq<(Seq<char>, Seq<char>)>>;

/// Relies on `serde_json::from_slice` into a `BTreeMap<String, String>`:
/// it succeeds exactly on a JSON object whose values are strings, and the
/// map's entries come out once per key, in key order.
#[verifier::external_body]
fn parse_string_map(json: &[u8]) -> (r: Result<Vec<(String, String)>, serde_json::Error>)
    ensures
        r is Ok <==> json_string_map(json@) is Some,
        r matches Ok(v) ==> pair_views(v@) == json_string_map(json@)->0,
        r matches Ok(v) ==> distinct_locations(pair_views(v@)),
{
    match serde_json::from_slice::<std::collections::BTreeMap<String, String>>(json) {
        Ok(m) => Ok(m.into_iter().collect()),
        Err(e) => Err(e),
    }
}

/// Relies on `serde_json::Error`'s `Display`: the text describing the error.
#[verifier::external_body]
fn json_error_text(e: &serde_json::Error) -> (r: String) {
    e.to_string()
}

impl NewBoilerplate {
    /// A boilerplate named `name` whose mappings are the JSON object of
    /// strings in `json`; `BadRequest` when `json` holds no such object.
    pub fn from_json(name: &str, script: Option<String>, json: &[u8]) -> (r: Result<
        NewBoilerplate,
        CabinetError,
    >)
        ensures
            r is Ok <==> json_string_map(json@) is Some,
            r matches Ok(bp) ==> bp.name@ == name@ && bp.script == script && pair_views(bp.files@)
                == json_string_map(json@)->0 && distinct_locations(pair_views(bp.files@)),
            r matches Err(e) ==> e is BadRequest,
    {
        match parse_string_map(json) {
            Ok(files) => Ok(NewBoilerplate { name: name.to_owned(), script, files }),
            Err(e) => Err(CabinetError::BadRequest(json_error_text(&e))),
        }
    }
}

} // verus!
