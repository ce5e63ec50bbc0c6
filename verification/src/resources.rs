//! Identifier derivation for create requests: which field names a new
//! document, and whether a `.json` suffix is appended, per collection.

use vstd::prelude::*;

use crate::error::{DomainError, invalid_request_model};
use crate::json::{Json, JsonValue};
use crate::storage::Resource;
use crate::text::{concat, is_blank};

verus! {

/// The non-empty string member `key` of `value`, if it has one.
pub open spec fn required_of(value: Json, key: Seq<char>) -> Option<Seq<char>> {
    match value.str_at(key) {
        Some(s) => if s.len() > 0 { Some(s) } else { None },
        None => None,
    }
}

/// Reads a non-empty string member.
pub fn required_string(value: &JsonValue, key: &str) -> (r: Option<String>)
    ensures
        match r {
            Some(s) => required_of(value@, key@) == Some(s@),
            None => required_of(value@, key@) is None,
        },
{
    match value.str_at(key) {
        Some(s) => if is_blank(s.as_str()) {
            None
        } else {
            Some(s.clone())
        },
        None => None,
    }
}

/// Whether `s` ends in `.json`.
pub open spec fn has_json_suffix(s: Seq<char>) -> bool {
    s.len() >= 5 && s.skip(s.len() - 5) == ".json"@
}

/// The identifier a create request for `resource` files its document under.
///
/// A test case is named by its own `testCaseId` and must carry a title and an
/// expected result; a milestone falls back to its name; everything else is
/// `<name>.json`.
pub open spec fn create_id(resource: Resource, value: Json) -> Option<Seq<char>> {
    match resource {
        Resource::Cases => if required_of(value, "title"@) is Some && required_of(value, "expectedResult"@) is Some {
            required_of(value, "testCaseId"@)
        } else {
            None
        },
        Resource::Milestones => match required_of(value, "name"@) {
            Some(name) => {
                let candidate = match required_of(value, "milestoneId"@) {
                    Some(m) => m,
                    None => name,
                };
                Some(if has_json_suffix(candidate) { candidate } else { candidate + ".json"@ })
            },
            None => None,
        },
        _ => match required_of(value, "name"@) {
            Some(name) => Some(name + ".json"@),
            None => None,
        },
    }
}

fn ends_with_json(s: &str) -> (r: bool)
    ensures
        r == has_json_suffix(s@),
{
    proof { reveal_strlit(".json"); }
    let chars = crate::text::chars_of(s);
    let n = chars.len();
    if n < 5 {
        return false;
    }
    let r = chars[n - 5] == '.' && chars[n - 4] == 'j' && chars[n - 3] == 's' && chars[n - 2] == 'o' && chars[n - 1]
        == 'n';
    let ghost tail = s@.skip(n - 5);
    assert(tail.len() == 5);
    assert(tail[0] == chars@[n - 5] && tail[1] == chars@[n - 4] && tail[2] == chars@[n - 3]
        && tail[3] == chars@[n - 2] && tail[4] == chars@[n - 1]);
    if r {
        assert(tail =~= ".json"@);
    } else {
        assert(tail != ".json"@) by {
            if tail == ".json"@ {
                assert(tail[0] == '.' && tail[1] == 'j' && tail[2] == 's' && tail[3] == 'o' && tail[4] == 'n');
            }
        }
    }
    r
}

/// Derives the storage identifier for a create request.
pub fn derive_create_id(resource: Resource, value: &JsonValue) -> (r: Result<String, DomainError>)
    ensures
        match r {
            Ok(id) => create_id(resource, value@) == Some(id@),
            Err(e) => create_id(resource, value@) is None && e@ == invalid_request_model(
                "Required fields are missing"@,
            ),
        },
{
    match resource {
        Resource::Cases => {
            let id = required_string(value, "testCaseId");
            let title = required_string(value, "title");
            let expected_result = required_string(value, "expectedResult");
            match (id, title, expected_result) {
                (Some(id), Some(_), Some(_)) => Ok(id),
                _ => Err(DomainError::invalid_request("Required fields are missing".to_owned())),
            }
        },
        Resource::Milestones => {
            let name = match required_string(value, "name") {
                Some(name) => name,
                None => {
                    return Err(DomainError::invalid_request("Required fields are missing".to_owned()));
                },
            };
            let candidate = match required_string(value, "milestoneId") {
                Some(m) => m,
                None => name,
            };
            if ends_with_json(candidate.as_str()) {
                Ok(candidate)
            } else {
                Ok(concat(candidate.as_str(), ".json"))
            }
        },
        _ => match required_string(value, "name") {
            Some(name) => Ok(concat(name.as_str(), ".json")),
            None => Err(DomainError::invalid_request("Required fields are missing".to_owned())),
        },
    }
}

} // verus!
