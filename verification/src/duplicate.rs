//! Duplication rules: load the source, override a handful of fields from the
//! request body, then store the copy under a new identifier. What differs per
//! collection is captured by [`DuplicateSpec`].

use vstd::prelude::*;

use crate::json::{Json, JsonValue};
use crate::resources::has_json_suffix;
use crate::storage::Resource;
use crate::text::{concat, decimal, push_str};

verus! {

/// Everything that distinguishes one duplication endpoint from another.
#[derive(Debug, Clone, Copy)]
pub struct DuplicateSpec {
    /// Collection the copies are stored in.
    pub resource: Resource,
    /// Member holding the document's own identifier.
    pub id_field: &'static str,
    /// Message for a source document that does not exist.
    pub not_found_message: &'static str,
    /// Optional `(body key, document member)` rename applied to the copy.
    pub rename: Option<(&'static str, &'static str)>,
    /// Whether run-specific state (timestamp, results) is reset on the copy.
    pub reset_run_state: bool,
    /// Message returned when the copy is created.
    pub duplicated_message: &'static str,
    /// Message returned when a document already occupies the new identifier.
    pub already_exists_message: &'static str,
}

impl DuplicateSpec {
    /// Duplication of a project.
    pub fn project() -> (r: Self)
        ensures
            r.resource == Resource::Projects,
            r.id_field@ == "projectId"@,
            r.rename matches Some((k, f)) && k@ == "newName"@ && f@ == "name"@,
            !r.reset_run_state,
    {
        DuplicateSpec {
            resource: Resource::Projects,
            id_field: "projectId",
            not_found_message: "Project not found",
            rename: Some(("newName", "name")),
            reset_run_state: false,
            duplicated_message: "Project duplicated",
            already_exists_message: "Project already exists",
        }
    }

    /// Duplication of a test suite.
    pub fn suite() -> (r: Self)
        ensures
            r.resource == Resource::Suites,
            r.id_field@ == "suiteId"@,
            r.rename matches Some((k, f)) && k@ == "newName"@ && f@ == "name"@,
            !r.reset_run_state,
    {
        DuplicateSpec {
            resource: Resource::Suites,
            id_field: "suiteId",
            not_found_message: "Test suite not found",
            rename: Some(("newName", "name")),
            reset_run_state: false,
            duplicated_message: "Test suite duplicated",
            already_exists_message: "Test suite already exists",
        }
    }

    /// Duplication of a test case.
    pub fn case() -> (r: Self)
        ensures
            r.resource == Resource::Cases,
            r.id_field@ == "testCaseId"@,
            r.rename matches Some((k, f)) && k@ == "newTitle"@ && f@ == "title"@,
            !r.reset_run_state,
    {
        DuplicateSpec {
            resource: Resource::Cases,
            id_field: "testCaseId",
            not_found_message: "Test case not found",
            rename: Some(("newTitle", "title")),
            reset_run_state: false,
            duplicated_message: "Test case duplicated",
            already_exists_message: "Test case already exists",
        }
    }

    /// Duplication of a test run, which starts life without results.
    pub fn run() -> (r: Self)
        ensures
            r.resource == Resource::Runs,
            r.id_field@ == "testRunId"@,
            r.rename is None,
            r.reset_run_state,
    {
        DuplicateSpec {
            resource: Resource::Runs,
            id_field: "testRunId",
            not_found_message: "Test run not found",
            rename: None,
            reset_run_state: true,
            duplicated_message: "Test run duplicated",
            already_exists_message: "Test run already exists",
        }
    }

    /// Duplication of a milestone, which keeps the runs it references.
    pub fn milestone() -> (r: Self)
        ensures
            r.resource == Resource::Milestones,
            r.id_field@ == "milestoneId"@,
            r.rename is None,
            !r.reset_run_state,
    {
        DuplicateSpec {
            resource: Resource::Milestones,
            id_field: "milestoneId",
            not_found_message: "Milestone not found",
            rename: None,
            reset_run_state: false,
            duplicated_message: "Milestone duplicated",
            already_exists_message: "Milestone already exists",
        }
    }
}

/// `s` without every trailing `.json`.
pub open spec fn without_json_suffix(s: Seq<char>) -> Seq<char>
    decreases s.len(),
{
    if has_json_suffix(s) { without_json_suffix(s.take(s.len() - 5)) } else { s }
}

/// The identifier a copy without `newId` is filed under: the source's base
/// name, `-copy-` and the suffix, and `.json` where the collection needs it.
pub open spec fn derived_id(resource: Resource, source_id: Seq<char>, suffix: Seq<char>) -> Seq<char> {
    let d = without_json_suffix(source_id) + "-copy-"@ + suffix;
    if resource != Resource::Cases { d + ".json"@ } else { d }
}

/// The copy of `document` and its identifier, given the suffix a derived
/// identifier carries and the time a run copy is stamped with.
pub open spec fn overridden(
    spec: DuplicateSpec,
    source_id: Seq<char>,
    body: Json,
    document: Json,
    suffix: Seq<char>,
    now: Seq<char>,
) -> (Json, Seq<char>) {
    let new_id = match body.get("newId"@) {
        Some(Json::Str(n)) => n,
        _ => derived_id(spec.resource, source_id, suffix),
    };
    let d1 = document.set(spec.id_field@, Json::Str(new_id));
    let d2 = match spec.rename {
        Some((k, f)) => match body.get(k@) {
            Some(Json::Str(n)) => d1.set(f@, Json::Str(n)),
            _ => d1,
        },
        None => d1,
    };
    let d3 = if spec.reset_run_state { d2.set("timestamp"@, Json::Str(now)).unset("results"@) } else { d2 };
    (
        d3,
        match d3.get(spec.id_field@) {
            Some(Json::Str(x)) => x,
            _ => "unknown"@,
        },
    )
}

fn strip_json(s: &str) -> (r: String)
    ensures
        r@ == without_json_suffix(s@),
{
    proof { reveal_strlit(".json"); }
    let chars = crate::text::chars_of(s);
    let mut end: usize = chars.len();
    assert(chars@.take(end as int) =~= chars@);
    while end >= 5 && chars[end - 5] == '.' && chars[end - 4] == 'j' && chars[end - 3] == 's' && chars[end - 2]
        == 'o' && chars[end - 1] == 'n'
        invariant
            end <= chars.len(),
            chars@ == s@,
            without_json_suffix(s@) == without_json_suffix(chars@.take(end as int)),
        decreases end,
    {
        let ghost t = chars@.take(end as int);
        proof { reveal_strlit(".json"); }
        assert(t.skip(t.len() - 5) =~= ".json"@);
        assert(t.take(t.len() - 5) =~= chars@.take(end - 5));
        end = end - 5;
    }
    proof {
        let t = chars@.take(end as int);
        if has_json_suffix(t) {
            let tail = t.skip(t.len() - 5);
            assert(tail[0] == '.' && tail[1] == 'j' && tail[2] == 's' && tail[3] == 'o' && tail[4] == 'n');
            assert(tail[0] == chars@[end - 5]);
        }
    }
    let mut out: Vec<char> = Vec::new();
    let mut i: usize = 0;
    while i < end
        invariant
            i <= end,
            end <= chars.len(),
            out@ == chars@.take(i as int),
        decreases end - i,
    {
        out.push(chars[i]);
        assert(chars@.take(i + 1) =~= chars@.take(i as int).push(chars@[i as int]));
        i = i + 1;
    }
    crate::text::string_of(&out)
}

/// Applies the request-body overrides to a duplicated document, given the
/// suffix a derived identifier carries and the time a run copy is stamped
/// with, and returns the identifier the copy should be filed under.
pub fn apply_overrides_at(
    spec: &DuplicateSpec,
    source_id: &str,
    body: &JsonValue,
    document: &mut JsonValue,
    suffix: &str,
    now: &str,
) -> (r: String)
    ensures
        (final(document)@, r@) == overridden(*spec, source_id@, body@, old(document)@, suffix@, now@),
{
    let new_id = match body.get("newId") {
        Some(JsonValue::Str(n)) => n.clone(),
        _ => {
            let mut derived = strip_json(source_id);
            push_str(&mut derived, "-copy-");
            push_str(&mut derived, suffix);
            if spec.resource.id_requires_json_suffix() {
                push_str(&mut derived, ".json");
            }
            derived
        },
    };
    document.insert(spec.id_field, JsonValue::Str(new_id));
    if let Some((body_key, field)) = spec.rename {
        match body.get(body_key) {
            Some(JsonValue::Str(n)) => document.insert(field, JsonValue::Str(n.clone())),
            _ => {},
        }
    }
    if spec.reset_run_state {
        document.insert("timestamp", JsonValue::Str(now.to_owned()));
        document.remove("results");
    }
    match document.get(spec.id_field) {
        Some(JsonValue::Str(x)) => x.clone(),
        _ => "unknown".to_owned(),
    }
}

/// Applies the request-body overrides to a duplicated document and returns
/// the identifier the copy should be filed under. A body without `newId`
/// derives `{source base}-copy-{suffix}` with a suffix read from the clock.
pub fn apply_overrides(spec: &DuplicateSpec, source_id: &str, body: &JsonValue, document: &mut JsonValue) -> (r: String)
    ensures
        exists|n: u64, t: u64|
            (final(document)@, r@) == overridden(*spec, source_id@, body@, old(document)@, decimal(n as nat), decimal(t as nat)),
{
    let suffix = crate::service::unique_suffix();
    let now = crate::timestamps::current_timestamp_string();
    let ghost n = choose|n: u64| suffix@ == decimal(n as nat);
    let ghost t = choose|t: u64| now@ == decimal(t as nat);
    apply_overrides_at(spec, source_id, body, document, suffix.as_str(), now.as_str())
}

} // verus!
