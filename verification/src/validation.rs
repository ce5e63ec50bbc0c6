//! Payload validation for create and update requests: the body must be an
//! object, every top-level member must be one the collection defines, and a
//! nested collection that is present must read as its model.

use vstd::prelude::*;

use crate::error::{DomainError, ErrorModel, invalid_request_model};
use crate::json::{Json, JsonValue, members_of};
use crate::models::{
    Attachment, Document, Milestone, Project, TestCase, TestCaseResult, TestCaseStep, TestConfiguration, TestRun,
    TestSuite,
    docs_fit, keys_among, lemma_named_concat, lemma_named_single, list_from_json,
};
use crate::seqs::first_where;
use crate::storage::Resource;
use crate::text::{concat, push_str, str_eq};

verus! {

const PROJECT_FIELDS: [&'static str; 5] = ["projectId", "name", "description", "testSuites", "tags"];

const SUITE_FIELDS: [&'static str; 5] = ["suiteId", "name", "description", "testCases", "tags"];

const CASE_FIELDS: [&'static str; 12] = [
    "testCaseId",
    "title",
    "description",
    "preconditions",
    "steps",
    "expectedResult",
    "priority",
    "severity",
    "testType",
    "exploratory",
    "attachments",
    "tags",
];

const RUN_FIELDS: [&'static str; 9] = [
    "testRunId",
    "timestamp",
    "name",
    "projects",
    "testSuites",
    "testCases",
    "results",
    "tags",
    "configurations",
];

const MILESTONE_FIELDS: [&'static str; 8] = [
    "milestoneId",
    "name",
    "description",
    "startDate",
    "targetDate",
    "status",
    "testSuiteIds",
    "testRunIds",
];

const CONFIGURATION_FIELDS: [&'static str; 6] = ["configId", "name", "browser", "os", "device", "resolution"];

/// The top-level members a create or update body for `resource` may carry.
pub open spec fn known(resource: Resource) -> Seq<Seq<char>> {
    match resource {
        Resource::Projects => seq!["projectId"@, "name"@, "description"@, "testSuites"@, "tags"@],
        Resource::Suites => seq!["suiteId"@, "name"@, "description"@, "testCases"@, "tags"@],
        Resource::Cases => seq![
            "testCaseId"@,
            "title"@,
            "description"@,
            "preconditions"@,
            "steps"@,
            "expectedResult"@,
            "priority"@,
            "severity"@,
            "testType"@,
            "exploratory"@,
            "attachments"@,
            "tags"@,
        ],
        Resource::Runs => seq![
            "testRunId"@,
            "timestamp"@,
            "name"@,
            "projects"@,
            "testSuites"@,
            "testCases"@,
            "results"@,
            "tags"@,
            "configurations"@,
        ],
        Resource::Milestones => seq![
            "milestoneId"@,
            "name"@,
            "description"@,
            "startDate"@,
            "targetDate"@,
            "status"@,
            "testSuiteIds"@,
            "testRunIds"@,
        ],
        Resource::Configurations => seq!["configId"@, "name"@, "browser"@, "os"@, "device"@, "resolution"@],
    }
}

/// The nested collections a body for `resource` is checked for.
pub open spec fn nested(resource: Resource) -> Seq<Seq<char>> {
    match resource {
        Resource::Projects => seq!["testSuites"@],
        Resource::Suites => seq!["testCases"@],
        Resource::Cases => seq!["steps"@, "attachments"@],
        Resource::Runs => seq!["projects"@, "testSuites"@, "testCases"@, "results"@, "configurations"@],
        _ => Seq::empty(),
    }
}

/// The texts of a list of string slices.
pub open spec fn slice_texts(s: Seq<&'static str>) -> Seq<Seq<char>> {
    s.map_values(|t: &'static str| t@)
}

/// Top-level field names accepted for a resource, in the legacy camelCase
/// spelling. A body carrying anything outside this set is rejected.
pub fn known_fields(resource: Resource) -> (r: &'static [&'static str])
    ensures
        slice_texts(r@) == known(resource),
{
    match resource {
        Resource::Projects => {
            let r: &'static [&'static str] = &PROJECT_FIELDS;
            assert(slice_texts(r@) =~= known(resource));
            r
        },
        Resource::Suites => {
            let r: &'static [&'static str] = &SUITE_FIELDS;
            assert(slice_texts(r@) =~= known(resource));
            r
        },
        Resource::Cases => {
            let r: &'static [&'static str] = &CASE_FIELDS;
            assert(slice_texts(r@) =~= known(resource));
            r
        },
        Resource::Runs => {
            let r: &'static [&'static str] = &RUN_FIELDS;
            assert(slice_texts(r@) =~= known(resource));
            r
        },
        Resource::Milestones => {
            let r: &'static [&'static str] = &MILESTONE_FIELDS;
            assert(slice_texts(r@) =~= known(resource));
            r
        },
        Resource::Configurations => {
            let r: &'static [&'static str] = &CONFIGURATION_FIELDS;
            assert(slice_texts(r@) =~= known(resource));
            r
        },
    }
}

/// The first member of `members` that `allowed` does not name.
pub open spec fn first_unknown(members: Seq<(Seq<char>, Json)>, allowed: Seq<Seq<char>>) -> Option<Seq<char>> {
    let i = first_where(members, |m: (Seq<char>, Json)| !allowed.contains(m.0));
    if 0 <= i < members.len() { Some(members[i].0) } else { None }
}

/// Whether nested collection `k` of a body for `resource` reads: absent,
/// `null`, or an array whose elements all have the shape of the collection's
/// model.
pub open spec fn nested_reads(resource: Resource, v: Json, k: int) -> bool {
    let j = v.get(nested(resource)[k]);
    if resource == Resource::Projects {
        docs_fit::<TestSuite>(j)
    } else if resource == Resource::Suites {
        docs_fit::<TestCase>(j)
    } else if resource == Resource::Cases {
        if k == 0 { docs_fit::<TestCaseStep>(j) } else { docs_fit::<Attachment>(j) }
    } else if resource == Resource::Runs {
        if k == 0 {
            docs_fit::<Project>(j)
        } else if k == 1 {
            docs_fit::<TestSuite>(j)
        } else if k == 2 {
            docs_fit::<TestCase>(j)
        } else if k == 3 {
            docs_fit::<TestCaseResult>(j)
        } else {
            docs_fit::<TestConfiguration>(j)
        }
    } else {
        true
    }
}

fn listed(allowed: &[&'static str], key: &str) -> (r: bool)
    ensures
        r == slice_texts(allowed@).contains(key@),
{
    let mut k: usize = 0;
    while k < allowed.len()
        invariant
            k <= allowed@.len(),
            forall|j: int| 0 <= j < k ==> (#[trigger] allowed@[j])@ != key@,
        decreases allowed@.len() - k,
    {
        if str_eq(allowed[k], key) {
            assert(slice_texts(allowed@)[k as int] == key@);
            return true;
        }
        k = k + 1;
    }
    assert forall|j: int| 0 <= j < slice_texts(allowed@).len() implies slice_texts(allowed@)[j] != key@ by {
        assert(slice_texts(allowed@)[j] == allowed@[j]@);
    }
    false
}

fn nested_ok<T: Document>(value: &JsonValue, field: &str) -> (r: bool)
    ensures
        r == docs_fit::<T>(value@.get(field@)),
{
    match value.get(field) {
        None => true,
        Some(JsonValue::Null) => true,
        Some(inner) => list_from_json::<T>(inner).is_some(),
    }
}

fn invalid_field(field: &str) -> (e: DomainError)
    ensures
        e@ == invalid_request_model("Field `"@ + field@ + "` is invalid"@),
{
    let mut message = concat("Field `", field);
    push_str(&mut message, "` is invalid");
    DomainError::invalid_request(message)
}

/// Whether a body has the shape every acceptable body has: an object whose
/// members the collection all defines.
pub open spec fn shape_ok(resource: Resource, v: Json) -> bool {
    v matches Json::Object(ms) && first_unknown(ms, known(resource)) is None
}

/// Whether validation accepts `v`: its shape is right and every nested
/// collection reads (absent, `null`, or an array of the collection's model).
pub open spec fn payload_accepted(resource: Resource, v: Json) -> bool {
    &&& shape_ok(resource, v)
    &&& forall|k: int| 0 <= k < nested(resource).len() ==> #[trigger] nested_reads(resource, v, k)
}

/// Whether validation may refuse `v` with `e`: a body that is not an object,
/// the first member the collection does not define, or the first nested
/// collection that does not read as its model.
pub open spec fn payload_rejected(resource: Resource, v: Json, e: ErrorModel) -> bool {
    match v {
        Json::Object(ms) => match first_unknown(ms, known(resource)) {
            Some(k) => e == invalid_request_model("Unknown field `"@ + k + "`"@),
            None => exists|k: int|
                0 <= k < nested(resource).len() && !#[trigger] nested_reads(resource, v, k) && (forall|j: int|
                    0 <= j < k ==> #[trigger] nested_reads(resource, v, j)) && e == invalid_request_model(
                    "Field `"@ + nested(resource)[k] + "` is invalid"@,
                ),
        },
        _ => e == invalid_request_model("Request body must be a JSON object"@),
    }
}

/// Validates a create or update body against the collection's model.
///
/// Only present members are checked, so a partial body (`{"name": "alpha"}`)
/// is accepted; a nested collection carrying `null` counts as absent.
pub fn validate_payload(resource: Resource, value: &JsonValue) -> (r: Result<(), DomainError>)
    ensures
        match r {
            Ok(()) => payload_accepted(resource, value@),
            Err(e) => payload_rejected(resource, value@, e@),
        },
        !shape_ok(resource, value@) ==> r is Err,
{
    let members = match value {
        JsonValue::Object(m) => m,
        _ => {
            return Err(DomainError::invalid_request("Request body must be a JSON object".to_owned()));
        },
    };
    proof { crate::json::lemma_object_model(*members); }
    let ghost ms = members_of(members@);
    assert(value@ == Json::Object(ms));
    let allowed = known_fields(resource);
    let ghost f = |m: (Seq<char>, Json)| !known(resource).contains(m.0);
    let mut i: usize = 0;
    while i < members.len()
        invariant
            i <= members.len(),
            ms == members_of(members@),
            value@ == Json::Object(ms),
            slice_texts(allowed@) == known(resource),
            f == (|m: (Seq<char>, Json)| !known(resource).contains(m.0)),
            forall|k: int| 0 <= k < i ==> !f(#[trigger] ms[k]),
        decreases members.len() - i,
    {
        assert(ms[i as int].0 == members@[i as int].0@);
        if !listed(allowed, members[i].0.as_str()) {
            proof { crate::seqs::lemma_first_where(ms, f, i as int); }
            assert(first_unknown(ms, known(resource)) == Some(members@[i as int].0@));
            let mut message = concat("Unknown field `", members[i].0.as_str());
            push_str(&mut message, "`");
            return Err(DomainError::invalid_request(message));
        }
        i = i + 1;
    }
    proof { crate::seqs::lemma_first_where(ms, f, i as int); }
    match resource {
        Resource::Projects => {
            if !nested_ok::<TestSuite>(value, "testSuites") {
                assert(nested(resource)[0] == "testSuites"@);
                assert(!nested_reads(resource, value@, 0));
                return Err(invalid_field("testSuites"));
            }
        },
        Resource::Suites => {
            if !nested_ok::<TestCase>(value, "testCases") {
                assert(nested(resource)[0] == "testCases"@);
                assert(!nested_reads(resource, value@, 0));
                return Err(invalid_field("testCases"));
            }
        },
        Resource::Cases => {
            if !nested_ok::<TestCaseStep>(value, "steps") {
                assert(nested(resource)[0] == "steps"@);
                assert(!nested_reads(resource, value@, 0));
                return Err(invalid_field("steps"));
            }
            if !nested_ok::<Attachment>(value, "attachments") {
                assert(nested(resource)[1] == "attachments"@);
                assert(!nested_reads(resource, value@, 1));
                assert(nested_reads(resource, value@, 0));
                return Err(invalid_field("attachments"));
            }
        },
        Resource::Runs => {
            if !nested_ok::<Project>(value, "projects") {
                assert(nested(resource)[0] == "projects"@);
                assert(!nested_reads(resource, value@, 0));
                return Err(invalid_field("projects"));
            }
            if !nested_ok::<TestSuite>(value, "testSuites") {
                assert(nested(resource)[1] == "testSuites"@);
                assert(!nested_reads(resource, value@, 1));
                assert(nested_reads(resource, value@, 0));
                return Err(invalid_field("testSuites"));
            }
            if !nested_ok::<TestCase>(value, "testCases") {
                assert(nested(resource)[2] == "testCases"@);
                assert(!nested_reads(resource, value@, 2));
                assert(nested_reads(resource, value@, 0));
                assert(nested_reads(resource, value@, 1));
                return Err(invalid_field("testCases"));
            }
            if !nested_ok::<TestCaseResult>(value, "results") {
                assert(nested(resource)[3] == "results"@);
                assert(!nested_reads(resource, value@, 3));
                assert(nested_reads(resource, value@, 0));
                assert(nested_reads(resource, value@, 1));
                assert(nested_reads(resource, value@, 2));
                return Err(invalid_field("results"));
            }
            if !nested_ok::<TestConfiguration>(value, "configurations") {
                assert(nested(resource)[4] == "configurations"@);
                assert(!nested_reads(resource, value@, 4));
                assert(nested_reads(resource, value@, 0));
                assert(nested_reads(resource, value@, 1));
                assert(nested_reads(resource, value@, 2));
                assert(nested_reads(resource, value@, 3));
                return Err(invalid_field("configurations"));
            }
        },
        _ => {},
    }
    Ok(())
}

} // verus!

verus! {

/// A project writes only members a project body may carry.
pub proof fn lemma_project_writes_known(x: Project)
    ensures
        keys_among(x.model(), known(Resource::Projects)),
{
    broadcast use lemma_named_concat, lemma_named_single;
    let names = known(Resource::Projects);
    assert(names[0] == "projectId"@ && names[1] == "name"@ && names[2] == "description"@ && names[3] == "testSuites"@ && names[4] == "tags"@);
}

/// A suite writes only members a suite body may carry.
pub proof fn lemma_suite_writes_known(x: TestSuite)
    ensures
        keys_among(x.model(), known(Resource::Suites)),
{
    broadcast use lemma_named_concat, lemma_named_single;
    let names = known(Resource::Suites);
    assert(names[0] == "suiteId"@ && names[1] == "name"@ && names[2] == "description"@ && names[3] == "testCases"@ && names[4] == "tags"@);
}

/// A case that carries no version and no modification time writes only
/// members a case body may carry.
pub proof fn lemma_case_writes_known(x: TestCase)
    requires
        x.version is None,
        x.last_modified is None,
    ensures
        keys_among(x.model(), known(Resource::Cases)),
{
    broadcast use lemma_named_concat, lemma_named_single;
    let names = known(Resource::Cases);
    assert(names[0] == "testCaseId"@ && names[1] == "title"@ && names[2] == "description"@ && names[3] == "preconditions"@ && names[4] == "steps"@ && names[5] == "expectedResult"@ && names[6] == "priority"@ && names[7] == "severity"@ && names[8] == "testType"@ && names[9] == "exploratory"@ && names[10] == "attachments"@ && names[11] == "tags"@);
}

/// A run that pins no case versions writes only members a run body may
/// carry.
pub proof fn lemma_run_writes_known(x: TestRun)
    requires
        x.case_versions is None,
    ensures
        keys_among(x.model(), known(Resource::Runs)),
{
    broadcast use lemma_named_concat, lemma_named_single;
    let names = known(Resource::Runs);
    assert(names[0] == "testRunId"@ && names[1] == "timestamp"@ && names[2] == "name"@ && names[3] == "projects"@ && names[4] == "testSuites"@ && names[5] == "testCases"@ && names[6] == "results"@ && names[7] == "tags"@ && names[8] == "configurations"@);
}

/// A milestone writes only members a milestone body may carry.
pub proof fn lemma_milestone_writes_known(x: Milestone)
    ensures
        keys_among(x.model(), known(Resource::Milestones)),
{
    broadcast use lemma_named_concat, lemma_named_single;
    let names = known(Resource::Milestones);
    assert(names[0] == "milestoneId"@ && names[1] == "name"@ && names[2] == "description"@ && names[3] == "startDate"@ && names[4] == "targetDate"@ && names[5] == "status"@ && names[6] == "testSuiteIds"@ && names[7] == "testRunIds"@);
}

/// A configuration writes only members a configuration body may carry.
pub proof fn lemma_configuration_writes_known(x: TestConfiguration)
    ensures
        keys_among(x.model(), known(Resource::Configurations)),
{
    broadcast use lemma_named_concat, lemma_named_single;
    let names = known(Resource::Configurations);
    assert(names[0] == "configId"@ && names[1] == "name"@ && names[2] == "browser"@ && names[3] == "os"@ && names[4] == "device"@ && names[5] == "resolution"@);
}

} // verus!
