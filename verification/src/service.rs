//! The application over the document store.
//!
//! A project or suite marker stores empty child collections and a read
//! assembles the real children from what the store files under it, so
//! membership has exactly one home. An identifier that several parents own is
//! therefore a conflict rather than an arbitrary pick: the caller has to say
//! which parent it meant.

use vstd::prelude::*;

use crate::composition::{
    ResultUpdate, Patch, listed, upserted, holds_case, run_holds, capture_case_version, upsert_result,
    attach_defect_to_result, detach_defect_from_result, attach_suite_to_run, attach_case_to_run,
    attach_configuration_to_run, detach_configuration_from_run, links_of, result_index, names_suite, names_case,
    names_configuration, appended, without_configuration, has_link, links_defect, same_header, fresh_result, captured,
};
use crate::error::{DomainError, ErrorModel, invalid_request_model, invalid_status_model};
use crate::import::{
    ImportStatus, ParsedCase, CaseModel, cases_model, entries_of, entries_result, report_upto, too_deep_from,
    unusable_body_message, xml_nodes,
};
use crate::progress::{ProgressCounts, compute, counts_fit};
use crate::duplicate::{DuplicateSpec, apply_overrides, overridden};
use crate::reports::{CoverageReport, ProjectCases, Scope, SuiteCases, SummaryFilters, SummaryReport, case_total, coverage, summary, run_is_in_scope, run_reachable, parse_date_filter};
use crate::models::{Document, DefectLink, TestCase, TestCaseResult, TestConfiguration, TestRun, TestSuite, list_copy, list_model, text_fits, unsigned_fits};
use crate::json::{Json, JsonNumber, JsonValue, NumberModel, json_clone};
use vstd::string::StringSliceAdditionalSpecFns;
use crate::listing::{
    contains_text, document_has_any_tag, document_links_configuration, has_any_tag, links_config, lowercase,
    parse_requested_tags, requested_tags, text_contains, to_lowercase,
};
use crate::order::{insert_sorted, lex_less, ordered, sort_texts, sorted_ids, strictly_sorted, texts_of};
use crate::resources::{create_id, derive_create_id, required_of, required_string};
use crate::storage::{Parent, ParentModel, Placement, Resource, StorageError};
use crate::attachments::{attachments_of, can_record, attached, detached, listed_attachments, step_of};
use crate::files::{MAX_ATTACHMENT_BYTES, after_last, ascii_lower, mime_for, mime_type};
use crate::store::{
    FileModel, file_at, file_named, EntryModel, Repository, children_of, homes_of, ids_in, opt_parent, removed, stored_at, written,
};
use crate::text::{concat, decimal, push_decimal, push_str, str_eq};
use crate::timestamps::{current_iso8601_timestamp, current_timestamp_string, iso8601};
use crate::validation::{first_unknown, payload_accepted, payload_rejected, shape_ok, validate_payload};

verus! {

/// Query parameters accepted by every list endpoint. `configuration` only
/// means something for runs, the one collection whose documents link
/// configurations.
#[derive(Debug)]
pub struct ListQuery {
    pub filter: Option<String>,
    pub tags: Option<String>,
    pub configuration: Option<String>,
}

impl Default for ListQuery {
    fn default() -> (r: Self)
        ensures
            r.filter is None,
            r.tags is None,
            r.configuration is None,
    {
        ListQuery { filter: None, tags: None, configuration: None }
    }
}

/// Identifier assigned to a freshly created resource.
#[derive(Debug, PartialEq, Eq)]
pub struct Created {
    pub id: String,
}

/// How a composition request was satisfied.
#[derive(Debug, PartialEq, Eq)]
pub enum Composed {
    /// A new entity was created in the target parent.
    Created(Created),
    /// An existing entity was copied or moved into the target parent.
    Placed { id: String, mode: Placement },
}

impl Composed {
    /// Identifier of the entity the request addressed.
    pub fn id(&self) -> (r: &str)
        ensures
            r@ == (match self {
                Composed::Created(c) => c.id@,
                Composed::Placed { id, .. } => id@,
            }),
    {
        match self {
            Composed::Created(created) => created.id.as_str(),
            Composed::Placed { id, .. } => id.as_str(),
        }
    }

    /// Response message, phrased for `noun` (for example `Test suite`).
    pub fn message(&self, noun: &str) -> (r: String)
        ensures
            r@ == noun@ + (match self {
                Composed::Created(_) => " created"@,
                Composed::Placed { mode: Placement::Copy, .. } => " copied"@,
                Composed::Placed { mode: Placement::Move, .. } => " moved"@,
            }),
    {
        match self {
            Composed::Created(_) => concat(noun, " created"),
            Composed::Placed { mode: Placement::Copy, .. } => concat(noun, " copied"),
            Composed::Placed { mode: Placement::Move, .. } => concat(noun, " moved"),
        }
    }
}

/// One home as a conflict message lists it, labelled with the kind of parent
/// it is.
pub open spec fn description(p: ParentModel) -> Seq<char> {
    match p {
        ParentModel::Project(project) => "project "@ + project,
        ParentModel::Suite(project, suite) => "suite "@ + suite + " in project "@ + project,
    }
}

/// The descriptions of `homes`, in order.
pub open spec fn descriptions(homes: Seq<ParentModel>) -> Seq<Seq<char>> {
    homes.map_values(|p: ParentModel| description(p))
}

/// `items` separated by `, `.
pub open spec fn joined(items: Seq<Seq<char>>) -> Seq<char>
    decreases items.len(),
{
    if items.len() == 0 {
        Seq::empty()
    } else if items.len() == 1 {
        items[0]
    } else {
        joined(items.drop_last()) + ", "@ + items.last()
    }
}

/// The parent-scoped routes that address one occurrence of `resource`.
pub open spec fn endpoint_hint(resource: Resource) -> Seq<char> {
    match resource {
        Resource::Cases => "POST /projects/{id}/test_cases, POST /test_suites/{id}/test_cases, the matching /{case_id} delete, or the parent-scoped attachment routes /projects/{id}/test_cases/{case_id}/attachments and /test_suites/{id}/test_cases/{case_id}/attachments"@,
        Resource::Runs => "POST /projects/{id}/test_runs, or the matching /{run_id} delete"@,
        Resource::Milestones => "POST /projects/{id}/milestones, or the matching /{milestone_id} delete"@,
        Resource::Configurations => "POST /projects/{id}/configurations, or the matching /{config_id} delete"@,
        _ => "POST /projects/{id}/test_suites, or the matching /{suite_id} delete"@,
    }
}

/// The conflict message for `count` homes listed as `listed`.
pub open spec fn ambiguity(resource: Resource, count: nat, listed: Seq<Seq<char>>) -> Seq<char> {
    "This identifier is used by "@ + decimal(count) + " parents ("@ + joined(listed)
        + "); address the intended one through "@ + endpoint_hint(resource)
}

/// Whether `e` is the conflict reported for an identifier `homes` all hold:
/// it counts them and lists their descriptions in order.
pub open spec fn ambiguity_error(resource: Resource, homes: Seq<ParentModel>, e: ErrorModel) -> bool {
    exists|listed: Seq<Seq<char>>|
        ordered(listed) && listed.to_multiset() == descriptions(homes).to_multiset() && e == ErrorModel::Conflict(
            ambiguity(resource, homes.len(), listed),
        )
}

fn endpoints(resource: Resource) -> (r: &'static str)
    ensures
        r@ == endpoint_hint(resource),
{
    match resource {
        Resource::Cases => "POST /projects/{id}/test_cases, POST /test_suites/{id}/test_cases, the matching /{case_id} delete, or the parent-scoped attachment routes /projects/{id}/test_cases/{case_id}/attachments and /test_suites/{id}/test_cases/{case_id}/attachments",
        Resource::Runs => "POST /projects/{id}/test_runs, or the matching /{run_id} delete",
        Resource::Milestones => "POST /projects/{id}/milestones, or the matching /{milestone_id} delete",
        Resource::Configurations => "POST /projects/{id}/configurations, or the matching /{config_id} delete",
        _ => "POST /projects/{id}/test_suites, or the matching /{suite_id} delete",
    }
}

/// One home as the conflict message lists it.
pub fn describe_parent(parent: &Parent) -> (r: String)
    ensures
        r@ == description(parent@),
{
    match parent {
        Parent::Project(project) => concat("project ", project.as_str()),
        Parent::Suite { project, suite } => {
            let mut out = concat("suite ", suite.as_str());
            push_str(&mut out, " in project ");
            push_str(&mut out, project.as_str());
            out
        },
    }
}

/// The conflict reported when a bare identifier names several occurrences.
///
/// The message names the parent-scoped routes that address one occurrence
/// directly, so the caller learns how to say which parent it meant.
pub fn ambiguous(resource: Resource, homes: &[Parent]) -> (e: DomainError)
    ensures
        ambiguity_error(resource, homes@.map_values(|p: Parent| p@), e@),
{
    let ghost models = homes@.map_values(|p: Parent| p@);
    let mut labels: Vec<String> = Vec::new();
    let mut i: usize = 0;
    while i < homes.len()
        invariant
            i <= homes.len(),
            models == homes@.map_values(|p: Parent| p@),
            texts_of(labels@) == descriptions(models).take(i as int),
        decreases homes.len() - i,
    {
        let label = describe_parent(&homes[i]);
        let ghost before = texts_of(labels@);
        labels.push(label);
        assert(texts_of(labels@) =~= before.push(description(models[i as int])));
        assert(descriptions(models).take(i + 1) =~= descriptions(models).take(i as int).push(
            description(models[i as int]),
        ));
        i = i + 1;
    }
    assert(descriptions(models).take(i as int) =~= descriptions(models));
    let sorted = sort_texts(labels);
    let ghost listed = texts_of(sorted@);
    let mut message = String::new();
    push_str(&mut message, "This identifier is used by ");
    push_decimal(&mut message, homes.len() as u64);
    push_str(&mut message, " parents (");
    let mut k: usize = 0;
    while k < sorted.len()
        invariant
            k <= sorted.len(),
            listed == texts_of(sorted@),
            message@ == "This identifier is used by "@ + decimal(homes@.len()) + " parents ("@ + joined(
                listed.take(k as int),
            ),
        decreases sorted.len() - k,
    {
        let ghost prior = message@;
        if k > 0 {
            push_str(&mut message, ", ");
        }
        push_str(&mut message, sorted[k].as_str());
        proof {
            let t = listed.take(k + 1);
            assert(t.drop_last() =~= listed.take(k as int));
            assert(t.last() == sorted@[k as int]@);
            if k == 0 {
                assert(joined(listed.take(0)) =~= Seq::<char>::empty());
            }
        }
        assert(message@ =~= "This identifier is used by "@ + decimal(homes@.len()) + " parents ("@ + joined(
            listed.take(k + 1),
        ));
        k = k + 1;
    }
    assert(listed.take(k as int) =~= listed);
    push_str(&mut message, "); address the intended one through ");
    push_str(&mut message, endpoints(resource));
    assert(message@ =~= ambiguity(resource, models.len(), listed));
    DomainError::Conflict(message)
}

/// The message a parent that does not exist is reported with.
pub open spec fn parent_missing(parent: ParentModel) -> Seq<char> {
    match parent {
        ParentModel::Project(_) => "Project not found"@,
        ParentModel::Suite(_, _) => "Test suite not found"@,
    }
}

/// The message a missing entity of `resource` is reported with.
pub open spec fn entity_missing(resource: Resource) -> Seq<char> {
    match resource {
        Resource::Projects => "Project not found"@,
        Resource::Suites => "Test suite not found"@,
        Resource::Cases => "Test case not found"@,
        _ => "Resource not found"@,
    }
}

fn parent_missing_message(parent: &Parent) -> (r: &'static str)
    ensures
        r@ == parent_missing(parent@),
{
    match parent {
        Parent::Project(_) => "Project not found",
        Parent::Suite { .. } => "Test suite not found",
    }
}

fn entity_missing_message(resource: Resource) -> (r: &'static str)
    ensures
        r@ == entity_missing(resource),
{
    match resource {
        Resource::Projects => "Project not found",
        Resource::Suites => "Test suite not found",
        Resource::Cases => "Test case not found",
        _ => "Resource not found",
    }
}

/// Whether `parent` exists in `s`: a project, or a suite inside an existing
/// project.
pub open spec fn parent_present(s: Seq<EntryModel>, parent: ParentModel) -> bool {
    match parent {
        ParentModel::Project(project) => stored_at(s, Resource::Projects, None, project) is Some,
        ParentModel::Suite(project, suite) => stored_at(s, Resource::Projects, None, project) is Some && stored_at(
            s,
            Resource::Suites,
            Some(ParentModel::Project(project)),
            suite,
        ) is Some,
    }
}

/// How an identifier resolves to the home that holds it: `home`, when given
/// and holding it; otherwise the single holder. Nothing is reported when no
/// parent or several hold it.
pub open spec fn resolution(s: Seq<EntryModel>, resource: Resource, id: Seq<char>, home: Option<ParentModel>) -> Option<ParentModel> {
    if home is Some && stored_at(s, resource, home, id) is Some {
        home
    } else if homes_of(s, resource, id).len() == 1 {
        Some(homes_of(s, resource, id)[0])
    } else {
        None
    }
}

/// Whether `e` is what resolving `id` is refused with when it does not
/// resolve: `missing` when no parent holds it, the conflict when several do.
pub open spec fn resolution_error(s: Seq<EntryModel>, resource: Resource, id: Seq<char>, missing: Seq<char>, e: ErrorModel) -> bool {
    let homes = homes_of(s, resource, id);
    if homes.len() == 0 {
        e == ErrorModel::NotFound(missing)
    } else {
        homes.len() >= 2 && ambiguity_error(resource, homes, e)
    }
}

/// The parent a write to `resource` addresses: none for a project, otherwise
/// the home the identifier resolves to.
pub open spec fn write_owner(s: Seq<EntryModel>, resource: Resource, id: Seq<char>) -> Option<Option<ParentModel>> {
    if resource == Resource::Projects {
        Some(None)
    } else {
        match resolution(s, resource, id, None) {
            Some(p) => Some(Some(p)),
            None => None,
        }
    }
}

/// The collection a parent marker keeps empty.
pub open spec fn collection_of(resource: Resource) -> Option<Seq<char>> {
    match resource {
        Resource::Projects => Some("testSuites"@),
        Resource::Suites => Some("testCases"@),
        _ => None,
    }
}

/// The member that names a document of `resource`.
pub open spec fn identity_of(resource: Resource) -> Seq<char> {
    match resource {
        Resource::Projects => "projectId"@,
        Resource::Suites => "suiteId"@,
        Resource::Cases => "testCaseId"@,
        Resource::Runs => "testRunId"@,
        Resource::Milestones => "milestoneId"@,
        Resource::Configurations => "configId"@,
    }
}

/// A document as a marker is filed: its child collection empty, and its
/// identity filled in when the body carried none (a configuration's identity
/// is always the identifier it is filed under).
pub open spec fn marked(resource: Resource, id: Seq<char>, d: Json) -> Json {
    if resource == Resource::Cases || !(d is Object) {
        d
    } else {
        let c = match collection_of(resource) {
            Some(k) => d.set(k, Json::Array(Seq::empty())),
            None => d,
        };
        if resource != Resource::Configurations && (d.get(identity_of(resource)) matches Some(Json::Str(_))) {
            c
        } else {
            c.set(identity_of(resource), Json::Str(id))
        }
    }
}

/// A document on its way to storage, given the time a run without a
/// timestamp is stamped with.
pub open spec fn normalised(resource: Resource, id: Seq<char>, d: Json, now: Seq<char>) -> Json {
    let m = marked(resource, id, d);
    if resource == Resource::Runs && d is Object && !(m.get("timestamp"@) matches Some(Json::Str(_))) {
        m.set("timestamp"@, Json::Str(now))
    } else {
        m
    }
}

/// A new test case with its version bookkeeping: version 1, modified `now`.
pub open spec fn stamped(d: Json, now: Seq<char>) -> Json {
    d.set("version"@, Json::Number(crate::json::NumberModel::Unsigned(1))).set("lastModified"@, Json::Str(now))
}

/// The document a create request files, given the two clocks it reads.
pub open spec fn filed_form(resource: Resource, id: Seq<char>, body: Json, iso_now: Seq<char>, unix_now: Seq<char>) -> Json {
    normalised(resource, id, if resource == Resource::Cases { stamped(body, iso_now) } else { body }, unix_now)
}

/// Normalises a document on its way to storage.
pub fn normalise_marker(resource: Resource, id: &str, document: &mut JsonValue)
    ensures
        exists|t: u64| final(document)@ == normalised(resource, id@, old(document)@, decimal(t as nat)),
{
    let ghost original = document@;
    let (collection, identity): (Option<&str>, &str) = match resource {
        Resource::Projects => (Some("testSuites"), "projectId"),
        Resource::Suites => (Some("testCases"), "suiteId"),
        Resource::Runs => (None, "testRunId"),
        Resource::Milestones => (None, "milestoneId"),
        Resource::Configurations => (None, "configId"),
        Resource::Cases => {
            assert(normalised(resource, id@, original, decimal(0)) == original);
            return;
        },
    };
    if !document.is_object() {
        assert(normalised(resource, id@, original, decimal(0)) == original);
        return;
    }
    assert(collection matches Some(c) ==> collection_of(resource) == Some(c@));
    assert(collection is None ==> collection_of(resource) is None);
    assert(identity@ == identity_of(resource));
    let authoritative = resource != Resource::Configurations && match document.get(identity) {
        Some(JsonValue::Str(_)) => true,
        _ => false,
    };
    let empty: Vec<JsonValue> = Vec::new();
    proof {
        crate::json::lemma_array_model(empty);
        assert(crate::json::values_of(empty@) =~= Seq::<Json>::empty());
    }
    match collection {
        Some(c) => document.insert(c, JsonValue::Array(empty)),
        None => {},
    }
    if !authoritative {
        document.insert(identity, JsonValue::Str(id.to_owned()));
    }
    let ghost m = document@;
    assert(m == marked(resource, id@, original));
    let needs_time = resource == Resource::Runs && match document.get("timestamp") {
        Some(JsonValue::Str(_)) => false,
        _ => true,
    };
    if needs_time {
        let now = current_timestamp_string();
        let ghost t = choose|t: u64| now@ == decimal(t as nat);
        document.insert("timestamp", JsonValue::Str(now));
        assert(document@ == normalised(resource, id@, original, decimal(t as nat)));
    } else {
        assert(document@ == normalised(resource, id@, original, decimal(0)));
    }
}

/// Stamps the version bookkeeping a new test case starts with: version 1,
/// modified now. A value the client supplied is overwritten.
pub fn stamp_case_creation(document: &mut JsonValue)
    ensures
        exists|t: u64| final(document)@ == stamped(old(document)@, iso8601(t as nat)),
{
    document.insert("version", JsonValue::Number(JsonNumber::Unsigned(1)));
    let now = current_iso8601_timestamp();
    let ghost t = choose|t: u64| now@ == iso8601(t as nat);
    document.insert("lastModified", JsonValue::Str(now));
}


/// The documents of the `child` documents `parent` owns, in identifier order.
pub open spec fn child_documents(s: Seq<EntryModel>, parent: ParentModel, child: Resource) -> Seq<Json> {
    sorted_ids(children_of(s, parent, child)).map_values(
        |id: Seq<char>| stored_at(s, child, Some(parent), id)->0,
    )
}

/// A suite as a read shows it: its marker with the cases the suite holds.
pub open spec fn suite_view(s: Seq<EntryModel>, project: Seq<char>, suite: Seq<char>, d: Json) -> Json {
    d.set("testCases"@, Json::Array(child_documents(s, ParentModel::Suite(project, suite), Resource::Cases)))
}

/// A project as a read shows it: its marker with its suites, each with its
/// cases, and the cases it holds directly, a project holding none carrying no
/// `testCases` member.
pub open spec fn project_view(s: Seq<EntryModel>, id: Seq<char>, d: Json) -> Json {
    let p = ParentModel::Project(id);
    let suites = sorted_ids(children_of(s, p, Resource::Suites)).map_values(
        |sid: Seq<char>| suite_view(s, id, sid, stored_at(s, Resource::Suites, Some(p), sid)->0),
    );
    let cases = child_documents(s, p, Resource::Cases);
    let with_suites = d.set("testSuites"@, Json::Array(suites));
    if cases.len() == 0 {
        with_suites.unset("testCases"@)
    } else {
        with_suites.set("testCases"@, Json::Array(cases))
    }
}

/// Whether `e` is why creating from `body` in `parent` was refused: the body
/// fails validation, names no identifier, names one the store cannot file, or
/// names one already filed there.
pub open spec fn create_refusal(
    s: Seq<EntryModel>,
    resource: Resource,
    parent: Option<ParentModel>,
    body: Json,
    e: ErrorModel,
) -> bool {
    ||| payload_rejected(resource, body, e)
    ||| (payload_accepted(resource, body) && create_id(resource, body) is None && e == invalid_request_model(
        "Required fields are missing"@,
    ))
    ||| (payload_accepted(resource, body) && (create_id(resource, body) matches Some(id) && !crate::storage::valid_document_id(id))
        && e == crate::error::invalid_id_model())
    ||| (payload_accepted(resource, body) && (create_id(resource, body) matches Some(id) && crate::storage::valid_document_id(id)
        && stored_at(s, resource, parent, id) is Some) && e == ErrorModel::Conflict("Resource already exists"@))
}

/// What creating from `body` in `parent` files, when it succeeds.
pub open spec fn created(
    before: Seq<EntryModel>,
    after: Seq<EntryModel>,
    resource: Resource,
    parent: Option<ParentModel>,
    body: Json,
    id: Seq<char>,
) -> bool {
    &&& payload_accepted(resource, body)
    &&& create_id(resource, body) == Some(id)
    &&& crate::storage::valid_document_id(id)
    &&& stored_at(before, resource, parent, id) is None
    &&& exists|a: u64, b: u64|
        after == written(before, resource, parent, id, filed_form(resource, id, body, iso8601(a as nat), decimal(b as nat)))
}

/// The message a create through a retired flat route is refused with.
pub open spec fn retired_route(resource: Resource) -> Seq<char> {
    match resource {
        Resource::Suites => "Test suites are created inside a project: POST /projects/{id}/test_suites"@,
        Resource::Cases => "Test cases are created inside a project or a suite: POST /projects/{id}/test_cases or POST /test_suites/{id}/test_cases"@,
        Resource::Runs => "Test runs are created inside a project: POST /projects/{id}/test_runs"@,
        Resource::Milestones => "Milestones are created inside a project: POST /projects/{id}/milestones"@,
        _ => "Configurations are created inside a project: POST /projects/{id}/configurations"@,
    }
}

/// The placement a composition body asks for: `move`, or a copy by default.
pub open spec fn mode_of(body: Json) -> Placement {
    if body.get("mode"@) == Some(Json::Str("move"@)) {
        Placement::Move
    } else {
        Placement::Copy
    }
}

/// Whether a composition body's `mode`, when it carries one, names a placement.
pub open spec fn mode_known(body: Json) -> bool {
    match body.get("mode"@) {
        None => true,
        Some(m) => m == Json::Str("copy"@) || m == Json::Str("move"@),
    }
}

/// Whether a composition body carries the field that creates a `resource`.
pub open spec fn creation_fields(resource: Resource, body: Json) -> bool {
    match resource {
        Resource::Suites => required_of(body, "name"@) is Some,
        Resource::Cases => required_of(body, "title"@) is Some,
        _ => true,
    }
}

/// What a composition body asks for: a creation (`true`), a placement
/// (`false`), or the message it is refused with.
pub open spec fn composition_kind(resource: Resource, body: Json) -> Result<bool, Seq<char>> {
    if !mode_known(body) {
        Err("Field `mode` must be `copy` or `move`"@)
    } else if creation_fields(resource, body) && body.get("mode"@) is Some {
        Err("A placement request cannot carry the fields that create a new resource"@)
    } else {
        Ok(creation_fields(resource, body))
    }
}

/// The body field that names the entity a placement moves.
pub open spec fn id_field(resource: Resource) -> Option<Seq<char>> {
    match resource {
        Resource::Suites => Some("suiteId"@),
        Resource::Cases => Some("testCaseId"@),
        _ => None,
    }
}

/// How the store's refusal of a placement is reported.
pub open spec fn placement_model(error: StorageError) -> ErrorModel {
    match error {
        StorageError::AlreadyExists => ErrorModel::Conflict(
            "The target parent already holds a child with this identifier"@,
        ),
        StorageError::NotFound => ErrorModel::NotFound("Resource not found"@),
        StorageError::InvalidInput => crate::error::invalid_id_model(),
        _ => crate::error::storage_model(error),
    }
}

/// Whether placing per `body` into `target` took the store from `s` to `t`
/// and answered `r`.
pub open spec fn placement(
    s: Seq<EntryModel>,
    t: Seq<EntryModel>,
    resource: Resource,
    target: ParentModel,
    body: Json,
    r: Result<Composed, DomainError>,
) -> bool {
    match id_field(resource) {
        None => t == s && (r matches Err(e) && e@ == invalid_request_model(
            "Only test suites and test cases can be placed"@,
        )),
        Some(field) => match required_of(body, field) {
            None => t == s && (r matches Err(e) && e@ == invalid_request_model(
                "Required field "@ + field + " is missing"@,
            )),
            Some(id) => match resolution(s, resource, id, None) {
                None => t == s && (r matches Err(e) && resolution_error(s, resource, id, entity_missing(resource), e@)),
                Some(source) => if resource == Resource::Suites && !(target is Project) {
                    t == s && (r matches Err(e) && e@ == invalid_request_model(
                        "A test suite can only be placed into a project"@,
                    ))
                } else if !parent_present(s, target) {
                    t == s && (r matches Err(e) && e@ == ErrorModel::NotFound(parent_missing(target)))
                } else if stored_at(s, resource, Some(target), id) is Some {
                    t == s && (r matches Err(e) && e@ == placement_model(StorageError::AlreadyExists))
                } else {
                    &&& t == crate::store::placed(
                        s,
                        resource,
                        source,
                        id,
                        target,
                        mode_of(body),
                        stored_at(s, resource, Some(source), id)->0,
                    )
                    &&& r matches Ok(Composed::Placed { id: placed_id, mode }) && placed_id@ == id && mode
                        == mode_of(body)
                },
            },
        },
    }
}

/// Whether composing per `body` into `target` took the store from `s` to `t`
/// and answered `r`: a creation, a placement, or a refusal of the body.
pub open spec fn composition(
    s: Seq<EntryModel>,
    t: Seq<EntryModel>,
    resource: Resource,
    target: ParentModel,
    body: Json,
    r: Result<Composed, DomainError>,
) -> bool {
    match composition_kind(resource, body) {
        Err(message) => t == s && (r matches Err(e) && e@ == invalid_request_model(message)),
        Ok(true) => match r {
            Ok(Composed::Created(c)) => parent_present(s, target) && created(s, t, resource, Some(target), body, c.id@),
            Ok(Composed::Placed { .. }) => false,
            Err(e) => t == s && if parent_present(s, target) {
                create_refusal(s, resource, Some(target), body, e@)
            } else {
                e@ == ErrorModel::NotFound(parent_missing(target))
            },
        },
        Ok(false) => placement(s, t, resource, target, body, r),
    }
}

/// Whether adding a case to suite `suite_id` per `body` took the store from
/// `s` to `t` and answered `r`: the composition into the suite's folder.
pub open spec fn suite_addition(
    s: Seq<EntryModel>,
    t: Seq<EntryModel>,
    suite_id: Seq<char>,
    body: Json,
    r: Result<(), DomainError>,
) -> bool {
    match resolution(s, Resource::Suites, suite_id, None) {
        None => t == s && (r matches Err(e) && resolution_error(
            s,
            Resource::Suites,
            suite_id,
            "Test suite not found"@,
            e@,
        )),
        Some(h) => exists|c: Result<Composed, DomainError>|
            #[trigger] composition(s, t, Resource::Cases, ParentModel::Suite(h.project(), suite_id), body, c) && (r
                is Ok <==> c is Ok) && (c matches Err(e) ==> r == Err::<(), DomainError>(e)),
    }
}

/// The identifiers a caller is limited to, when it is limited.
pub open spec fn limit_of(reachable: Option<&[String]>) -> Option<Seq<String>> {
    match reachable {
        Some(r) => Some(r@),
        None => None,
    }
}

/// Whether a caller limited to `reachable`, when limited, reaches project `p`.
pub open spec fn reaches(reachable: Option<Seq<String>>, p: Seq<char>) -> bool {
    match reachable {
        None => true,
        Some(r) => crate::reports::contains_id(r, p),
    }
}

/// The `name` the `resource` document `id` of project `p` carries.
pub open spec fn name_at(s: Seq<EntryModel>, resource: Resource, p: Seq<char>, id: Seq<char>) -> Option<Seq<char>> {
    match stored_at(s, resource, Some(ParentModel::Project(p)), id) {
        Some(d) => d.str_at("name"@),
        None => None,
    }
}

/// Whether `n` names a `resource` document filed directly in one of the
/// `projects` the caller reaches.
pub open spec fn named_in(
    s: Seq<EntryModel>,
    resource: Resource,
    reachable: Option<Seq<String>>,
    projects: Set<Seq<char>>,
    n: Seq<char>,
) -> bool {
    exists|p: Seq<char>, id: Seq<char>|
        projects.contains(p) && reaches(reachable, p) && #[trigger] children_of(s, ParentModel::Project(p), resource).contains(id)
            && #[trigger] name_at(s, resource, p, id) == Some(n)
}

/// Every name the reachable projects' `resource` documents carry.
pub open spec fn distinct_names(s: Seq<EntryModel>, resource: Resource, reachable: Option<Seq<String>>) -> Set<
    Seq<char>,
> {
    Set::new(|n: Seq<char>| named_in(s, resource, reachable, ids_in(s, Resource::Projects), n))
}

/// The names the `resource` documents `ids` of project `p` carry.
pub open spec fn names_among(s: Seq<EntryModel>, resource: Resource, p: Seq<char>, ids: Seq<Seq<char>>) -> Set<Seq<char>> {
    Set::new(|n: Seq<char>| exists|k: int| 0 <= k < ids.len() && name_at(s, resource, p, #[trigger] ids[k]) == Some(n))
}

proof fn lemma_named_step(
    s: Seq<EntryModel>,
    resource: Resource,
    reachable: Option<Seq<String>>,
    prev: Set<Seq<char>>,
    p: Seq<char>,
    ids: Seq<Seq<char>>,
)
    requires
        ids.to_set() == children_of(s, ParentModel::Project(p), resource),
    ensures
        Set::new(|n: Seq<char>| named_in(s, resource, reachable, prev.insert(p), n)) == Set::new(
            |n: Seq<char>| named_in(s, resource, reachable, prev, n),
        ).union(if reaches(reachable, p) { names_among(s, resource, p, ids) } else { Set::empty() }),
{
    let lhs = Set::new(|n: Seq<char>| named_in(s, resource, reachable, prev.insert(p), n));
    let old_names = Set::new(|n: Seq<char>| named_in(s, resource, reachable, prev, n));
    let extra = if reaches(reachable, p) { names_among(s, resource, p, ids) } else { Set::empty() };
    assert forall|n: Seq<char>| lhs.contains(n) implies old_names.union(extra).contains(n) by {
        let (q, id) = choose|q: Seq<char>, id: Seq<char>|
            prev.insert(p).contains(q) && reaches(reachable, q) && #[trigger] children_of(s, ParentModel::Project(q), resource).contains(id)
                && #[trigger] name_at(s, resource, q, id) == Some(n);
        if prev.contains(q) {
            assert(named_in(s, resource, reachable, prev, n));
        } else {
            assert(q == p);
            assert(ids.to_set().contains(id));
            let k = choose|k: int| 0 <= k < ids.len() && #[trigger] ids[k] == id;
            assert(name_at(s, resource, p, ids[k]) == Some(n));
        }
    }
    assert forall|n: Seq<char>| old_names.union(extra).contains(n) implies lhs.contains(n) by {
        if old_names.contains(n) {
            let (q, id) = choose|q: Seq<char>, id: Seq<char>|
                prev.contains(q) && reaches(reachable, q) && #[trigger] children_of(s, ParentModel::Project(q), resource).contains(id)
                    && #[trigger] name_at(s, resource, q, id) == Some(n);
            assert(prev.insert(p).contains(q));
        } else {
            let k = choose|k: int| 0 <= k < ids.len() && name_at(s, resource, p, #[trigger] ids[k]) == Some(n);
            assert(ids.to_set().contains(ids[k]));
            assert(children_of(s, ParentModel::Project(p), resource).contains(ids[k]));
            assert(prev.insert(p).contains(p));
        }
    }
    assert(lhs =~= old_names.union(extra));
}

/// Metadata describing an attachment that was just stored.
#[derive(Debug, PartialEq, Eq)]
pub struct StoredAttachment {
    pub filename: String,
    pub original_name: String,
    pub size: usize,
}

/// The metadata recorded for a stored file.
pub open spec fn attachment_entry(filename: Seq<char>, original: Seq<char>, size: u64) -> Json {
    Json::Object(
        seq![
            ("filename"@, Json::Str(filename)),
            ("originalName"@, Json::Str(original)),
            ("mimeType"@, Json::Str(mime_for(ascii_lower(after_last(filename, '.'))))),
            ("size"@, Json::Number(crate::json::NumberModel::Unsigned(size))),
        ],
    )
}

/// Whether `filename` is a name a stored upload of `original` is given: a
/// moment's decimal stamp, a hyphen, and the name it was uploaded under.
pub open spec fn upload_name(filename: Seq<char>, original: Seq<char>) -> bool {
    exists|n: u64| filename == #[trigger] decimal(n as nat) + "-"@ + original
}

/// Whether storing `contents` under `original` against case `id` of
/// `parent`, on the case or on `step`, took the store from `s`, `fs` to `t`,
/// `gs` and answered `r`; `step` has already been checked.
pub open spec fn upload(
    s: Seq<EntryModel>,
    fs: Seq<FileModel>,
    t: Seq<EntryModel>,
    gs: Seq<FileModel>,
    parent: ParentModel,
    id: Seq<char>,
    step: Option<usize>,
    original: Seq<char>,
    contents: Seq<u8>,
    r: Result<StoredAttachment, DomainError>,
) -> bool {
    match r {
        Ok(a) => {
            &&& a.original_name@ == original
            &&& a.size == contents.len()
            &&& upload_name(a.filename@, original)
            &&& stored_at(s, Resource::Cases, Some(parent), id) matches Some(d) && can_record(d, step) && t == written(
                s,
                Resource::Cases,
                Some(parent),
                id,
                attached(d, step, attachment_entry(a.filename@, original, contents.len() as u64)),
            )
            &&& file_at(fs, parent, id, step, a.filename@) is None
            &&& gs == fs.push(FileModel { parent, case: id, step, filename: a.filename@, contents })
        },
        Err(e) => t == s && gs == fs && match stored_at(s, Resource::Cases, Some(parent), id) {
            None => e@ == ErrorModel::NotFound("File not found"@),
            Some(_) => e@ == ErrorModel::Conflict("File already exists"@) && exists|n: u64|
                #[trigger] file_at(fs, parent, id, step, decimal(n as nat) + "-"@ + original) is Some,
        },
    }
}

/// A file stored against a case reads back as the bytes stored: after an
/// upload succeeds, the case is there and the file it names holds exactly the
/// contents uploaded.
pub proof fn lemma_attachment_round_trip(
    s: Seq<EntryModel>,
    fs: Seq<FileModel>,
    t: Seq<EntryModel>,
    gs: Seq<FileModel>,
    parent: ParentModel,
    id: Seq<char>,
    original: Seq<char>,
    contents: Seq<u8>,
    a: StoredAttachment,
)
    requires
        crate::store::distinct_addresses(s),
        upload(s, fs, t, gs, parent, id, None, original, contents, Ok(a)),
    ensures
        stored_at(t, Resource::Cases, Some(parent), id) is Some,
        file_at(gs, parent, id, None, a.filename@) == Some(contents),
{
    let d = stored_at(s, Resource::Cases, Some(parent), id)->0;
    crate::store::lemma_read_after_write(
        s,
        Resource::Cases,
        Some(parent),
        id,
        attached(d, None, attachment_entry(a.filename@, original, contents.len() as u64)),
    );
    let f = |x: FileModel| file_named(x, parent, id, None, a.filename@);
    crate::seqs::lemma_first_where_facts(fs, f);
    let x = FileModel { parent, case: id, step: None, filename: a.filename@, contents };
    assert forall|k: int| 0 <= k < fs.len() implies !f(#[trigger] gs[k]) by {
        assert(gs[k] == fs[k]);
    }
    assert(gs[fs.len() as int] == x);
    crate::seqs::lemma_first_where(gs, f, fs.len() as int);
}

/// A file deleted from a case no longer reads: after a deletion succeeds, the
/// file it named is found nowhere.
pub proof fn lemma_deleted_attachment_is_gone(
    fs: Seq<FileModel>,
    parent: ParentModel,
    id: Seq<char>,
    filename: Seq<char>,
)
    ensures
        file_at(fs.filter(|f: FileModel| !file_named(f, parent, id, None, filename)), parent, id, None, filename)
            is None,
{
    let keep = |f: FileModel| !file_named(f, parent, id, None, filename);
    let gs = fs.filter(keep);
    let f = |x: FileModel| file_named(x, parent, id, None, filename);
    assert forall|k: int| 0 <= k < gs.len() implies !f(#[trigger] gs[k]) by {
        fs.lemma_filter_pred(keep, k);
    }
    crate::seqs::lemma_first_where(gs, f, gs.len() as int);
}

/// The step `step_index` of case `id` in `parent` as an attachment request
/// resolves it: the case must exist, and the step must be a structured one.
pub open spec fn structured_step_of(s: Seq<EntryModel>, parent: ParentModel, id: Seq<char>, step_index: usize) -> Result<
    Json,
    ErrorModel,
> {
    match stored_at(s, Resource::Cases, Some(parent), id) {
        None => Err(ErrorModel::NotFound("Test case not found"@)),
        Some(d) => match step_of(d, step_index as int) {
            None => Err(invalid_request_model("Step index "@ + decimal(step_index as nat) + " is out of range"@)),
            Some(st) => if st is Object {
                Ok(st)
            } else {
                Err(
                    invalid_request_model(
                        "Step "@ + decimal(step_index as nat) + " is a plain string step, not a structured step"@,
                    ),
                )
            },
        },
    }
}

/// The results of the runs `walked`, in order.
pub open spec fn results_of(walked: Seq<(Seq<char>, Seq<char>, TestRun)>) -> Seq<TestCaseResult>
    decreases walked.len(),
{
    if walked.len() == 0 {
        Seq::empty()
    } else {
        results_of(walked.drop_last()) + listed(walked.last().2.results)
    }
}

/// Whether `scoped` is `filters` as a report compares them: each date bound
/// cut to its date.
pub open spec fn dated(scoped: SummaryFilters, filters: SummaryFilters) -> bool {
    &&& scoped.project_id == filters.project_id
    &&& scoped.milestone_id == filters.milestone_id
    &&& scoped.configuration_id == filters.configuration_id
    &&& match filters.from {
        Some(f) => scoped.from matches Some(x) && crate::reports::date_prefix_of(f@) == Some(x@),
        None => scoped.from is None,
    }
    &&& match filters.to {
        Some(t) => scoped.to matches Some(x) && crate::reports::date_prefix_of(t@) == Some(x@),
        None => scoped.to is None,
    }
}

/// Whether run `run`, read from the document stored as run `rid` of project
/// `p`, is one a report with these filters counts.
pub open spec fn counted_run(
    s: Seq<EntryModel>,
    p: Seq<char>,
    rid: Seq<char>,
    run: TestRun,
    filters: SummaryFilters,
    reachable: Option<Seq<String>>,
    milestone_runs: Option<Seq<String>>,
) -> bool {
    &&& ids_in(s, Resource::Projects).contains(p)
    &&& children_of(s, ParentModel::Project(p), Resource::Runs).contains(rid)
    &&& stored_at(s, Resource::Runs, Some(ParentModel::Project(p)), rid) matches Some(d) && reads_as_run(d, run)
    &&& (reachable matches Some(ids) ==> crate::reports::reachable_run(run, p, ids))
    &&& crate::reports::in_scope(run, p, rid, filters, milestone_runs)
}

/// Whether walked entry `a` comes before `b`: by project, then by run.
pub open spec fn walked_before(a: (Seq<char>, Seq<char>, TestRun), b: (Seq<char>, Seq<char>, TestRun)) -> bool {
    lex_less(a.0, b.0) || (a.0 == b.0 && lex_less(a.1, b.1))
}

/// Whether `walked` holds run `rid` of project `p`.
pub open spec fn covered(walked: Seq<(Seq<char>, Seq<char>, TestRun)>, p: Seq<char>, rid: Seq<char>) -> bool {
    exists|k: int| 0 <= k < walked.len() && (#[trigger] walked[k]).0 == p && walked[k].1 == rid
}

proof fn lemma_covered_grows(
    walked: Seq<(Seq<char>, Seq<char>, TestRun)>,
    e: (Seq<char>, Seq<char>, TestRun),
    p: Seq<char>,
    rid: Seq<char>,
)
    requires
        covered(walked, p, rid),
    ensures
        covered(walked.push(e), p, rid),
{
    let k = choose|k: int| 0 <= k < walked.len() && (#[trigger] walked[k]).0 == p && walked[k].1 == rid;
    assert(walked.push(e)[k] == walked[k]);
}

/// The document milestone `id` resolves to in `s`, when it resolves.
pub open spec fn milestone_document(s: Seq<EntryModel>, id: Seq<char>) -> Option<Json> {
    match resolution(s, Resource::Milestones, id, None) {
        Some(h) => stored_at(s, Resource::Milestones, Some(h), id),
        None => None,
    }
}

/// Whether `ids` are the runs milestone document `d` references: the list it
/// carries, or none when it carries none.
pub open spec fn references_runs(d: Json, ids: Seq<String>) -> bool {
    match d.get("testRunIds"@) {
        Some(Json::Array(_)) => d.get("testRunIds"@) == Some(crate::models::texts_model(ids)),
        _ => ids.len() == 0,
    }
}

/// The runs milestone document `d` references, in order.
pub open spec fn run_refs(d: Json) -> Seq<Seq<char>> {
    match d.get("testRunIds"@) {
        Some(Json::Array(items)) => items.map_values(|j: Json| j->Str_0),
        _ => Seq::empty(),
    }
}

/// Whether reference `rid` names runs in several homes, none of them `home`.
pub open spec fn ambiguous_ref(s: Seq<EntryModel>, rid: Seq<char>, home: ParentModel) -> bool {
    resolution(s, Resource::Runs, rid, Some(home)) is None && homes_of(s, Resource::Runs, rid).len() > 0
}

/// Whether `runs` are what `refs` reach from `home`, in order: a reference
/// that resolves to a document with the shape of a run gives the run that
/// document reads as; any other reference is skipped.
pub open spec fn gathered_runs(s: Seq<EntryModel>, refs: Seq<Seq<char>>, home: ParentModel, runs: Seq<TestRun>) -> bool
    decreases refs.len(),
{
    if refs.len() == 0 {
        runs.len() == 0
    } else {
        let rid = refs.last();
        let found = match resolution(s, Resource::Runs, rid, Some(home)) {
            Some(h) => match stored_at(s, Resource::Runs, Some(h), rid) {
                Some(d) => if TestRun::fits(d) { Some(d) } else { None },
                None => None,
            },
            None => None,
        };
        match found {
            Some(d) => runs.len() > 0 && runs.last().read_from(d) && gathered_runs(s, refs.drop_last(), home, runs.drop_last()),
            None => gathered_runs(s, refs.drop_last(), home, runs),
        }
    }
}

/// Whether `c` reports the progress of milestone `id` over `runs`: the
/// milestone resolves and reads, none of its references is ambiguous, `runs`
/// are the runs it reaches, and each counter sums the runs' populations.
pub open spec fn progress_of(s: Seq<EntryModel>, id: Seq<char>, runs: Seq<TestRun>, c: ProgressCounts) -> bool {
    &&& resolution(s, Resource::Milestones, id, None) matches Some(h)
    &&& stored_at(s, Resource::Milestones, Some(h), id) matches Some(d)
    &&& crate::models::Milestone::fits(d)
    &&& d.str_at("milestoneId"@) == Some(c.milestone_id@)
    &&& forall|k: int| 0 <= k < run_refs(d).len() ==> !ambiguous_ref(s, #[trigger] run_refs(d)[k], h)
    &&& gathered_runs(s, run_refs(d), h, runs)
    &&& c.total_cases == crate::progress::total_population(runs)
    &&& c.passed == crate::progress::total_with(runs, Some("Passed"@))
    &&& c.failed == crate::progress::total_with(runs, Some("Failed"@))
    &&& c.blocked == crate::progress::total_with(runs, Some("Blocked"@))
    &&& c.retest == crate::progress::total_with(runs, Some("Retest"@))
    &&& c.untested == crate::progress::total_undecided(runs)
}

/// Whether the progress of milestone `id` may fail with `e`: the milestone
/// does not resolve, or does not read; or its first ambiguous reference is
/// refused; or, none being ambiguous, the runs it reaches hold more cases
/// than the counters can.
pub open spec fn progress_refused(s: Seq<EntryModel>, id: Seq<char>, e: ErrorModel) -> bool {
    match resolution(s, Resource::Milestones, id, None) {
        None => resolution_error(s, Resource::Milestones, id, "Milestone not found"@, e),
        Some(h) => match stored_at(s, Resource::Milestones, Some(h), id) {
            Some(d) => if !crate::models::Milestone::fits(d) {
                e == ErrorModel::Internal("Stored milestone JSON is invalid"@)
            } else {
                let refs = run_refs(d);
                ||| exists|k: int|
                    0 <= k < refs.len() && #[trigger] ambiguous_ref(s, refs[k], h) && (forall|j: int|
                        0 <= j < k ==> !ambiguous_ref(s, #[trigger] refs[j], h)) && resolution_error(
                        s,
                        Resource::Runs,
                        refs[k],
                        "Test run not found"@,
                        e,
                    )
                ||| (forall|k: int| 0 <= k < refs.len() ==> !ambiguous_ref(s, #[trigger] refs[k], h)) && e
                    == ErrorModel::Internal("Milestone progress exceeds the counters"@) && exists|runs: Seq<TestRun>|
                    #[trigger] gathered_runs(s, refs, h, runs) && crate::progress::total_population(runs) > usize::MAX
            },
            None => false,
        },
    }
}

/// Whether the progress of milestone `id` reports `c`.
pub open spec fn reports_progress(s: Seq<EntryModel>, id: Seq<char>, c: ProgressCounts) -> bool {
    exists|runs: Seq<TestRun>| #[trigger] progress_of(s, id, runs, c)
}

/// Whether a summary with `filters` can be made over `s`: the project filter
/// names a stored project, the milestone filter a milestone that resolves and
/// reads, the configuration filter a configuration some project holds, and
/// each date bound starts with a date.
pub open spec fn summary_accepted(s: Seq<EntryModel>, filters: SummaryFilters) -> bool {
    &&& (filters.project_id matches Some(p) ==> parent_present(s, ParentModel::Project(p@)))
    &&& (filters.milestone_id matches Some(m) ==> (milestone_document(s, m@) matches Some(d)
        && crate::models::Milestone::fits(d)))
    &&& (filters.configuration_id matches Some(c) ==> homes_of(s, Resource::Configurations, c@).len() > 0)
    &&& (filters.from matches Some(f) ==> crate::reports::date_prefix_of(f@) is Some)
    &&& (filters.to matches Some(t) ==> crate::reports::date_prefix_of(t@) is Some)
}

/// Whether a summary with `filters` over `s` may fail with `e`: the first
/// filter that does not hold answers, in the order project, milestone,
/// configuration, from, to; when all hold, only durations summing beyond the
/// counter fail.
pub open spec fn summary_refused(
    s: Seq<EntryModel>,
    filters: SummaryFilters,
    reachable: Option<Seq<String>>,
    e: ErrorModel,
) -> bool {
    if filters.project_id matches Some(p) && !parent_present(s, ParentModel::Project(p@)) {
        e == ErrorModel::NotFound("Project not found"@)
    } else if filters.milestone_id matches Some(m) && resolution(s, Resource::Milestones, m@, None) is None {
        resolution_error(s, Resource::Milestones, filters.milestone_id->0@, "Milestone not found"@, e)
    } else if filters.milestone_id matches Some(m) && !(milestone_document(s, m@) matches Some(d)
        && crate::models::Milestone::fits(d)) {
        e == ErrorModel::Internal("Stored milestone JSON is invalid"@)
    } else if filters.configuration_id matches Some(c) && homes_of(s, Resource::Configurations, c@).len() == 0 {
        e == ErrorModel::NotFound("Resource not found"@)
    } else if filters.from matches Some(f) && crate::reports::date_prefix_of(f@) is None {
        e == invalid_request_model("Invalid date filter: "@ + filters.from->0@)
    } else if filters.to matches Some(t) && crate::reports::date_prefix_of(t@) is None {
        e == invalid_request_model("Invalid date filter: "@ + filters.to->0@)
    } else {
        e == ErrorModel::Internal("Summary durations exceed the counter"@) && summary_overflows(s, filters, reachable)
    }
}

/// Whether `report` sums the results of `walked`: the runs the report
/// counts, each once, by project and then by run.
pub open spec fn summed_runs(
    s: Seq<EntryModel>,
    report: SummaryReport,
    walked: Seq<(Seq<char>, Seq<char>, TestRun)>,
    filters: SummaryFilters,
    scoped: SummaryFilters,
    reachable: Option<Seq<String>>,
    milestone_runs: Option<Seq<String>>,
) -> bool {
    let counted = results_of(walked);
    &&& walked_runs(s, walked, filters, scoped, reachable, milestone_runs)
    &&& report.total == counted.len()
    &&& report.passed == crate::reports::status_count(counted, "Passed"@)
    &&& report.failed == crate::reports::status_count(counted, "Failed"@)
    &&& report.blocked == crate::reports::status_count(counted, "Blocked"@)
    &&& report.untested == crate::reports::status_count(counted, "Untested"@)
    &&& report.total_duration_ms == crate::reports::duration_total(counted)
}

/// Whether `walked` holds the runs a report with `filters` counts, each once,
/// by project and then by run, with `scoped` the filters as compared and
/// `milestone_runs` the runs the milestone filter references.
pub open spec fn walked_runs(
    s: Seq<EntryModel>,
    walked: Seq<(Seq<char>, Seq<char>, TestRun)>,
    filters: SummaryFilters,
    scoped: SummaryFilters,
    reachable: Option<Seq<String>>,
    milestone_runs: Option<Seq<String>>,
) -> bool {
    &&& dated(scoped, filters)
    &&& forall|k: int|
        0 <= k < walked.len() ==> #[trigger] counted_run(
            s,
            walked[k].0,
            walked[k].1,
            walked[k].2,
            scoped,
            reachable,
            milestone_runs,
        )
    &&& forall|j: int, k: int| 0 <= j < k < walked.len() ==> walked_before(#[trigger] walked[j], #[trigger] walked[k])
    &&& forall|p: Seq<char>, rid: Seq<char>, run: TestRun|
        #[trigger] counted_run(s, p, rid, run, scoped, reachable, milestone_runs) ==> covered(walked, p, rid)
    &&& match filters.milestone_id {
        None => milestone_runs is None,
        Some(m) => milestone_runs matches Some(ids) && (milestone_document(s, m@) matches Some(d)
            && references_runs(d, ids)),
    }
}

/// Whether the durations of the results a report with `filters` counts sum
/// beyond what the counter holds.
pub open spec fn summary_overflows(s: Seq<EntryModel>, filters: SummaryFilters, reachable: Option<Seq<String>>) -> bool {
    exists|walked: Seq<(Seq<char>, Seq<char>, TestRun)>, dates: SummaryFilters, referenced: Option<Seq<String>>|
        #[trigger] walked_runs(s, walked, filters, dates, reachable, referenced)
            && crate::reports::duration_total(results_of(walked)) > u64::MAX
}

/// Whether `report` sums the results of runs a report with `filters`
/// counts, for the caller limited to `reachable`.
pub open spec fn reports_runs(
    s: Seq<EntryModel>,
    report: SummaryReport,
    filters: SummaryFilters,
    reachable: Option<Seq<String>>,
) -> bool {
    exists|runs: Seq<(Seq<char>, Seq<char>, TestRun)>, dates: SummaryFilters, referenced: Option<Seq<String>>|
        #[trigger] summed_runs(s, report, runs, filters, dates, reachable, referenced)
}

/// The name a coverage report gives suite `sid` of project `p`: the name its
/// document carries, or its identifier.
pub open spec fn suite_label(s: Seq<EntryModel>, p: Seq<char>, sid: Seq<char>) -> Seq<char> {
    match stored_at(s, Resource::Suites, Some(ParentModel::Project(p)), sid) {
        Some(d) => match d.str_at("name"@) {
            Some(n) => n,
            None => sid,
        },
        None => sid,
    }
}

/// The coverage line of suite `sid` of project `p`: its identifier, its
/// label and how many cases it holds.
pub open spec fn suite_line(s: Seq<EntryModel>, p: Seq<char>, sid: Seq<char>) -> (Seq<char>, Seq<char>, nat) {
    (sid, suite_label(s, p, sid), children_of(s, ParentModel::Suite(p, sid), Resource::Cases).len())
}

/// The coverage lines of the suites `sids` of project `p`, in order.
pub open spec fn suite_lines(s: Seq<EntryModel>, p: Seq<char>, sids: Seq<Seq<char>>) -> Seq<(Seq<char>, Seq<char>, nat)> {
    sids.map_values(|sid: Seq<char>| suite_line(s, p, sid))
}

/// The coverage lines of every suite of the projects `ps`, project by
/// project and each project's suites in identifier order.
pub open spec fn coverage_lines(s: Seq<EntryModel>, ps: Seq<Seq<char>>) -> Seq<(Seq<char>, Seq<char>, nat)>
    decreases ps.len(),
{
    if ps.len() == 0 {
        Seq::empty()
    } else {
        coverage_lines(s, ps.drop_last()) + suite_lines(
            s,
            ps.last(),
            sorted_ids(children_of(s, ParentModel::Project(ps.last()), Resource::Suites)),
        )
    }
}

/// The lines of `suites` as a report lists them.
pub open spec fn lines_of(suites: Seq<SuiteCases>) -> Seq<(Seq<char>, Seq<char>, nat)> {
    suites.map_values(|c: SuiteCases| (c.suite_id@, c.name@, c.case_count as nat))
}

/// The lines of a report's suites.
pub open spec fn report_lines(suites: Seq<crate::reports::SuiteCoverage>) -> Seq<(Seq<char>, Seq<char>, nat)> {
    suites.map_values(|c: crate::reports::SuiteCoverage| (c.suite_id@, c.name@, c.case_count as nat))
}

proof fn lemma_lines_append(a: Seq<SuiteCases>, b: Seq<SuiteCases>)
    ensures
        lines_of(a + b) == lines_of(a) + lines_of(b),
{
    assert(lines_of(a + b) =~= lines_of(a) + lines_of(b));
}

proof fn lemma_all_lines(projects: Seq<ProjectCases>)
    ensures
        lines_of(crate::reports::all_suites(projects)) == coverage_lines_of(projects),
    decreases projects.len(),
{
    if projects.len() > 0 {
        lemma_all_lines(projects.drop_last());
        lemma_lines_append(crate::reports::all_suites(projects.drop_last()), projects.last().suites@);
    }
}

/// The lines of every suite of `projects`, in order.
pub open spec fn coverage_lines_of(projects: Seq<ProjectCases>) -> Seq<(Seq<char>, Seq<char>, nat)>
    decreases projects.len(),
{
    if projects.len() == 0 {
        Seq::empty()
    } else {
        coverage_lines_of(projects.drop_last()) + lines_of(projects.last().suites@)
    }
}

/// The document that followed snapshot `k` of `snaps`: the next snapshot,
/// or the live document after the last.
pub open spec fn next_document(snaps: Seq<Snapshot>, k: int, live: Json) -> Json {
    if k + 1 < snaps.len() { snaps[k + 1].3 } else { live }
}

/// The snapshots kept for case `id` of `parent`, oldest first.
pub open spec fn snapshots_of(kept: Seq<Snapshot>, parent: ParentModel, id: Seq<char>) -> Seq<Snapshot> {
    kept.filter(|x: Snapshot| x.0 == parent && x.1 == id)
}

/// Whether `e` lists the snapshot `snap`, kept at `version`, with the fields
/// its successor `next` changed.
pub open spec fn history_line(e: CaseHistoryEntry, version: u64, snap: Json, next: Json) -> bool {
    &&& e.version == version
    &&& match snap.str_at("lastModified"@) {
        Some(t) => e.last_modified matches Some(x) && x@ == t,
        None => e.last_modified is None,
    }
    &&& texts_of(e.changed_fields@) == fields_changed(snap, next)
}

proof fn lemma_filed_is_stored(s: Seq<EntryModel>, i: int, resource: Resource, parent: Option<ParentModel>, id: Seq<char>)
    requires
        0 <= i < s.len(),
        crate::store::filed_at(s[i], resource, parent, id),
    ensures
        stored_at(s, resource, parent, id) is Some,
{
    crate::seqs::lemma_first_where_facts(s, |e: EntryModel| crate::store::filed_at(e, resource, parent, id));
}

proof fn lemma_home_is_filed(s: Seq<EntryModel>, resource: Resource, id: Seq<char>, k: int)
    requires
        0 <= k < homes_of(s, resource, id).len(),
    ensures
        stored_at(s, resource, Some(homes_of(s, resource, id)[k]), id) is Some,
    decreases s.len(),
{
    let h = homes_of(s, resource, id)[k];
    let init = s.drop_last();
    let prior = homes_of(init, resource, id);
    if k < prior.len() {
        lemma_home_is_filed(init, resource, id, k);
        let g = |e: EntryModel| crate::store::filed_at(e, resource, Some(h), id);
        crate::seqs::lemma_first_where_facts(init, g);
        let j = crate::store::index_at(init, resource, Some(h), id);
        assert(init[j] == s[j]);
        lemma_filed_is_stored(s, j, resource, Some(h), id);
    } else {
        assert(s.last().parent == Some(h));
        lemma_filed_is_stored(s, s.len() - 1, resource, Some(h), id);
    }
}

proof fn lemma_child_is_filed(s: Seq<EntryModel>, parent: ParentModel, child: Resource, id: Seq<char>)
    requires
        children_of(s, parent, child).contains(id),
    ensures
        stored_at(s, child, Some(parent), id) is Some,
{
    let i = choose|i: int|
        0 <= i < s.len() && s[i].resource == child && s[i].parent == Some(parent) && (#[trigger] s[i]).id == id;
    lemma_filed_is_stored(s, i, child, Some(parent), id);
}

/// The document a listing judges an identifier by: a project's own document,
/// or the first occurrence of any other collection's identifier.
pub open spec fn first_document(s: Seq<EntryModel>, resource: Resource, id: Seq<char>) -> Option<Json> {
    if resource == Resource::Projects {
        stored_at(s, resource, None, id)
    } else if homes_of(s, resource, id).len() > 0 {
        stored_at(s, resource, Some(homes_of(s, resource, id)[0]), id)
    } else {
        None
    }
}

/// Whether identifier `id` of `resource`, whose document is `doc`, passes
/// every filter `query` sets: its lower-case form holds the lower-case
/// `filter`, its document carries a requested tag, and a run links the
/// requested configuration.
pub open spec fn passes(resource: Resource, query: ListQuery, id: Seq<char>, doc: Option<Json>) -> bool {
    &&& (query.filter matches Some(f) ==> contains_text(lowercase(id), lowercase(f@)))
    &&& (query.tags matches Some(t) ==> (doc matches Some(d) && has_any_tag(d, requested_tags(t@))))
    &&& ((resource == Resource::Runs && query.configuration is Some) ==> (doc matches Some(d) && links_config(
        d,
        query.configuration->0@,
    )))
}

/// Whether stored document `d` reads as `run`: it has the shape of a run and
/// each member reads as the run's field.
pub open spec fn reads_as_run(d: Json, run: TestRun) -> bool {
    TestRun::fits(d) && run.read_from(d)
}

/// Whether suite `id` resolves in `s` and reads, with the cases it holds, as
/// `suite`.
pub open spec fn suite_reads_as(s: Seq<EntryModel>, id: Seq<char>, suite: TestSuite) -> bool {
    &&& resolution(s, Resource::Suites, id, None) matches Some(h)
    &&& stored_at(s, Resource::Suites, Some(h), id) matches Some(x)
    &&& TestSuite::fits(suite_view(s, h.project(), id, x))
    &&& suite.read_from(suite_view(s, h.project(), id, x))
}

/// Whether case `id` resolves in `s` and its document reads as `case`.
pub open spec fn case_reads_as(s: Seq<EntryModel>, id: Seq<char>, case: TestCase) -> bool {
    &&& resolution(s, Resource::Cases, id, None) matches Some(h)
    &&& stored_at(s, Resource::Cases, Some(h), id) matches Some(d)
    &&& TestCase::fits(d)
    &&& case.read_from(d)
}

/// Whether configuration `id`, preferring `home`, resolves in `s` and its
/// document reads as `c`.
pub open spec fn configuration_reads_as(s: Seq<EntryModel>, id: Seq<char>, home: ParentModel, c: TestConfiguration) -> bool {
    &&& resolution(s, Resource::Configurations, id, Some(home)) matches Some(h)
    &&& stored_at(s, Resource::Configurations, Some(h), id) matches Some(d)
    &&& TestConfiguration::fits(d)
    &&& c.read_from(d)
}

/// Whether `after` is `before` with a reference to configuration `c` under
/// identifier `id` appended: its identifier and name, and nothing else.
pub open spec fn reference_appended(before: Seq<TestConfiguration>, after: Seq<TestConfiguration>, id: Seq<char>, c: TestConfiguration) -> bool {
    &&& after.len() == before.len() + 1
    &&& after.take(before.len() as int) == before
    &&& after.last().config_id@ == id
    &&& after.last().name == c.name
    &&& after.last().browser is None && after.last().os is None
    &&& after.last().device is None && after.last().resolution is None
}

/// Whether run `run_id` resolves in `s` to a document with the shape of a
/// run.
pub open spec fn run_loads(s: Seq<EntryModel>, run_id: Seq<char>) -> bool {
    &&& resolution(s, Resource::Runs, run_id, None) matches Some(h)
    &&& stored_at(s, Resource::Runs, Some(h), run_id) matches Some(d)
    &&& TestRun::fits(d)
}

/// Whether loading run `run_id` from `s` may fail with `e`: it does not
/// resolve, or its document does not read as a run.
pub open spec fn run_load_refused(s: Seq<EntryModel>, run_id: Seq<char>, e: ErrorModel) -> bool {
    match resolution(s, Resource::Runs, run_id, None) {
        None => resolution_error(s, Resource::Runs, run_id, "Test run not found"@, e),
        Some(_) => e == ErrorModel::Internal("Stored JSON is invalid"@),
    }
}

/// Whether run `after` is `before` with only its results changed.
pub open spec fn only_results_changed(before: TestRun, after: TestRun) -> bool {
    &&& same_header(after, before)
    &&& after.test_suites == before.test_suites
    &&& after.test_cases == before.test_cases
    &&& after.configurations == before.configurations
    &&& after.case_versions == before.case_versions
}

/// Whether results `after` are `before` with the links of result `i` made
/// `links`, every other field of every result unchanged.
pub open spec fn links_replaced(before: Seq<TestCaseResult>, after: Seq<TestCaseResult>, i: int, links: Seq<DefectLink>) -> bool {
    &&& after.len() == before.len()
    &&& forall|k: int| 0 <= k < before.len() && k != i ==> after[k] == before[k]
    &&& after[i].test_case_id == before[i].test_case_id
    &&& after[i].status == before[i].status
    &&& after[i].timestamp == before[i].timestamp
    &&& after[i].notes == before[i].notes
    &&& after[i].duration_ms == before[i].duration_ms
    &&& after[i].attachments == before[i].attachments
    &&& after[i].defect_links is Some
    &&& links_of(after[i]) == links
}

/// Whether suite `id` resolves in `s` and reads, with the cases it holds.
pub open spec fn suite_fits(s: Seq<EntryModel>, id: Seq<char>) -> bool {
    &&& resolution(s, Resource::Suites, id, None) matches Some(h)
    &&& stored_at(s, Resource::Suites, Some(h), id) matches Some(x)
    &&& TestSuite::fits(suite_view(s, h.project(), id, x))
}

/// Whether case `id` resolves in `s` to a document with the shape of a case.
pub open spec fn case_fits(s: Seq<EntryModel>, id: Seq<char>) -> bool {
    &&& resolution(s, Resource::Cases, id, None) matches Some(h)
    &&& stored_at(s, Resource::Cases, Some(h), id) matches Some(d)
    &&& TestCase::fits(d)
}

/// Whether configuration `id`, preferring `home`, resolves in `s` to a
/// document with the shape of a configuration.
pub open spec fn configuration_fits(s: Seq<EntryModel>, id: Seq<char>, home: ParentModel) -> bool {
    &&& resolution(s, Resource::Configurations, id, Some(home)) matches Some(h)
    &&& stored_at(s, Resource::Configurations, Some(h), id) matches Some(d)
    &&& TestConfiguration::fits(d)
}

/// Whether a recording pinned the version of case `id` from `before` to
/// `after`: the version of the case document when `id` resolves to one that
/// reads, and no version otherwise.
pub open spec fn version_pinned(s: Seq<EntryModel>, id: Seq<char>, before: Seq<(String, u64)>, after: Seq<(String, u64)>) -> bool {
    if case_fits(s, id) {
        exists|case: TestCase| #[trigger] case_reads_as(s, id, case) && captured(before, after, case.test_case_id@, case.version)
    } else {
        captured(before, after, id, None)
    }
}

/// Two runs read from one document name the same projects and link the same
/// configurations.
proof fn lemma_runs_read_alike(d: Json, a: TestRun, b: TestRun)
    requires
        reads_as_run(d, a),
        reads_as_run(d, b),
    ensures
        a.timestamp@ == b.timestamp@,
        forall|id: Seq<char>| crate::reports::names_project(a, id) == crate::reports::names_project(b, id),
        forall|id: Seq<char>| crate::reports::links_configuration(a, id) == crate::reports::links_configuration(b, id),
        match (a.projects, b.projects) {
            (Some(x), Some(y)) => x@.len() == y@.len()
                && forall|k: int| 0 <= k < x@.len() ==> (#[trigger] x@[k]).project_id@ == y@[k].project_id@,
            (None, None) => true,
            _ => false,
        },
{
    let jp = d.get("projects"@);
    match (a.projects, b.projects) {
        (Some(x), Some(y)) => {
            let items = jp->0->Array_0;
            assert forall|k: int| 0 <= k < x@.len() implies (#[trigger] x@[k]).project_id@ == y@[k].project_id@ by {
                assert(x@[k].read_from(items[k]));
                assert(y@[k].read_from(items[k]));
            }
            assert forall|id: Seq<char>| crate::reports::names_project(a, id) == crate::reports::names_project(b, id) by {
                if crate::reports::names_project(a, id) {
                    let k = choose|k: int| 0 <= k < x@.len() && (#[trigger] x@[k]).project_id@ == id;
                    assert(y@[k].project_id@ == id);
                }
                if crate::reports::names_project(b, id) {
                    let k = choose|k: int| 0 <= k < y@.len() && (#[trigger] y@[k]).project_id@ == id;
                    assert(x@[k].project_id@ == id);
                }
            }
        },
        _ => {},
    }
    let jc = d.get("configurations"@);
    match (a.configurations, b.configurations) {
        (Some(x), Some(y)) => {
            let items = jc->0->Array_0;
            assert forall|k: int| 0 <= k < x@.len() implies (#[trigger] x@[k]).config_id@ == y@[k].config_id@ by {
                assert(x@[k].read_from(items[k]));
                assert(y@[k].read_from(items[k]));
            }
            assert forall|id: Seq<char>| crate::reports::links_configuration(a, id) == crate::reports::links_configuration(b, id) by {
                if crate::reports::links_configuration(a, id) {
                    let k = choose|k: int| 0 <= k < x@.len() && (#[trigger] x@[k]).config_id@ == id;
                    assert(y@[k].config_id@ == id);
                }
                if crate::reports::links_configuration(b, id) {
                    let k = choose|k: int| 0 <= k < y@.len() && (#[trigger] y@[k]).config_id@ == id;
                    assert(x@[k].config_id@ == id);
                }
            }
        },
        _ => {},
    }
}

/// Whether run `run_id` resolves to `home` in `s` and its document there
/// reads as `run`.
pub open spec fn run_loaded(s: Seq<EntryModel>, run_id: Seq<char>, home: ParentModel, run: TestRun) -> bool {
    &&& resolution(s, Resource::Runs, run_id, None) == Some(home)
    &&& stored_at(s, Resource::Runs, Some(home), run_id) matches Some(d) && reads_as_run(d, run)
}

/// Whether writing `after` back over run `run_id` turned `s` into `t`.
pub open spec fn run_saved(s: Seq<EntryModel>, t: Seq<EntryModel>, run_id: Seq<char>, home: ParentModel, after: TestRun) -> bool {
    t == written(s, Resource::Runs, Some(home), run_id, after.model())
}

/// The statuses a recorded result may carry.
pub open spec fn valid_status(s: Seq<char>) -> bool {
    s == "Passed"@ || s == "Failed"@ || s == "Blocked"@ || s == "Untested"@ || s == "Retest"@
}

/// The members a result recording body may carry.
pub open spec fn result_fields() -> Seq<Seq<char>> {
    seq!["testCaseId"@, "status"@, "timestamp"@, "notes"@, "durationMs"@]
}

/// How many cases an import wrote, by status.
#[derive(Debug)]
pub struct ImportCounts {
    pub passed: usize,
    pub failed: usize,
    pub blocked: usize,
}

/// What an import did: the results it wrote, the cases it skipped as already
/// recorded or unusable, and its counts by status.
#[derive(Debug)]
pub struct ImportSummary {
    pub imported: usize,
    pub skipped: usize,
    pub errors: usize,
    pub duplicates: usize,
    pub summary: ImportCounts,
}

/// The cases an import writes given the case identifiers already recorded:
/// each case whose identifier is neither recorded nor written before it.
pub open spec fn accepted_cases(recorded: Seq<Seq<char>>, cases: Seq<CaseModel>) -> Seq<CaseModel>
    decreases cases.len(),
{
    if cases.len() == 0 {
        Seq::empty()
    } else {
        let prior = accepted_cases(recorded, cases.drop_last());
        let id = cases.last().test_case_id;
        if recorded.contains(id) || prior.map_values(|c: CaseModel| c.test_case_id).contains(id) {
            prior
        } else {
            prior.push(cases.last())
        }
    }
}

/// Whether `r` is the result an import writes for case `c`: its status as
/// the run spells it, the case's own time or a clock reading, its notes, and
/// nothing else.
pub open spec fn imported_result(r: TestCaseResult, c: CaseModel) -> bool {
    &&& r.test_case_id@ == c.test_case_id
    &&& r.status@ == crate::import::status_text(c.status)
    &&& match c.timestamp {
        Some(t) => r.timestamp@ == t,
        None => exists|n: u64| r.timestamp@ == #[trigger] decimal(n as nat),
    }
    &&& match c.notes {
        Some(n) => r.notes matches Some(x) && x@ == n,
        None => r.notes is None,
    }
    &&& r.duration_ms is None
    &&& r.attachments is None
    &&& r.defect_links is None
}

/// Whether `after` is `before` followed by one imported result per case of
/// `written`, in order.
pub open spec fn imports_appended(before: Seq<TestCaseResult>, after: Seq<TestCaseResult>, written: Seq<CaseModel>) -> bool {
    &&& after.len() == before.len() + written.len()
    &&& after.take(before.len() as int) == before
    &&& forall|k: int| 0 <= k < written.len() ==> imported_result(#[trigger] after[before.len() + k], written[k])
}

/// Whether `after` differs from `before` in its results alone.
pub open spec fn same_but_results(after: TestRun, before: TestRun) -> bool {
    &&& same_header(after, before)
    &&& after.test_suites == before.test_suites
    &&& after.test_cases == before.test_cases
    &&& after.configurations == before.configurations
    &&& after.case_versions == before.case_versions
}

/// Whether importing `cases`, with `errors` unusable ones counted, into run
/// `run_id` took the store from `s` to `t` and answered `r`: a run that
/// cannot be loaded refuses, and otherwise every case the run does not record
/// yet is appended once and the rest are counted as duplicates.
pub open spec fn import_into(
    s: Seq<EntryModel>,
    t: Seq<EntryModel>,
    run_id: Seq<char>,
    cases: Seq<CaseModel>,
    errors: nat,
    r: Result<ImportSummary, DomainError>,
) -> bool {
    match r {
        Err(e) => t == s && match resolution(s, Resource::Runs, run_id, None) {
            None => resolution_error(s, Resource::Runs, run_id, "Test run not found"@, e@),
            Some(_) => e@ == ErrorModel::Internal("Stored JSON is invalid"@) && !run_loads(s, run_id),
        },
        Ok(summary) => exists|home: ParentModel, before: TestRun, after: TestRun|
            #![trigger run_loaded(s, run_id, home, before), run_saved(s, t, run_id, home, after)]
            {
                let recorded = listed(before.results).map_values(|x: TestCaseResult| x.test_case_id@);
                let written_cases = accepted_cases(recorded, cases);
                &&& run_loaded(s, run_id, home, before)
                &&& run_saved(s, t, run_id, home, after)
                &&& summary.imported == written_cases.len()
                &&& summary.duplicates == cases.len() - written_cases.len()
                &&& summary.errors == errors
                &&& summary.skipped == summary.duplicates + errors
                &&& summary.summary.passed == status_total(written_cases, ImportStatus::Passed)
                &&& summary.summary.failed == status_total(written_cases, ImportStatus::Failed)
                &&& summary.summary.blocked == status_total(written_cases, ImportStatus::Blocked)
                &&& imports_appended(listed(before.results), listed(after.results), written_cases)
                &&& same_but_results(after, before)
            },
    }
}

/// How many of `cases` carry `status`.
pub open spec fn status_total(cases: Seq<CaseModel>, status: ImportStatus) -> nat
    decreases cases.len(),
{
    if cases.len() == 0 {
        0
    } else {
        status_total(cases.drop_last(), status) + if cases.last().status == status { 1nat } else { 0nat }
    }
}

/// The cases the suites `sids` of project `p` hold, summed.
pub open spec fn suites_case_count(s: Seq<EntryModel>, p: Seq<char>, sids: Seq<Seq<char>>) -> nat
    decreases sids.len(),
{
    if sids.len() == 0 {
        0
    } else {
        suites_case_count(s, p, sids.drop_last()) + children_of(
            s,
            ParentModel::Suite(p, sids.last()),
            Resource::Cases,
        ).len()
    }
}

/// The cases project `p` holds: directly, and inside each of its suites.
pub open spec fn project_case_count(s: Seq<EntryModel>, p: Seq<char>) -> nat {
    children_of(s, ParentModel::Project(p), Resource::Cases).len() + suites_case_count(
        s,
        p,
        sorted_ids(children_of(s, ParentModel::Project(p), Resource::Suites)),
    )
}

/// The cases the projects `ps` hold, summed.
pub open spec fn projects_case_count(s: Seq<EntryModel>, ps: Seq<Seq<char>>) -> nat
    decreases ps.len(),
{
    if ps.len() == 0 { 0 } else { projects_case_count(s, ps.drop_last()) + project_case_count(s, ps.last()) }
}

/// The projects a coverage report with `scope` walks: every project in
/// order, the one named, or the identifiers as given.
pub open spec fn scope_projects(s: Seq<EntryModel>, scope: Scope) -> Seq<Seq<char>> {
    match scope {
        Scope::All => sorted_ids(crate::store::ids_in(s, Resource::Projects)),
        Scope::Project(id) => seq![id@],
        Scope::Projects(ids) => texts_of(ids@),
    }
}

proof fn lemma_suites_prefix(s: Seq<EntryModel>, p: Seq<char>, q: Seq<Seq<char>>, n: int)
    requires
        0 <= n <= q.len(),
    ensures
        suites_case_count(s, p, q.take(n)) <= suites_case_count(s, p, q),
    decreases q.len() - n,
{
    if n < q.len() {
        lemma_suites_prefix(s, p, q, n + 1);
        assert(q.take(n + 1).drop_last() =~= q.take(n));
    } else {
        assert(q.take(n) =~= q);
    }
}

proof fn lemma_projects_prefix(s: Seq<EntryModel>, ps: Seq<Seq<char>>, n: int)
    requires
        0 <= n <= ps.len(),
    ensures
        projects_case_count(s, ps.take(n)) <= projects_case_count(s, ps),
    decreases ps.len() - n,
{
    if n < ps.len() {
        lemma_projects_prefix(s, ps, n + 1);
        assert(ps.take(n + 1).drop_last() =~= ps.take(n));
    } else {
        assert(ps.take(n) =~= ps);
    }
}

/// Whether duplicating document `id` with `body` turned `before` into
/// `after` as copy `new_id`: the source `d` filed in `p`, its copy `copy`
/// made with suffix and time `n` and `t`, and filed in `p` at time `u`.
pub open spec fn duplicated(
    before: Seq<EntryModel>,
    after: Seq<EntryModel>,
    spec: DuplicateSpec,
    id: Seq<char>,
    body: Json,
    new_id: Seq<char>,
    p: Option<ParentModel>,
    d: Json,
    copy: Json,
    n: u64,
    t: u64,
    u: u64,
) -> bool {
    &&& write_owner(before, spec.resource, id) == Some(p)
    &&& stored_at(before, spec.resource, p, id) == Some(d)
    &&& overridden(spec, id, body, d, decimal(n as nat), decimal(t as nat)) == (copy, new_id)
    &&& crate::storage::valid_document_id(new_id)
    &&& stored_at(before, spec.resource, p, new_id) is None
    &&& after == written(before, spec.resource, p, new_id, normalised(spec.resource, new_id, copy, decimal(u as nat)))
}

/// Whether duplicating document `id` with `body` turned `before` into
/// `after` as copy `new_id`, for some clock readings.
pub open spec fn duplicated_as(
    before: Seq<EntryModel>,
    after: Seq<EntryModel>,
    spec: DuplicateSpec,
    id: Seq<char>,
    body: Json,
    new_id: Seq<char>,
) -> bool {
    exists|p: Option<ParentModel>, d: Json, copy: Json, n: u64, t: u64, u: u64|
        #[trigger] duplicated(before, after, spec, id, body, new_id, p, d, copy, n, t, u)
}

/// Whether filing a copy as `new_id` in `p` is refused with `e`: an
/// identifier the store cannot file is invalid, and one already taken there
/// conflicts.
pub open spec fn copy_refused(s: Seq<EntryModel>, spec: DuplicateSpec, p: Option<ParentModel>, new_id: Seq<char>, e: ErrorModel) -> bool {
    if !crate::storage::valid_document_id(new_id) {
        e == crate::error::invalid_id_model()
    } else {
        stored_at(s, spec.resource, p, new_id) is Some && e == ErrorModel::Conflict(spec.already_exists_message@)
    }
}

/// Whether duplicating document `id` with `body` may fail with `e`: the
/// source does not resolve, nothing is filed there, or the identifier the
/// copy takes (for some clock reading) cannot be filed or is already taken in
/// its home.
pub open spec fn duplicate_refused(s: Seq<EntryModel>, spec: DuplicateSpec, id: Seq<char>, body: Json, e: ErrorModel) -> bool {
    match write_owner(s, spec.resource, id) {
        None => resolution_error(s, spec.resource, id, spec.not_found_message@, e),
        Some(p) => match stored_at(s, spec.resource, p, id) {
            None => e == ErrorModel::NotFound(spec.not_found_message@),
            Some(d) => exists|n: u64, t: u64|
                #[trigger] copy_refused(s, spec, p, overridden(spec, id, body, d, decimal(n as nat), decimal(t as nat)).1, e),
        },
    }
}

/// Duplicating a document leaves the source where it was, and files the copy
/// beside it in the same home.
pub proof fn lemma_duplicate_keeps_source(
    before: Seq<EntryModel>,
    after: Seq<EntryModel>,
    spec: DuplicateSpec,
    id: Seq<char>,
    body: Json,
    new_id: Seq<char>,
)
    requires
        crate::store::distinct_addresses(before),
        duplicated_as(before, after, spec, id, body, new_id),
    ensures
        write_owner(before, spec.resource, id) matches Some(p) && stored_at(after, spec.resource, p, id) == stored_at(
            before,
            spec.resource,
            p,
            id,
        ) && stored_at(after, spec.resource, p, new_id) is Some,
{
    let (p, d, copy, n, t, u) = choose|p: Option<ParentModel>, d: Json, copy: Json, n: u64, t: u64, u: u64|
        #[trigger] duplicated(before, after, spec, id, body, new_id, p, d, copy, n, t, u);
    let doc = normalised(spec.resource, new_id, copy, decimal(u as nat));
    assert(new_id != id);
    crate::store::lemma_read_after_write(before, spec.resource, p, new_id, doc);
    crate::store::lemma_write_elsewhere(before, spec.resource, p, new_id, doc, spec.resource, p, id);
}

proof fn lemma_accepted_len(recorded: Seq<Seq<char>>, cases: Seq<CaseModel>)
    ensures
        accepted_cases(recorded, cases).len() <= cases.len(),
    decreases cases.len(),
{
    if cases.len() > 0 {
        lemma_accepted_len(recorded, cases.drop_last());
    }
}

/// An import never rewrites a result the run already recorded, and every case
/// it reads is either imported or counted as a duplicate.
pub proof fn lemma_import_keeps_recorded(
    s: Seq<EntryModel>,
    t: Seq<EntryModel>,
    run_id: Seq<char>,
    cases: Seq<CaseModel>,
    errors: nat,
    summary: ImportSummary,
)
    requires
        import_into(s, t, run_id, cases, errors, Ok(summary)),
    ensures
        summary.imported + summary.duplicates == cases.len(),
        exists|home: ParentModel, before: TestRun, after: TestRun|
            #![trigger run_loaded(s, run_id, home, before), run_saved(s, t, run_id, home, after)]
            run_loaded(s, run_id, home, before) && run_saved(s, t, run_id, home, after) && forall|k: int|
                0 <= k < listed(before.results).len() ==> #[trigger] listed(after.results)[k] == listed(before.results)[k],
{
    let (home, before, after) = choose|home: ParentModel, before: TestRun, after: TestRun|
        #![trigger run_loaded(s, run_id, home, before), run_saved(s, t, run_id, home, after)]
        {
            let recorded = listed(before.results).map_values(|x: TestCaseResult| x.test_case_id@);
            let written_cases = accepted_cases(recorded, cases);
            &&& run_loaded(s, run_id, home, before)
            &&& run_saved(s, t, run_id, home, after)
            &&& summary.imported == written_cases.len()
            &&& summary.duplicates == cases.len() - written_cases.len()
            &&& summary.errors == errors
            &&& summary.skipped == summary.duplicates + errors
            &&& summary.summary.passed == status_total(written_cases, ImportStatus::Passed)
            &&& summary.summary.failed == status_total(written_cases, ImportStatus::Failed)
            &&& summary.summary.blocked == status_total(written_cases, ImportStatus::Blocked)
            &&& imports_appended(listed(before.results), listed(after.results), written_cases)
            &&& same_but_results(after, before)
        };
    let recorded = listed(before.results).map_values(|x: TestCaseResult| x.test_case_id@);
    lemma_accepted_len(recorded, cases);
    let b = listed(before.results);
    let a = listed(after.results);
    assert forall|k: int| 0 <= k < b.len() implies #[trigger] a[k] == b[k] by {
        assert(a.take(b.len() as int)[k] == a[k]);
    }
}

/// The identifiers of the results a run records, in order.
pub open spec fn recorded_ids(run: TestRun) -> Seq<Seq<char>> {
    listed(run.results).map_values(|x: TestCaseResult| x.test_case_id@)
}

/// Every case an import reads is either already recorded or written by it.
proof fn lemma_accepted_covers(recorded: Seq<Seq<char>>, cases: Seq<CaseModel>)
    ensures
        forall|k: int|
            0 <= k < cases.len() ==> recorded.contains(#[trigger] cases[k].test_case_id) || accepted_cases(
                recorded,
                cases,
            ).map_values(|c: CaseModel| c.test_case_id).contains(cases[k].test_case_id),
    decreases cases.len(),
{
    if cases.len() > 0 {
        let init = cases.drop_last();
        lemma_accepted_covers(recorded, init);
        let prior = accepted_cases(recorded, init);
        let all = accepted_cases(recorded, cases);
        let pids = prior.map_values(|c: CaseModel| c.test_case_id);
        let aids = all.map_values(|c: CaseModel| c.test_case_id);
        assert forall|m: int| 0 <= m < pids.len() implies aids.contains(#[trigger] pids[m]) by {
            assert(aids[m] == pids[m]);
        }
        assert forall|k: int| 0 <= k < cases.len() implies recorded.contains(#[trigger] cases[k].test_case_id)
            || aids.contains(cases[k].test_case_id) by {
            if k < init.len() {
                assert(init[k] == cases[k]);
                if pids.contains(cases[k].test_case_id) {
                    let m = choose|m: int| 0 <= m < pids.len() && pids[m] == cases[k].test_case_id;
                    assert(aids.contains(pids[m]));
                }
            } else if !recorded.contains(cases.last().test_case_id) && !pids.contains(cases.last().test_case_id) {
                assert(all == prior.push(cases.last()));
                assert(aids[prior.len() as int] == cases.last().test_case_id);
            } else if pids.contains(cases.last().test_case_id) {
                let m = choose|m: int| 0 <= m < pids.len() && pids[m] == cases.last().test_case_id;
                assert(aids.contains(pids[m]));
            }
        }
    }
}

/// An import of cases that are all recorded already writes none of them.
proof fn lemma_accepted_none(recorded: Seq<Seq<char>>, cases: Seq<CaseModel>)
    requires
        forall|k: int| 0 <= k < cases.len() ==> recorded.contains(#[trigger] cases[k].test_case_id),
    ensures
        accepted_cases(recorded, cases).len() == 0,
    decreases cases.len(),
{
    if cases.len() > 0 {
        let init = cases.drop_last();
        assert forall|k: int| 0 <= k < init.len() implies recorded.contains(#[trigger] init[k].test_case_id) by {
            assert(init[k] == cases[k]);
        }
        lemma_accepted_none(recorded, init);
        assert(recorded.contains(cases[cases.len() - 1].test_case_id));
    }
}

/// Refiling a document at its own address leaves the homes of every
/// identifier as they were.
proof fn lemma_refile_keeps_homes(s: Seq<EntryModel>, i: int, e: EntryModel, resource: Resource, id: Seq<char>)
    requires
        0 <= i < s.len(),
        e.resource == s[i].resource,
        e.parent == s[i].parent,
        e.id == s[i].id,
    ensures
        homes_of(s.update(i, e), resource, id) == homes_of(s, resource, id),
    decreases s.len(),
{
    let w = s.update(i, e);
    if i == s.len() - 1 {
        assert(w.drop_last() =~= s.drop_last());
    } else {
        lemma_refile_keeps_homes(s.drop_last(), i, e, resource, id);
        assert(w.drop_last() =~= s.drop_last().update(i, e));
    }
    assert(w.last().resource == s.last().resource && w.last().id == s.last().id && w.last().parent == s.last().parent);
}

/// Two runs read from one document record results for the same cases, in
/// the same order.
proof fn lemma_runs_record_alike(d: Json, a: TestRun, b: TestRun)
    requires
        reads_as_run(d, a),
        reads_as_run(d, b),
    ensures
        recorded_ids(a) == recorded_ids(b),
{
    match (a.results, b.results) {
        (Some(x), Some(y)) => {
            let items = d.get("results"@)->0->Array_0;
            assert forall|k: int| 0 <= k < x@.len() implies (#[trigger] x@[k]).test_case_id@ == y@[k].test_case_id@ by {
                assert(x@[k].read_from(items[k]));
                assert(y@[k].read_from(items[k]));
            }
            assert(recorded_ids(a) =~= recorded_ids(b));
        },
        (None, None) => {
            assert(recorded_ids(a) =~= recorded_ids(b));
        },
        _ => {},
    }
}

/// Importing the same cases into a run a second time writes nothing: the run
/// still loads, every case is counted as a duplicate, no status is counted,
/// and the run keeps the results the first import left, case for case.
pub proof fn lemma_import_twice_records_nothing(
    s: Seq<EntryModel>,
    t: Seq<EntryModel>,
    u: Seq<EntryModel>,
    run_id: Seq<char>,
    cases: Seq<CaseModel>,
    errors: nat,
    first: ImportSummary,
    second: Result<ImportSummary, DomainError>,
)
    requires
        crate::store::distinct_addresses(s),
        import_into(s, t, run_id, cases, errors, Ok(first)),
        import_into(t, u, run_id, cases, errors, second),
    ensures
        second matches Ok(again) && {
            &&& again.imported == 0
            &&& again.duplicates == cases.len()
            &&& again.errors == errors
            &&& again.skipped == cases.len() + errors
            &&& again.summary.passed == 0
            &&& again.summary.failed == 0
            &&& again.summary.blocked == 0
        },
        exists|home: ParentModel, mid: TestRun, reread: TestRun, last: TestRun|
            #![trigger run_saved(s, t, run_id, home, mid), run_loaded(t, run_id, home, reread), run_saved(t, u, run_id, home, last)]
            {
                &&& run_saved(s, t, run_id, home, mid)
                &&& run_loaded(t, run_id, home, reread)
                &&& run_saved(t, u, run_id, home, last)
                &&& listed(last.results) == listed(reread.results)
                &&& recorded_ids(last) == recorded_ids(mid)
            },
{
    let (home, before, mid) = choose|home: ParentModel, before: TestRun, after: TestRun|
        #![trigger run_loaded(s, run_id, home, before), run_saved(s, t, run_id, home, after)]
        {
            let recorded = listed(before.results).map_values(|x: TestCaseResult| x.test_case_id@);
            let written_cases = accepted_cases(recorded, cases);
            &&& run_loaded(s, run_id, home, before)
            &&& run_saved(s, t, run_id, home, after)
            &&& first.imported == written_cases.len()
            &&& first.duplicates == cases.len() - written_cases.len()
            &&& first.errors == errors
            &&& first.skipped == first.duplicates + errors
            &&& first.summary.passed == status_total(written_cases, ImportStatus::Passed)
            &&& first.summary.failed == status_total(written_cases, ImportStatus::Failed)
            &&& first.summary.blocked == status_total(written_cases, ImportStatus::Blocked)
            &&& imports_appended(listed(before.results), listed(after.results), written_cases)
            &&& same_but_results(after, before)
        };
    let recorded = recorded_ids(before);
    let written1 = accepted_cases(recorded, cases);
    let mids = recorded_ids(mid);
    // Every case is recorded once the first import is done.
    lemma_accepted_covers(recorded, cases);
    let b = listed(before.results);
    let a = listed(mid.results);
    assert forall|k: int| 0 <= k < cases.len() implies mids.contains(#[trigger] cases[k].test_case_id) by {
        let id = cases[k].test_case_id;
        if recorded.contains(id) {
            let m = choose|m: int| 0 <= m < recorded.len() && recorded[m] == id;
            assert(a.take(b.len() as int)[m] == a[m]);
            assert(mids[m] == id);
        } else {
            let wids = written1.map_values(|c: CaseModel| c.test_case_id);
            assert(wids.contains(id));
            let m = choose|m: int| 0 <= m < wids.len() && wids[m] == id;
            assert(imported_result(a[b.len() + m], written1[m]));
            assert(mids[b.len() + m] == id);
        }
    }
    // The run written by the first import loads again, under the same home.
    let doc = mid.model();
    crate::models::lemma_run_reads_back(mid);
    crate::store::lemma_read_after_write(s, Resource::Runs, Some(home), run_id, doc);
    let f = |e: EntryModel| crate::store::filed_at(e, Resource::Runs, Some(home), run_id);
    crate::seqs::lemma_first_where_facts(s, f);
    let i = crate::store::index_at(s, Resource::Runs, Some(home), run_id);
    assert(0 <= i < s.len());
    let e = EntryModel { resource: Resource::Runs, parent: Some(home), id: run_id, document: doc };
    assert(t == s.update(i, e));
    lemma_refile_keeps_homes(s, i, e, Resource::Runs, run_id);
    assert(resolution(t, Resource::Runs, run_id, None) == Some(home));
    assert(run_loads(t, run_id));
    match second {
        Err(_) => {},
        Ok(again) => {
            let (home2, reread, last) = choose|home: ParentModel, before: TestRun, after: TestRun|
                #![trigger run_loaded(t, run_id, home, before), run_saved(t, u, run_id, home, after)]
                {
                    let recorded = listed(before.results).map_values(|x: TestCaseResult| x.test_case_id@);
                    let written_cases = accepted_cases(recorded, cases);
                    &&& run_loaded(t, run_id, home, before)
                    &&& run_saved(t, u, run_id, home, after)
                    &&& again.imported == written_cases.len()
                    &&& again.duplicates == cases.len() - written_cases.len()
                    &&& again.errors == errors
                    &&& again.skipped == again.duplicates + errors
                    &&& again.summary.passed == status_total(written_cases, ImportStatus::Passed)
                    &&& again.summary.failed == status_total(written_cases, ImportStatus::Failed)
                    &&& again.summary.blocked == status_total(written_cases, ImportStatus::Blocked)
                    &&& imports_appended(listed(before.results), listed(after.results), written_cases)
                    &&& same_but_results(after, before)
                };
            assert(home2 == home);
            lemma_runs_record_alike(doc, mid, reread);
            let rids = recorded_ids(reread);
            assert forall|k: int| 0 <= k < cases.len() implies rids.contains(#[trigger] cases[k].test_case_id) by {
                assert(mids.contains(cases[k].test_case_id));
            }
            lemma_accepted_none(rids, cases);
            let none = accepted_cases(rids, cases);
            assert(status_total(none, ImportStatus::Passed) == 0);
            assert(status_total(none, ImportStatus::Failed) == 0);
            assert(status_total(none, ImportStatus::Blocked) == 0);
            let r0 = listed(reread.results);
            let r1 = listed(last.results);
            assert(r1 =~= r1.take(r0.len() as int));
            assert(r1 == r0);
            assert(recorded_ids(last) =~= recorded_ids(reread));
        },
    }
}

/// A snapshot of a test case as it stood before an update changed its
/// content, kept under the version it had.
#[derive(Debug)]
pub struct Revision {
    pub parent: Parent,
    pub id: String,
    pub version: u64,
    pub document: JsonValue,
}

/// The fields whose change starts a new test-case revision.
pub open spec fn qualifying() -> Seq<Seq<char>> {
    seq!["title"@, "steps"@, "preconditions"@, "expectedResult"@]
}

/// Whether an update from `stored` to `merged` changed a qualifying field.
pub open spec fn content_changed(stored: Json, merged: Json) -> bool {
    exists|k: int| 0 <= k < qualifying().len() && stored.get(#[trigger] qualifying()[k]) != merged.get(qualifying()[k])
}

/// `d` with every non-null member of `ms` set, in order.
pub open spec fn merge_members(d: Json, ms: Seq<(Seq<char>, Json)>) -> Json
    decreases ms.len(),
{
    if ms.len() == 0 {
        d
    } else {
        let prior = merge_members(d, ms.drop_last());
        if ms.last().1 == Json::Null { prior } else { prior.set(ms.last().0, ms.last().1) }
    }
}

/// A stored document with an update body laid over it: the members the body
/// carries, other than `null`, replace the stored ones.
pub open spec fn merged(stored: Json, body: Json) -> Json {
    match body {
        Json::Object(ms) => merge_members(stored, ms),
        _ => stored,
    }
}

/// The version a stored case carries: its `version` when it is an unsigned
/// integer, and 1 otherwise.
pub open spec fn current_version(d: Json) -> u64 {
    match d.get("version"@) {
        Some(v) => match v.unsigned() {
            Some(n) => n,
            None => 1,
        },
        None => 1,
    }
}

/// A merged case update with its version bookkeeping: a content change
/// starts the next version, modified `now`; any other update keeps the
/// stored version and modification time.
pub open spec fn revised(stored: Json, m: Json, now: Seq<char>) -> Json {
    if content_changed(stored, m) {
        m.set("version"@, Json::Number(crate::json::NumberModel::Unsigned((current_version(stored) + 1) as u64))).set(
            "lastModified"@,
            Json::Str(now),
        )
    } else {
        let with_time = match stored.get("lastModified"@) {
            Some(v) => m.set("lastModified"@, v),
            None => m.unset("lastModified"@),
        };
        if stored.get("version"@) is Some {
            with_time.set("version"@, Json::Number(crate::json::NumberModel::Unsigned(current_version(stored))))
        } else {
            with_time.unset("version"@)
        }
    }
}

/// The member a `PUT` body may name its document by; a test case has none.
pub open spec fn body_identity(resource: Resource) -> Option<Seq<char>> {
    if resource == Resource::Cases { None } else { Some(identity_of(resource)) }
}

/// Whether an update body names a document other than `id` that the stored
/// document `d` does not carry as its own identity.
pub open spec fn names_another(resource: Resource, id: Seq<char>, body: Json, d: Json) -> bool {
    match body_identity(resource) {
        Some(field) => match body.str_at(field) {
            Some(supplied) => supplied != id && d.str_at(field) != Some(supplied),
            None => false,
        },
        None => false,
    }
}

/// Whether updating document `id` with `body` turned `before` into `after`:
/// the document `d` filed in `p` was replaced by `body` laid over it, with a
/// case's version bookkeeping done at time `a` and the marker normalised at
/// time `b`.
pub open spec fn updated(
    before: Seq<EntryModel>,
    after: Seq<EntryModel>,
    kept_before: Seq<Snapshot>,
    kept_after: Seq<Snapshot>,
    resource: Resource,
    id: Seq<char>,
    body: Json,
    p: Option<ParentModel>,
    d: Json,
    a: u64,
    b: u64,
) -> bool {
    let m = merged(d, body);
    &&& kept_after == snapshots_after(kept_before, resource, id, body, p, d)
    &&& write_owner(before, resource, id) == Some(p)
    &&& stored_at(before, resource, p, id) == Some(d)
    &&& d is Object
    &&& !names_another(resource, id, body, d)
    &&& after == written(
        before,
        resource,
        p,
        id,
        normalised(resource, id, if resource == Resource::Cases { revised(d, m, iso8601(a as nat)) } else { m }, decimal(b as nat)),
    )
}

/// How an update body that names another document is refused: an identifier
/// the store could not file at all is invalid; any other is a rename, which
/// identifiers do not allow.
pub open spec fn foreign_identity_error(resource: Resource, body: Json) -> ErrorModel {
    if !crate::storage::valid_document_id(body.str_at(identity_of(resource))->0) {
        crate::error::invalid_id_model()
    } else {
        invalid_request_model(
            "Field `"@ + identity_of(resource)
                + "` names another document; an identifier is immutable, delete the resource and recreate it to rename it"@,
        )
    }
}

/// Whether an update of `resource` document `id` with `body` may fail with
/// `e`: the body is refused by validation; the identifier does not resolve;
/// nothing is filed there; the body names another document; or the stored
/// document is not an object.
pub open spec fn update_refused(s: Seq<EntryModel>, resource: Resource, id: Seq<char>, body: Json, e: ErrorModel) -> bool {
    if !payload_accepted(resource, body) {
        payload_rejected(resource, body, e)
    } else {
        match write_owner(s, resource, id) {
            None => resolution_error(s, resource, id, "Resource not found"@, e),
            Some(p) => match stored_at(s, resource, p, id) {
                None => e == ErrorModel::NotFound("Resource not found"@),
                Some(d) => if names_another(resource, id, body, d) {
                    e == foreign_identity_error(resource, body)
                } else {
                    !(d is Object) && e == crate::error::invalid_id_model()
                },
            },
        }
    }
}

/// Whether the tag a conditional update expects names another state than
/// `current`: an empty expected tag asks for nothing.
pub open spec fn etag_mismatch(expected: Option<String>, current: Seq<char>) -> bool {
    expected matches Some(t) && t@.len() > 0 && t@ != current
}

/// Whether an update of `resource` document `id` with `body` is refused
/// before the stored document is read for merging: validation refuses the
/// body, the identifier does not resolve, nothing is filed there, or the body
/// names another document.
pub open spec fn update_blocked(s: Seq<EntryModel>, resource: Resource, id: Seq<char>, body: Json) -> bool {
    ||| !payload_accepted(resource, body)
    ||| write_owner(s, resource, id) is None
    ||| (write_owner(s, resource, id) matches Some(p) && stored_at(s, resource, p, id) is None)
    ||| (write_owner(s, resource, id) matches Some(p) && (stored_at(s, resource, p, id) matches Some(d)
        && names_another(resource, id, body, d)))
}

/// A kept test-case snapshot: its home, identifier, version and document.
pub type Snapshot = (ParentModel, Seq<char>, u64, Json);

/// The snapshots kept after `resource` document `id`, filed in `p` as `d`,
/// is updated by `body`: a change to a case's content keeps the document it
/// replaced, under the version it had.
pub open spec fn snapshots_after(
    kept: Seq<Snapshot>,
    resource: Resource,
    id: Seq<char>,
    body: Json,
    p: Option<ParentModel>,
    d: Json,
) -> Seq<Snapshot> {
    if resource == Resource::Cases && p is Some && content_changed(d, merged(d, body)) {
        kept.push((p->0, id, current_version(d), d))
    } else {
        kept
    }
}

/// One recorded version of a case in its history.
#[derive(Debug)]
pub struct CaseHistoryEntry {
    pub version: u64,
    pub last_modified: Option<String>,
    pub changed_fields: Vec<String>,
}

/// CRUD, composition and reporting over the document store.
#[derive(Debug)]
pub struct TestService {
    repository: Repository,
    revisions: Vec<Revision>,
}

impl View for TestService {
    type V = Seq<EntryModel>;

    closed spec fn view(&self) -> Seq<EntryModel> {
        self.repository@
    }
}

impl TestService {
    /// Whether the store under the service is well formed.
    pub closed spec fn wf(&self) -> bool {
        self.repository.wf()
    }

    /// A well-formed service files no two documents at one address.
    pub proof fn lemma_wf_distinct(&self)
        requires
            self.wf(),
        ensures
            crate::store::distinct_addresses(self@),
    {
        self.repository.lemma_wf_distinct();
    }

    /// The files stored against cases and their steps.
    pub closed spec fn files(&self) -> Seq<FileModel> {
        self.repository.files()
    }

    /// The snapshots of test cases kept by the updates that changed their
    /// content, oldest first: home, identifier, the version the snapshot had,
    /// and the document.
    pub closed spec fn history(&self) -> Seq<Snapshot> {
        self.revisions@.map_values(|r: Revision| (r.parent@, r.id@, r.version, r.document@))
    }

    /// Wraps a store in the domain rules.
    pub fn new(repository: Repository) -> (r: Self)
        requires
            repository.wf(),
        ensures
            r.wf(),
            r@ == repository@,
    {
        TestService { repository, revisions: Vec::new() }
    }

    /// The store this service reads from and writes to.
    pub fn repository(&self) -> (r: &Repository)
        ensures
            r@ == self@,
            r.wf() == self.wf(),
    {
        &self.repository
    }

    /// The home an identifier names, preferring `home` when it holds the
    /// identifier: otherwise no holder is `missing`, one holder is that
    /// occurrence, and several are a conflict naming them.
    pub fn resolve(&self, resource: Resource, id: &str, home: Option<&Parent>, missing: &str) -> (r: Result<
        Parent,
        DomainError,
    >)
        ensures
            match r {
                Ok(p) => resolution(self@, resource, id@, opt_parent(home)) == Some(p@),
                Err(e) => resolution(self@, resource, id@, opt_parent(home)) is None && resolution_error(
                    self@,
                    resource,
                    id@,
                    missing@,
                    e@,
                ),
            },
    {
        if let Some(h) = home {
            if self.repository.exists_at(resource, Some(h), id) {
                return Ok(h.duplicate());
            }
        }
        let homes = self.repository.locate(resource, id);
        let ghost hs = homes_of(self@, resource, id@);
        assert(homes@.len() == hs.len());
        if homes.len() == 0 {
            Err(DomainError::NotFound(missing.to_owned()))
        } else if homes.len() == 1 {
            assert(homes@[0]@ == hs[0]);
            Ok(homes[0].duplicate())
        } else {
            Err(ambiguous(resource, homes.as_slice()))
        }
    }

    /// The parent that owns the single occurrence of `id`.
    fn parent_of(&self, resource: Resource, id: &str, missing: &str) -> (r: Result<Parent, DomainError>)
        ensures
            match r {
                Ok(p) => resolution(self@, resource, id@, None) == Some(p@),
                Err(e) => resolution(self@, resource, id@, None) is None && resolution_error(
                    self@,
                    resource,
                    id@,
                    missing@,
                    e@,
                ),
            },
    {
        self.resolve(resource, id, None, missing)
    }

    /// The parent a write addresses: none for a project, otherwise the home
    /// the identifier resolves to.
    fn owner_for_write(&self, resource: Resource, id: &str, missing: &str) -> (r: Result<Option<Parent>, DomainError>)
        ensures
            match r {
                Ok(o) => write_owner(self@, resource, id@) == Some(crate::store::parent_model(o)),
                Err(e) => write_owner(self@, resource, id@) is None && resolution_error(
                    self@,
                    resource,
                    id@,
                    missing@,
                    e@,
                ),
            },
    {
        match resource {
            Resource::Projects => Ok(None),
            _ => match self.parent_of(resource, id, missing) {
                Ok(p) => Ok(Some(p)),
                Err(e) => Err(e),
            },
        }
    }

    /// Refuses a parent that does not exist, so a write can never invent one.
    fn require_parent(&self, parent: &Parent) -> (r: Result<(), DomainError>)
        ensures
            r is Ok == parent_present(self@, parent@),
            r matches Err(e) ==> e@ == ErrorModel::NotFound(parent_missing(parent@)),
    {
        let present = match parent {
            Parent::Project(project) => self.repository.exists_at(Resource::Projects, None, project.as_str()),
            Parent::Suite { project, suite } => {
                let owner = Parent::Project(project.clone());
                self.repository.exists_at(Resource::Projects, None, project.as_str())
                    && self.repository.exists_at(Resource::Suites, Some(&owner), suite.as_str())
            },
        };
        if present {
            Ok(())
        } else {
            Err(DomainError::NotFound(parent_missing_message(parent).to_owned()))
        }
    }

    /// The project an entity addressed by `id` belongs to, resolved as the
    /// routes that act on the identifier resolve it.
    pub fn project_of(&self, resource: Resource, id: &str, missing: &str) -> (r: Result<String, DomainError>)
        ensures
            match r {
                Ok(p) => resolution(self@, resource, id@, None) matches Some(h) && p@ == h.project(),
                Err(e) => resolution(self@, resource, id@, None) is None && resolution_error(
                    self@,
                    resource,
                    id@,
                    missing@,
                    e@,
                ),
            },
    {
        match self.parent_of(resource, id, missing) {
            Ok(home) => Ok(home.project().clone()),
            Err(e) => Err(e),
        }
    }

    /// Reads a document as stored, without assembling its children, from the
    /// home a read resolves.
    pub fn document(&self, resource: Resource, id: &str) -> (r: Result<JsonValue, DomainError>)
        ensures
            match r {
                Ok(d) => write_owner(self@, resource, id@) matches Some(p) && stored_at(self@, resource, p, id@)
                    == Some(d@),
                Err(e) => match write_owner(self@, resource, id@) {
                    Some(p) => stored_at(self@, resource, p, id@) is None && e@ == ErrorModel::NotFound(
                        entity_missing(resource),
                    ),
                    None => resolution_error(self@, resource, id@, entity_missing(resource), e@),
                },
            },
    {
        let missing = entity_missing_message(resource);
        let parent = match self.owner_for_write(resource, id, missing) {
            Ok(p) => p,
            Err(e) => {
                return Err(e);
            },
        };
        match self.repository.read_at(resource, parent.as_ref(), id) {
            Ok(d) => Ok(d),
            Err(e) => Err(crate::error::load_error(e, missing)),
        }
    }

    /// Reads the occurrence stored in `parent`, without resolving globally.
    pub fn document_in(&self, resource: Resource, parent: &Parent, id: &str, missing: &str) -> (r: Result<
        JsonValue,
        DomainError,
    >)
        ensures
            match r {
                Ok(d) => stored_at(self@, resource, Some(parent@), id@) == Some(d@),
                Err(e) => stored_at(self@, resource, Some(parent@), id@) is None && e@ == ErrorModel::NotFound(
                    missing@,
                ),
            },
    {
        match self.repository.read_at(resource, Some(parent), id) {
            Ok(d) => Ok(d),
            Err(e) => Err(crate::error::document_error(e, missing)),
        }
    }

    /// The parent of the single occurrence of test case `id`.
    pub fn require_test_case(&self, id: &str) -> (r: Result<Parent, DomainError>)
        ensures
            match r {
                Ok(p) => resolution(self@, Resource::Cases, id@, None) == Some(p@),
                Err(e) => resolution(self@, Resource::Cases, id@, None) is None && resolution_error(
                    self@,
                    Resource::Cases,
                    id@,
                    "Test case not found"@,
                    e@,
                ),
            },
    {
        self.parent_of(Resource::Cases, id, "Test case not found")
    }

    /// The folder of suite `suite_id`: the suite inside the project holding it.
    pub fn suite_parent(&self, suite_id: &str) -> (r: Result<Parent, DomainError>)
        ensures
            match r {
                Ok(p) => resolution(self@, Resource::Suites, suite_id@, None) matches Some(h) && p@
                    == ParentModel::Suite(h.project(), suite_id@),
                Err(e) => resolution(self@, Resource::Suites, suite_id@, None) is None && resolution_error(
                    self@,
                    Resource::Suites,
                    suite_id@,
                    "Test suite not found"@,
                    e@,
                ),
            },
    {
        match self.parent_of(Resource::Suites, suite_id, "Test suite not found") {
            Ok(home) => Ok(Parent::Suite { project: home.project().clone(), suite: suite_id.to_owned() }),
            Err(e) => Err(e),
        }
    }

    /// Creates a document at the addressed location.
    fn create_at(&mut self, resource: Resource, parent: Option<&Parent>, value: &JsonValue) -> (r: Result<
        Created,
        DomainError,
    >)
        requires
            old(self).wf(),
        ensures
            final(self).wf(),
            final(self).history() == old(self).history(),
            final(self).files() == old(self).files(),
            match r {
                Ok(c) => created(old(self)@, final(self)@, resource, opt_parent(parent), value@, c.id@),
                Err(e) => final(self)@ == old(self)@ && create_refusal(old(self)@, resource, opt_parent(parent), value@, e@),
            },
            !shape_ok(resource, value@) ==> r is Err,
    {
        match validate_payload(resource, value) {
            Ok(()) => {},
            Err(e) => {
                return Err(e);
            },
        }
        let id = match derive_create_id(resource, value) {
            Ok(id) => id,
            Err(e) => {
                return Err(e);
            },
        };
        if !crate::storage::validate_document_id(id.as_str()) {
            return Err(DomainError::invalid_id());
        }
        if self.repository.exists_at(resource, parent, id.as_str()) {
            return Err(DomainError::Conflict("Resource already exists".to_owned()));
        }
        let mut document = json_clone(value);
        let ghost mut a: u64 = 0;
        if resource == Resource::Cases {
            stamp_case_creation(&mut document);
            proof { a = choose|t: u64| document@ == stamped(value@, iso8601(t as nat)); }
        }
        assert(document@ == (if resource == Resource::Cases { stamped(value@, iso8601(a as nat)) } else { value@ }));
        let ghost staged = document@;
        normalise_marker(resource, id.as_str(), &mut document);
        let ghost b = choose|t: u64| document@ == normalised(resource, id@, staged, decimal(t as nat));
        assert(document@ == filed_form(resource, id@, value@, iso8601(a as nat), decimal(b as nat)));
        self.repository.write_at(resource, parent, id.as_str(), document);
        Ok(Created { id })
    }

    /// Validates, names and stores a new project. Every other collection is
    /// created inside a parent; its flat route names the replacement.
    pub fn create(&mut self, resource: Resource, value: &JsonValue) -> (r: Result<Created, DomainError>)
        requires
            old(self).wf(),
        ensures
            final(self).wf(),
            final(self).history() == old(self).history(),
            final(self).files() == old(self).files(),
            resource != Resource::Projects ==> (final(self)@ == old(self)@ && (r matches Err(e) && e@
                == invalid_request_model(retired_route(resource)))),
            resource == Resource::Projects ==> match r {
                Ok(c) => created(old(self)@, final(self)@, resource, None, value@, c.id@),
                Err(e) => final(self)@ == old(self)@ && create_refusal(old(self)@, resource, None, value@, e@),
            },
    {
        match resource {
            Resource::Suites => Err(DomainError::invalid_request(
                "Test suites are created inside a project: POST /projects/{id}/test_suites".to_owned(),
            )),
            Resource::Cases => Err(DomainError::invalid_request(
                "Test cases are created inside a project or a suite: POST /projects/{id}/test_cases or POST /test_suites/{id}/test_cases".to_owned(),
            )),
            Resource::Runs => Err(DomainError::invalid_request(
                "Test runs are created inside a project: POST /projects/{id}/test_runs".to_owned(),
            )),
            Resource::Milestones => Err(DomainError::invalid_request(
                "Milestones are created inside a project: POST /projects/{id}/milestones".to_owned(),
            )),
            Resource::Configurations => Err(DomainError::invalid_request(
                "Configurations are created inside a project: POST /projects/{id}/configurations".to_owned(),
            )),
            Resource::Projects => self.create_at(resource, None, value),
        }
    }

    /// Validates, names and stores a new document inside `parent`, which must
    /// exist.
    pub fn create_in(&mut self, resource: Resource, parent: &Parent, value: &JsonValue) -> (r: Result<
        Created,
        DomainError,
    >)
        requires
            old(self).wf(),
        ensures
            final(self).wf(),
            final(self).history() == old(self).history(),
            final(self).files() == old(self).files(),
            match r {
                Ok(c) => parent_present(old(self)@, parent@) && created(
                    old(self)@,
                    final(self)@,
                    resource,
                    Some(parent@),
                    value@,
                    c.id@,
                ),
                Err(e) => final(self)@ == old(self)@ && if parent_present(old(self)@, parent@) {
                    create_refusal(old(self)@, resource, Some(parent@), value@, e@)
                } else {
                    e@ == ErrorModel::NotFound(parent_missing(parent@))
                },
            },
    {
        match self.require_parent(parent) {
            Ok(()) => {},
            Err(e) => {
                return Err(e);
            },
        }
        self.create_at(resource, Some(parent), value)
    }

    /// Removes a document and everything it owns, from the home the
    /// identifier resolves to.
    pub fn delete(&mut self, resource: Resource, id: &str) -> (r: Result<(), DomainError>)
        requires
            old(self).wf(),
        ensures
            final(self).wf(),
            final(self).history() == old(self).history(),
            final(self).files() == old(self).files(),
            match r {
                Ok(()) => {
                    &&& resource == Resource::Projects ==> crate::storage::valid_document_id(id@)
                    &&& write_owner(old(self)@, resource, id@) matches Some(p)
                    &&& stored_at(old(self)@, resource, p, id@) is Some
                    &&& final(self)@ == removed(old(self)@, resource, p, id@)
                },
                Err(e) => final(self)@ == old(self)@ && if resource == Resource::Projects && !crate::storage::valid_document_id(
                    id@,
                ) {
                    e@ == crate::error::invalid_id_model()
                } else { match write_owner(old(self)@, resource, id@) {
                    Some(p) => stored_at(old(self)@, resource, p, id@) is None && e@ == ErrorModel::NotFound(
                        "Resource not found"@,
                    ),
                    None => resolution_error(old(self)@, resource, id@, "Resource not found"@, e@),
                } },
            },
    {
        if resource == Resource::Projects && !crate::storage::validate_document_id(id) {
            return Err(DomainError::invalid_id());
        }
        let parent = match self.owner_for_write(resource, id, "Resource not found") {
            Ok(p) => p,
            Err(e) => {
                return Err(e);
            },
        };
        match self.repository.delete_at(resource, parent.as_ref(), id) {
            Ok(()) => Ok(()),
            Err(e) => Err(crate::error::delete_error(e)),
        }
    }

    /// Removes one occurrence of a child from a parent the caller named.
    pub fn delete_in(&mut self, resource: Resource, parent: &Parent, id: &str) -> (r: Result<(), DomainError>)
        requires
            old(self).wf(),
        ensures
            final(self).wf(),
            final(self).history() == old(self).history(),
            final(self).files() == old(self).files(),
            match r {
                Ok(()) => parent_present(old(self)@, parent@) && stored_at(old(self)@, resource, Some(parent@), id@)
                    is Some && final(self)@ == removed(old(self)@, resource, Some(parent@), id@),
                Err(e) => final(self)@ == old(self)@ && if parent_present(old(self)@, parent@) {
                    stored_at(old(self)@, resource, Some(parent@), id@) is None && e@ == ErrorModel::NotFound(
                        "Resource not found"@,
                    )
                } else {
                    e@ == ErrorModel::NotFound(parent_missing(parent@))
                },
            },
    {
        match self.require_parent(parent) {
            Ok(()) => {},
            Err(e) => {
                return Err(e);
            },
        }
        match self.repository.delete_at(resource, Some(parent), id) {
            Ok(()) => Ok(()),
            Err(e) => Err(crate::error::delete_error(e)),
        }
    }

    /// The documents of the `child` documents `parent` owns, in identifier
    /// order.
    fn child_documents(&self, parent: &Parent, child: Resource) -> (r: Vec<JsonValue>)
        ensures
            crate::json::values_of(r@) == child_documents(self@, parent@, child),
    {
        let ids = self.repository.list_children(parent, child);
        let ghost q = texts_of(ids@);
        proof { crate::order::lemma_sorted_ids(q); }
        let mut out: Vec<JsonValue> = Vec::new();
        let mut i: usize = 0;
        while i < ids.len()
            invariant
                i <= ids.len(),
                q == texts_of(ids@),
                q.to_set() == children_of(self@, parent@, child),
                sorted_ids(children_of(self@, parent@, child)) == q,
                crate::json::values_of(out@) == child_documents(self@, parent@, child).take(i as int),
            decreases ids.len() - i,
        {
            proof {
                assert(q[i as int] == ids@[i as int]@);
                assert(q.to_set().contains(q[i as int]));
                lemma_child_is_filed(self@, parent@, child, q[i as int]);
            }
            match self.repository.read_at(child, Some(parent), ids[i].as_str()) {
                Ok(d) => {
                    let ghost before = crate::json::values_of(out@);
                    let ghost cd = child_documents(self@, parent@, child);
                    assert(cd[i as int] == stored_at(self@, child, Some(parent@), q[i as int])->0);
                    assert(d@ == cd[i as int]);
                    out.push(d);
                    assert(crate::json::values_of(out@) =~= before.push(cd[i as int]));
                    assert(cd.take(i + 1) =~= cd.take(i as int).push(cd[i as int]));
                },
                Err(_) => {
                    assert(false);
                },
            }
            i = i + 1;
        }
        assert(child_documents(self@, parent@, child).take(i as int) =~= child_documents(self@, parent@, child));
        out
    }

    /// A suite marker with the cases stored in the suite folder.
    fn assemble_suite(&self, project: &Parent, id: &str, missing: &str) -> (r: Result<JsonValue, DomainError>)
        ensures
            match r {
                Ok(d) => stored_at(self@, Resource::Suites, Some(project@), id@) matches Some(x) && d@ == suite_view(
                    self@,
                    project@.project(),
                    id@,
                    x,
                ),
                Err(e) => stored_at(self@, Resource::Suites, Some(project@), id@) is None && e@ == ErrorModel::NotFound(
                    missing@,
                ),
            },
    {
        let suite = Parent::Suite { project: project.project().clone(), suite: id.to_owned() };
        let mut document = match self.repository.read_at(Resource::Suites, Some(project), id) {
            Ok(d) => d,
            Err(e) => {
                return Err(crate::error::document_error(e, missing));
            },
        };
        let cases = self.child_documents(&suite, Resource::Cases);
        proof { crate::json::lemma_array_model(cases); }
        document.insert("testCases", JsonValue::Array(cases));
        Ok(document)
    }

    /// Reads a single document the way a `GET` does, assembling the children a
    /// parent owns.
    pub fn get(&self, resource: Resource, id: &str) -> (r: Result<JsonValue, DomainError>)
        ensures
            resource == Resource::Projects ==> match r {
                Ok(d) => {
                    &&& crate::storage::valid_document_id(id@)
                    &&& stored_at(self@, resource, None, id@) matches Some(x)
                    &&& d@ == project_view(self@, id@, x)
                },
                Err(e) => if crate::storage::valid_document_id(id@) {
                    stored_at(self@, resource, None, id@) is None && e@ == ErrorModel::NotFound("Resource not found"@)
                } else {
                    e@ == crate::error::invalid_id_model()
                },
            },
            resource == Resource::Suites ==> match r {
                Ok(d) => resolution(self@, resource, id@, None) matches Some(h) && stored_at(self@, resource, Some(h), id@)
                    matches Some(x) && d@ == suite_view(self@, h.project(), id@, x),
                Err(e) => resolution(self@, resource, id@, None) is None && resolution_error(
                    self@,
                    resource,
                    id@,
                    "Resource not found"@,
                    e@,
                ),
            },
            resource != Resource::Projects && resource != Resource::Suites ==> match r {
                Ok(d) => resolution(self@, resource, id@, None) matches Some(h) && stored_at(self@, resource, Some(h), id@)
                    == Some(d@),
                Err(e) => resolution(self@, resource, id@, None) is None && resolution_error(
                    self@,
                    resource,
                    id@,
                    "Resource not found"@,
                    e@,
                ),
            },
    {
        let missing = "Resource not found";
        match resource {
            Resource::Projects => {
                if !crate::storage::validate_document_id(id) {
                    return Err(DomainError::invalid_id());
                }
                let mut document = match self.repository.read_at(resource, None, id) {
                    Ok(d) => d,
                    Err(e) => {
                        return Err(crate::error::document_error(e, missing));
                    },
                };
                let parent = Parent::Project(id.to_owned());
                let ids = self.repository.list_children(&parent, Resource::Suites);
                let ghost q = texts_of(ids@);
                let ghost p = parent@;
                let ghost target = sorted_ids(children_of(self@, p, Resource::Suites)).map_values(
                    |sid: Seq<char>| suite_view(self@, id@, sid, stored_at(self@, Resource::Suites, Some(p), sid)->0),
                );
                proof { crate::order::lemma_sorted_ids(q); }
                let mut suites: Vec<JsonValue> = Vec::new();
                let mut i: usize = 0;
                while i < ids.len()
                    invariant
                        i <= ids.len(),
                        q == texts_of(ids@),
                        p == parent@,
                        p == ParentModel::Project(id@),
                        q.to_set() == children_of(self@, p, Resource::Suites),
                        sorted_ids(children_of(self@, p, Resource::Suites)) == q,
                        target == q.map_values(
                            |sid: Seq<char>| suite_view(self@, id@, sid, stored_at(self@, Resource::Suites, Some(p), sid)->0),
                        ),
                        crate::json::values_of(suites@) == target.take(i as int),
                    decreases ids.len() - i,
                {
                    proof {
                        assert(q[i as int] == ids@[i as int]@);
                        assert(q.to_set().contains(q[i as int]));
                        lemma_child_is_filed(self@, p, Resource::Suites, q[i as int]);
                    }
                    match self.assemble_suite(&parent, ids[i].as_str(), missing) {
                        Ok(d) => {
                            let ghost before = crate::json::values_of(suites@);
                            assert(target[i as int] == suite_view(
                                self@,
                                id@,
                                q[i as int],
                                stored_at(self@, Resource::Suites, Some(p), q[i as int])->0,
                            ));
                            assert(d@ == target[i as int]);
                            suites.push(d);
                            assert(crate::json::values_of(suites@) =~= before.push(target[i as int]));
                            assert(target.take(i + 1) =~= target.take(i as int).push(target[i as int]));
                        },
                        Err(_) => {
                            assert(false);
                        },
                    }
                    i = i + 1;
                }
                assert(target.take(i as int) =~= target);
                let cases = self.child_documents(&parent, Resource::Cases);
                proof {
                    crate::json::lemma_array_model(suites);
                    crate::json::lemma_array_model(cases);
                }
                let no_cases = cases.len() == 0;
                document.insert("testSuites", JsonValue::Array(suites));
                if no_cases {
                    document.remove("testCases");
                } else {
                    document.insert("testCases", JsonValue::Array(cases));
                }
                Ok(document)
            },
            Resource::Suites => {
                let project = match self.parent_of(Resource::Suites, id, missing) {
                    Ok(p) => p,
                    Err(e) => {
                        return Err(e);
                    },
                };
                proof {
                    lemma_resolved_is_filed(self@, resource, id@, None);
                }
                self.assemble_suite(&project, id, missing)
            },
            _ => {
                let parent = match self.parent_of(resource, id, missing) {
                    Ok(p) => p,
                    Err(e) => {
                        return Err(e);
                    },
                };
                proof {
                    lemma_resolved_is_filed(self@, resource, id@, None);
                }
                match self.repository.read_at(resource, Some(&parent), id) {
                    Ok(d) => Ok(d),
                    Err(_) => {
                        assert(false);
                        Err(DomainError::NotFound(missing.to_owned()))
                    },
                }
            },
        }
    }

    /// The document a listing judges `id` by.
    fn first_document(&self, resource: Resource, id: &str) -> (r: Option<JsonValue>)
        ensures
            match r {
                Some(d) => first_document(self@, resource, id@) == Some(d@),
                None => first_document(self@, resource, id@) is None,
            },
    {
        match resource {
            Resource::Projects => self.repository.read_at(resource, None, id).ok(),
            _ => {
                let homes = self.repository.locate(resource, id);
                if homes.len() == 0 {
                    None
                } else {
                    assert(homes@[0]@ == homes_of(self@, resource, id@)[0]);
                    self.repository.read_at(resource, Some(&homes[0]), id).ok()
                }
            },
        }
    }

    /// Whether `id`, whose document `load` read, passes the query.
    fn passes_query(
        resource: Resource,
        query: &ListQuery,
        needle: &Option<String>,
        requested: &Option<Vec<String>>,
        id: &str,
        load: &Option<JsonValue>,
    ) -> (r: bool)
        requires
            match query.filter {
                Some(f) => needle matches Some(n) && n@ == lowercase(f@),
                None => needle is None,
            },
            match query.tags {
                Some(t) => requested matches Some(q) && q@.map_values(|x: String| x@) == requested_tags(t@),
                None => requested is None,
            },
        ensures
            r == passes(resource, *query, id@, match load {
                Some(d) => Some(d@),
                None => None,
            }),
    {
        if let Some(n) = needle {
            let low = to_lowercase(id);
            if !text_contains(low.as_str(), n.as_str()) {
                return false;
            }
        }
        if let Some(q) = requested {
            match load {
                Some(d) => {
                    if !document_has_any_tag(d, q) {
                        return false;
                    }
                },
                None => {
                    return false;
                },
            }
        }
        if resource == Resource::Runs {
            if let Some(c) = &query.configuration {
                match load {
                    Some(d) => {
                        if !document_links_configuration(d, c.as_str()) {
                            return false;
                        }
                    },
                    None => {
                        return false;
                    },
                }
            }
        }
        true
    }

    /// Lists a collection, each identifier once and in order, keeping those
    /// that pass the query's filters.
    pub fn list(&self, resource: Resource, query: &ListQuery) -> (r: Result<Vec<String>, DomainError>)
        ensures
            r matches Ok(v) && strictly_sorted(texts_of(v@)) && texts_of(v@).to_set() == ids_in(self@, resource).filter(
                |id: Seq<char>| passes(resource, *query, id, first_document(self@, resource, id)),
            ),
    {
        let items = self.repository.list(resource);
        let needle = match &query.filter {
            Some(f) => Some(to_lowercase(f.as_str())),
            None => None,
        };
        let requested = match &query.tags {
            Some(t) => Some(parse_requested_tags(t.as_str())),
            None => None,
        };
        let ghost keep = |id: Seq<char>| passes(resource, *query, id, first_document(self@, resource, id));
        let ghost all = texts_of(items@);
        let mut out: Vec<String> = Vec::new();
        let mut i: usize = 0;
        while i < items.len()
            invariant
                i <= items.len(),
                all == texts_of(items@),
                all.to_set() == ids_in(self@, resource),
                keep == (|id: Seq<char>| passes(resource, *query, id, first_document(self@, resource, id))),
                match query.filter {
                    Some(f) => needle matches Some(n) && n@ == lowercase(f@),
                    None => needle is None,
                },
                match query.tags {
                    Some(t) => requested matches Some(q) && q@.map_values(|x: String| x@) == requested_tags(t@),
                    None => requested is None,
                },
                strictly_sorted(texts_of(out@)),
                texts_of(out@).to_set() == all.take(i as int).to_set().filter(keep),
            decreases items.len() - i,
        {
            let id = items[i].as_str();
            let load = self.first_document(resource, id);
            let ok = Self::passes_query(resource, query, &needle, &requested, id, &load);
            let ghost before = all.take(i as int).to_set();
            assert(all.take(i + 1).to_set() == before.insert(all[i as int])) by {
                assert(all.take(i + 1) =~= all.take(i as int).push(all[i as int]));
                crate::seqs::lemma_push_to_set(all.take(i as int), all[i as int]);
            }
            assert(all[i as int] == id@);
            assert(ok == keep(id@));
            if ok {
                insert_sorted(&mut out, items[i].clone());
                assert(before.insert(id@).filter(keep) =~= before.filter(keep).insert(id@));
            } else {
                assert(before.insert(id@).filter(keep) =~= before.filter(keep));
            }
            i = i + 1;
        }
        assert(all.take(i as int) =~= all);
        Ok(out)
    }

    /// Identifiers of the children `parent` owns that pass `query`, each
    /// judged on the document `parent` holds.
    pub fn list_children_matching(&self, parent: &Parent, child: Resource, query: &ListQuery) -> (r: Result<
        Vec<String>,
        DomainError,
    >)
        ensures
            match r {
                Ok(v) => parent_present(self@, parent@) && strictly_sorted(texts_of(v@)) && texts_of(v@).to_set()
                    == children_of(self@, parent@, child).filter(
                    |id: Seq<char>| passes(child, *query, id, stored_at(self@, child, Some(parent@), id)),
                ),
                Err(e) => !parent_present(self@, parent@) && e@ == ErrorModel::NotFound(parent_missing(parent@)),
            },
    {
        match self.require_parent(parent) {
            Ok(()) => {},
            Err(e) => {
                return Err(e);
            },
        }
        let items = self.repository.list_children(parent, child);
        let needle = match &query.filter {
            Some(f) => Some(to_lowercase(f.as_str())),
            None => None,
        };
        let requested = match &query.tags {
            Some(t) => Some(parse_requested_tags(t.as_str())),
            None => None,
        };
        let ghost keep = |id: Seq<char>| passes(child, *query, id, stored_at(self@, child, Some(parent@), id));
        let ghost all = texts_of(items@);
        let mut out: Vec<String> = Vec::new();
        let mut i: usize = 0;
        while i < items.len()
            invariant
                i <= items.len(),
                all == texts_of(items@),
                all.to_set() == children_of(self@, parent@, child),
                keep == (|id: Seq<char>| passes(child, *query, id, stored_at(self@, child, Some(parent@), id))),
                match query.filter {
                    Some(f) => needle matches Some(n) && n@ == lowercase(f@),
                    None => needle is None,
                },
                match query.tags {
                    Some(t) => requested matches Some(q) && q@.map_values(|x: String| x@) == requested_tags(t@),
                    None => requested is None,
                },
                strictly_sorted(texts_of(out@)),
                texts_of(out@).to_set() == all.take(i as int).to_set().filter(keep),
            decreases items.len() - i,
        {
            let id = items[i].as_str();
            let load = self.repository.read_at(child, Some(parent), id).ok();
            let ok = Self::passes_query(child, query, &needle, &requested, id, &load);
            let ghost before = all.take(i as int).to_set();
            assert(all.take(i + 1).to_set() == before.insert(all[i as int])) by {
                assert(all.take(i + 1) =~= all.take(i as int).push(all[i as int]));
                crate::seqs::lemma_push_to_set(all.take(i as int), all[i as int]);
            }
            assert(all[i as int] == id@);
            assert(ok == keep(id@));
            if ok {
                insert_sorted(&mut out, items[i].clone());
                assert(before.insert(id@).filter(keep) =~= before.filter(keep).insert(id@));
            } else {
                assert(before.insert(id@).filter(keep) =~= before.filter(keep));
            }
            i = i + 1;
        }
        assert(all.take(i as int) =~= all);
        Ok(out)
    }

    /// Resolves run `run_id` and reads it as its model.
    fn load_run(&self, run_id: &str) -> (r: Result<(Parent, TestRun), DomainError>)
        ensures
            match r {
                Ok((home, run)) => run_loaded(self@, run_id@, home@, run),
                Err(e) => match resolution(self@, Resource::Runs, run_id@, None) {
                    None => resolution_error(self@, Resource::Runs, run_id@, "Test run not found"@, e@),
                    Some(home) => e@ == ErrorModel::Internal("Stored JSON is invalid"@)
                        && (stored_at(self@, Resource::Runs, Some(home), run_id@) matches Some(d) && !TestRun::fits(d)),
                },
            },
    {
        let home = match self.parent_of(Resource::Runs, run_id, "Test run not found") {
            Ok(h) => h,
            Err(e) => {
                return Err(e);
            },
        };
        proof { lemma_resolved_is_filed(self@, Resource::Runs, run_id@, None); }
        let value = match self.repository.read_at(Resource::Runs, Some(&home), run_id) {
            Ok(v) => v,
            Err(_) => {
                assert(false);
                return Err(DomainError::Internal("Stored JSON is invalid".to_owned()));
            },
        };
        match TestRun::from_json(&value) {
            Some(run) => Ok((home, run)),
            None => Err(DomainError::Internal("Stored JSON is invalid".to_owned())),
        }
    }

    /// Writes `run` back over run `run_id` in `home`.
    fn save_run(&mut self, home: &Parent, run_id: &str, run: &TestRun)
        requires
            old(self).wf(),
        ensures
            final(self).wf(),
            final(self).history() == old(self).history(),
            final(self).files() == old(self).files(),
            run_saved(old(self)@, final(self)@, run_id@, home@, *run),
    {
        let document = run.to_json();
        self.repository.write_at(Resource::Runs, Some(home), run_id, document);
    }

    /// Records, or updates, the result of a case the run holds.
    ///
    /// The body names the case and its status, and may carry a timestamp
    /// (now, when it does not), notes and a duration; an omitted optional
    /// field keeps what the stored result carried and `null` clears it. The
    /// version of the case is pinned the first time the run records it.
    pub fn record_run_result(&mut self, run_id: &str, body: &JsonValue) -> (r: Result<(), DomainError>)
        requires
            old(self).wf(),
        ensures
            final(self).wf(),
            final(self).history() == old(self).history(),
            final(self).files() == old(self).files(),
            r is Err ==> final(self)@ == old(self)@,
            r is Ok ==> exists|home: ParentModel, before: TestRun, after: TestRun, u: ResultUpdate|
                #![trigger run_loaded(old(self)@, run_id@, home, before), run_saved(old(self)@, final(self)@, run_id@, home, after), u.test_case_id]
                {
                &&& run_loaded(old(self)@, run_id@, home, before)
                &&& update_refusal(body@) is None
                &&& body@.str_at("testCaseId"@) == Some(u.test_case_id@)
                &&& body@.str_at("status"@) == Some(u.status@)
                &&& (body@.str_at("timestamp"@) matches Some(t) ==> u.timestamp@ == t)
                &&& (body@.str_at("timestamp"@) is None ==> exists|n: u64| u.timestamp@ == decimal(n as nat))
                &&& text_patch_read(u.notes, body@.get("notes"@))
                &&& unsigned_patch_read(u.duration_ms, body@.get("durationMs"@))
                &&& run_holds(before, u.test_case_id@)
                &&& after.results is Some && listed(after.results) == upserted(listed(before.results), u)
                &&& version_pinned(old(self)@, u.test_case_id@, listed(before.case_versions), listed(after.case_versions))
                &&& same_header(after, before) && after.test_suites == before.test_suites
                    && after.test_cases == before.test_cases && after.configurations == before.configurations
                &&& run_saved(old(self)@, final(self)@, run_id@, home, after)
            },
            r matches Err(e) ==> match update_refusal(body@) {
                Some(x) => e@ == x,
                None => if !run_loads(old(self)@, run_id@) {
                    run_load_refused(old(self)@, run_id@, e@)
                } else {
                    exists|home: ParentModel, before: TestRun|
                        #[trigger] run_loaded(old(self)@, run_id@, home, before) && !run_holds(
                            before,
                            body@.str_at("testCaseId"@)->0,
                        ) && e@ == ErrorModel::NotFound("Test case not in test run"@)
                },
            },
    {
        let update = match result_update(body) {
            Ok(u) => u,
            Err(e) => {
                return Err(e);
            },
        };
        let (home, mut run) = match self.load_run(run_id) {
            Ok(loaded) => loaded,
            Err(e) => {
                return Err(e);
            },
        };
        let ghost before = run;
        if !holds_case(&run, update.test_case_id.as_str()) {
            return Err(DomainError::NotFound("Test case not in test run".to_owned()));
        }
        let ghost cid = update.test_case_id@;
        let held = match self.get(Resource::Cases, update.test_case_id.as_str()) {
            Ok(d) => TestCase::from_json(&d),
            Err(_) => None,
        };
        proof {
            if held is None {
                assert(!case_fits(self@, cid));
            }
        }
        match &held {
            Some(case) => {
                capture_case_version(&mut run, case.test_case_id.as_str(), case.version);
                assert(case_reads_as(self@, cid, *case));
            },
            None => capture_case_version(&mut run, update.test_case_id.as_str(), None),
        }
        assert(version_pinned(self@, cid, listed(before.case_versions), listed(run.case_versions)));
        let ghost u = update;
        upsert_result(&mut run, update);
        self.save_run(&home, run_id, &run);
        assert(run_loaded(old(self)@, run_id@, home@, before));
        Ok(())
    }

    /// Lists the defects linked to one case's result in a run: a run that
    /// does not exist, or one that records no result for `case_id`, is not
    /// found, and a result without links lists none.
    pub fn list_defects(&self, run_id: &str, case_id: &str) -> (r: Result<Vec<DefectLink>, DomainError>)
        ensures
            r matches Ok(v) ==> exists|home: ParentModel, run: TestRun|
                #![trigger run_loaded(self@, run_id@, home, run)]
                {
                &&& run_loaded(self@, run_id@, home, run)
                &&& result_index(listed(run.results), case_id@) >= 0
                &&& list_model(v@) == list_model(
                    links_of(listed(run.results)[result_index(listed(run.results), case_id@)]),
                )
            },
            r matches Err(e) ==> if !run_loads(self@, run_id@) {
                run_load_refused(self@, run_id@, e@)
            } else {
                exists|home: ParentModel, run: TestRun|
                    #[trigger] run_loaded(self@, run_id@, home, run) && result_index(listed(run.results), case_id@) < 0
                        && e@ == ErrorModel::NotFound("Test result not found in test run"@)
            },
    {
        let (home, run) = match self.load_run(run_id) {
            Ok(loaded) => loaded,
            Err(e) => {
                return Err(e);
            },
        };
        let results = match &run.results {
            Some(results) => results,
            None => {
                assert(run_loaded(self@, run_id@, home@, run));
                assert(listed(run.results) =~= Seq::<TestCaseResult>::empty());
                return Err(DomainError::NotFound("Test result not found in test run".to_owned()));
            },
        };
        match crate::composition::find_result(results, case_id) {
            Some(i) => {
                let links = match &results[i].defect_links {
                    Some(links) => list_copy(links),
                    None => Vec::new(),
                };
                proof {
                    if results@[i as int].defect_links is None {
                        assert(list_model(links@) =~= list_model(Seq::<DefectLink>::empty()));
                    }
                }
                assert(run_loaded(self@, run_id@, home@, run));
                Ok(links)
            },
            None => {
                assert(run_loaded(self@, run_id@, home@, run));
                Err(DomainError::NotFound("Test result not found in test run".to_owned()))
            },
        }
    }

    /// Writes parsed import cases into a run, refusing to overwrite a case
    /// the run already records, and reports what was written.
    fn store_imported_results(&mut self, run_id: &str, cases: Vec<ParsedCase>, errors: usize) -> (r: Result<
        ImportSummary,
        DomainError,
    >)
        requires
            old(self).wf(),
            cases@.len() + errors <= usize::MAX,
        ensures
            final(self).wf(),
            final(self).history() == old(self).history(),
            final(self).files() == old(self).files(),
            import_into(old(self)@, final(self)@, run_id@, cases_model(cases@), errors as nat, r),
    {
        let (home, mut run) = match self.load_run(run_id) {
            Ok(loaded) => loaded,
            Err(e) => {
                return Err(e);
            },
        };
        let ghost before = run;
        let ghost recorded = listed(before.results).map_values(|x: TestCaseResult| x.test_case_id@);
        let ghost all = cases_model(cases@);
        let mut seen: Vec<String> = Vec::new();
        match &run.results {
            Some(results) => {
                let mut k: usize = 0;
                while k < results.len()
                    invariant
                        k <= results.len(),
                        seen@.map_values(|x: String| x@) == results@.take(k as int).map_values(
                            |x: TestCaseResult| x.test_case_id@,
                        ),
                    decreases results.len() - k,
                {
                    let ghost prior = seen@.map_values(|x: String| x@);
                    seen.push(results[k].test_case_id.clone());
                    assert(seen@.map_values(|x: String| x@) =~= prior.push(results@[k as int].test_case_id@));
                    assert(results@.take(k + 1) =~= results@.take(k as int).push(results@[k as int]));
                    k = k + 1;
                }
                assert(results@.take(k as int) =~= results@);
            },
            None => {
                assert(seen@.map_values(|x: String| x@) =~= recorded);
            },
        }
        let ghost seen_start = seen@.map_values(|x: String| x@);
        assert(seen_start == recorded);
        assert(all.take(0) =~= Seq::<CaseModel>::empty());
        assert(listed(before.results).take(listed(before.results).len() as int) =~= listed(before.results));
        let mut passed: usize = 0;
        let mut failed: usize = 0;
        let mut blocked: usize = 0;
        let mut imported: usize = 0;
        let mut duplicates: usize = 0;
        let mut i: usize = 0;
        while i < cases.len()
            invariant
                i <= cases.len(),
                all == cases_model(cases@),
                seen@.map_values(|x: String| x@) == recorded + accepted_cases(recorded, all.take(i as int)).map_values(
                    |c: CaseModel| c.test_case_id,
                ),
                imported == accepted_cases(recorded, all.take(i as int)).len(),
                duplicates == i - imported,
                imported <= i,
                passed == status_total(accepted_cases(recorded, all.take(i as int)), ImportStatus::Passed),
                failed == status_total(accepted_cases(recorded, all.take(i as int)), ImportStatus::Failed),
                blocked == status_total(accepted_cases(recorded, all.take(i as int)), ImportStatus::Blocked),
                passed <= imported && failed <= imported && blocked <= imported,
                imports_appended(listed(before.results), listed(run.results), accepted_cases(recorded, all.take(i as int))),
                same_but_results(run, before),
                recorded == listed(before.results).map_values(|x: TestCaseResult| x.test_case_id@),
            decreases cases.len() - i,
        {
            let case = &cases[i];
            let ghost acc = accepted_cases(recorded, all.take(i as int));
            proof {
                assert(all.take(i + 1).drop_last() =~= all.take(i as int));
                assert(all.take(i + 1).last() == case@);
                lemma_status_total_bound(acc, ImportStatus::Passed);
            }
            let mut found = false;
            let mut k: usize = 0;
            while k < seen.len()
                invariant
                    k <= seen.len(),
                    !found ==> forall|j: int| 0 <= j < k ==> seen@[j]@ != case.test_case_id@,
                    found ==> seen@.map_values(|x: String| x@).contains(case.test_case_id@),
                decreases seen.len() - k,
            {
                if str_eq(seen[k].as_str(), case.test_case_id.as_str()) {
                    assert(seen@.map_values(|x: String| x@)[k as int] == case.test_case_id@);
                    found = true;
                }
                k = k + 1;
            }
            let ghost ids = acc.map_values(|c: CaseModel| c.test_case_id);
            proof {
                assert((recorded + ids).contains(case.test_case_id@) == (recorded.contains(case.test_case_id@)
                    || ids.contains(case.test_case_id@))) by {
                    if (recorded + ids).contains(case.test_case_id@) {
                        let j = choose|j: int| 0 <= j < (recorded + ids).len() && (recorded + ids)[j] == case.test_case_id@;
                        if j < recorded.len() {
                            assert(recorded[j] == case.test_case_id@);
                        } else {
                            assert(ids[j - recorded.len()] == case.test_case_id@);
                        }
                    }
                    if recorded.contains(case.test_case_id@) {
                        let j = choose|j: int| 0 <= j < recorded.len() && recorded[j] == case.test_case_id@;
                        assert((recorded + ids)[j] == case.test_case_id@);
                    }
                    if ids.contains(case.test_case_id@) {
                        let j = choose|j: int| 0 <= j < ids.len() && ids[j] == case.test_case_id@;
                        assert((recorded + ids)[recorded.len() + j] == case.test_case_id@);
                    }
                }
                if !found {
                    assert forall|j: int| 0 <= j < (recorded + ids).len() implies (recorded + ids)[j] != case.test_case_id@ by {
                        assert(seen@[j]@ == (recorded + ids)[j]);
                    }
                }
            }
            if found {
                assert(accepted_cases(recorded, all.take(i + 1)) == acc);
                duplicates = duplicates + 1;
            } else {
                let ghost prior = seen@.map_values(|x: String| x@);
                assert(prior == recorded + ids);
                let id_copy = case.test_case_id.clone();
                assert(id_copy@ == case.test_case_id@);
                seen.push(id_copy);
                proof {
                    let next = acc.push(case@);
                    assert(accepted_cases(recorded, all.take(i + 1)) == next);
                    assert(next.drop_last() =~= acc);
                    assert(next.map_values(|c: CaseModel| c.test_case_id) =~= ids.push(case.test_case_id@));
                    assert(seen@.map_values(|x: String| x@) =~= prior.push(case.test_case_id@));
                    assert(seen@.map_values(|x: String| x@) =~= recorded + next.map_values(|c: CaseModel| c.test_case_id));
                }
                match case.status {
                    ImportStatus::Passed => {
                        passed = passed + 1;
                    },
                    ImportStatus::Failed => {
                        failed = failed + 1;
                    },
                    ImportStatus::Blocked => {
                        blocked = blocked + 1;
                    },
                }
                let timestamp = match &case.timestamp {
                    Some(t) => t.clone(),
                    None => current_timestamp_string(),
                };
                let notes = match &case.notes {
                    Some(n) => Patch::Value(n.clone()),
                    None => Patch::Clear,
                };
                let update = ResultUpdate {
                    test_case_id: case.test_case_id.clone(),
                    status: case.status.as_str().to_owned(),
                    timestamp,
                    notes,
                    duration_ms: Patch::Keep,
                };
                let ghost old_results = listed(run.results);
                let ghost blen = listed(before.results).len();
                proof {
                    let f = |x: TestCaseResult| x.test_case_id@ == case.test_case_id@;
                    assert forall|k: int| 0 <= k < old_results.len() implies !f(#[trigger] old_results[k]) by {
                        if k < blen {
                            assert(old_results[k] == old_results.take(blen as int)[k]);
                            assert(recorded[k] == old_results[k].test_case_id@);
                            assert((recorded + ids)[k] == recorded[k]);
                        } else {
                            let j = k - blen;
                            assert(imported_result(old_results[blen + j], acc[j]));
                            assert(ids[j] == acc[j].test_case_id);
                            assert((recorded + ids)[k] == ids[j]);
                        }
                        assert(seen@[k]@ == (recorded + ids)[k]);
                    }
                    crate::seqs::lemma_first_where(old_results, f, old_results.len() as int);
                }
                upsert_result(&mut run, update);
                proof {
                    let after = listed(run.results);
                    let next = accepted_cases(recorded, all.take(i + 1));
                    assert(next == acc.push(case@));
                    assert(after == old_results.push(fresh_result(update)));
                    assert(after.take(blen as int) =~= old_results.take(blen as int));
                    assert forall|k: int| 0 <= k < next.len() implies imported_result(#[trigger] after[blen + k], next[k]) by {
                        if k < acc.len() {
                            assert(after[blen + k] == old_results[blen + k]);
                        } else {
                            assert(after[blen + k] == fresh_result(update));
                        }
                    }
                }
                imported = imported + 1;
            }
            i = i + 1;
        }
        assert(all.take(i as int) =~= all);
        self.save_run(&home, run_id, &run);
        assert(run_loaded(old(self)@, run_id@, home@, before));
        Ok(ImportSummary {
            imported,
            skipped: duplicates + errors,
            errors,
            duplicates,
            summary: ImportCounts { passed, failed, blocked },
        })
    }

    /// Imports a JUnit report's testcases into a run's results: cases the run
    /// already records are counted as duplicates and left untouched, and
    /// cases that cannot be named are counted as errors.
    pub fn import_junit_results(&mut self, run_id: &str, xml: &str) -> (r: Result<ImportSummary, DomainError>)
        requires
            old(self).wf(),
        ensures
            final(self).wf(),
            final(self).history() == old(self).history(),
            final(self).files() == old(self).files(),
            if too_deep_from(xml.spec_bytes(), 0, 0) {
                final(self)@ == old(self)@ && (r matches Err(e) && e@ == invalid_request_model(
                    "JUnit XML nests elements too deeply"@,
                ))
            } else {
                match xml_nodes(xml@) {
                    None => final(self)@ == old(self)@ && (r matches Err(e) && e@ == invalid_request_model(
                        "Malformed JUnit XML"@,
                    )),
                    Some(nodes) => import_into(
                        old(self)@,
                        final(self)@,
                        run_id@,
                        report_upto(nodes, nodes.len() as int).0,
                        report_upto(nodes, nodes.len() as int).1,
                        r,
                    ),
                }
            },
    {
        let report = match crate::import::parse(xml) {
            Ok(report) => report,
            Err(e) => {
                return Err(e);
            },
        };
        self.store_imported_results(run_id, report.cases, report.errors)
    }

    /// Imports a JSON results body into a run's results; every entry must be
    /// usable, or nothing is written.
    pub fn import_json_results(&mut self, run_id: &str, body: Option<&JsonValue>) -> (r: Result<
        ImportSummary,
        DomainError,
    >)
        requires
            old(self).wf(),
        ensures
            final(self).wf(),
            final(self).history() == old(self).history(),
            final(self).files() == old(self).files(),
            match body {
                None => final(self)@ == old(self)@ && (r matches Err(e) && e@ == invalid_request_model(
                    "Import body must be valid JSON"@,
                )),
                Some(b) => match entries_of(b@) {
                    None => final(self)@ == old(self)@ && (r matches Err(e) && e@ == invalid_request_model(
                        unusable_body_message(),
                    )),
                    Some(es) => match entries_result(es, es.len() as int) {
                        Ok(cases) => import_into(old(self)@, final(self)@, run_id@, cases, 0, r),
                        Err(m) => final(self)@ == old(self)@ && (r matches Err(e) && e@ == m),
                    },
                },
            },
    {
        let cases = match crate::import::parse_json(body) {
            Ok(cases) => cases,
            Err(e) => {
                return Err(e);
            },
        };
        let count: usize = cases.len();
        assert(cases@.len() == count);
        self.store_imported_results(run_id, cases, 0)
    }

    /// Loads `resource` document `id` from the home a read resolves it to,
    /// preferring `home`, as the raw document.
    fn resolved_document(&self, resource: Resource, id: &str, home: Option<&Parent>, missing: &str) -> (r: Result<
        JsonValue,
        DomainError,
    >)
        ensures
            match r {
                Ok(d) => resolution(self@, resource, id@, opt_parent(home)) matches Some(h) && stored_at(
                    self@,
                    resource,
                    Some(h),
                    id@,
                ) == Some(d@),
                Err(e) => resolution(self@, resource, id@, opt_parent(home)) is None && resolution_error(
                    self@,
                    resource,
                    id@,
                    missing@,
                    e@,
                ),
            },
    {
        let parent = match self.resolve(resource, id, home, missing) {
            Ok(p) => p,
            Err(e) => {
                return Err(e);
            },
        };
        proof { lemma_resolved_is_filed(self@, resource, id@, opt_parent(home)); }
        match self.repository.read_at(resource, Some(&parent), id) {
            Ok(d) => Ok(d),
            Err(_) => {
                assert(false);
                Err(DomainError::NotFound(missing.to_owned()))
            },
        }
    }

    /// Links a defect to the result a run records for `case_id`: the URL is
    /// checked against the tracker it claims, the API names the link and
    /// stamps it, and a defect the result already links is a conflict.
    pub fn link_defect_to_result(&mut self, run_id: &str, case_id: &str, body: &JsonValue) -> (r: Result<
        DefectLink,
        DomainError,
    >)
        requires
            old(self).wf(),
            !(body@.str_at("trackerType"@) matches Some(t) && body@.str_at("defectUrl"@) matches Some(u)
                && crate::defect::jira_cut_inside_char(t, u)),
        ensures
            final(self).wf(),
            final(self).history() == old(self).history(),
            final(self).files() == old(self).files(),
            r is Err ==> final(self)@ == old(self)@,
            r matches Ok(link) ==> {
                &&& crate::models::DefectLinkRequest::fits(body@)
                &&& body@.str_at("defectId"@) == Some(link.defect_id@)
                &&& body@.str_at("defectUrl"@) == Some(link.defect_url@)
                &&& body@.str_at("trackerType"@) == Some(link.tracker_type@)
                &&& crate::models::text_read(link.title, body@.get("title"@))
                &&& crate::models::text_read(link.status, body@.get("status"@))
                &&& crate::defect::request_refusal(link.defect_id@, link.defect_url@, link.tracker_type@) is None
                &&& exists|n: u64| link.link_id@ == "link-"@ + decimal(n as nat)
                &&& exists|n: u64| link.linked_at@ == decimal(n as nat)
                &&& exists|home: ParentModel, before: TestRun, after: TestRun|
                    #![trigger run_loaded(old(self)@, run_id@, home, before), run_saved(old(self)@, final(self)@, run_id@, home, after)]
                    {
                    &&& run_loaded(old(self)@, run_id@, home, before)
                    &&& result_index(listed(before.results), case_id@) >= 0
                    &&& !links_defect(
                        links_of(listed(before.results)[result_index(listed(before.results), case_id@)]),
                        link.defect_id@,
                    )
                    &&& after.results is Some
                    &&& links_replaced(
                        listed(before.results),
                        listed(after.results),
                        result_index(listed(before.results), case_id@),
                        links_of(listed(before.results)[result_index(listed(before.results), case_id@)]).push(link),
                    )
                    &&& only_results_changed(before, after)
                    &&& run_saved(old(self)@, final(self)@, run_id@, home, after)
                }
            },
            r matches Err(e) ==> if !crate::models::DefectLinkRequest::fits(body@) {
                e@ == invalid_request_model(crate::defect::malformed_request_message())
            } else if crate::defect::request_refusal(
                body@.str_at("defectId"@)->0,
                body@.str_at("defectUrl"@)->0,
                body@.str_at("trackerType"@)->0,
            ) is Some {
                crate::defect::request_refusal(
                    body@.str_at("defectId"@)->0,
                    body@.str_at("defectUrl"@)->0,
                    body@.str_at("trackerType"@)->0,
                ) == Some(e@)
            } else if !run_loads(old(self)@, run_id@) {
                run_load_refused(old(self)@, run_id@, e@)
            } else {
                exists|home: ParentModel, before: TestRun|
                    #[trigger] run_loaded(old(self)@, run_id@, home, before) && ({
                        let i = result_index(listed(before.results), case_id@);
                        if i < 0 {
                            e@ == ErrorModel::NotFound("Test result not found in test run"@)
                        } else {
                            links_defect(links_of(listed(before.results)[i]), body@.str_at("defectId"@)->0)
                                && e@ == ErrorModel::Conflict("Defect is already linked to test result"@)
                        }
                    })
            },
    {
        let request = match crate::defect::parse_request(body) {
            Ok(request) => request,
            Err(e) => {
                return Err(e);
            },
        };
        let link_id = concat("link-", unique_suffix().as_str());
        let link = crate::defect::new_link(request, link_id, current_timestamp_string());
        let (home, mut run) = match self.load_run(run_id) {
            Ok(loaded) => loaded,
            Err(e) => {
                return Err(e);
            },
        };
        let ghost before = run;
        let answer = DefectLink {
            link_id: link.link_id.clone(),
            defect_id: link.defect_id.clone(),
            defect_url: link.defect_url.clone(),
            tracker_type: link.tracker_type.clone(),
            title: link.title.clone(),
            status: link.status.clone(),
            linked_at: link.linked_at.clone(),
        };
        match attach_defect_to_result(&mut run, case_id, link) {
            Ok(()) => {},
            Err(e) => {
                return Err(e);
            },
        }
        self.save_run(&home, run_id, &run);
        assert(run_loaded(old(self)@, run_id@, home@, before));
        Ok(answer)
    }

    /// Removes defect link `link_id` from the result a run records for
    /// `case_id`; a link the result does not carry is not found.
    pub fn unlink_defect_from_result(&mut self, run_id: &str, case_id: &str, link_id: &str) -> (r: Result<
        (),
        DomainError,
    >)
        requires
            old(self).wf(),
        ensures
            final(self).wf(),
            final(self).history() == old(self).history(),
            final(self).files() == old(self).files(),
            r is Err ==> final(self)@ == old(self)@,
            r is Ok ==> exists|home: ParentModel, before: TestRun, after: TestRun|
                #![trigger run_loaded(old(self)@, run_id@, home, before), run_saved(old(self)@, final(self)@, run_id@, home, after)]
                {
                &&& run_loaded(old(self)@, run_id@, home, before)
                &&& result_index(listed(before.results), case_id@) >= 0
                &&& has_link(links_of(listed(before.results)[result_index(listed(before.results), case_id@)]), link_id@)
                &&& after.results is Some
                &&& links_replaced(
                    listed(before.results),
                    listed(after.results),
                    result_index(listed(before.results), case_id@),
                    crate::composition::without_link(
                        links_of(listed(before.results)[result_index(listed(before.results), case_id@)]),
                        link_id@,
                    ),
                )
                &&& only_results_changed(before, after)
                &&& run_saved(old(self)@, final(self)@, run_id@, home, after)
            },
            r matches Err(e) ==> if !run_loads(old(self)@, run_id@) {
                run_load_refused(old(self)@, run_id@, e@)
            } else {
                exists|home: ParentModel, before: TestRun|
                    #[trigger] run_loaded(old(self)@, run_id@, home, before) && ({
                        let i = result_index(listed(before.results), case_id@);
                        if i < 0 {
                            e@ == ErrorModel::NotFound("Test result not found in test run"@)
                        } else {
                            !has_link(links_of(listed(before.results)[i]), link_id@)
                                && e@ == ErrorModel::NotFound("Defect link not found in test result"@)
                        }
                    })
            },
    {
        let (home, mut run) = match self.load_run(run_id) {
            Ok(loaded) => loaded,
            Err(e) => {
                return Err(e);
            },
        };
        let ghost before = run;
        match detach_defect_from_result(&mut run, case_id, link_id) {
            Ok(()) => {},
            Err(e) => {
                return Err(e);
            },
        }
        self.save_run(&home, run_id, &run);
        assert(run_loaded(old(self)@, run_id@, home@, before));
        Ok(())
    }

    /// Adds the suite named in `body` to a run, embedding a snapshot copy.
    pub fn add_suite_to_run(&mut self, run_id: &str, body: &JsonValue) -> (r: Result<(), DomainError>)
        requires
            old(self).wf(),
        ensures
            final(self).wf(),
            final(self).history() == old(self).history(),
            final(self).files() == old(self).files(),
            r is Err ==> final(self)@ == old(self)@,
            r is Ok ==> exists|home: ParentModel, before: TestRun, after: TestRun, suite: TestSuite|
                #![trigger run_loaded(old(self)@, run_id@, home, before), run_saved(old(self)@, final(self)@, run_id@, home, after), suite.suite_id]
                {
                &&& run_loaded(old(self)@, run_id@, home, before)
                &&& required_of(body@, "suiteId"@) matches Some(id) && !names_suite(listed(before.test_suites), id)
                    && suite_reads_as(old(self)@, id, suite)
                &&& !names_suite(listed(before.test_suites), suite.suite_id@)
                &&& appended(listed(after.test_suites), listed(before.test_suites), suite.model())
                &&& same_header(after, before) && after.test_cases == before.test_cases
                    && after.results == before.results && after.configurations == before.configurations
                    && after.case_versions == before.case_versions
                &&& run_saved(old(self)@, final(self)@, run_id@, home, after)
            },
            r matches Err(e) ==> match required_of(body@, "suiteId"@) {
                None => e@ == invalid_request_model("Required field suiteId is missing"@),
                Some(id) => if !run_loads(old(self)@, run_id@) {
                    run_load_refused(old(self)@, run_id@, e@)
                } else if resolution(old(self)@, Resource::Suites, id, None) is None {
                    resolution_error(old(self)@, Resource::Suites, id, "Resource not found"@, e@)
                } else if !suite_fits(old(self)@, id) {
                    e@ == ErrorModel::Internal("Stored JSON is invalid"@)
                } else {
                    exists|home: ParentModel, before: TestRun, suite: TestSuite|
                        #![trigger run_loaded(old(self)@, run_id@, home, before), suite_reads_as(old(self)@, id, suite)]
                        run_loaded(old(self)@, run_id@, home, before) && suite_reads_as(old(self)@, id, suite) && (
                        names_suite(listed(before.test_suites), id) || names_suite(
                            listed(before.test_suites),
                            suite.suite_id@,
                        )) && e@ == ErrorModel::Conflict("Test suite is already in test run"@)
                },
            },
    {
        let suite_id = match required_string(body, "suiteId") {
            Some(id) => id,
            None => {
                return Err(DomainError::invalid_request("Required field suiteId is missing".to_owned()));
            },
        };
        let (home, mut run) = match self.load_run(run_id) {
            Ok(loaded) => loaded,
            Err(e) => {
                return Err(e);
            },
        };
        let ghost before = run;
        let document = match self.get(Resource::Suites, suite_id.as_str()) {
            Ok(d) => d,
            Err(e) => {
                return Err(e);
            },
        };
        let suite = match TestSuite::from_json(&document) {
            Some(suite) => suite,
            None => {
                return Err(DomainError::Internal("Stored JSON is invalid".to_owned()));
            },
        };
        match attach_suite_to_run(&mut run, &suite, suite_id.as_str()) {
            Ok(()) => {},
            Err(e) => {
                assert(run_loaded(old(self)@, run_id@, home@, before));
                assert(suite_reads_as(self@, suite_id@, suite));
                return Err(e);
            },
        }
        self.save_run(&home, run_id, &run);
        assert(run_loaded(old(self)@, run_id@, home@, before));
        Ok(())
    }

    /// Adds the case named in `body` to a run, embedding a snapshot copy and
    /// pinning the version the run saw.
    pub fn add_case_to_run(&mut self, run_id: &str, body: &JsonValue) -> (r: Result<(), DomainError>)
        requires
            old(self).wf(),
        ensures
            final(self).wf(),
            final(self).history() == old(self).history(),
            final(self).files() == old(self).files(),
            r is Err ==> final(self)@ == old(self)@,
            r is Ok ==> exists|home: ParentModel, before: TestRun, after: TestRun, case: TestCase|
                #![trigger run_loaded(old(self)@, run_id@, home, before), run_saved(old(self)@, final(self)@, run_id@, home, after), case.test_case_id]
                {
                &&& run_loaded(old(self)@, run_id@, home, before)
                &&& required_of(body@, "testCaseId"@) matches Some(id) && !names_case(listed(before.test_cases), id)
                    && case_reads_as(old(self)@, id, case)
                &&& !names_case(listed(before.test_cases), case.test_case_id@)
                &&& appended(listed(after.test_cases), listed(before.test_cases), case.model())
                &&& captured(listed(before.case_versions), listed(after.case_versions), case.test_case_id@, case.version)
                &&& same_header(after, before) && after.test_suites == before.test_suites
                    && after.results == before.results && after.configurations == before.configurations
                &&& run_saved(old(self)@, final(self)@, run_id@, home, after)
            },
            r matches Err(e) ==> match required_of(body@, "testCaseId"@) {
                None => e@ == invalid_request_model("Required field testCaseId is missing"@),
                Some(id) => if !run_loads(old(self)@, run_id@) {
                    run_load_refused(old(self)@, run_id@, e@)
                } else if resolution(old(self)@, Resource::Cases, id, None) is None {
                    resolution_error(old(self)@, Resource::Cases, id, "Resource not found"@, e@)
                } else if !case_fits(old(self)@, id) {
                    e@ == ErrorModel::Internal("Stored JSON is invalid"@)
                } else {
                    exists|home: ParentModel, before: TestRun, case: TestCase|
                        #![trigger run_loaded(old(self)@, run_id@, home, before), case_reads_as(old(self)@, id, case)]
                        run_loaded(old(self)@, run_id@, home, before) && case_reads_as(old(self)@, id, case) && (
                        names_case(listed(before.test_cases), id) || names_case(
                            listed(before.test_cases),
                            case.test_case_id@,
                        )) && e@ == ErrorModel::Conflict("Test case is already in test run"@)
                },
            },
    {
        let test_case_id = match required_string(body, "testCaseId") {
            Some(id) => id,
            None => {
                return Err(DomainError::invalid_request("Required field testCaseId is missing".to_owned()));
            },
        };
        let (home, mut run) = match self.load_run(run_id) {
            Ok(loaded) => loaded,
            Err(e) => {
                return Err(e);
            },
        };
        let ghost before = run;
        let document = match self.get(Resource::Cases, test_case_id.as_str()) {
            Ok(d) => d,
            Err(e) => {
                return Err(e);
            },
        };
        let test_case = match TestCase::from_json(&document) {
            Some(case) => case,
            None => {
                return Err(DomainError::Internal("Stored JSON is invalid".to_owned()));
            },
        };
        match attach_case_to_run(&mut run, &test_case, test_case_id.as_str()) {
            Ok(()) => {},
            Err(e) => {
                assert(run_loaded(old(self)@, run_id@, home@, before));
                assert(case_reads_as(self@, test_case_id@, test_case));
                return Err(e);
            },
        }
        let ghost mid = run;
        capture_case_version(&mut run, test_case.test_case_id.as_str(), test_case.version);
        assert(run.test_cases == mid.test_cases);
        self.save_run(&home, run_id, &run);
        assert(run_loaded(old(self)@, run_id@, home@, before));
        Ok(())
    }

    /// Links the configuration named in `body` to a run by reference,
    /// refusing one the run already references; the run's own home is
    /// preferred when the identifier resolves.
    pub fn link_configuration_to_run(&mut self, run_id: &str, body: &JsonValue) -> (r: Result<(), DomainError>)
        requires
            old(self).wf(),
        ensures
            final(self).wf(),
            final(self).history() == old(self).history(),
            final(self).files() == old(self).files(),
            r is Err ==> final(self)@ == old(self)@,
            r is Ok ==> exists|home: ParentModel, before: TestRun, after: TestRun, config: TestConfiguration|
                #![trigger run_loaded(old(self)@, run_id@, home, before), run_saved(old(self)@, final(self)@, run_id@, home, after), config.config_id]
                {
                &&& run_loaded(old(self)@, run_id@, home, before)
                &&& required_of(body@, "configId"@) matches Some(id) && configuration_reads_as(old(self)@, id, home, config)
                    && !names_configuration(listed(before.configurations), id)
                    && !names_configuration(listed(before.configurations), config.config_id@)
                    && reference_appended(listed(before.configurations), listed(after.configurations), id, config)
                &&& same_header(after, before) && after.test_suites == before.test_suites
                    && after.test_cases == before.test_cases && after.results == before.results
                    && after.case_versions == before.case_versions
                &&& run_saved(old(self)@, final(self)@, run_id@, home, after)
            },
            r matches Err(e) ==> match required_of(body@, "configId"@) {
                None => e@ == invalid_request_model("Required field configId is missing"@),
                Some(id) => if !run_loads(old(self)@, run_id@) {
                    run_load_refused(old(self)@, run_id@, e@)
                } else {
                    exists|home: ParentModel, before: TestRun|
                        #[trigger] run_loaded(old(self)@, run_id@, home, before) && if resolution(
                            old(self)@,
                            Resource::Configurations,
                            id,
                            Some(home),
                        ) is None {
                            resolution_error(old(self)@, Resource::Configurations, id, "Resource not found"@, e@)
                        } else if !configuration_fits(old(self)@, id, home) {
                            e@ == ErrorModel::Internal("Stored JSON is invalid"@)
                        } else {
                            exists|config: TestConfiguration|
                                #[trigger] configuration_reads_as(old(self)@, id, home, config) && (names_configuration(
                                    listed(before.configurations),
                                    id,
                                ) || names_configuration(listed(before.configurations), config.config_id@)) && e@
                                    == ErrorModel::Conflict("Test configuration is already linked to test run"@)
                        }
                },
            },
    {
        let config_id = match required_string(body, "configId") {
            Some(id) => id,
            None => {
                return Err(DomainError::invalid_request("Required field configId is missing".to_owned()));
            },
        };
        let (home, mut run) = match self.load_run(run_id) {
            Ok(loaded) => loaded,
            Err(e) => {
                return Err(e);
            },
        };
        let ghost before = run;
        let document = match self.resolved_document(
            Resource::Configurations,
            config_id.as_str(),
            Some(&home),
            "Resource not found",
        ) {
            Ok(d) => d,
            Err(e) => {
                return Err(e);
            },
        };
        let configuration = match TestConfiguration::from_json(&document) {
            Some(c) => c,
            None => {
                return Err(DomainError::Internal("Stored JSON is invalid".to_owned()));
            },
        };
        match attach_configuration_to_run(&mut run, &configuration, config_id.as_str()) {
            Ok(()) => {},
            Err(e) => {
                assert(run_loaded(old(self)@, run_id@, home@, before));
                assert(configuration_reads_as(self@, config_id@, home@, configuration));
                return Err(e);
            },
        }
        self.save_run(&home, run_id, &run);
        assert(run_loaded(old(self)@, run_id@, home@, before));
        Ok(())
    }

    /// Removes a configuration reference from a run; the reference resolves
    /// as a link does, and one the run does not hold is not found.
    pub fn unlink_configuration_from_run(&mut self, run_id: &str, config_id: &str) -> (r: Result<(), DomainError>)
        requires
            old(self).wf(),
        ensures
            final(self).wf(),
            final(self).history() == old(self).history(),
            final(self).files() == old(self).files(),
            r is Err ==> final(self)@ == old(self)@,
            r is Ok ==> exists|home: ParentModel, before: TestRun, after: TestRun|
                #![trigger run_loaded(old(self)@, run_id@, home, before), run_saved(old(self)@, final(self)@, run_id@, home, after)]
                {
                &&& run_loaded(old(self)@, run_id@, home, before)
                &&& resolution(old(self)@, Resource::Configurations, config_id@, Some(home)) is Some
                &&& names_configuration(listed(before.configurations), config_id@)
                &&& after.configurations is Some
                &&& listed(after.configurations) == without_configuration(listed(before.configurations), config_id@)
                &&& same_header(after, before) && after.test_suites == before.test_suites
                    && after.test_cases == before.test_cases && after.results == before.results
                    && after.case_versions == before.case_versions
                &&& run_saved(old(self)@, final(self)@, run_id@, home, after)
            },
            r matches Err(e) ==> if !run_loads(old(self)@, run_id@) {
                run_load_refused(old(self)@, run_id@, e@)
            } else {
                exists|home: ParentModel, before: TestRun|
                    #[trigger] run_loaded(old(self)@, run_id@, home, before) && if resolution(
                        old(self)@,
                        Resource::Configurations,
                        config_id@,
                        Some(home),
                    ) is None {
                        resolution_error(old(self)@, Resource::Configurations, config_id@, "Resource not found"@, e@)
                    } else {
                        !names_configuration(listed(before.configurations), config_id@) && e@
                            == ErrorModel::NotFound("Test configuration not linked to test run"@)
                    }
            },
    {
        let (home, mut run) = match self.load_run(run_id) {
            Ok(loaded) => loaded,
            Err(e) => {
                return Err(e);
            },
        };
        let ghost before = run;
        match self.resolve(Resource::Configurations, config_id, Some(&home), "Resource not found") {
            Ok(_) => {},
            Err(e) => {
                return Err(e);
            },
        }
        match detach_configuration_from_run(&mut run, config_id) {
            Ok(()) => {},
            Err(e) => {
                return Err(e);
            },
        }
        self.save_run(&home, run_id, &run);
        assert(run_loaded(old(self)@, run_id@, home@, before));
        Ok(())
    }

    /// Reports a milestone's progress from the runs it references.
    ///
    /// A reference means the milestone's own project first; one that no
    /// project holds is skipped, and one that several hold outside the home is
    /// refused. A run that cannot be read as a run is skipped.
    pub fn milestone_progress(&self, id: &str) -> (r: Result<ProgressCounts, DomainError>)
        ensures
            match r {
                Ok(c) => reports_progress(self@, id@, c),
                Err(e) => progress_refused(self@, id@, e@),
            },
    {
        let document = match self.resolved_document(Resource::Milestones, id, None, "Milestone not found") {
            Ok(d) => d,
            Err(e) => {
                return Err(e);
            },
        };
        let milestone = match crate::models::Milestone::from_json(&document) {
            Some(m) => m,
            None => {
                return Err(DomainError::Internal("Stored milestone JSON is invalid".to_owned()));
            },
        };
        let home = match self.parent_of(Resource::Milestones, id, "Milestone not found") {
            Ok(h) => h,
            Err(e) => {
                return Err(e);
            },
        };
        let ghost d = document@;
        let ghost refs = run_refs(d);
        let no_ids: Vec<String> = Vec::new();
        let ids: &Vec<String> = match &milestone.test_run_ids {
            Some(ids) => ids,
            None => &no_ids,
        };
        proof {
            assert(refs.len() == ids@.len());
            assert forall|k: int| 0 <= k < ids@.len() implies refs[k] == (#[trigger] ids@[k])@ by {}
        }
        let mut runs: Vec<TestRun> = Vec::new();
        let mut i: usize = 0;
        while i < ids.len()
            invariant
                i <= ids.len(),
                resolution(self@, Resource::Milestones, id@, None) == Some(home@),
                stored_at(self@, Resource::Milestones, Some(home@), id@) == Some(d),
                crate::models::Milestone::fits(d),
                refs == run_refs(d),
                refs.len() == ids@.len(),
                forall|k: int| 0 <= k < ids@.len() ==> refs[k] == (#[trigger] ids@[k])@,
                forall|k: int| 0 <= k < i ==> !ambiguous_ref(self@, #[trigger] refs[k], home@),
                gathered_runs(self@, refs.take(i as int), home@, runs@),
            decreases ids.len() - i,
        {
            let run_id = ids[i].as_str();
            let ghost before = runs@;
            proof {
                assert(refs.take(i + 1).drop_last() =~= refs.take(i as int));
                assert(refs.take(i + 1).last() == run_id@);
            }
            match self.resolve(Resource::Runs, run_id, Some(&home), "Test run not found") {
                Ok(run_home) => {
                    match self.repository.read_at(Resource::Runs, Some(&run_home), run_id) {
                        Ok(value) => match TestRun::from_json(&value) {
                            Some(run) => {
                                runs.push(run);
                                assert(runs@.drop_last() =~= before);
                            },
                            None => {},
                        },
                        Err(_) => {},
                    }
                },
                Err(DomainError::NotFound(_)) => {},
                Err(e) => {
                    proof {
                        assert(ambiguous_ref(self@, refs[i as int], home@));
                    }
                    return Err(e);
                },
            }
            i = i + 1;
        }
        assert(refs.take(i as int) =~= refs);
        if !counts_fit(runs.as_slice()) {
            return Err(DomainError::Internal("Milestone progress exceeds the counters".to_owned()));
        }
        let c = compute(&milestone, runs.as_slice());
        assert(progress_of(self@, id@, runs@, c));
        Ok(c)
    }

    /// Reports how many cases the tree holds, per suite and in total, for the
    /// projects the scope names: every project, one project that must exist
    /// (echoed in the report), or the identifiers as given.
    pub fn coverage_report(&self, scope: Scope) -> (r: Result<CoverageReport, DomainError>)
        ensures
            match r {
                Ok(report) => match scope {
                    Scope::All => report.project_id is None && report.total_cases == projects_case_count(
                        self@,
                        sorted_ids(crate::store::ids_in(self@, Resource::Projects)),
                    ) && report_lines(report.suites@) == coverage_lines(
                        self@,
                        sorted_ids(crate::store::ids_in(self@, Resource::Projects)),
                    ),
                    Scope::Project(id) => report.project_id matches Some(p) && p@ == id@ && parent_present(
                        self@,
                        ParentModel::Project(id@),
                    ) && report.total_cases == project_case_count(self@, id@) && report_lines(report.suites@)
                        == coverage_lines(self@, seq![id@]),
                    Scope::Projects(ids) => report.project_id is None && report.total_cases == projects_case_count(
                        self@,
                        texts_of(ids@),
                    ) && report_lines(report.suites@) == coverage_lines(self@, texts_of(ids@)),
                },
                Err(e) => if scope matches Scope::Project(id) && !parent_present(self@, ParentModel::Project(id@)) {
                    e@ == ErrorModel::NotFound("Project not found"@)
                } else {
                    e@ == ErrorModel::Internal("Coverage exceeds the counters"@) && projects_case_count(
                        self@,
                        scope_projects(self@, scope),
                    ) > usize::MAX
                },
            },
    {
        let ghost s = self@;
        let ghost sc = scope;
        let (echo, projects): (Option<String>, Vec<String>) = match scope {
            Scope::All => {
                let all = self.repository.list(Resource::Projects);
                proof { crate::order::lemma_sorted_ids(texts_of(all@)); }
                (None, all)
            },
            Scope::Project(id) => {
                let parent = Parent::Project(id.clone());
                match self.require_parent(&parent) {
                    Ok(()) => {},
                    Err(e) => {
                        return Err(e);
                    },
                }
                let mut one: Vec<String> = Vec::new();
                let echo = id.clone();
                one.push(id);
                (Some(echo), one)
            },
            Scope::Projects(ids) => (None, ids),
        };
        let ghost ps = texts_of(projects@);
        assert(ps == scope_projects(s, sc));
        let mut project_cases: Vec<ProjectCases> = Vec::new();
        let mut total: usize = 0;
        let mut i: usize = 0;
        while i < projects.len()
            invariant
                i <= projects.len(),
                s == self@,
                ps == texts_of(projects@),
                ps == scope_projects(s, sc),
                sc == scope,
                sc matches Scope::Project(id) ==> parent_present(s, ParentModel::Project(id@)),
                total == projects_case_count(s, ps.take(i as int)),
                total == case_total(project_cases@),
                coverage_lines_of(project_cases@) == coverage_lines(s, ps.take(i as int)),
            decreases projects.len() - i,
        {
            let parent = Parent::Project(projects[i].clone());
            let direct_ids = self.repository.list_children(&parent, Resource::Cases);
            proof { crate::order::lemma_sorted_len(texts_of(direct_ids@)); }
            let direct = direct_ids.len();
            let suite_ids = self.repository.list_children(&parent, Resource::Suites);
            proof { crate::order::lemma_sorted_ids(texts_of(suite_ids@)); }
            let ghost sq = texts_of(suite_ids@);
            let mut suites: Vec<SuiteCases> = Vec::new();
            let mut in_suites: usize = 0;
            let mut k: usize = 0;
            while k < suite_ids.len()
                invariant
                    k <= suite_ids.len(),
                    s == self@,
                    i < projects@.len(),
                    ps == texts_of(projects@),
                    sq == texts_of(suite_ids@),
                    sq == sorted_ids(children_of(s, ParentModel::Project(ps[i as int]), Resource::Suites)),
                    ps == scope_projects(s, sc),
                    sc == scope,
                    sc matches Scope::Project(id) ==> parent_present(s, ParentModel::Project(id@)),
                    total == projects_case_count(s, ps.take(i as int)),
                    parent@ == ParentModel::Project(ps[i as int]),
                    in_suites == suites_case_count(s, ps[i as int], sq.take(k as int)),
                    in_suites == crate::reports::suite_total(suites@),
                    lines_of(suites@) == suite_lines(s, ps[i as int], sq.take(k as int)),
                decreases suite_ids.len() - k,
            {
                let suite_id = suite_ids[k].clone();
                let name = match self.repository.read_at(Resource::Suites, Some(&parent), suite_id.as_str()) {
                    Ok(document) => match document.str_at("name") {
                        Some(n) => n.clone(),
                        None => suite_id.clone(),
                    },
                    Err(_) => suite_id.clone(),
                };
                assert(name@ == suite_label(s, ps[i as int], suite_id@));
                let folder = Parent::Suite { project: projects[i].clone(), suite: suite_id.clone() };
                assert(folder@ == ParentModel::Suite(ps[i as int], sq[k as int]));
                let case_ids = self.repository.list_children(&folder, Resource::Cases);
                proof { crate::order::lemma_sorted_len(texts_of(case_ids@)); }
                let case_count = case_ids.len();
                proof {
                    assert(sq.take(k + 1).drop_last() =~= sq.take(k as int));
                    assert(sq[k as int] == suite_id@);
                }
                if case_count > usize::MAX - in_suites {
                    proof {
                        assert(case_count == children_of(s, ParentModel::Suite(ps[i as int], sq[k as int]), Resource::Cases).len());
                        lemma_suites_prefix(s, ps[i as int], sq, k + 1);
                        lemma_projects_prefix(s, ps, i + 1);
                        assert(ps.take(i + 1).drop_last() =~= ps.take(i as int));
                        assert(ps.take(i + 1).last() == ps[i as int]);
                        assert(projects_case_count(s, ps) > usize::MAX);
                    }
                    return Err(DomainError::Internal("Coverage exceeds the counters".to_owned()));
                }
                in_suites = in_suites + case_count;
                let ghost before = suites@;
                suites.push(SuiteCases { suite_id, name, case_count });
                assert(suites@.drop_last() =~= before);
                proof {
                    assert(case_count == children_of(s, ParentModel::Suite(ps[i as int], sq[k as int]), Resource::Cases).len());
                    assert(lines_of(suites@) =~= lines_of(before).push(suite_line(s, ps[i as int], sq[k as int])));
                    assert(suite_lines(s, ps[i as int], sq.take(k + 1)) =~= suite_lines(s, ps[i as int], sq.take(k as int)).push(
                        suite_line(s, ps[i as int], sq[k as int]),
                    ));
                }
                k = k + 1;
            }
            assert(sq.take(k as int) =~= sq);
            if direct > usize::MAX - in_suites || direct + in_suites > usize::MAX - total {
                proof {
                    lemma_projects_prefix(s, ps, i + 1);
                    assert(ps.take(i + 1).drop_last() =~= ps.take(i as int));
                    assert(ps.take(i + 1).last() == ps[i as int]);
                    assert(projects_case_count(s, ps) > usize::MAX);
                }
                return Err(DomainError::Internal("Coverage exceeds the counters".to_owned()));
            }
            total = total + direct + in_suites;
            let ghost before = project_cases@;
            let ghost own = suites@;
            project_cases.push(ProjectCases { direct, suites });
            proof {
                assert(project_cases@.drop_last() =~= before);
                assert(ps.take(i + 1).drop_last() =~= ps.take(i as int));
                assert(project_cases@.last().suites@ == own);
                assert(ps.take(i + 1).last() == ps[i as int]);
            }
            i = i + 1;
        }
        assert(ps.take(i as int) =~= ps);
        let ghost input = project_cases@;
        let report = match &echo {
            Some(e) => coverage(Some(e.as_str()), project_cases),
            None => coverage(None, project_cases),
        };
        proof {
            lemma_all_lines(input);
            assert(report_lines(report.suites@) =~= lines_of(crate::reports::all_suites(input)));
        }
        proof {
            if scope is Project {
                assert(ps.len() == 1);
                assert(ps =~= seq![ps[0]]);
                assert(projects_case_count(s, ps) == projects_case_count(s, ps.drop_last()) + project_case_count(s, ps[0]));
                assert(ps.drop_last().len() == 0);
            }
        }
        Ok(report)
    }

    /// Reports how the results recorded across the runs in scope split by
    /// status, with their total duration.
    ///
    /// The filters combine: a run counts only when it passes all of them. A
    /// project filter must name a project, a milestone filter a milestone, and
    /// a configuration filter a configuration some project holds; the date
    /// bounds must be dates. `reachable`, when set, also leaves out a run that
    /// names a project outside it. Runs are walked per project, so two runs
    /// sharing an identifier both count, and a run that cannot be read as a
    /// run is skipped.
    pub fn summary_report(&self, filters: &SummaryFilters, reachable: Option<&[String]>) -> (r: Result<
        SummaryReport,
        DomainError,
    >)
        ensures
            r matches Ok(report) ==> report.passed + report.failed + report.blocked + report.untested <= report.total,
            r matches Ok(report) ==> reports_runs(self@, report, *filters, limit_of(reachable)),
            r is Ok ==> summary_accepted(self@, *filters),
            r matches Err(e) ==> summary_refused(self@, *filters, limit_of(reachable), e@),
    {
        if let Some(project_id) = &filters.project_id {
            match self.require_parent(&Parent::Project(project_id.clone())) {
                Ok(()) => {},
                Err(e) => {
                    return Err(e);
                },
            }
        }
        let milestone_runs: Option<Vec<String>> = match &filters.milestone_id {
            Some(id) => {
                let document = match self.resolved_document(Resource::Milestones, id.as_str(), None, "Milestone not found") {
                    Ok(d) => d,
                    Err(e) => {
                        return Err(e);
                    },
                };
                match crate::models::Milestone::from_json(&document) {
                    Some(m) => match m.test_run_ids {
                        Some(ids) => Some(ids),
                        None => Some(Vec::new()),
                    },
                    None => {
                        return Err(DomainError::Internal("Stored milestone JSON is invalid".to_owned()));
                    },
                }
            },
            None => None,
        };
        if let Some(config_id) = &filters.configuration_id {
            let homes = self.repository.locate(Resource::Configurations, config_id.as_str());
            if homes.len() == 0 {
                return Err(DomainError::NotFound("Resource not found".to_owned()));
            }
        }
        let from = match &filters.from {
            Some(raw) => match parse_date_filter(raw.as_str()) {
                Ok(d) => Some(d),
                Err(e) => {
                    return Err(e);
                },
            },
            None => None,
        };
        let to = match &filters.to {
            Some(raw) => match parse_date_filter(raw.as_str()) {
                Ok(d) => Some(d),
                Err(e) => {
                    return Err(e);
                },
            },
            None => None,
        };
        let scoped = SummaryFilters {
            project_id: filters.project_id.clone(),
            milestone_id: filters.milestone_id.clone(),
            configuration_id: filters.configuration_id.clone(),
            from,
            to,
        };
        let ghost mruns: Option<Seq<String>> = match &milestone_runs {
            Some(ids) => Some(ids@),
            None => None,
        };
        let ghost lim = limit_of(reachable);
        let ghost fs = scoped;
        assert(dated(scoped, *filters));
        assert(summary_accepted(self@, *filters));
        let mut results: Vec<TestCaseResult> = Vec::new();
        let ghost mut walked: Seq<(Seq<char>, Seq<char>, TestRun)> = Seq::empty();
        let projects = self.repository.list(Resource::Projects);
        let mut i: usize = 0;
        while i < projects.len()
            invariant
                i <= projects.len(),
                summary_accepted(self@, *filters),
                results@ == results_of(walked),
                texts_of(projects@).to_set() == ids_in(self@, Resource::Projects),
                strictly_sorted(texts_of(projects@)),
                scoped == fs,
                mruns == (match &milestone_runs {
                    Some(ids) => Some(ids@),
                    None => None,
                }),
                lim == limit_of(reachable),
                forall|k: int| 0 <= k < walked.len() ==> #[trigger] counted_run(
                    self@,
                    walked[k].0,
                    walked[k].1,
                    walked[k].2,
                    fs,
                    lim,
                    mruns,
                ),
                forall|j: int, k: int| 0 <= j < k < walked.len() ==> walked_before(#[trigger] walked[j], #[trigger] walked[k]),
                i < projects.len() ==> forall|j: int| 0 <= j < walked.len() ==> lex_less((#[trigger] walked[j]).0, projects@[i as int]@),
                forall|m: int, rid: Seq<char>, run: TestRun|
                    0 <= m < i && #[trigger] counted_run(self@, projects@[m]@, rid, run, fs, lim, mruns) ==> covered(walked, projects@[m]@, rid),
            decreases projects.len() - i,
        {
            let home = Parent::Project(projects[i].clone());
            proof {
                assert(texts_of(projects@)[i as int] == projects@[i as int]@);
                assert(texts_of(projects@).to_set().contains(projects@[i as int]@));
            }
            let run_ids = self.repository.list_children(&home, Resource::Runs);
            let mut k: usize = 0;
            while k < run_ids.len()
                invariant
                    k <= run_ids.len(),
                    i < projects.len(),
                    summary_accepted(self@, *filters),
                        results@ == results_of(walked),
                    ids_in(self@, Resource::Projects).contains(home@.project()),
                    home@ == ParentModel::Project(home@.project()),
                    home@.project() == projects@[i as int]@,
                    texts_of(run_ids@).to_set() == children_of(self@, home@, Resource::Runs),
                    strictly_sorted(texts_of(run_ids@)),
                    scoped == fs,
                    mruns == (match &milestone_runs {
                        Some(ids) => Some(ids@),
                        None => None,
                    }),
                    lim == limit_of(reachable),
                    forall|j: int| 0 <= j < walked.len() ==> #[trigger] counted_run(
                        self@,
                        walked[j].0,
                        walked[j].1,
                        walked[j].2,
                        fs,
                        lim,
                        mruns,
                    ),
                    forall|j: int, q: int| 0 <= j < q < walked.len() ==> walked_before(#[trigger] walked[j], #[trigger] walked[q]),
                    forall|j: int| 0 <= j < walked.len() ==> lex_less((#[trigger] walked[j]).0, home@.project()) || (
                    walked[j].0 == home@.project() && (k < run_ids.len() ==> lex_less(walked[j].1, run_ids@[k as int]@))),
                    forall|m: int, rid: Seq<char>, run: TestRun|
                        0 <= m < i && #[trigger] counted_run(self@, projects@[m]@, rid, run, fs, lim, mruns) ==> covered(walked, projects@[m]@, rid),
                    forall|q: int, run: TestRun|
                        0 <= q < k && #[trigger] counted_run(self@, home@.project(), run_ids@[q]@, run, fs, lim, mruns) ==> covered(walked, home@.project(), run_ids@[q]@),
                decreases run_ids.len() - k,
            {
                let run_id = run_ids[k].as_str();
                proof {
                    assert(texts_of(run_ids@)[k as int] == run_ids@[k as int]@);
                    assert(texts_of(run_ids@).to_set().contains(run_ids@[k as int]@));
                    if k + 1 < run_ids.len() {
                        assert(texts_of(run_ids@)[k + 1] == run_ids@[k + 1]@);
                        assert(lex_less(run_ids@[k as int]@, run_ids@[k + 1]@));
                    }
                }
                let ghost p = home@.project();
                let ghost rid = run_id@;
                let ghost before_walk = walked;
                let stored = self.repository.read_at(Resource::Runs, Some(&home), run_id);
                let run = match &stored {
                    Ok(value) => TestRun::from_json(value),
                    Err(_) => None,
                };
                let mut pushed = false;
                if let Some(run) = run {
                    let allowed = match reachable {
                        Some(ids) => run_reachable(&run, home.project().as_str(), ids),
                        None => true,
                    };
                    let wanted = allowed && run_is_in_scope(
                        &run,
                        home.project().as_str(),
                        run_id,
                        &scoped,
                        match &milestone_runs {
                            Some(ids) => Some(ids.as_slice()),
                            None => None,
                        },
                    );
                    if wanted {
                        let ghost entry = (home@.project(), run_id@, run);
                        proof {
                            assert(match &stored {
                                Ok(value) => reads_as_run(value@, run),
                                Err(_) => false,
                            });
                            assert(counted_run(self@, entry.0, entry.1, entry.2, fs, lim, mruns));
                        }
                        let ghost base = results@;
                        let ghost own = listed(run.results);
                        if let Some(recorded) = run.results {
                            let mut pending = recorded;
                            let ghost mut used: int = 0;
                            assert(own.skip(0) =~= own);
                            assert(own.take(0) =~= Seq::<TestCaseResult>::empty());
                            assert(base + own.take(0) =~= base);
                            while pending.len() > 0
                                invariant
                                    summary_accepted(self@, *filters),
                                                        0 <= used <= own.len(),
                                    pending@ == own.skip(used),
                                    results@ == base + own.take(used),
                                decreases pending.len(),
                            {
                                let result = pending.remove(0);
                                let ghost before = results@;
                                results.push(result);
                                proof {
                                    assert(results@.drop_last() =~= before);
                                    assert(result == own[used]);
                                    assert(own.take(used + 1) =~= own.take(used).push(own[used]));
                                    assert(own.skip(used + 1) =~= own.skip(used).drop_first());
                                    used = used + 1;
                                }
                            }
                            assert(own.take(used) =~= own);
                        } else {
                            assert(base + own =~= base);
                        }
                        proof {
                            let next = walked.push(entry);
                            assert(next.drop_last() =~= walked);
                            assert(results_of(next) == results_of(walked) + listed(entry.2.results));
                            assert forall|j: int| 0 <= j < next.len() implies #[trigger] counted_run(
                                self@,
                                next[j].0,
                                next[j].1,
                                next[j].2,
                                fs,
                                lim,
                                mruns,
                            ) by {
                                if j < walked.len() {
                                    assert(next[j] == walked[j]);
                                }
                            }
                            assert forall|j: int, q: int| 0 <= j < q < next.len() implies walked_before(#[trigger] next[j], #[trigger] next[q]) by {
                                assert(next[j] == walked[j]);
                                if q < walked.len() {
                                    assert(next[q] == walked[q]);
                                }
                            }
                            assert(covered(next, p, rid)) by {
                                assert(next[walked.len() as int] == entry);
                            }
                            assert forall|m: int, rid2: Seq<char>, run2: TestRun|
                                0 <= m < i && #[trigger] counted_run(self@, projects@[m]@, rid2, run2, fs, lim, mruns) implies covered(next, projects@[m]@, rid2) by {
                                lemma_covered_grows(walked, entry, projects@[m]@, rid2);
                            }
                            assert forall|q: int, run2: TestRun|
                                0 <= q < k && #[trigger] counted_run(self@, p, run_ids@[q]@, run2, fs, lim, mruns) implies covered(next, p, run_ids@[q]@) by {
                                lemma_covered_grows(walked, entry, p, run_ids@[q]@);
                            }
                            walked = next;
                        }
                        pushed = true;
                    } else {
                        proof {
                            assert forall|run2: TestRun| #[trigger] counted_run(self@, p, rid, run2, fs, lim, mruns) implies false by {
                                let d = stored_at(self@, Resource::Runs, Some(home@), rid)->0;
                                lemma_runs_read_alike(d, run, run2);
                                if let Some(ids) = reachable {
                                    assert(crate::reports::reachable_run(run, p, ids@));
                                }
                            }
                        }
                    }
                } else {
                    proof {
                        assert forall|run2: TestRun| #[trigger] counted_run(self@, p, rid, run2, fs, lim, mruns) implies false by {
                        }
                    }
                }
                proof {
                    assert forall|q: int, run2: TestRun|
                        0 <= q < k + 1 && #[trigger] counted_run(self@, p, run_ids@[q]@, run2, fs, lim, mruns) implies covered(walked, p, run_ids@[q]@) by {
                        if q == k {
                            if !pushed {
                                assert(counted_run(self@, p, rid, run2, fs, lim, mruns));
                            }
                        }
                    }
                    assert forall|j: int| 0 <= j < walked.len() implies lex_less((#[trigger] walked[j]).0, p) || (
                    walked[j].0 == p && (k + 1 < run_ids.len() ==> lex_less(walked[j].1, run_ids@[k + 1]@))) by {
                        if j < before_walk.len() {
                            assert(walked[j] == before_walk[j]);
                            if walked[j].0 == p && k + 1 < run_ids.len() {
                                crate::order::lemma_lex_irreflexive(p);
                                crate::order::lemma_lex_transitive(walked[j].1, run_ids@[k as int]@, run_ids@[k + 1]@);
                            }
                        }
                    }
                }
                k = k + 1;
            }
            proof {
                assert forall|m: int, rid: Seq<char>, run: TestRun|
                    0 <= m < i + 1 && #[trigger] counted_run(self@, projects@[m]@, rid, run, fs, lim, mruns) implies covered(walked, projects@[m]@, rid) by {
                    if m == i {
                        assert(children_of(self@, home@, Resource::Runs).contains(rid));
                        assert(texts_of(run_ids@).to_set().contains(rid));
                        let q = choose|q: int| 0 <= q < texts_of(run_ids@).len() && texts_of(run_ids@)[q] == rid;
                        assert(run_ids@[q]@ == rid);
                        assert(counted_run(self@, home@.project(), run_ids@[q]@, run, fs, lim, mruns));
                    }
                }
                if i + 1 < projects.len() {
                    assert(texts_of(projects@)[i as int] == projects@[i as int]@);
                    assert(texts_of(projects@)[i + 1] == projects@[i + 1]@);
                    assert(lex_less(projects@[i as int]@, projects@[i + 1]@));
                    assert forall|j: int| 0 <= j < walked.len() implies lex_less((#[trigger] walked[j]).0, projects@[i + 1]@) by {
                        if walked[j].0 != projects@[i as int]@ {
                            crate::order::lemma_lex_transitive(walked[j].0, projects@[i as int]@, projects@[i + 1]@);
                        }
                    }
                }
            }
            i = i + 1;
        }
        proof {
            assert forall|p: Seq<char>, rid: Seq<char>, run: TestRun|
                #[trigger] counted_run(self@, p, rid, run, fs, lim, mruns) implies covered(walked, p, rid) by {
                assert(texts_of(projects@).to_set().contains(p));
                let m = choose|m: int| 0 <= m < texts_of(projects@).len() && texts_of(projects@)[m] == p;
                assert(projects@[m]@ == p);
                assert(counted_run(self@, projects@[m]@, rid, run, fs, lim, mruns));
            }
        }
        assert(walked_runs(self@, walked, *filters, fs, limit_of(reachable), mruns));
        if !crate::reports::durations_fit(results.as_slice()) {
            assert(summary_overflows(self@, *filters, limit_of(reachable)));
            return Err(DomainError::Internal("Summary durations exceed the counter".to_owned()));
        }
        let report = summary(results.as_slice());
        assert(summed_runs(self@, report, walked, *filters, fs, limit_of(reachable), mruns));
        Ok(report)
    }

    /// Copies a document under a new identifier, applying the request-body
    /// overrides, and returns the identifier of the copy. The copy lands in
    /// the home the source belongs to.
    pub fn duplicate(&mut self, spec: &DuplicateSpec, id: &str, body: &JsonValue) -> (r: Result<String, DomainError>)
        requires
            old(self).wf(),
        ensures
            final(self).wf(),
            final(self).history() == old(self).history(),
            final(self).files() == old(self).files(),
            r is Err ==> final(self)@ == old(self)@,
            r matches Ok(new_id) ==> duplicated_as(old(self)@, final(self)@, *spec, id@, body@, new_id@),
            r matches Err(e) ==> duplicate_refused(old(self)@, *spec, id@, body@, e@),
    {
        let ghost start = self@;
        let parent = match self.owner_for_write(spec.resource, id, spec.not_found_message) {
            Ok(p) => p,
            Err(e) => {
                return Err(e);
            },
        };
        let pref: Option<&Parent> = parent.as_ref();
        assert(opt_parent(pref) == crate::store::parent_model(parent));
        let mut document = match self.repository.read_at(spec.resource, pref, id) {
            Ok(d) => d,
            Err(e) => {
                return Err(crate::error::load_error(e, spec.not_found_message));
            },
        };
        let ghost source = document@;
        let new_id = apply_overrides(spec, id, body, &mut document);
        let ghost copy = document@;
        let ghost (n, t) = choose|n: u64, t: u64|
            (copy, new_id@) == overridden(*spec, id@, body@, source, decimal(n as nat), decimal(t as nat));
        if !crate::storage::validate_document_id(new_id.as_str()) {
            assert(stored_at(start, spec.resource, crate::store::parent_model(parent), id@) == Some(source));
            assert(copy_refused(
                start,
                *spec,
                crate::store::parent_model(parent),
                overridden(*spec, id@, body@, source, decimal(n as nat), decimal(t as nat)).1,
                crate::error::invalid_id_model(),
            ));
            return Err(DomainError::invalid_id());
        }
        if self.repository.exists_at(spec.resource, pref, new_id.as_str()) {
            assert(stored_at(start, spec.resource, crate::store::parent_model(parent), id@) == Some(source));
            assert(overridden(*spec, id@, body@, source, decimal(n as nat), decimal(t as nat)).1 == new_id@);
            assert(copy_refused(
                start,
                *spec,
                crate::store::parent_model(parent),
                overridden(*spec, id@, body@, source, decimal(n as nat), decimal(t as nat)).1,
                ErrorModel::Conflict(spec.already_exists_message@),
            ));
            return Err(DomainError::Conflict(spec.already_exists_message.to_owned()));
        }
        normalise_marker(spec.resource, new_id.as_str(), &mut document);
        let ghost u = choose|u: u64| document@ == normalised(spec.resource, new_id@, copy, decimal(u as nat));
        let ghost p = crate::store::parent_model(parent);
        assert(stored_at(start, spec.resource, p, id@) == Some(source));
        assert(stored_at(start, spec.resource, p, new_id@) is None);
        self.repository.write_at(spec.resource, pref, new_id.as_str(), document);
        assert(write_owner(start, spec.resource, id@) == Some(p));
        assert(overridden(*spec, id@, body@, source, decimal(n as nat), decimal(t as nat)) == (copy, new_id@));
        assert(self@ == written(start, spec.resource, p, new_id@, normalised(spec.resource, new_id@, copy, decimal(u as nat))));
        assert(duplicated(start, self@, *spec, id@, body@, new_id@, p, source, copy, n, t, u));
        assert(duplicated_as(start, self@, *spec, id@, body@, new_id@));
        Ok(new_id)
    }

    /// Validates a partial body and lays it over the stored document: the
    /// members the body carries replace the stored ones, and every other
    /// member keeps its value. A test case whose content changes is
    /// snapshotted first and starts its next version.
    pub fn update(&mut self, resource: Resource, id: &str, value: &JsonValue) -> (r: Result<(), DomainError>)
        requires
            old(self).wf(),
            !(resource == Resource::Cases && (write_owner(old(self)@, resource, id@) matches Some(p) && (stored_at(
                old(self)@,
                resource,
                p,
                id@,
            ) matches Some(d) && current_version(d) == u64::MAX && content_changed(d, merged(d, value@))))),
        ensures
            final(self).wf(),
            final(self).files() == old(self).files(),
            r is Err ==> final(self)@ == old(self)@ && final(self).history() == old(self).history(),
            r is Ok ==> payload_accepted(resource, value@),
            r matches Err(e) ==> update_refused(old(self)@, resource, id@, value@, e@),
            r is Ok ==> exists|p: Option<ParentModel>, d: Json, a: u64, b: u64|
                #[trigger] updated(
                    old(self)@,
                    final(self)@,
                    old(self).history(),
                    final(self).history(),
                    resource,
                    id@,
                    value@,
                    p,
                    d,
                    a,
                    b,
                ),
    {
        match validate_payload(resource, value) {
            Ok(()) => {},
            Err(e) => {
                return Err(e);
            },
        }
        let parent = match self.owner_for_write(resource, id, "Resource not found") {
            Ok(p) => p,
            Err(e) => {
                return Err(e);
            },
        };
        let pref: Option<&Parent> = parent.as_ref();
        assert(opt_parent(pref) == crate::store::parent_model(parent));
        let stored = match self.repository.read_at(resource, pref, id) {
            Ok(d) => d,
            Err(e) => {
                return Err(crate::error::document_error(e, "Resource not found"));
            },
        };
        match self.refuse_foreign_identity(resource, id, value, &stored) {
            Ok(()) => {},
            Err(e) => {
                return Err(e);
            },
        }
        let mut document = match merged_document(&stored, value) {
            Ok(m) => m,
            Err(_) => {
                return Err(DomainError::invalid_id());
            },
        };
        let ghost m = document@;
        let ghost mut a: u64 = 0;
        if resource == Resource::Cases {
            let home = match pref {
                Some(h) => h,
                None => {
                    return Err(DomainError::Storage);
                },
            };
            match self.revise_case(home, id, &stored, &mut document) {
                Ok(()) => {},
                Err(e) => {
                    return Err(e);
                },
            }
            proof { a = choose|t: u64| document@ == revised(stored@, m, iso8601(t as nat)); }
        }
        let ghost staged = document@;
        normalise_marker(resource, id, &mut document);
        let ghost b = choose|t: u64| document@ == normalised(resource, id@, staged, decimal(t as nat));
        let ghost p = crate::store::parent_model(parent);
        let ghost before = self.repository@;
        self.repository.write_at(resource, pref, id, document);
        assert(updated(old(self)@, self@, old(self).history(), self.history(), resource, id@, value@, p, stored@, a, b));
        Ok(())
    }

    /// An update made only while the stored document is in the state the
    /// client last read: `expected_etag` is the tag the client holds (none, or
    /// empty, asks for nothing) and `current_etag` the tag of the stored
    /// document. A body the update refuses anyway is refused first; a tag that
    /// no longer matches is answered with the current one; otherwise this is
    /// [`Self::update`].
    pub fn update_with_etag(
        &mut self,
        resource: Resource,
        id: &str,
        value: &JsonValue,
        expected_etag: Option<String>,
        current_etag: &str,
    ) -> (r: Result<(), DomainError>)
        requires
            old(self).wf(),
            !(resource == Resource::Cases && (write_owner(old(self)@, resource, id@) matches Some(p) && (stored_at(
                old(self)@,
                resource,
                p,
                id@,
            ) matches Some(d) && current_version(d) == u64::MAX && content_changed(d, merged(d, value@))))),
        ensures
            final(self).wf(),
            final(self).files() == old(self).files(),
            r is Err ==> final(self)@ == old(self)@ && final(self).history() == old(self).history(),
            if !update_blocked(old(self)@, resource, id@, value@) && etag_mismatch(expected_etag, current_etag@) {
                r matches Err(e) && e@ == ErrorModel::PreconditionFailed(current_etag@)
            } else {
                &&& r matches Err(e) ==> update_refused(old(self)@, resource, id@, value@, e@)
                &&& r is Ok ==> exists|p: Option<ParentModel>, d: Json, a: u64, b: u64|
                    #[trigger] updated(
                        old(self)@,
                        final(self)@,
                        old(self).history(),
                        final(self).history(),
                        resource,
                        id@,
                        value@,
                        p,
                        d,
                        a,
                        b,
                    )
            },
    {
        let mismatch = match &expected_etag {
            Some(t) => !crate::text::is_blank(t.as_str()) && !str_eq(t.as_str(), current_etag),
            None => false,
        };
        if mismatch {
            match validate_payload(resource, value) {
                Ok(()) => {},
                Err(e) => {
                    return Err(e);
                },
            }
            let parent = match self.owner_for_write(resource, id, "Resource not found") {
                Ok(p) => p,
                Err(e) => {
                    return Err(e);
                },
            };
            let pref: Option<&Parent> = parent.as_ref();
            assert(opt_parent(pref) == crate::store::parent_model(parent));
            let stored = match self.repository.read_at(resource, pref, id) {
                Ok(d) => d,
                Err(e) => {
                    return Err(crate::error::document_error(e, "Resource not found"));
                },
            };
            match self.refuse_foreign_identity(resource, id, value, &stored) {
                Ok(()) => {},
                Err(e) => {
                    return Err(e);
                },
            }
            return Err(DomainError::PreconditionFailed { current_etag: current_etag.to_owned() });
        }
        self.update(resource, id, value)
    }

    /// Refuses an identity member in an update body that names a document
    /// other than the one addressed.
    fn refuse_foreign_identity(&self, resource: Resource, id: &str, value: &JsonValue, stored: &JsonValue) -> (r: Result<
        (),
        DomainError,
    >)
        ensures
            r is Ok <==> !names_another(resource, id@, value@, stored@),
            r matches Err(e) ==> e@ == foreign_identity_error(resource, value@),
    {
        let field: &str = match resource {
            Resource::Projects => "projectId",
            Resource::Suites => "suiteId",
            Resource::Runs => "testRunId",
            Resource::Milestones => "milestoneId",
            Resource::Configurations => "configId",
            Resource::Cases => {
                return Ok(());
            },
        };
        assert(body_identity(resource) == Some(field@));
        let supplied = match value.str_at(field) {
            Some(s) => s,
            None => {
                return Ok(());
            },
        };
        if str_eq(supplied.as_str(), id) {
            return Ok(());
        }
        match stored.str_at(field) {
            Some(own) => {
                if str_eq(own.as_str(), supplied.as_str()) {
                    return Ok(());
                }
            },
            None => {},
        }
        if !crate::storage::validate_document_id(supplied.as_str()) {
            return Err(DomainError::invalid_id());
        }
        let mut message = concat("Field `", field);
        push_str(
            &mut message,
            "` names another document; an identifier is immutable, delete the resource and recreate it to rename it",
        );
        Err(DomainError::invalid_request(message))
    }

    /// Applies the test-case version rules to a merged update: a change to a
    /// qualifying field snapshots the stored document and starts the next
    /// version, modified now; any other update keeps the stored version and
    /// modification time.
    fn revise_case(&mut self, parent: &Parent, id: &str, stored: &JsonValue, merged: &mut JsonValue) -> (r: Result<
        (),
        DomainError,
    >)
        requires
            old(self).wf(),
            old(merged)@ is Object,
            !(current_version(stored@) == u64::MAX && content_changed(stored@, old(merged)@)),
        ensures
            final(self).wf(),
            final(self).files() == old(self).files(),
            final(self)@ == old(self)@,
            final(self).history() == if content_changed(stored@, old(merged)@) {
                old(self).history().push((parent@, id@, current_version(stored@), stored@))
            } else {
                old(self).history()
            },
            r is Ok,
            exists|t: u64| final(merged)@ == revised(stored@, old(merged)@, iso8601(t as nat)),
    {
        let current: u64 = match stored.get("version") {
            Some(v) => match v.as_u64() {
                Some(n) => n,
                None => 1,
            },
            None => 1,
        };
        assert(current == current_version(stored@));
        let changed = case_content_changed(stored, merged);
        if changed {
            let ghost kept = self.history();
            let snapshot = Revision {
                parent: parent.duplicate(),
                id: id.to_owned(),
                version: current,
                document: json_clone(stored),
            };
            let ghost entry = (snapshot.parent@, snapshot.id@, snapshot.version, snapshot.document@);
            self.revisions.push(snapshot);
            assert(self.history() =~= kept.push(entry));
            merged.insert("version", JsonValue::Number(JsonNumber::Unsigned(current + 1)));
            let now = current_iso8601_timestamp();
            let ghost t = choose|t: u64| now@ == iso8601(t as nat);
            merged.insert("lastModified", JsonValue::Str(now));
            assert(merged@ == revised(stored@, old(merged)@, iso8601(t as nat)));
        } else {
            match stored.get("lastModified") {
                Some(v) => merged.insert("lastModified", json_clone(v)),
                None => merged.remove("lastModified"),
            }
            if stored.get("version").is_some() {
                merged.insert("version", JsonValue::Number(JsonNumber::Unsigned(current)));
            } else {
                merged.remove("version");
            }
            assert(merged@ == revised(stored@, old(merged)@, iso8601(0)));
        }
        Ok(())
    }

    /// Lists the versions a case recorded, oldest first, each with its
    /// modification time and the qualifying fields the update after it
    /// changed; a case without a qualifying update has an empty history.
    pub fn list_case_history(&self, parent: &Parent, id: &str) -> (r: Result<Vec<CaseHistoryEntry>, DomainError>)
        ensures
            ({
                let snaps = snapshots_of(self.history(), parent@, id@);
                if snaps.len() == 0 {
                    r matches Ok(v) && v@.len() == 0
                } else {
                    match stored_at(self@, Resource::Cases, Some(parent@), id@) {
                        None => r matches Err(e) && e@ == ErrorModel::NotFound("Test case not found"@),
                        Some(live) => r matches Ok(v) && v@.len() == snaps.len() && forall|k: int|
                            0 <= k < snaps.len() ==> #[trigger] history_line(
                                v@[k],
                                snaps[k].2,
                                snaps[k].3,
                                next_document(snaps, k, live),
                            ),
                    }
                }
            }),
    {
        let ghost kept = self.history();
        let ghost pick = |x: Snapshot| x.0 == parent@ && x.1 == id@;
        let mut snapshots: Vec<&Revision> = Vec::new();
        let mut i: usize = 0;
        assert(kept.take(0).filter(pick) =~= Seq::<Snapshot>::empty());
        while i < self.revisions.len()
            invariant
                i <= self.revisions.len(),
                kept == self.history(),
                pick == (|x: Snapshot| x.0 == parent@ && x.1 == id@),
                snapshots@.map_values(|r: &Revision| (r.parent@, r.id@, r.version, r.document@)) == kept.take(i as int).filter(pick),
            decreases self.revisions.len() - i,
        {
            let rev = &self.revisions[i];
            proof {
                crate::seqs::lemma_filter_take(kept, pick, i as int);
                assert(kept[i as int] == (rev.parent@, rev.id@, rev.version, rev.document@));
            }
            if crate::store::same_parent(Some(parent), &Some(rev.parent.duplicate())) && str_eq(rev.id.as_str(), id) {
                let ghost before = snapshots@.map_values(|r: &Revision| (r.parent@, r.id@, r.version, r.document@));
                snapshots.push(rev);
                assert(snapshots@.map_values(|r: &Revision| (r.parent@, r.id@, r.version, r.document@)) =~= before.push(
                    kept[i as int],
                ));
            }
            i = i + 1;
        }
        assert(kept.take(i as int) =~= kept);
        let ghost snaps = snapshots_of(kept, parent@, id@);
        assert(snapshots@.map_values(|r: &Revision| (r.parent@, r.id@, r.version, r.document@)) == snaps);
        if snapshots.len() == 0 {
            return Ok(Vec::new());
        }
        let live = match self.repository.read_at(Resource::Cases, Some(parent), id) {
            Ok(d) => d,
            Err(e) => {
                return Err(crate::error::document_error(e, "Test case not found"));
            },
        };
        let mut history: Vec<CaseHistoryEntry> = Vec::new();
        let mut k: usize = 0;
        while k < snapshots.len()
            invariant
                k <= snapshots.len(),
                snapshots@.map_values(|r: &Revision| (r.parent@, r.id@, r.version, r.document@)) == snaps,
                history@.len() == k,
                forall|j: int|
                    0 <= j < k ==> #[trigger] history_line(
                        history@[j],
                        snaps[j].2,
                        snaps[j].3,
                        next_document(snaps, j, live@),
                    ),
            decreases snapshots.len() - k,
        {
            let snapshot = &snapshots[k].document;
            let successor = if k + 1 < snapshots.len() { &snapshots[k + 1].document } else { &live };
            proof {
                assert(snaps[k as int] == (snapshots@[k as int].parent@, snapshots@[k as int].id@, snapshots@[k as int].version, snapshots@[k as int].document@));
                if k + 1 < snapshots.len() {
                    assert(snaps[k + 1] == (snapshots@[k + 1].parent@, snapshots@[k + 1].id@, snapshots@[k + 1].version, snapshots@[k + 1].document@));
                }
            }
            let entry = CaseHistoryEntry {
                version: snapshots[k].version,
                last_modified: match snapshot.str_at("lastModified") {
                    Some(t) => Some(t.clone()),
                    None => None,
                },
                changed_fields: changed_fields(snapshot, successor),
            };
            assert(history_line(
                entry,
                snaps[k as int].2,
                snaps[k as int].3,
                next_document(snaps, k as int, live@),
            ));
            history.push(entry);
            k = k + 1;
        }
        Ok(history)
    }

    /// Reads the snapshot a case recorded at `version`.
    pub fn read_case_revision(&self, parent: &Parent, id: &str, version: u64) -> (r: Result<JsonValue, DomainError>)
        ensures
            ({
                let i = crate::seqs::first_where(
                    self.history(),
                    |x: Snapshot| x.0 == parent@ && x.1 == id@ && x.2 == version,
                );
                match r {
                    Ok(d) => 0 <= i < self.history().len() && d@ == self.history()[i].3,
                    Err(e) => i == -1 && e@ == ErrorModel::NotFound("Revision not found"@),
                }
            }),
    {
        let ghost kept = self.history();
        let ghost f = |x: Snapshot| x.0 == parent@ && x.1 == id@ && x.2 == version;
        let mut i: usize = 0;
        while i < self.revisions.len()
            invariant
                i <= self.revisions.len(),
                kept == self.history(),
                f == (|x: Snapshot| x.0 == parent@ && x.1 == id@ && x.2 == version),
                forall|k: int| 0 <= k < i ==> !f(#[trigger] kept[k]),
            decreases self.revisions.len() - i,
        {
            let rev = &self.revisions[i];
            assert(kept[i as int] == (rev.parent@, rev.id@, rev.version, rev.document@));
            if rev.version == version && crate::store::same_parent(Some(parent), &Some(rev.parent.duplicate()))
                && str_eq(rev.id.as_str(), id) {
                proof { crate::seqs::lemma_first_where(kept, f, i as int); }
                return Ok(json_clone(&rev.document));
            }
            i = i + 1;
        }
        proof { crate::seqs::lemma_first_where(kept, f, i as int); }
        Err(DomainError::NotFound("Revision not found".to_owned()))
    }

    /// Identifiers of the children `parent` owns, in order.
    pub fn list_children(&self, parent: &Parent, child: Resource) -> (r: Result<Vec<String>, DomainError>)
        ensures
            match r {
                Ok(v) => parent_present(self@, parent@) && strictly_sorted(texts_of(v@)) && texts_of(v@).to_set()
                    == children_of(self@, parent@, child),
                Err(e) => !parent_present(self@, parent@) && e@ == ErrorModel::NotFound(parent_missing(parent@)),
            },
    {
        match self.require_parent(parent) {
            Ok(()) => {},
            Err(e) => {
                return Err(e);
            },
        }
        Ok(self.repository.list_children(parent, child))
    }
    /// Copies or moves an existing suite or case into `target`.
    fn place_into(&mut self, resource: Resource, target: &Parent, body: &JsonValue) -> (r: Result<
        Composed,
        DomainError,
    >)
        requires
            old(self).wf(),
        ensures
            final(self).wf(),
            final(self).history() == old(self).history(),
            final(self).files() == old(self).files(),
            placement(old(self)@, final(self)@, resource, target@, body@, r),
    {
        let field = match resource {
            Resource::Suites => "suiteId",
            Resource::Cases => "testCaseId",
            _ => {
                return Err(DomainError::invalid_request("Only test suites and test cases can be placed".to_owned()));
            },
        };
        let id = match required_string(body, field) {
            Some(id) => id,
            None => {
                let message = concat(concat("Required field ", field).as_str(), " is missing");
                return Err(DomainError::invalid_request(message));
            },
        };
        let mode = placement_mode(body);
        let source = match self.parent_of(resource, id.as_str(), entity_missing_message(resource)) {
            Ok(p) => p,
            Err(e) => {
                return Err(e);
            },
        };
        let into_project = match target {
            Parent::Project(_) => true,
            _ => false,
        };
        if resource == Resource::Suites && !into_project {
            return Err(DomainError::invalid_request("A test suite can only be placed into a project".to_owned()));
        }
        match self.require_parent(target) {
            Ok(()) => {},
            Err(e) => {
                return Err(e);
            },
        }
        proof {
            lemma_resolved_is_filed(self@, resource, id@, None);
        }
        match self.repository.place(resource, &source, id.as_str(), target, mode) {
            Ok(()) => Ok(Composed::Placed { id, mode }),
            Err(e) => Err(placement_error(e)),
        }
    }

    /// Creates a new entity in `target`, or places an existing one there: a
    /// body carrying the field a creation needs creates, a body naming only an
    /// existing identifier places, and a body mixing the two, or asking for an
    /// unknown `mode`, is refused.
    pub fn compose(&mut self, resource: Resource, target: &Parent, body: &JsonValue) -> (r: Result<
        Composed,
        DomainError,
    >)
        requires
            old(self).wf(),
        ensures
            final(self).wf(),
            final(self).history() == old(self).history(),
            final(self).files() == old(self).files(),
            composition(old(self)@, final(self)@, resource, target@, body@, r),
    {
        match creates(resource, body) {
            Ok(true) => match self.create_in(resource, target, body) {
                Ok(c) => Ok(Composed::Created(c)),
                Err(e) => Err(e),
            },
            Ok(false) => self.place_into(resource, target, body),
            Err(e) => Err(e),
        }
    }

    /// Adds the case named in `body` to a suite: a creation when the body
    /// carries a title, otherwise a copy or a move.
    pub fn add_case_to_suite(&mut self, suite_id: &str, body: &JsonValue) -> (r: Result<(), DomainError>)
        requires
            old(self).wf(),
        ensures
            final(self).wf(),
            final(self).history() == old(self).history(),
            final(self).files() == old(self).files(),
            suite_addition(old(self)@, final(self)@, suite_id@, body@, r),
    {
        let parent = match self.suite_parent(suite_id) {
            Ok(p) => p,
            Err(e) => {
                return Err(e);
            },
        };
        let ghost s = self@;
        let c = self.compose(Resource::Cases, &parent, body);
        assert(composition(s, self@, Resource::Cases, parent@, body@, c));
        match c {
            Ok(_) => Ok(()),
            Err(e) => Err(e),
        }
    }

    /// Removes one occurrence of a case from a suite.
    pub fn remove_case_from_suite(&mut self, suite_id: &str, case_id: &str) -> (r: Result<(), DomainError>)
        requires
            old(self).wf(),
        ensures
            final(self).wf(),
            final(self).history() == old(self).history(),
            final(self).files() == old(self).files(),
            match resolution(old(self)@, Resource::Suites, suite_id@, None) {
                None => final(self)@ == old(self)@ && (r matches Err(e) && resolution_error(
                    old(self)@,
                    Resource::Suites,
                    suite_id@,
                    "Test suite not found"@,
                    e@,
                )),
                Some(h) => {
                    let parent = ParentModel::Suite(h.project(), suite_id@);
                    match r {
                        Ok(()) => parent_present(old(self)@, parent) && stored_at(
                            old(self)@,
                            Resource::Cases,
                            Some(parent),
                            case_id@,
                        ) is Some && final(self)@ == removed(old(self)@, Resource::Cases, Some(parent), case_id@),
                        Err(e) => final(self)@ == old(self)@ && if parent_present(old(self)@, parent) {
                            stored_at(old(self)@, Resource::Cases, Some(parent), case_id@) is None && e@
                                == ErrorModel::NotFound("Resource not found"@)
                        } else {
                            e@ == ErrorModel::NotFound(parent_missing(parent))
                        },
                    }
                },
            },
    {
        let parent = match self.suite_parent(suite_id) {
            Ok(p) => p,
            Err(e) => {
                return Err(e);
            },
        };
        self.delete_in(Resource::Cases, &parent, case_id)
    }
    /// Every `name` the reachable projects store for `resource`, each once and
    /// in order.
    fn names_of(&self, resource: Resource, reachable: Option<&[String]>) -> (r: Vec<String>)
        ensures
            strictly_sorted(texts_of(r@)),
            texts_of(r@).to_set() == distinct_names(self@, resource, limit_of(reachable)),
    {
        let ghost s = self@;
        let ghost lim = limit_of(reachable);
        let projects = self.repository.list(Resource::Projects);
        let ghost ps = texts_of(projects@);
        let mut out: Vec<String> = Vec::new();
        let mut i: usize = 0;
        assert(ps.take(0).to_set() =~= Set::<Seq<char>>::empty());
        assert(Set::new(|n: Seq<char>| named_in(s, resource, lim, ps.take(0).to_set(), n)) =~= Set::<Seq<char>>::empty());
        assert(texts_of(out@).to_set() =~= Set::<Seq<char>>::empty());
        while i < projects.len()
            invariant
                i <= projects.len(),
                s == self@,
                lim == limit_of(reachable),
                ps == texts_of(projects@),
                ps.to_set() == ids_in(s, Resource::Projects),
                strictly_sorted(texts_of(out@)),
                texts_of(out@).to_set() == Set::new(|n: Seq<char>| named_in(s, resource, lim, ps.take(i as int).to_set(), n)),
            decreases projects.len() - i,
        {
            let p = &projects[i];
            let ghost before = texts_of(out@).to_set();
            let admitted = match reachable {
                Some(r) => crate::reports::contains(r, p.as_str()),
                None => true,
            };
            let home = Parent::Project(p.clone());
            let ids = self.repository.list_children(&home, resource);
            let ghost is = texts_of(ids@);
            if admitted {
                let mut j: usize = 0;
                assert(names_among(s, resource, p@, is.take(0)) =~= Set::<Seq<char>>::empty());
                assert(before.union(names_among(s, resource, p@, is.take(0))) =~= before);
                while j < ids.len()
                    invariant
                        j <= ids.len(),
                        s == self@,
                        home@ == ParentModel::Project(p@),
                        is == texts_of(ids@),
                        strictly_sorted(texts_of(out@)),
                        texts_of(out@).to_set() == before.union(names_among(s, resource, p@, is.take(j as int))),
                    decreases ids.len() - j,
                {
                    let ghost prior = texts_of(out@).to_set();
                    let found = self.repository.read_at(resource, Some(&home), ids[j].as_str());
                    let ghost next = names_among(s, resource, p@, is.take(j + 1));
                    let ghost last = names_among(s, resource, p@, is.take(j as int));
                    match found {
                        Ok(d) => {
                            assert(name_at(s, resource, p@, is[j as int]) == d@.str_at("name"@));
                            match d.str_at("name") {
                                Some(n) => {
                                    insert_sorted(&mut out, n.clone());
                                    assert(next =~= last.insert(n@)) by {
                                        assert(is.take(j + 1)[j as int] == is[j as int]);
                                        assert forall|m: Seq<char>| next.contains(m) implies last.insert(n@).contains(m) by {
                                            let k = choose|k: int| 0 <= k < j + 1 && name_at(s, resource, p@, #[trigger] is.take(j + 1)[k]) == Some(m);
                                            if k < j {
                                                assert(is.take(j as int)[k] == is.take(j + 1)[k]);
                                            }
                                        }
                                        assert forall|m: Seq<char>| last.insert(n@).contains(m) implies next.contains(m) by {
                                            if m != n@ {
                                                let k = choose|k: int| 0 <= k < j && name_at(s, resource, p@, #[trigger] is.take(j as int)[k]) == Some(m);
                                                assert(is.take(j as int)[k] == is.take(j + 1)[k]);
                                            }
                                        }
                                    }
                                },
                                None => {
                                    assert(next =~= last) by {
                                        assert forall|m: Seq<char>| next.contains(m) implies last.contains(m) by {
                                            let k = choose|k: int| 0 <= k < j + 1 && name_at(s, resource, p@, #[trigger] is.take(j + 1)[k]) == Some(m);
                                            assert(k != j);
                                            assert(is.take(j as int)[k] == is.take(j + 1)[k]);
                                        }
                                        assert forall|m: Seq<char>| last.contains(m) implies next.contains(m) by {
                                            let k = choose|k: int| 0 <= k < j && name_at(s, resource, p@, #[trigger] is.take(j as int)[k]) == Some(m);
                                            assert(is.take(j as int)[k] == is.take(j + 1)[k]);
                                        }
                                    }
                                },
                            }
                        },
                        Err(_) => {
                            assert(next =~= last) by {
                                assert forall|m: Seq<char>| next.contains(m) implies last.contains(m) by {
                                    let k = choose|k: int| 0 <= k < j + 1 && name_at(s, resource, p@, #[trigger] is.take(j + 1)[k]) == Some(m);
                                    assert(k != j);
                                    assert(is.take(j as int)[k] == is.take(j + 1)[k]);
                                }
                                assert forall|m: Seq<char>| last.contains(m) implies next.contains(m) by {
                                    let k = choose|k: int| 0 <= k < j && name_at(s, resource, p@, #[trigger] is.take(j as int)[k]) == Some(m);
                                    assert(is.take(j as int)[k] == is.take(j + 1)[k]);
                                }
                            }
                        },
                    }
                    j = j + 1;
                }
                assert(is.take(j as int) =~= is);
            } else {
                assert(before.union(Set::<Seq<char>>::empty()) =~= before);
            }
            proof {
                assert(ps[i as int] == p@);
                assert(ps.take(i + 1).to_set() =~= ps.take(i as int).to_set().insert(p@)) by {
                    assert forall|x: Seq<char>| ps.take(i + 1).to_set().contains(x) implies ps.take(i as int).to_set().insert(p@).contains(x) by {
                        let k = choose|k: int| 0 <= k < i + 1 && #[trigger] ps.take(i + 1)[k] == x;
                        if k < i {
                            assert(ps.take(i as int)[k] == x);
                        }
                    }
                    assert forall|x: Seq<char>| ps.take(i as int).to_set().insert(p@).contains(x) implies ps.take(i + 1).to_set().contains(x) by {
                        if x == p@ {
                            assert(ps.take(i + 1)[i as int] == x);
                        } else {
                            let k = choose|k: int| 0 <= k < i && #[trigger] ps.take(i as int)[k] == x;
                            assert(ps.take(i + 1)[k] == x);
                        }
                    }
                }
                lemma_named_step(s, resource, lim, ps.take(i as int).to_set(), p@, is);
                assert(admitted == reaches(lim, p@));
            }
            i = i + 1;
        }
        assert(ps.take(i as int) =~= ps);
        out
    }

    /// The distinct, sorted `name` of every milestone the caller can reach:
    /// the releases a run can be filed under. `reachable`, when set, limits
    /// the projects whose milestones count.
    pub fn release_names(&self, reachable: Option<&[String]>) -> (r: Result<Vec<String>, DomainError>)
        ensures
            r matches Ok(names) && strictly_sorted(texts_of(names@)) && texts_of(names@).to_set() == distinct_names(
                self@,
                Resource::Milestones,
                limit_of(reachable),
            ),
    {
        Ok(self.names_of(Resource::Milestones, reachable))
    }

    /// The distinct, sorted `name` of every configuration the caller can
    /// reach: the environments a run can be executed against.
    pub fn environment_names(&self, reachable: Option<&[String]>) -> (r: Result<Vec<String>, DomainError>)
        ensures
            r matches Ok(names) && strictly_sorted(texts_of(names@)) && texts_of(names@).to_set() == distinct_names(
                self@,
                Resource::Configurations,
                limit_of(reachable),
            ),
    {
        Ok(self.names_of(Resource::Configurations, reachable))
    }

    /// Names, records and stores an upload against case `id` of `parent`, on
    /// the case or on `step`.
    fn upload_file(
        &mut self,
        parent: &Parent,
        id: &str,
        step: Option<usize>,
        original_name: &str,
        contents: &[u8],
    ) -> (r: Result<StoredAttachment, DomainError>)
        requires
            old(self).wf(),
            stored_at(old(self)@, Resource::Cases, Some(parent@), id@) matches Some(d) ==> can_record(d, step),
        ensures
            final(self).wf(),
            final(self).history() == old(self).history(),
            upload(old(self)@, old(self).files(), final(self)@, final(self).files(), parent@, id@, step, original_name@, contents@, r),
    {
        let suffix = unique_suffix();
        let ghost n = choose|n: u64| suffix@ == decimal(n as nat);
        let filename = concat(concat(suffix.as_str(), "-").as_str(), original_name);
        assert(filename@ == decimal(n as nat) + "-"@ + original_name@);
        let size: u64 = contents.len() as u64;
        let mut members: Vec<(String, JsonValue)> = Vec::new();
        members.push(("filename".to_owned(), JsonValue::Str(filename.clone())));
        members.push(("originalName".to_owned(), JsonValue::Str(original_name.to_owned())));
        members.push(("mimeType".to_owned(), JsonValue::Str(mime_type(filename.as_str()).to_owned())));
        members.push(("size".to_owned(), JsonValue::Number(JsonNumber::Unsigned(size))));
        let entry = JsonValue::Object(members);
        proof {
            crate::json::lemma_object_model(members);
            assert(crate::json::members_of(members@) =~= attachment_entry(filename@, original_name@, size)->Object_0);
        }
        match self.repository.attach_file(parent, id, step, filename.as_str(), entry, contents) {
            Ok(()) => Ok(StoredAttachment { filename, original_name: original_name.to_owned(), size: contents.len() }),
            Err(e) => Err(attachment_write_error(e)),
        }
    }

    /// Stores an uploaded file against case `id` of `parent`.
    pub fn store_attachment(&mut self, parent: &Parent, id: &str, original_name: &str, contents: &[u8]) -> (r: Result<
        StoredAttachment,
        DomainError,
    >)
        requires
            old(self).wf(),
        ensures
            final(self).wf(),
            final(self).history() == old(self).history(),
            contents@.len() > MAX_ATTACHMENT_BYTES ==> final(self)@ == old(self)@ && final(self).files() == old(self).files() && (r matches Err(e) && e@ == ErrorModel::PayloadTooLarge),
            contents@.len() <= MAX_ATTACHMENT_BYTES ==> upload(
                old(self)@,
                old(self).files(),
                final(self)@,
                final(self).files(),
                parent@,
                id@,
                None,
                original_name@,
                contents@,
                r,
            ),
    {
        if contents.len() > MAX_ATTACHMENT_BYTES {
            return Err(DomainError::PayloadTooLarge);
        }
        self.upload_file(parent, id, None, original_name, contents)
    }

    /// The contents of attachment `filename` of case `id` in `parent`.
    pub fn read_attachment(&self, parent: &Parent, id: &str, filename: &str) -> (r: Result<Vec<u8>, DomainError>)
        ensures
            match r {
                Ok(b) => stored_at(self@, Resource::Cases, Some(parent@), id@) is Some && file_at(
                    self.files(),
                    parent@,
                    id@,
                    None,
                    filename@,
                ) == Some(b@),
                Err(e) => e@ == ErrorModel::NotFound("File not found"@) && (stored_at(
                    self@,
                    Resource::Cases,
                    Some(parent@),
                    id@,
                ) is None || file_at(self.files(), parent@, id@, None, filename@) is None),
            },
    {
        match self.repository.read_file(parent, id, None, filename) {
            Ok(b) => Ok(b),
            Err(e) => Err(crate::error::attachment_error(e)),
        }
    }

    /// Removes attachment `filename` of case `id` in `parent`, with the
    /// metadata the case records for it.
    pub fn delete_attachment(&mut self, parent: &Parent, id: &str, filename: &str) -> (r: Result<(), DomainError>)
        requires
            old(self).wf(),
        ensures
            final(self).wf(),
            final(self).history() == old(self).history(),
            match r {
                Ok(()) => stored_at(old(self)@, Resource::Cases, Some(parent@), id@) matches Some(d) && file_at(
                    old(self).files(),
                    parent@,
                    id@,
                    None,
                    filename@,
                ) is Some && final(self)@ == written(
                    old(self)@,
                    Resource::Cases,
                    Some(parent@),
                    id@,
                    detached(d, None, filename@),
                ) && final(self).files() == old(self).files().filter(
                    |f: FileModel| !file_named(f, parent@, id@, None, filename@),
                ),
                Err(e) => e@ == ErrorModel::NotFound("File not found"@) && final(self)@ == old(self)@ && final(self).files() == old(self).files() && (stored_at(old(self)@, Resource::Cases, Some(parent@), id@) is None
                    || file_at(old(self).files(), parent@, id@, None, filename@) is None),
            },
    {
        match self.repository.detach_file(parent, id, None, filename) {
            Ok(()) => Ok(()),
            Err(e) => Err(crate::error::attachment_error(e)),
        }
    }

    /// Resolves one structured step of a case, so a step attachment only ever
    /// addresses a step that exists and can carry metadata.
    fn structured_step(&self, parent: &Parent, id: &str, step_index: usize) -> (r: Result<JsonValue, DomainError>)
        ensures
            match structured_step_of(self@, parent@, id@, step_index) {
                Ok(st) => r matches Ok(v) && v@ == st,
                Err(m) => r matches Err(e) && e@ == m,
            },
    {
        let document = match self.repository.read_at(Resource::Cases, Some(parent), id) {
            Ok(d) => d,
            Err(_) => {
                return Err(DomainError::NotFound("Test case not found".to_owned()));
            },
        };
        match crate::attachments::step_at(&document, step_index) {
            Some(step) => if step.is_object() {
                Ok(step)
            } else {
                let mut message = "Step ".to_owned();
                push_decimal(&mut message, step_index as u64);
                let message = concat(message.as_str(), " is a plain string step, not a structured step");
                Err(DomainError::invalid_request(message))
            },
            None => {
                let mut message = "Step index ".to_owned();
                push_decimal(&mut message, step_index as u64);
                let message = concat(message.as_str(), " is out of range");
                Err(DomainError::invalid_request(message))
            },
        }
    }

    /// Stores an uploaded file against one structured step of case `id` in
    /// `parent`.
    pub fn store_step_attachment(
        &mut self,
        parent: &Parent,
        id: &str,
        step_index: usize,
        original_name: &str,
        contents: &[u8],
    ) -> (r: Result<StoredAttachment, DomainError>)
        requires
            old(self).wf(),
        ensures
            final(self).wf(),
            final(self).history() == old(self).history(),
            contents@.len() > MAX_ATTACHMENT_BYTES ==> final(self)@ == old(self)@ && final(self).files() == old(self).files() && (r matches Err(e) && e@ == ErrorModel::PayloadTooLarge),
            contents@.len() <= MAX_ATTACHMENT_BYTES ==> match structured_step_of(old(self)@, parent@, id@, step_index) {
                Err(m) => final(self)@ == old(self)@ && final(self).files() == old(self).files() && (r matches Err(e)
                    && e@ == m),
                Ok(_) => upload(
                    old(self)@,
                    old(self).files(),
                    final(self)@,
                    final(self).files(),
                    parent@,
                    id@,
                    Some(step_index),
                    original_name@,
                    contents@,
                    r,
                ),
            },
    {
        if contents.len() > MAX_ATTACHMENT_BYTES {
            return Err(DomainError::PayloadTooLarge);
        }
        match self.structured_step(parent, id, step_index) {
            Ok(_) => {},
            Err(e) => {
                return Err(e);
            },
        }
        self.upload_file(parent, id, Some(step_index), original_name, contents)
    }

    /// The attachment metadata recorded for one structured step.
    pub fn list_step_attachments(&self, parent: &Parent, id: &str, step_index: usize) -> (r: Result<
        Vec<JsonValue>,
        DomainError,
    >)
        ensures
            match structured_step_of(self@, parent@, id@, step_index) {
                Ok(st) => r matches Ok(v) && crate::json::values_of(v@) == listed_attachments(st),
                Err(m) => r matches Err(e) && e@ == m,
            },
    {
        match self.structured_step(parent, id, step_index) {
            Ok(step) => Ok(attachments_of(&step)),
            Err(e) => Err(e),
        }
    }

    /// Removes attachment `filename` of one step of case `id` in `parent`,
    /// with the metadata the step records for it.
    pub fn delete_step_attachment(&mut self, parent: &Parent, id: &str, step_index: usize, filename: &str) -> (r: Result<
        (),
        DomainError,
    >)
        requires
            old(self).wf(),
        ensures
            final(self).wf(),
            final(self).history() == old(self).history(),
            match r {
                Ok(()) => stored_at(old(self)@, Resource::Cases, Some(parent@), id@) matches Some(d) && file_at(
                    old(self).files(),
                    parent@,
                    id@,
                    Some(step_index),
                    filename@,
                ) is Some && final(self)@ == written(
                    old(self)@,
                    Resource::Cases,
                    Some(parent@),
                    id@,
                    detached(d, Some(step_index), filename@),
                ) && final(self).files() == old(self).files().filter(
                    |f: FileModel| !file_named(f, parent@, id@, Some(step_index), filename@),
                ),
                Err(e) => e@ == ErrorModel::NotFound("File not found"@) && final(self)@ == old(self)@ && final(self).files() == old(self).files() && (stored_at(old(self)@, Resource::Cases, Some(parent@), id@) is None
                    || file_at(old(self).files(), parent@, id@, Some(step_index), filename@) is None),
            },
    {
        match self.repository.detach_file(parent, id, Some(step_index), filename) {
            Ok(()) => Ok(()),
            Err(e) => Err(crate::error::attachment_error(e)),
        }
    }
}

/// Translation for storing an attachment: a name already taken is a
/// conflict, anything else follows the read rules.
fn attachment_write_error(error: StorageError) -> (e: DomainError)
    ensures
        e@ == (match error {
            StorageError::AlreadyExists => ErrorModel::Conflict("File already exists"@),
            StorageError::NotFound | StorageError::InvalidInput => ErrorModel::NotFound("File not found"@),
            _ => crate::error::storage_model(error),
        }),
{
    match error {
        StorageError::AlreadyExists => DomainError::Conflict("File already exists".to_owned()),
        _ => crate::error::attachment_error(error),
    }
}

/// Whether a composition body asks for a new entity rather than a placement.
fn creates(resource: Resource, body: &JsonValue) -> (r: Result<bool, DomainError>)
    ensures
        match composition_kind(resource, body@) {
            Ok(b) => r == Ok::<bool, DomainError>(b),
            Err(m) => r matches Err(e) && e@ == invalid_request_model(m),
        },
{
    let mode = body.get("mode");
    let known = match mode {
        None => true,
        Some(m) => match m.as_str() {
            Some(text) => str_eq(text.as_str(), "copy") || str_eq(text.as_str(), "move"),
            None => false,
        },
    };
    proof {
        reveal_strlit("copy");
        reveal_strlit("move");
    }
    if !known {
        return Err(DomainError::invalid_request("Field `mode` must be `copy` or `move`".to_owned()));
    }
    let creation = match resource {
        Resource::Suites => required_string(body, "name").is_some(),
        Resource::Cases => required_string(body, "title").is_some(),
        _ => true,
    };
    if creation && mode.is_some() {
        return Err(DomainError::invalid_request(
            "A placement request cannot carry the fields that create a new resource".to_owned(),
        ));
    }
    Ok(creation)
}

/// The placement a body asks for; a copy unless it says `move`.
fn placement_mode(body: &JsonValue) -> (r: Placement)
    ensures
        r == mode_of(body@),
{
    proof {
        reveal_strlit("move");
    }
    match body.get("mode") {
        Some(m) => match m.as_str() {
            Some(text) => if str_eq(text.as_str(), "move") {
                Placement::Move
            } else {
                Placement::Copy
            },
            None => Placement::Copy,
        },
        None => Placement::Copy,
    }
}

/// Translation for a placement failure: a taken name is a conflict, an
/// unusable identifier is a bad request, a missing source is a 404.
fn placement_error(error: StorageError) -> (e: DomainError)
    ensures
        e@ == placement_model(error),
{
    match error {
        StorageError::AlreadyExists => DomainError::Conflict(
            "The target parent already holds a child with this identifier".to_owned(),
        ),
        StorageError::NotFound => DomainError::NotFound("Resource not found".to_owned()),
        StorageError::InvalidInput => DomainError::invalid_id(),
        _ => crate::error::storage_error(error),
    }
}

/// The home an identifier resolves to holds it.
proof fn lemma_resolved_is_filed(s: Seq<EntryModel>, resource: Resource, id: Seq<char>, home: Option<ParentModel>)
    requires
        resolution(s, resource, id, home) is Some,
    ensures
        stored_at(s, resource, resolution(s, resource, id, home), id) is Some,
{
    if !(home is Some && stored_at(s, resource, home, id) is Some) {
        lemma_home_is_filed(s, resource, id, 0);
    }
}


/// Whether a timestamp member of a recording body reads: absent, `null`, or a
/// non-empty string.
pub open spec fn timestamp_fits(j: Option<Json>) -> bool {
    match j {
        None => true,
        Some(Json::Null) => true,
        Some(Json::Str(t)) => t.len() > 0,
        _ => false,
    }
}

/// Whether patch `p` is what member `j` of a recording body asks for: an
/// absent member keeps, `null` clears, and a value replaces.
pub open spec fn text_patch_read(p: Patch<String>, j: Option<Json>) -> bool {
    match p {
        Patch::Keep => j is None,
        Patch::Clear => j == Some(Json::Null),
        Patch::Value(t) => j == Some(Json::Str(t@)),
    }
}

/// Whether patch `p` is what member `j` of a recording body asks for.
pub open spec fn unsigned_patch_read(p: Patch<u64>, j: Option<Json>) -> bool {
    match p {
        Patch::Keep => j is None,
        Patch::Clear => j == Some(Json::Null),
        Patch::Value(n) => j == Some(Json::Number(NumberModel::Unsigned(n))),
    }
}

/// Why a result recording body is refused, if it is: it is not an object; it
/// carries a member a recording does not define (the first one answers); the
/// case is missing or empty; the status is missing or not one of the
/// recognised ones; the timestamp is not a non-empty string; the notes are not
/// a string or `null`; the duration is not a non-negative integer or `null`.
pub open spec fn update_refusal(body: Json) -> Option<ErrorModel> {
    match body {
        Json::Object(ms) => if first_unknown(ms, result_fields()) is Some {
            Some(invalid_request_model("Unknown field `"@ + first_unknown(ms, result_fields())->0 + "`"@))
        } else if required_of(body, "testCaseId"@) is None {
            Some(invalid_request_model("Required field testCaseId is missing"@))
        } else if body.str_at("status"@) is None {
            Some(invalid_request_model("Required field status is missing"@))
        } else if !valid_status(body.str_at("status"@)->0) {
            Some(invalid_status_model())
        } else if !timestamp_fits(body.get("timestamp"@)) {
            Some(invalid_request_model("Field `timestamp` must be a non-empty string"@))
        } else if !text_fits(body.get("notes"@)) {
            Some(invalid_request_model("Field `notes` must be a string or null"@))
        } else if !unsigned_fits(body.get("durationMs"@)) {
            Some(invalid_request_model("Field `durationMs` must be a non-negative integer or null"@))
        } else {
            None
        },
        _ => Some(invalid_request_model("Request body must be a JSON object"@)),
    }
}

/// Reads a result recording body: the case and status it records, the
/// timestamp it carries (now, when it carries none), and what it asks of the
/// stored notes and duration.
pub fn result_update(body: &JsonValue) -> (r: Result<ResultUpdate, DomainError>)
    ensures
        match r {
            Ok(u) => {
                &&& update_refusal(body@) is None
                &&& body@.str_at("testCaseId"@) == Some(u.test_case_id@)
                &&& body@.str_at("status"@) == Some(u.status@)
                &&& (body@.str_at("timestamp"@) matches Some(t) ==> u.timestamp@ == t)
                &&& (body@.str_at("timestamp"@) is None ==> exists|n: u64| u.timestamp@ == decimal(n as nat))
                &&& (body@.str_at("timestamp"@) is None ==> exists|n: u64| u.timestamp@ == decimal(n as nat))
                &&& text_patch_read(u.notes, body@.get("notes"@))
                &&& unsigned_patch_read(u.duration_ms, body@.get("durationMs"@))
            },
            Err(e) => update_refusal(body@) == Some(e@),
        },
{
    let members = match body {
        JsonValue::Object(m) => m,
        _ => {
            return Err(DomainError::invalid_request("Request body must be a JSON object".to_owned()));
        },
    };
    proof { crate::json::lemma_object_model(*members); }
    let ghost ms = crate::json::members_of(members@);
    let ghost f = |m: (Seq<char>, Json)| !result_fields().contains(m.0);
    let mut i: usize = 0;
    while i < members.len()
        invariant
            i <= members.len(),
            ms == crate::json::members_of(members@),
            body@ == Json::Object(ms),
            f == (|m: (Seq<char>, Json)| !result_fields().contains(m.0)),
            forall|k: int| 0 <= k < i ==> !f(#[trigger] ms[k]),
        decreases members.len() - i,
    {
        let key = members[i].0.as_str();
        let known = str_eq(key, "testCaseId") || str_eq(key, "status") || str_eq(key, "timestamp") || str_eq(
            key,
            "notes",
        ) || str_eq(key, "durationMs");
        proof {
            let fields = result_fields();
            assert(ms[i as int].0 == key@);
            assert(fields[0] == "testCaseId"@ && fields[1] == "status"@ && fields[2] == "timestamp"@);
            assert(fields[3] == "notes"@ && fields[4] == "durationMs"@);
            if known {
                assert(fields.contains(key@));
            } else {
                assert(!fields.contains(key@));
            }
        }
        if !known {
            proof { crate::seqs::lemma_first_where(ms, f, i as int); }
            let mut message = concat("Unknown field `", key);
            push_str(&mut message, "`");
            return Err(DomainError::invalid_request(message));
        }
        i = i + 1;
    }
    proof { crate::seqs::lemma_first_where(ms, f, i as int); }
    let test_case_id = match required_string(body, "testCaseId") {
        Some(id) => id,
        None => {
            return Err(DomainError::invalid_request("Required field testCaseId is missing".to_owned()));
        },
    };
    let status = match body.str_at("status") {
        Some(s) => s.clone(),
        None => {
            return Err(DomainError::invalid_request("Required field status is missing".to_owned()));
        },
    };
    let st = status.as_str();
    if !(str_eq(st, "Passed") || str_eq(st, "Failed") || str_eq(st, "Blocked") || str_eq(st, "Untested") || str_eq(
        st,
        "Retest",
    )) {
        return Err(DomainError::invalid_status());
    }
    let timestamp = match body.get("timestamp") {
        None => current_timestamp_string(),
        Some(JsonValue::Null) => current_timestamp_string(),
        Some(JsonValue::Str(t)) => {
            if crate::text::is_blank(t.as_str()) {
                return Err(DomainError::invalid_request(
                    "Field `timestamp` must be a non-empty string".to_owned(),
                ));
            }
            t.clone()
        },
        Some(_) => {
            return Err(DomainError::invalid_request("Field `timestamp` must be a non-empty string".to_owned()));
        },
    };
    let notes = match body.get("notes") {
        None => Patch::Keep,
        Some(JsonValue::Null) => Patch::Clear,
        Some(JsonValue::Str(t)) => Patch::Value(t.clone()),
        Some(_) => {
            return Err(DomainError::invalid_request("Field `notes` must be a string or null".to_owned()));
        },
    };
    let duration_ms = match body.get("durationMs") {
        None => Patch::Keep,
        Some(JsonValue::Null) => Patch::Clear,
        Some(JsonValue::Number(JsonNumber::Unsigned(n))) => Patch::Value(*n),
        Some(_) => {
            return Err(DomainError::invalid_request(
                "Field `durationMs` must be a non-negative integer or null".to_owned(),
            ));
        },
    };
    Ok(ResultUpdate { test_case_id, status, timestamp, notes, duration_ms })
}


proof fn lemma_status_total_bound(cases: Seq<CaseModel>, status: ImportStatus)
    ensures
        status_total(cases, ImportStatus::Passed) + status_total(cases, ImportStatus::Failed) + status_total(
            cases,
            ImportStatus::Blocked,
        ) == cases.len(),
    decreases cases.len(),
{
    if cases.len() > 0 {
        lemma_status_total_bound(cases.drop_last(), status);
    }
}


/// Nanoseconds since the Unix epoch according to the system clock; zero when
/// the clock reads earlier than the epoch.
#[verifier::external_body]
fn now_nanos() -> (r: u64) {
    std::time::SystemTime::now().duration_since(std::time::UNIX_EPOCH).map(|d| d.as_nanos() as u64).unwrap_or(0)
}

/// A suffix that tells apart names made at different moments: the current
/// time in nanoseconds, in decimal.
pub fn unique_suffix() -> (r: String)
    ensures
        exists|n: u64| r@ == decimal(n as nat),
{
    let now = now_nanos();
    let mut out = String::new();
    push_decimal(&mut out, now);
    assert(out@ =~= decimal(now as nat));
    out
}


/// Lays an update body over a stored document: every member the body
/// carries, other than `null`, replaces the stored one. A stored document
/// that is not an object cannot be merged.
pub fn merged_document(stored: &JsonValue, body: &JsonValue) -> (r: Result<JsonValue, DomainError>)
    ensures
        match r {
            Ok(m) => stored@ is Object && m@ == merged(stored@, body@) && m@ is Object,
            Err(e) => !(stored@ is Object) && e@ == ErrorModel::Internal("Stored JSON is invalid"@),
        },
{
    if !stored.is_object() {
        return Err(DomainError::Internal("Stored JSON is invalid".to_owned()));
    }
    let mut out = json_clone(stored);
    match body {
        JsonValue::Object(ms) => {
            proof { crate::json::lemma_object_model(*ms); }
            let ghost members = crate::json::members_of(ms@);
            let mut i: usize = 0;
            while i < ms.len()
                invariant
                    i <= ms.len(),
                    members == crate::json::members_of(ms@),
                    out@ == merge_members(stored@, members.take(i as int)),
                    out@ is Object,
                decreases ms.len() - i,
            {
                proof {
                    assert(members.take(i + 1).drop_last() =~= members.take(i as int));
                    assert(members.take(i + 1).last() == members[i as int]);
                    assert(members[i as int] == (ms@[i as int].0@, ms@[i as int].1@));
                }
                if !ms[i].1.is_null() {
                    out.insert(ms[i].0.as_str(), json_clone(&ms[i].1));
                }
                i = i + 1;
            }
            assert(members.take(i as int) =~= members);
        },
        _ => {},
    }
    Ok(out)
}

/// Whether a merged update changed any qualifying field of a test case.
pub fn case_content_changed(stored: &JsonValue, merged: &JsonValue) -> (r: bool)
    ensures
        r == content_changed(stored@, merged@),
{
    let fields: [&'static str; 4] = ["title", "steps", "preconditions", "expectedResult"];
    assert(texts_of_slice(fields@) =~= qualifying());
    let mut k: usize = 0;
    while k < 4
        invariant
            k <= 4,
            texts_of_slice(fields@) == qualifying(),
            forall|j: int| 0 <= j < k ==> stored@.get(#[trigger] qualifying()[j]) == merged@.get(qualifying()[j]),
        decreases 4 - k,
    {
        let f = fields[k];
        assert(f@ == qualifying()[k as int]);
        let same = match (stored.get(f), merged.get(f)) {
            (None, None) => true,
            (Some(a), Some(b)) => crate::json::json_eq(a, b),
            _ => false,
        };
        if !same {
            return true;
        }
        k = k + 1;
    }
    false
}

/// The texts of a list of string slices.
pub open spec fn texts_of_slice(s: Seq<&'static str>) -> Seq<Seq<char>> {
    s.map_values(|t: &'static str| t@)
}

/// The qualifying fields whose value differs from `snapshot` to `successor`,
/// in their fixed order.
pub open spec fn fields_changed(snapshot: Json, successor: Json) -> Seq<Seq<char>> {
    qualifying().filter(|f: Seq<char>| snapshot.get(f) != successor.get(f))
}

/// A field is named among the changed ones exactly when it is `title`,
/// `steps`, `preconditions` or `expectedResult` and its value differs from
/// the snapshot to its successor.
pub proof fn lemma_changed_fields_exactly(snapshot: Json, successor: Json, f: Seq<char>)
    ensures
        fields_changed(snapshot, successor).contains(f) <==> ((f == "title"@ || f == "steps"@ || f == "preconditions"@
            || f == "expectedResult"@) && snapshot.get(f) != successor.get(f)),
{
    let q = qualifying();
    let differs = |g: Seq<char>| snapshot.get(g) != successor.get(g);
    assert(q[0] == "title"@ && q[1] == "steps"@ && q[2] == "preconditions"@ && q[3] == "expectedResult"@);
    if q.filter(differs).contains(f) {
        let i = choose|i: int| 0 <= i < q.filter(differs).len() && q.filter(differs)[i] == f;
        q.lemma_filter_pred(differs, i);
        q.lemma_filter_contains_rev(differs, f);
        let j = choose|j: int| 0 <= j < q.len() && q[j] == f;
        assert(j == 0 || j == 1 || j == 2 || j == 3);
    }
    if differs(f) {
        if f == "title"@ {
            q.lemma_filter_contains(differs, 0);
        } else if f == "steps"@ {
            q.lemma_filter_contains(differs, 1);
        } else if f == "preconditions"@ {
            q.lemma_filter_contains(differs, 2);
        } else if f == "expectedResult"@ {
            q.lemma_filter_contains(differs, 3);
        }
    }
}

/// The qualifying fields whose value differs from `snapshot` to `successor`.
pub fn changed_fields(snapshot: &JsonValue, successor: &JsonValue) -> (r: Vec<String>)
    ensures
        texts_of(r@) == fields_changed(snapshot@, successor@),
{
    let fields: [&'static str; 4] = ["title", "steps", "preconditions", "expectedResult"];
    assert(texts_of_slice(fields@) =~= qualifying());
    let ghost differs = |f: Seq<char>| snapshot@.get(f) != successor@.get(f);
    let mut out: Vec<String> = Vec::new();
    let mut k: usize = 0;
    assert(texts_of(out@) =~= qualifying().take(0).filter(differs));
    while k < 4
        invariant
            k <= 4,
            texts_of_slice(fields@) == qualifying(),
            differs == (|f: Seq<char>| snapshot@.get(f) != successor@.get(f)),
            texts_of(out@) == qualifying().take(k as int).filter(differs),
        decreases 4 - k,
    {
        let f = fields[k];
        assert(f@ == qualifying()[k as int]);
        proof {
            crate::seqs::lemma_filter_take(qualifying(), differs, k as int);
        }
        let same = match (snapshot.get(f), successor.get(f)) {
            (None, None) => true,
            (Some(a), Some(b)) => crate::json::json_eq(a, b),
            _ => false,
        };
        assert(same == !differs(f@));
        if !same {
            let ghost before = texts_of(out@);
            out.push(f.to_owned());
            assert(texts_of(out@) =~= before.push(f@));
        }
        k = k + 1;
    }
    assert(qualifying().take(4) =~= qualifying());
    out
}

} // verus!
