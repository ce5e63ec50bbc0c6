//! The vocabulary the operations that change stored data are labelled with,
//! and the wrapper that runs such an operation.

use vstd::prelude::*;

use crate::error::{code_of, DomainError};
use crate::storage::{Placement, Resource};

verus! {

/// The label an attachment is recorded under: it is a file inside a case
/// folder rather than one of the collections.
pub const ATTACHMENT_RESOURCE: &'static str = "attachment";

/// The name the trail of changes is recorded under.
pub const AUDIT_TARGET: &'static str = "tucano.audit";

/// The noun a collection is named by, matching the vocabulary of the routes.
pub open spec fn noun_of(resource: Resource) -> Seq<char> {
    match resource {
        Resource::Projects => "project"@,
        Resource::Suites => "test_suite"@,
        Resource::Cases => "test_case"@,
        Resource::Runs => "test_run"@,
        Resource::Milestones => "milestone"@,
        Resource::Configurations => "test_configuration"@,
    }
}

/// The noun a collection is named by.
pub fn resource_noun(resource: Resource) -> (r: &'static str)
    ensures
        r@ == noun_of(resource),
{
    match resource {
        Resource::Projects => "project",
        Resource::Suites => "test_suite",
        Resource::Cases => "test_case",
        Resource::Runs => "test_run",
        Resource::Milestones => "milestone",
        Resource::Configurations => "test_configuration",
    }
}

/// The action a placement is named by, spelled as the response message
/// spells it.
pub fn placement_action(mode: Placement) -> (r: &'static str)
    ensures
        r@ == (match mode {
            Placement::Copy => "copy"@,
            Placement::Move => "move"@,
        }),
{
    match mode {
        Placement::Copy => "copy",
        Placement::Move => "move",
    }
}

/// Runs `operation` on behalf of `resource`, `action` and `id`, and answers
/// whatever it answered.
pub fn audited<T, F: FnOnce() -> Result<T, DomainError>>(
    resource: &'static str,
    action: &'static str,
    id: &str,
    operation: F,
) -> (r: Result<T, DomainError>)
    requires
        operation.requires(()),
    ensures
        operation.ensures((), r),
{
    operation()
}

/// How an audited change ended: it succeeded, or it failed with the code the
/// client was answered with.
#[derive(Debug, PartialEq, Eq)]
pub enum AuditOutcome {
    Success,
    Failure(&'static str),
}

/// One line of the trail of changes: the action, the resource it addressed,
/// the identifier, and the outcome. Nothing else is recorded.
#[derive(Debug)]
pub struct AuditRecord {
    pub action: String,
    pub resource: String,
    pub id: String,
    pub outcome: AuditOutcome,
}

/// The line the trail records for `action` on `resource` `id` that answered
/// `outcome`.
pub fn audit_record<T>(resource: &str, action: &str, id: &str, outcome: &Result<T, DomainError>) -> (r: AuditRecord)
    ensures
        r.action@ == action@,
        r.resource@ == resource@,
        r.id@ == id@,
        match outcome {
            Ok(_) => r.outcome == AuditOutcome::Success,
            Err(e) => r.outcome matches AuditOutcome::Failure(code) && code@ == code_of(e@),
        },
{
    let result = match outcome {
        Ok(_) => AuditOutcome::Success,
        Err(e) => AuditOutcome::Failure(e.code()),
    };
    AuditRecord { action: action.to_owned(), resource: resource.to_owned(), id: id.to_owned(), outcome: result }
}

} // verus!
