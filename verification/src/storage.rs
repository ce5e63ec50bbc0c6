//! The vocabulary the service and the store share: which collection a document
//! belongs to, which parent owns it, and how a placement moves it.

use vstd::prelude::*;

verus! {

/// A collection of stored documents.
#[derive(Debug, Clone, Copy, PartialEq, Eq, Structural)]
pub enum Resource {
    Projects,
    Suites,
    Cases,
    Runs,
    Milestones,
    Configurations,
}

impl Resource {
    /// Every collection, in the order the layout lists them.
    pub const ALL: [Resource; 6] = [
        Resource::Projects,
        Resource::Suites,
        Resource::Cases,
        Resource::Runs,
        Resource::Milestones,
        Resource::Configurations,
    ];

    /// Every collection, in the order the layout lists them.
    pub fn all() -> (r: Vec<Resource>)
        ensures
            r@ == seq![Resource::Projects, Resource::Suites, Resource::Cases, Resource::Runs,
                Resource::Milestones, Resource::Configurations],
    {
        let mut v = Vec::new();
        v.push(Resource::Projects);
        v.push(Resource::Suites);
        v.push(Resource::Cases);
        v.push(Resource::Runs);
        v.push(Resource::Milestones);
        v.push(Resource::Configurations);
        v
    }

    /// Whether documents of this collection are addressed by an identifier
    /// ending in `.json`; a test case is addressed by its bare identifier.
    pub fn id_requires_json_suffix(self) -> (r: bool)
        ensures
            r == (self != Resource::Cases),
    {
        match self {
            Resource::Cases => false,
            _ => true,
        }
    }
}

/// The parent that owns a stored document: a project, or a suite inside one.
#[derive(Debug, Clone, PartialEq, Eq)]
pub enum Parent {
    Project(String),
    Suite { project: String, suite: String },
}

/// The mathematical model of a [`Parent`].
pub enum ParentModel {
    Project(Seq<char>),
    Suite(Seq<char>, Seq<char>),
}

impl View for Parent {
    type V = ParentModel;

    open spec fn view(&self) -> ParentModel {
        match self {
            Parent::Project(p) => ParentModel::Project(p@),
            Parent::Suite { project, suite } => ParentModel::Suite(project@, suite@),
        }
    }
}

impl ParentModel {
    /// The project this parent is, or lives in.
    pub open spec fn project(self) -> Seq<char> {
        match self {
            ParentModel::Project(p) => p,
            ParentModel::Suite(p, _) => p,
        }
    }
}

impl Parent {
    /// The project this parent is, or lives in.
    pub fn project(&self) -> (r: &String)
        ensures
            r@ == self@.project(),
    {
        match self {
            Parent::Project(p) => p,
            Parent::Suite { project, .. } => project,
        }
    }

    /// A copy of this parent.
    pub fn duplicate(&self) -> (r: Parent)
        ensures
            r@ == self@,
    {
        match self {
            Parent::Project(p) => Parent::Project(p.clone()),
            Parent::Suite { project, suite } => Parent::Suite { project: project.clone(), suite: suite.clone() },
        }
    }
}

/// How an existing entity joins another parent.
#[derive(Debug, Clone, Copy, PartialEq, Eq, Structural)]
pub enum Placement {
    Copy,
    Move,
}

/// Why the store could not carry out an operation.
#[derive(Debug, Clone, Copy, PartialEq, Eq, Structural)]
pub enum StorageError {
    /// Nothing is stored under the address.
    NotFound,
    /// The address is not one the store can use.
    InvalidInput,
    /// The address is already taken.
    AlreadyExists,
    /// What is stored there cannot be read as a document.
    InvalidData,
    /// Any other failure.
    Other,
}

} // verus!

verus! {

/// Whether `c` may stand in a document identifier: anything but a path
/// separator or NUL.
pub open spec fn id_char(c: char) -> bool {
    c != '/' && c != '\\' && c != '\0'
}

/// Whether `id` is an identifier the store can file a document under: one
/// non-empty path component, neither `.` nor `..`, so that it can never leave
/// the folder it is filed in.
pub open spec fn valid_document_id(id: Seq<char>) -> bool {
    &&& id.len() > 0
    &&& !(id.len() == 1 && id[0] == '.')
    &&& !(id.len() == 2 && id[0] == '.' && id[1] == '.')
    &&& forall|i: int| 0 <= i < id.len() ==> id_char(#[trigger] id[i])
}

/// Whether `id` is an identifier the store can file a document under.
pub fn validate_document_id(id: &str) -> (r: bool)
    ensures
        r == valid_document_id(id@),
{
    let chars = crate::text::chars_of(id);
    let n = chars.len();
    if n == 0 {
        return false;
    }
    if n == 1 && chars[0] == '.' {
        return false;
    }
    if n == 2 && chars[0] == '.' && chars[1] == '.' {
        return false;
    }
    let mut i: usize = 0;
    while i < n
        invariant
            i <= n,
            n == chars@.len(),
            chars@ == id@,
            forall|k: int| 0 <= k < i ==> id_char(#[trigger] chars@[k]),
        decreases n - i,
    {
        let c = chars[i];
        if c == '/' || c == '\\' || c == '\0' {
            assert(!id_char(chars@[i as int]));
            return false;
        }
        i = i + 1;
    }
    true
}

} // verus!
