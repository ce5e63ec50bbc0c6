//! The document store the service works over: every document filed under its
//! collection, the parent that owns it, and its identifier.
//!
//! A project is filed without a parent; every other document lives inside a
//! project or a suite. No two documents share a collection, a parent and an
//! identifier, and removing a project or a suite removes what it owns.

use vstd::prelude::*;

use crate::attachments::{attached, can_record, detached, drop_attachment_at, record_attachment_at, step_at};
use crate::json::{Json, JsonValue, json_clone};
use crate::order::{insert_sorted, strictly_sorted, texts_of};
use crate::storage::{Parent, ParentModel, Placement, Resource, StorageError};
use crate::text::str_eq;

verus! {

/// One stored document and where it is filed.
#[derive(Debug)]
pub struct Entry {
    pub resource: Resource,
    pub parent: Option<Parent>,
    pub id: String,
    pub document: JsonValue,
}

/// The model of an [`Entry`].
pub struct EntryModel {
    pub resource: Resource,
    pub parent: Option<ParentModel>,
    pub id: Seq<char>,
    pub document: Json,
}

/// The model of an optional parent.
pub open spec fn parent_model(p: Option<Parent>) -> Option<ParentModel> {
    match p {
        Some(x) => Some(x@),
        None => None,
    }
}

/// The model of an optional borrowed parent.
pub open spec fn opt_parent(p: Option<&Parent>) -> Option<ParentModel> {
    match p {
        Some(x) => Some(x@),
        None => None,
    }
}

impl View for Entry {
    type V = EntryModel;

    open spec fn view(&self) -> EntryModel {
        EntryModel { resource: self.resource, parent: parent_model(self.parent), id: self.id@, document: self.document@ }
    }
}

/// Whether `e` is filed at collection `resource`, parent `parent`, identifier `id`.
pub open spec fn filed_at(e: EntryModel, resource: Resource, parent: Option<ParentModel>, id: Seq<char>) -> bool {
    e.resource == resource && e.parent == parent && e.id == id
}

/// The position of the document filed at an address, or `-1`.
pub open spec fn index_at(s: Seq<EntryModel>, resource: Resource, parent: Option<ParentModel>, id: Seq<char>) -> int {
    crate::seqs::first_where(s, |e: EntryModel| filed_at(e, resource, parent, id))
}

/// The document filed at an address, if any.
pub open spec fn stored_at(s: Seq<EntryModel>, resource: Resource, parent: Option<ParentModel>, id: Seq<char>) -> Option<Json> {
    let i = index_at(s, resource, parent, id);
    if 0 <= i < s.len() { Some(s[i].document) } else { None }
}

/// The documents after `document` is filed at an address: it replaces what
/// was filed there, or joins the end.
pub open spec fn written(
    s: Seq<EntryModel>,
    resource: Resource,
    parent: Option<ParentModel>,
    id: Seq<char>,
    document: Json,
) -> Seq<EntryModel> {
    let e = EntryModel { resource, parent, id, document };
    let i = index_at(s, resource, parent, id);
    if i >= 0 { s.update(i, e) } else { s.push(e) }
}

/// The documents after removing the one at an address with what it owns.
pub open spec fn removed(s: Seq<EntryModel>, resource: Resource, parent: Option<ParentModel>, id: Seq<char>) -> Seq<EntryModel> {
    s.filter(|e: EntryModel| !removed_with(e, resource, parent, id))
}

/// Whether no two documents share an address.
pub open spec fn distinct_addresses(s: Seq<EntryModel>) -> bool {
    forall|i: int, j: int|
        0 <= i < j < s.len() ==> !filed_at(#[trigger] s[j], s[i].resource, s[i].parent, (#[trigger] s[i]).id)
}

/// Whether removing the document at an address removes `e` too: the document
/// itself, and for a project or a suite everything filed inside it.
pub open spec fn removed_with(e: EntryModel, resource: Resource, parent: Option<ParentModel>, id: Seq<char>) -> bool {
    ||| filed_at(e, resource, parent, id)
    ||| (resource == Resource::Projects && parent is None && (e.parent matches Some(p) && p.project() == id))
    ||| (resource == Resource::Suites && (parent matches Some(ParentModel::Project(project))
        && e.parent == Some(ParentModel::Suite(project, id))))
}

/// The identifiers of the documents filed in `resource`.
pub open spec fn ids_in(s: Seq<EntryModel>, resource: Resource) -> Set<Seq<char>> {
    Set::new(|id: Seq<char>| exists|i: int| 0 <= i < s.len() && s[i].resource == resource && (#[trigger] s[i]).id == id)
}

/// The identifiers of the `child` documents `parent` owns.
pub open spec fn children_of(s: Seq<EntryModel>, parent: ParentModel, child: Resource) -> Set<Seq<char>> {
    Set::new(
        |id: Seq<char>|
            exists|i: int|
                0 <= i < s.len() && s[i].resource == child && s[i].parent == Some(parent) && (#[trigger] s[i]).id == id,
    )
}

/// The parents holding a `resource` document named `id`, in filing order.
pub open spec fn homes_of(s: Seq<EntryModel>, resource: Resource, id: Seq<char>) -> Seq<ParentModel>
    decreases s.len(),
{
    if s.len() == 0 {
        Seq::empty()
    } else {
        let last = s.last();
        homes_of(s.drop_last(), resource, id) + if last.resource == resource && last.id == id
            && last.parent is Some {
            seq![last.parent->0]
        } else {
            Seq::empty()
        }
    }
}

/// Whether `e` is filed directly inside `parent`.
pub open spec fn inside(e: EntryModel, parent: ParentModel) -> bool {
    e.parent == Some(parent)
}

/// `e` refiled inside suite `suite` of project `project`.
pub open spec fn refiled(e: EntryModel, project: Seq<char>, suite: Seq<char>) -> EntryModel {
    EntryModel { resource: e.resource, parent: Some(ParentModel::Suite(project, suite)), id: e.id, document: e.document }
}

/// The documents after each of `es` is filed at its own address, in order.
pub open spec fn write_all(s: Seq<EntryModel>, es: Seq<EntryModel>) -> Seq<EntryModel>
    decreases es.len(),
{
    if es.len() == 0 {
        s
    } else {
        let e = es.last();
        written(write_all(s, es.drop_last()), e.resource, e.parent, e.id, e.document)
    }
}

/// The documents after the `resource` document `id` filed in `source` joins
/// `target`, holding `document`: a move first removes the source with what it
/// owns, and a suite brings along copies of everything filed inside it.
pub open spec fn placed(
    s: Seq<EntryModel>,
    resource: Resource,
    source: ParentModel,
    id: Seq<char>,
    target: ParentModel,
    mode: Placement,
    document: Json,
) -> Seq<EntryModel> {
    let base = if mode == Placement::Move { removed(s, resource, Some(source), id) } else { s };
    let w = written(base, resource, Some(target), id, document);
    if resource == Resource::Suites {
        write_all(
            w,
            s.filter(|e: EntryModel| inside(e, ParentModel::Suite(source.project(), id))).map_values(
                |e: EntryModel| refiled(e, target.project(), id),
            ),
        )
    } else {
        w
    }
}

/// A file stored against a case, or against one structured step of it.
#[derive(Debug)]
pub struct StoredFile {
    pub parent: Parent,
    pub case: String,
    pub step: Option<usize>,
    pub filename: String,
    pub contents: Vec<u8>,
}

/// The model of a [`StoredFile`].
pub struct FileModel {
    pub parent: ParentModel,
    pub case: Seq<char>,
    pub step: Option<usize>,
    pub filename: Seq<char>,
    pub contents: Seq<u8>,
}

impl View for StoredFile {
    type V = FileModel;

    open spec fn view(&self) -> FileModel {
        FileModel {
            parent: self.parent@,
            case: self.case@,
            step: self.step,
            filename: self.filename@,
            contents: self.contents@,
        }
    }
}

/// Whether `f` is the file `filename` of case `case` in `parent`, on `step`.
pub open spec fn file_named(f: FileModel, parent: ParentModel, case: Seq<char>, step: Option<usize>, filename: Seq<char>) -> bool {
    f.parent == parent && f.case == case && f.step == step && f.filename == filename
}

/// The contents of the file `filename` of case `case` in `parent`, on `step`.
pub open spec fn file_at(
    fs: Seq<FileModel>,
    parent: ParentModel,
    case: Seq<char>,
    step: Option<usize>,
    filename: Seq<char>,
) -> Option<Seq<u8>> {
    let i = crate::seqs::first_where(fs, |f: FileModel| file_named(f, parent, case, step, filename));
    if 0 <= i < fs.len() { Some(fs[i].contents) } else { None }
}

/// Every document the service stores, with where it is filed.
#[derive(Debug)]
pub struct Repository {
    entries: Vec<Entry>,
    files: Vec<StoredFile>,
}

impl View for Repository {
    type V = Seq<EntryModel>;

    closed spec fn view(&self) -> Seq<EntryModel> {
        self.entries@.map_values(|e: Entry| e@)
    }
}

/// Whether two optional parents are the same.
pub fn same_parent(a: Option<&Parent>, b: &Option<Parent>) -> (r: bool)
    ensures
        r == (opt_parent(a) == parent_model(*b)),
{
    match (a, b) {
        (None, None) => true,
        (Some(Parent::Project(x)), Some(Parent::Project(y))) => str_eq(x.as_str(), y.as_str()),
        (Some(Parent::Suite { project: p, suite: s }), Some(Parent::Suite { project: q, suite: t })) => {
            str_eq(p.as_str(), q.as_str()) && str_eq(s.as_str(), t.as_str())
        },
        _ => false,
    }
}

fn copy_parent(p: Option<&Parent>) -> (r: Option<Parent>)
    ensures
        parent_model(r) == opt_parent(p),
{
    match p {
        Some(x) => Some(x.duplicate()),
        None => None,
    }
}

impl Repository {
    /// Whether no two documents share an address.
    pub closed spec fn wf(&self) -> bool {
        distinct_addresses(self@)
    }

    /// A well-formed store files no two documents at one address.
    pub proof fn lemma_wf_distinct(&self)
        requires
            self.wf(),
        ensures
            distinct_addresses(self@),
    {
    }

    /// The files stored against cases and their steps.
    pub closed spec fn files(&self) -> Seq<FileModel> {
        self.files@.map_values(|f: StoredFile| f@)
    }

    /// An empty store.
    pub fn new() -> (r: Self)
        ensures
            r.wf(),
            r@ == Seq::<EntryModel>::empty(),
            r.files() == Seq::<FileModel>::empty(),
    {
        let r = Repository { entries: Vec::new(), files: Vec::new() };
        assert(r@ =~= Seq::<EntryModel>::empty());
        assert(r.files() =~= Seq::<FileModel>::empty());
        r
    }

    fn position(&self, resource: Resource, parent: Option<&Parent>, id: &str) -> (r: Option<usize>)
        ensures
            match r {
                Some(i) => index_at(self@, resource, opt_parent(parent), id@) == i as int
                    && i < self@.len(),
                None => index_at(self@, resource, opt_parent(parent), id@) == -1,
            },
    {
        let ghost p = opt_parent(parent);
        let ghost f = |e: EntryModel| filed_at(e, resource, p, id@);
        let mut i: usize = 0;
        while i < self.entries.len()
            invariant
                i <= self.entries.len(),
                f == (|e: EntryModel| filed_at(e, resource, p, id@)),
                p == opt_parent(parent),
                forall|k: int| 0 <= k < i ==> !f(#[trigger] self@[k]),
            decreases self.entries.len() - i,
        {
            let e = &self.entries[i];
            assert(self@[i as int] == e@);
            if e.resource == resource && same_parent(parent, &e.parent) && str_eq(e.id.as_str(), id) {
                proof { crate::seqs::lemma_first_where(self@, f, i as int); }
                return Some(i);
            }
            i = i + 1;
        }
        proof { crate::seqs::lemma_first_where(self@, f, i as int); }
        None
    }

    /// Whether a document is filed at the address.
    pub fn exists_at(&self, resource: Resource, parent: Option<&Parent>, id: &str) -> (r: bool)
        ensures
            r == (stored_at(self@, resource, opt_parent(parent), id@) is Some),
    {
        let found = self.position(resource, parent, id);
        found.is_some()
    }

    /// The document filed at the address.
    pub fn read_at(&self, resource: Resource, parent: Option<&Parent>, id: &str) -> (r: Result<JsonValue, StorageError>)
        ensures
            match r {
                Ok(d) => stored_at(self@, resource, opt_parent(parent), id@) == Some(d@),
                Err(e) => e == StorageError::NotFound && stored_at(self@, resource, opt_parent(parent), id@)
                    is None,
            },
    {
        match self.position(resource, parent, id) {
            Some(i) => {
                assert(self@[i as int] == self.entries@[i as int]@);
                Ok(json_clone(&self.entries[i].document))
            },
            None => Err(StorageError::NotFound),
        }
    }

    /// Files `document` at the address, replacing what was filed there.
    pub fn write_at(&mut self, resource: Resource, parent: Option<&Parent>, id: &str, document: JsonValue)
        requires
            old(self).wf(),
        ensures
            final(self).wf(),
            final(self)@ == written(old(self)@, resource, opt_parent(parent), id@, document@),
            final(self).files() == old(self).files(),
    {
        let ghost a = opt_parent(parent);
        let ghost before = self@;
        let entry = Entry { resource, parent: copy_parent(parent), id: id.to_owned(), document };
        let ghost e = entry@;
        match self.position(resource, parent, id) {
            Some(i) => {
                self.entries.set(i, entry);
                proof {
                    assert(self@ =~= before.update(i as int, e));
                    crate::seqs::lemma_first_where_facts(before, |x: EntryModel| filed_at(x, resource, a, id@));
                    assert forall|j: int, k: int| 0 <= j < k < self@.len() implies !filed_at(
                        #[trigger] self@[k],
                        self@[j].resource,
                        self@[j].parent,
                        (#[trigger] self@[j]).id,
                    ) by {
                        if j == i {
                            assert(filed_at(before[i as int], resource, a, id@));
                        } else if k == i {
                            assert(filed_at(before[i as int], resource, a, id@));
                        }
                    }
                }
            },
            None => {
                self.entries.push(entry);
                proof {
                    assert(self@ =~= before.push(e));
                    crate::seqs::lemma_first_where_facts(before, |x: EntryModel| filed_at(x, resource, a, id@));
                    assert forall|j: int, k: int| 0 <= j < k < self@.len() implies !filed_at(
                        #[trigger] self@[k],
                        self@[j].resource,
                        self@[j].parent,
                        (#[trigger] self@[j]).id,
                    ) by {
                        if k == before.len() {
                            assert(!filed_at(before[j], resource, a, id@));
                        }
                    }
                }
            },
        }
    }

    /// Removes the document at the address and, for a project or a suite,
    /// everything filed inside it.
    pub fn delete_at(&mut self, resource: Resource, parent: Option<&Parent>, id: &str) -> (r: Result<(), StorageError>)
        requires
            old(self).wf(),
        ensures
            final(self).wf(),
            final(self).files() == old(self).files(),
            match r {
                Ok(()) => stored_at(old(self)@, resource, opt_parent(parent), id@) is Some
                    && final(self)@ == removed(old(self)@, resource, opt_parent(parent), id@),
                Err(e) => e == StorageError::NotFound && stored_at(old(self)@, resource, opt_parent(parent), id@)
                    is None && final(self)@ == old(self)@,
            },
    {
        let ghost a = opt_parent(parent);
        if self.position(resource, parent, id).is_none() {
            return Err(StorageError::NotFound);
        }
        let ghost before = self@;
        let ghost keep = |e: EntryModel| !removed_with(e, resource, a, id@);
        let mut rest: Vec<Entry> = Vec::new();
        std::mem::swap(&mut rest, &mut self.entries);
        let ghost original = rest@;
        assert(original.map_values(|e: Entry| e@) == before);
        let mut kept: Vec<Entry> = Vec::new();
        let mut i: usize = 0;
        while i < rest.len()
            invariant
                i <= rest.len(),
                rest@ == original,
                before == original.map_values(|e: Entry| e@),
                keep == (|e: EntryModel| !removed_with(e, resource, a, id@)),
                a == opt_parent(parent),
                kept@.map_values(|e: Entry| e@) == before.take(i as int).filter(keep),
            decreases rest.len() - i,
        {
            let e = &rest[i];
            proof {
                crate::seqs::lemma_filter_take(before, keep, i as int);
                assert(before[i as int] == e@);
            }
            let doomed = (e.resource == resource && same_parent(parent, &e.parent) && str_eq(e.id.as_str(), id))
                || (resource == Resource::Projects && parent.is_none() && match &e.parent {
                Some(p) => str_eq(p.project().as_str(), id),
                None => false,
            }) || (resource == Resource::Suites && match (parent, &e.parent) {
                (Some(Parent::Project(project)), Some(Parent::Suite { project: q, suite: s })) => str_eq(
                    q.as_str(),
                    project.as_str(),
                ) && str_eq(s.as_str(), id),
                _ => false,
            });
            if !doomed {
                let copy = Entry {
                    resource: e.resource,
                    parent: copy_parent(e.parent.as_ref()),
                    id: e.id.clone(),
                    document: json_clone(&e.document),
                };
                let ghost old_kept = kept@.map_values(|x: Entry| x@);
                kept.push(copy);
                assert(kept@.map_values(|x: Entry| x@) =~= old_kept.push(before[i as int]));
            }
            i = i + 1;
        }
        proof {
            assert(before.take(i as int) =~= before);
        }
        self.entries = kept;
        proof {
            let after = self@;
            assert(after == before.filter(keep));
            assert forall|j: int, k: int| 0 <= j < k < after.len() implies !filed_at(
                #[trigger] after[k],
                after[j].resource,
                after[j].parent,
                (#[trigger] after[j]).id,
            ) by {
                lemma_filter_distinct(before, keep, j, k);
            }
        }
        Ok(())
    }

    /// Copies of the documents filed directly inside `parent`, in order.
    fn owned_by(&self, parent: &Parent) -> (r: Vec<Entry>)
        ensures
            r@.map_values(|e: Entry| e@) == self@.filter(|e: EntryModel| inside(e, parent@)),
    {
        let ghost f = |e: EntryModel| inside(e, parent@);
        let mut out: Vec<Entry> = Vec::new();
        let mut i: usize = 0;
        while i < self.entries.len()
            invariant
                i <= self.entries.len(),
                f == (|e: EntryModel| inside(e, parent@)),
                out@.map_values(|e: Entry| e@) == self@.take(i as int).filter(f),
            decreases self.entries.len() - i,
        {
            let e = &self.entries[i];
            proof {
                crate::seqs::lemma_filter_take(self@, f, i as int);
                assert(self@[i as int] == e@);
            }
            if same_parent(Some(parent), &e.parent) {
                let copy = Entry {
                    resource: e.resource,
                    parent: copy_parent(e.parent.as_ref()),
                    id: e.id.clone(),
                    document: json_clone(&e.document),
                };
                let ghost before = out@.map_values(|x: Entry| x@);
                out.push(copy);
                assert(out@.map_values(|x: Entry| x@) =~= before.push(self@[i as int]));
            }
            i = i + 1;
        }
        assert(self@.take(i as int) =~= self@);
        out
    }

    /// Files the `resource` document `id` of `source` in `target` as well:
    /// a copy leaves the source in place, a move removes it with what it owns,
    /// and a suite brings along what is filed inside it.
    pub fn place(&mut self, resource: Resource, source: &Parent, id: &str, target: &Parent, mode: Placement) -> (r: Result<
        (),
        StorageError,
    >)
        requires
            old(self).wf(),
        ensures
            final(self).wf(),
            final(self).files() == old(self).files(),
            match r {
                Ok(()) => stored_at(old(self)@, resource, Some(source@), id@) is Some
                    && stored_at(old(self)@, resource, Some(target@), id@) is None
                    && final(self)@ == placed(
                        old(self)@,
                        resource,
                        source@,
                        id@,
                        target@,
                        mode,
                        stored_at(old(self)@, resource, Some(source@), id@)->0,
                    ),
                Err(e) => final(self)@ == old(self)@ && (e == StorageError::NotFound && stored_at(
                    old(self)@,
                    resource,
                    Some(source@),
                    id@,
                ) is None || e == StorageError::AlreadyExists && stored_at(old(self)@, resource, Some(source@), id@)
                    is Some && stored_at(old(self)@, resource, Some(target@), id@) is Some),
            },
    {
        let ghost s = self@;
        let ghost fs = self.files();
        let document = match self.read_at(resource, Some(source), id) {
            Ok(d) => d,
            Err(_) => return Err(StorageError::NotFound),
        };
        if self.exists_at(resource, Some(target), id) {
            return Err(StorageError::AlreadyExists);
        }
        let ghost doc = document@;
        let suite_home = Parent::Suite { project: source.project().clone(), suite: id.to_owned() };
        let owned = if resource == Resource::Suites {
            self.owned_by(&suite_home)
        } else {
            Vec::new()
        };
        if mode == Placement::Move {
            let gone = self.delete_at(resource, Some(source), id);
            assert(gone is Ok);
        }
        self.write_at(resource, Some(target), id, document);
        if resource == Resource::Suites {
            let ghost w = self@;
            let ghost copies = s.filter(|e: EntryModel| inside(e, ParentModel::Suite(source@.project(), id@))).map_values(
                |e: EntryModel| refiled(e, target@.project(), id@),
            );
            let new_home = Parent::Suite { project: target.project().clone(), suite: id.to_owned() };
            let mut k: usize = 0;
            assert(copies.take(0) =~= Seq::<EntryModel>::empty());
            while k < owned.len()
                invariant
                    k <= owned.len(),
                    self.wf(),
                    owned@.map_values(|e: Entry| e@).len() == copies.len(),
                    forall|j: int| 0 <= j < copies.len() ==> #[trigger] copies[j] == refiled(owned@[j]@, target@.project(), id@),
                    new_home@ == ParentModel::Suite(target@.project(), id@),
                    self@ == write_all(w, copies.take(k as int)),
                    self.files() == fs,
                decreases owned.len() - k,
            {
                let e = &owned[k];
                let ghost before = copies.take(k as int);
                self.write_at(e.resource, Some(&new_home), e.id.as_str(), json_clone(&e.document));
                assert(copies.take(k + 1).drop_last() =~= before);
                assert(copies.take(k + 1).last() == copies[k as int]);
                k = k + 1;
            }
            assert(copies.take(k as int) =~= copies);
        }
        Ok(())
    }

    fn file_position(&self, parent: &Parent, case: &str, step: Option<usize>, filename: &str) -> (r: Option<usize>)
        ensures
            match r {
                Some(i) => crate::seqs::first_where(
                    self.files(),
                    |f: FileModel| file_named(f, parent@, case@, step, filename@),
                ) == i as int && i < self.files().len(),
                None => crate::seqs::first_where(
                    self.files(),
                    |f: FileModel| file_named(f, parent@, case@, step, filename@),
                ) == -1,
            },
    {
        let ghost g = |f: FileModel| file_named(f, parent@, case@, step, filename@);
        let mut i: usize = 0;
        while i < self.files.len()
            invariant
                i <= self.files.len(),
                g == (|f: FileModel| file_named(f, parent@, case@, step, filename@)),
                forall|k: int| 0 <= k < i ==> !g(#[trigger] self.files()[k]),
            decreases self.files.len() - i,
        {
            let f = &self.files[i];
            assert(self.files()[i as int] == f@);
            if same_parent(Some(parent), &Some(f.parent.duplicate())) && str_eq(f.case.as_str(), case) && f.step == step
                && str_eq(f.filename.as_str(), filename) {
                proof { crate::seqs::lemma_first_where(self.files(), g, i as int); }
                return Some(i);
            }
            i = i + 1;
        }
        proof { crate::seqs::lemma_first_where(self.files(), g, i as int); }
        None
    }

    /// Stores `contents` as file `filename` of case `case` in `parent`, on the
    /// case or on step `step`, and records `entry` as its metadata there.
    pub fn attach_file(
        &mut self,
        parent: &Parent,
        case: &str,
        step: Option<usize>,
        filename: &str,
        entry: JsonValue,
        contents: &[u8],
    ) -> (r: Result<(), StorageError>)
        requires
            old(self).wf(),
        ensures
            final(self).wf(),
            match r {
                Ok(()) => stored_at(old(self)@, Resource::Cases, Some(parent@), case@) matches Some(d) && can_record(d, step)
                    && file_at(old(self).files(), parent@, case@, step, filename@) is None && final(self)@ == written(
                    old(self)@,
                    Resource::Cases,
                    Some(parent@),
                    case@,
                    attached(d, step, entry@),
                ) && final(self).files() == old(self).files().push(
                    FileModel { parent: parent@, case: case@, step, filename: filename@, contents: contents@ },
                ),
                Err(e) => final(self)@ == old(self)@ && final(self).files() == old(self).files() && match stored_at(
                    old(self)@,
                    Resource::Cases,
                    Some(parent@),
                    case@,
                ) {
                    None => e == StorageError::NotFound,
                    Some(d) => if !can_record(d, step) {
                        e == StorageError::InvalidInput
                    } else {
                        e == StorageError::AlreadyExists && file_at(old(self).files(), parent@, case@, step, filename@)
                            is Some
                    },
                },
            },
    {
        let mut document = match self.read_at(Resource::Cases, Some(parent), case) {
            Ok(d) => d,
            Err(_) => {
                return Err(StorageError::NotFound);
            },
        };
        let recordable = match step {
            None => true,
            Some(i) => match step_at(&document, i) {
                Some(s) => s.is_object(),
                None => false,
            },
        };
        if !recordable {
            return Err(StorageError::InvalidInput);
        }
        if self.file_position(parent, case, step, filename).is_some() {
            return Err(StorageError::AlreadyExists);
        }
        record_attachment_at(&mut document, step, entry);
        self.write_at(Resource::Cases, Some(parent), case, document);
        let file = StoredFile {
            parent: parent.duplicate(),
            case: case.to_owned(),
            step,
            filename: filename.to_owned(),
            contents: vstd::slice::slice_to_vec(contents),
        };
        let ghost before = self.files();
        let ghost f = file@;
        self.files.push(file);
        assert(self.files() =~= before.push(f));
        Ok(())
    }

    /// The contents of file `filename` of case `case` in `parent`, on the case
    /// or on step `step`.
    pub fn read_file(&self, parent: &Parent, case: &str, step: Option<usize>, filename: &str) -> (r: Result<
        Vec<u8>,
        StorageError,
    >)
        ensures
            match r {
                Ok(b) => stored_at(self@, Resource::Cases, Some(parent@), case@) is Some && file_at(
                    self.files(),
                    parent@,
                    case@,
                    step,
                    filename@,
                ) == Some(b@),
                Err(e) => e == StorageError::NotFound && (stored_at(self@, Resource::Cases, Some(parent@), case@) is None
                    || file_at(self.files(), parent@, case@, step, filename@) is None),
            },
    {
        if !self.exists_at(Resource::Cases, Some(parent), case) {
            return Err(StorageError::NotFound);
        }
        match self.file_position(parent, case, step, filename) {
            Some(i) => {
                assert(self.files()[i as int] == self.files@[i as int]@);
                Ok(self.files[i].contents.clone())
            },
            None => Err(StorageError::NotFound),
        }
    }

    /// Removes file `filename` of case `case` in `parent`, on the case or on
    /// step `step`, with the metadata recorded for it there.
    pub fn detach_file(&mut self, parent: &Parent, case: &str, step: Option<usize>, filename: &str) -> (r: Result<
        (),
        StorageError,
    >)
        requires
            old(self).wf(),
        ensures
            final(self).wf(),
            match r {
                Ok(()) => stored_at(old(self)@, Resource::Cases, Some(parent@), case@) matches Some(d) && file_at(
                    old(self).files(),
                    parent@,
                    case@,
                    step,
                    filename@,
                ) is Some && final(self)@ == written(
                    old(self)@,
                    Resource::Cases,
                    Some(parent@),
                    case@,
                    detached(d, step, filename@),
                ) && final(self).files() == old(self).files().filter(
                    |f: FileModel| !file_named(f, parent@, case@, step, filename@),
                ),
                Err(e) => e == StorageError::NotFound && final(self)@ == old(self)@ && final(self).files() == old(self).files() && (stored_at(old(self)@, Resource::Cases, Some(parent@), case@) is None || file_at(
                    old(self).files(),
                    parent@,
                    case@,
                    step,
                    filename@,
                ) is None),
            },
    {
        let mut document = match self.read_at(Resource::Cases, Some(parent), case) {
            Ok(d) => d,
            Err(_) => {
                return Err(StorageError::NotFound);
            },
        };
        if self.file_position(parent, case, step, filename).is_none() {
            return Err(StorageError::NotFound);
        }
        drop_attachment_at(&mut document, step, filename);
        self.write_at(Resource::Cases, Some(parent), case, document);
        let ghost before = self.files();
        let ghost keep = |f: FileModel| !file_named(f, parent@, case@, step, filename@);
        let mut rest: Vec<StoredFile> = Vec::new();
        std::mem::swap(&mut rest, &mut self.files);
        let ghost original = rest@;
        assert(original.map_values(|f: StoredFile| f@) == before);
        let mut kept: Vec<StoredFile> = Vec::new();
        let mut i: usize = 0;
        while i < rest.len()
            invariant
                i <= rest.len(),
                rest@ == original,
                before == original.map_values(|f: StoredFile| f@),
                keep == (|f: FileModel| !file_named(f, parent@, case@, step, filename@)),
                kept@.map_values(|f: StoredFile| f@) == before.take(i as int).filter(keep),
            decreases rest.len() - i,
        {
            let f = &rest[i];
            proof {
                crate::seqs::lemma_filter_take(before, keep, i as int);
                assert(before[i as int] == f@);
            }
            let named = same_parent(Some(parent), &Some(f.parent.duplicate())) && str_eq(f.case.as_str(), case)
                && f.step == step && str_eq(f.filename.as_str(), filename);
            if !named {
                let copy = StoredFile {
                    parent: f.parent.duplicate(),
                    case: f.case.clone(),
                    step: f.step,
                    filename: f.filename.clone(),
                    contents: f.contents.clone(),
                };
                let ghost old_kept = kept@.map_values(|x: StoredFile| x@);
                kept.push(copy);
                assert(kept@.map_values(|x: StoredFile| x@) =~= old_kept.push(before[i as int]));
            }
            i = i + 1;
        }
        assert(before.take(i as int) =~= before);
        self.files = kept;
        Ok(())
    }

    /// The identifiers filed in `resource`, in order and each once, whichever
    /// parents hold them.
    pub fn list(&self, resource: Resource) -> (r: Vec<String>)
        ensures
            strictly_sorted(texts_of(r@)),
            texts_of(r@).to_set() == ids_in(self@, resource),
    {
        let mut out: Vec<String> = Vec::new();
        let mut i: usize = 0;
        while i < self.entries.len()
            invariant
                i <= self.entries.len(),
                strictly_sorted(texts_of(out@)),
                texts_of(out@).to_set() == ids_in(self@.take(i as int), resource),
            decreases self.entries.len() - i,
        {
            let e = &self.entries[i];
            let ghost prefix = self@.take(i as int);
            let ghost next = self@.take(i + 1);
            assert(self@[i as int] == e@);
            if e.resource == resource {
                insert_sorted(&mut out, e.id.clone());
                assert(ids_in(next, resource) =~= ids_in(prefix, resource).insert(e.id@)) by {
                    assert(next[i as int] == e@);
                    assert forall|t: Seq<char>| ids_in(next, resource).contains(t) implies ids_in(prefix, resource).insert(e.id@).contains(t) by {
                        let k = choose|k: int| 0 <= k < next.len() && next[k].resource == resource && (#[trigger] next[k]).id == t;
                        if k < i {
                            assert(prefix[k] == next[k]);
                        }
                    }
                    assert forall|t: Seq<char>| ids_in(prefix, resource).insert(e.id@).contains(t) implies ids_in(next, resource).contains(t) by {
                        if t != e.id@ {
                            let k = choose|k: int| 0 <= k < prefix.len() && prefix[k].resource == resource && (#[trigger] prefix[k]).id == t;
                            assert(next[k] == prefix[k]);
                        }
                    }
                }
            } else {
                assert(ids_in(next, resource) =~= ids_in(prefix, resource)) by {
                    assert forall|t: Seq<char>| ids_in(next, resource).contains(t) implies ids_in(prefix, resource).contains(t) by {
                        let k = choose|k: int| 0 <= k < next.len() && next[k].resource == resource && (#[trigger] next[k]).id == t;
                        assert(k != i);
                        assert(prefix[k] == next[k]);
                    }
                    assert forall|t: Seq<char>| ids_in(prefix, resource).contains(t) implies ids_in(next, resource).contains(t) by {
                        let k = choose|k: int| 0 <= k < prefix.len() && prefix[k].resource == resource && (#[trigger] prefix[k]).id == t;
                        assert(next[k] == prefix[k]);
                    }
                }
            }
            i = i + 1;
        }
        assert(self@.take(i as int) =~= self@);
        out
    }

    /// The identifiers of the `child` documents `parent` owns, in order.
    pub fn list_children(&self, parent: &Parent, child: Resource) -> (r: Vec<String>)
        ensures
            strictly_sorted(texts_of(r@)),
            texts_of(r@).to_set() == children_of(self@, parent@, child),
    {
        let mut out: Vec<String> = Vec::new();
        let mut i: usize = 0;
        while i < self.entries.len()
            invariant
                i <= self.entries.len(),
                strictly_sorted(texts_of(out@)),
                texts_of(out@).to_set() == children_of(self@.take(i as int), parent@, child),
            decreases self.entries.len() - i,
        {
            let e = &self.entries[i];
            let ghost prefix = self@.take(i as int);
            let ghost next = self@.take(i + 1);
            assert(self@[i as int] == e@);
            if e.resource == child && same_parent(Some(parent), &e.parent) {
                insert_sorted(&mut out, e.id.clone());
                assert(children_of(next, parent@, child) =~= children_of(prefix, parent@, child).insert(e.id@)) by {
                    assert(next[i as int] == e@);
                    assert forall|t: Seq<char>| children_of(next, parent@, child).contains(t) implies children_of(prefix, parent@, child).insert(e.id@).contains(t) by {
                        let k = choose|k: int| 0 <= k < next.len() && next[k].resource == child && next[k].parent == Some(parent@) && (#[trigger] next[k]).id == t;
                        if k < i {
                            assert(prefix[k] == next[k]);
                        }
                    }
                    assert forall|t: Seq<char>| children_of(prefix, parent@, child).insert(e.id@).contains(t) implies children_of(next, parent@, child).contains(t) by {
                        if t != e.id@ {
                            let k = choose|k: int| 0 <= k < prefix.len() && prefix[k].resource == child && prefix[k].parent == Some(parent@) && (#[trigger] prefix[k]).id == t;
                            assert(next[k] == prefix[k]);
                        }
                    }
                }
            } else {
                assert(children_of(next, parent@, child) =~= children_of(prefix, parent@, child)) by {
                    assert forall|t: Seq<char>| children_of(next, parent@, child).contains(t) implies children_of(prefix, parent@, child).contains(t) by {
                        let k = choose|k: int| 0 <= k < next.len() && next[k].resource == child && next[k].parent == Some(parent@) && (#[trigger] next[k]).id == t;
                        assert(k != i);
                        assert(prefix[k] == next[k]);
                    }
                    assert forall|t: Seq<char>| children_of(prefix, parent@, child).contains(t) implies children_of(next, parent@, child).contains(t) by {
                        let k = choose|k: int| 0 <= k < prefix.len() && prefix[k].resource == child && prefix[k].parent == Some(parent@) && (#[trigger] prefix[k]).id == t;
                        assert(next[k] == prefix[k]);
                    }
                }
            }
            i = i + 1;
        }
        assert(self@.take(i as int) =~= self@);
        out
    }

    /// The parents holding a `resource` document named `id`, in filing order.
    pub fn locate(&self, resource: Resource, id: &str) -> (r: Vec<Parent>)
        ensures
            r@.map_values(|p: Parent| p@) == homes_of(self@, resource, id@),
    {
        let mut out: Vec<Parent> = Vec::new();
        let mut i: usize = 0;
        while i < self.entries.len()
            invariant
                i <= self.entries.len(),
                out@.map_values(|p: Parent| p@) == homes_of(self@.take(i as int), resource, id@),
            decreases self.entries.len() - i,
        {
            let e = &self.entries[i];
            let ghost prefix = self@.take(i as int);
            let ghost next = self@.take(i + 1);
            assert(next.drop_last() =~= prefix);
            assert(next.last() == e@);
            let ghost before = out@.map_values(|p: Parent| p@);
            if e.resource == resource && str_eq(e.id.as_str(), id) {
                match &e.parent {
                    Some(p) => {
                        out.push(p.duplicate());
                        assert(out@.map_values(|p: Parent| p@) =~= before + seq![p@]);
                    },
                    None => {
                        assert(before + Seq::<ParentModel>::empty() =~= before);
                    },
                }
            } else {
                assert(before + Seq::<ParentModel>::empty() =~= before);
            }
            i = i + 1;
        }
        assert(self@.take(i as int) =~= self@);
        out
    }
}

proof fn lemma_filter_distinct(s: Seq<EntryModel>, keep: spec_fn(EntryModel) -> bool, j: int, k: int)
    requires
        distinct_addresses(s),
        0 <= j < k < s.filter(keep).len(),
    ensures
        !filed_at(s.filter(keep)[k], s.filter(keep)[j].resource, s.filter(keep)[j].parent, s.filter(keep)[j].id),
    decreases s.len(),
{
    reveal_with_fuel(Seq::filter, 1);
    if s.len() > 0 {
        let init = s.drop_last();
        assert(distinct_addresses(init)) by {
            assert forall|a: int, b: int| 0 <= a < b < init.len() implies !filed_at(
                #[trigger] init[b],
                init[a].resource,
                init[a].parent,
                (#[trigger] init[a]).id,
            ) by {
                assert(init[a] == s[a] && init[b] == s[b]);
            }
        }
        let f = s.filter(keep);
        let g = init.filter(keep);
        if keep(s.last()) {
            assert(f == g.push(s.last()));
            if k < g.len() {
                lemma_filter_distinct(init, keep, j, k);
            } else {
                assert(g.contains(g[j]));
                init.lemma_filter_contains_rev(keep, g[j]);
                let m = choose|m: int| 0 <= m < init.len() && init[m] == g[j];
                assert(s[m] == g[j]);
                assert(!filed_at(s[s.len() - 1], s[m].resource, s[m].parent, s[m].id));
            }
        } else {
            assert(f == g);
            lemma_filter_distinct(init, keep, j, k);
        }
    }
}


/// A read gives back what the last write to the same address filed.
pub proof fn lemma_read_after_write(
    s: Seq<EntryModel>,
    resource: Resource,
    parent: Option<ParentModel>,
    id: Seq<char>,
    document: Json,
)
    requires
        distinct_addresses(s),
    ensures
        stored_at(written(s, resource, parent, id, document), resource, parent, id) == Some(document),
        distinct_addresses(written(s, resource, parent, id, document)),
{
    let f = |e: EntryModel| filed_at(e, resource, parent, id);
    let w = written(s, resource, parent, id, document);
    crate::seqs::lemma_first_where_facts(s, f);
    let i = index_at(s, resource, parent, id);
    if i >= 0 {
        assert forall|k: int| 0 <= k < i implies !f(#[trigger] w[k]) by {
            assert(w[k] == s[k]);
        }
        crate::seqs::lemma_first_where(w, f, i);
    } else {
        assert forall|k: int| 0 <= k < s.len() implies !f(#[trigger] w[k]) by {
            assert(w[k] == s[k]);
        }
        crate::seqs::lemma_first_where(w, f, s.len() as int);
    }
    assert forall|j: int, k: int| 0 <= j < k < w.len() implies !filed_at(
        #[trigger] w[k],
        w[j].resource,
        w[j].parent,
        (#[trigger] w[j]).id,
    ) by {
        if i >= 0 {
            if j == i {
                assert(f(s[i]));
            } else if k == i {
                assert(f(s[i]));
            }
        } else if k == s.len() {
            assert(!f(s[j]));
        }
    }
}

/// A write leaves every other address as it was.
pub proof fn lemma_write_elsewhere(
    s: Seq<EntryModel>,
    resource: Resource,
    parent: Option<ParentModel>,
    id: Seq<char>,
    document: Json,
    other: Resource,
    other_parent: Option<ParentModel>,
    other_id: Seq<char>,
)
    requires
        distinct_addresses(s),
        !(other == resource && other_parent == parent && other_id == id),
    ensures
        stored_at(written(s, resource, parent, id, document), other, other_parent, other_id) == stored_at(
            s,
            other,
            other_parent,
            other_id,
        ),
{
    let g = |e: EntryModel| filed_at(e, other, other_parent, other_id);
    let w = written(s, resource, parent, id, document);
    crate::seqs::lemma_first_where_facts(s, g);
    crate::seqs::lemma_first_where_facts(s, |e: EntryModel| filed_at(e, resource, parent, id));
    let i = index_at(s, resource, parent, id);
    let j = index_at(s, other, other_parent, other_id);
    assert(!g(EntryModel { resource, parent, id, document }));
    if j >= 0 {
        assert forall|k: int| 0 <= k < j implies !g(#[trigger] w[k]) by {
            if k != i {
                assert(w[k] == s[k]);
            }
        }
        assert(j != i);
        assert(w[j] == s[j]);
        crate::seqs::lemma_first_where(w, g, j);
    } else {
        assert forall|k: int| 0 <= k < w.len() implies !g(#[trigger] w[k]) by {
            if k < s.len() && k != i {
                assert(w[k] == s[k]);
            }
        }
        crate::seqs::lemma_first_where(w, g, w.len() as int);
    }
}

/// Removing a project leaves nothing filed in it: neither the project, nor a
/// document inside it or inside one of its suites.
pub proof fn lemma_project_removal_cascades(s: Seq<EntryModel>, id: Seq<char>, e: EntryModel)
    requires
        removed(s, Resource::Projects, None, id).contains(e),
    ensures
        !filed_at(e, Resource::Projects, None, id),
        e.parent matches Some(p) ==> p.project() != id,
{
    let keep = |x: EntryModel| !removed_with(x, Resource::Projects, None, id);
    broadcast use vstd::seq_lib::group_filter_ensures;
    let k = choose|k: int| 0 <= k < s.filter(keep).len() && s.filter(keep)[k] == e;
    assert(keep(s.filter(keep)[k]));
}

/// Nothing stays filed at an address whose document was removed.
pub proof fn lemma_removed_is_gone(s: Seq<EntryModel>, resource: Resource, parent: Option<ParentModel>, id: Seq<char>)
    requires
        distinct_addresses(s),
    ensures
        stored_at(removed(s, resource, parent, id), resource, parent, id) is None,
        distinct_addresses(removed(s, resource, parent, id)),
{
    let keep = |e: EntryModel| !removed_with(e, resource, parent, id);
    let r = removed(s, resource, parent, id);
    broadcast use vstd::seq_lib::group_filter_ensures;
    assert forall|k: int| 0 <= k < r.len() implies !filed_at(#[trigger] r[k], resource, parent, id) by {
        assert(keep(r[k]));
    }
    crate::seqs::lemma_first_where(r, |e: EntryModel| filed_at(e, resource, parent, id), r.len() as int);
    assert forall|j: int, k: int| 0 <= j < k < r.len() implies !filed_at(
        #[trigger] r[k],
        r[j].resource,
        r[j].parent,
        (#[trigger] r[j]).id,
    ) by {
        lemma_filter_distinct(s, keep, j, k);
    }
}

/// Placing a case files its document in the target; a copy leaves the
/// source in place and a move leaves the target as its one home of the two.
pub proof fn lemma_place_case(
    s: Seq<EntryModel>,
    source: ParentModel,
    id: Seq<char>,
    target: ParentModel,
    mode: Placement,
    document: Json,
)
    requires
        distinct_addresses(s),
        stored_at(s, Resource::Cases, Some(source), id) == Some(document),
        stored_at(s, Resource::Cases, Some(target), id) is None,
    ensures
        stored_at(placed(s, Resource::Cases, source, id, target, mode, document), Resource::Cases, Some(target), id)
            == Some(document),
        stored_at(placed(s, Resource::Cases, source, id, target, mode, document), Resource::Cases, Some(source), id)
            == if mode == Placement::Copy { Some(document) } else { None },
{
    let base = if mode == Placement::Move { removed(s, Resource::Cases, Some(source), id) } else { s };
    if mode == Placement::Move {
        lemma_removed_is_gone(s, Resource::Cases, Some(source), id);
    }
    assert(source != target);
    lemma_read_after_write(base, Resource::Cases, Some(target), id, document);
    lemma_write_elsewhere(base, Resource::Cases, Some(target), id, document, Resource::Cases, Some(source), id);
}

/// Removing a suite leaves nothing filed in it: neither the suite, nor a
/// document inside it.
pub proof fn lemma_suite_removal_cascades(s: Seq<EntryModel>, project: Seq<char>, id: Seq<char>, e: EntryModel)
    requires
        removed(s, Resource::Suites, Some(ParentModel::Project(project)), id).contains(e),
    ensures
        !filed_at(e, Resource::Suites, Some(ParentModel::Project(project)), id),
        e.parent != Some(ParentModel::Suite(project, id)),
{
    let keep = |x: EntryModel| !removed_with(x, Resource::Suites, Some(ParentModel::Project(project)), id);
    broadcast use vstd::seq_lib::group_filter_ensures;
    let k = choose|k: int| 0 <= k < s.filter(keep).len() && s.filter(keep)[k] == e;
    assert(keep(s.filter(keep)[k]));
}

} // verus!
