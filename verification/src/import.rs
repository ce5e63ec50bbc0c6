//! Report import: the mapping from a JUnit XML report or a JSON results array
//! to run results.
//!
//! A JUnit document is a tree of `<testsuite>` elements holding `<testcase>`
//! elements at whatever depth their author chose; a testcase that cannot be
//! named is counted rather than rejected. A JSON body is written by a caller of
//! this API, so anything it gets wrong fails the whole request.

use vstd::prelude::*;

use crate::error::{DomainError, ErrorModel, invalid_import_status_model, invalid_request_model};
use crate::json::{Json, JsonValue};
use crate::text::{concat, decimal, push_decimal, push_str, str_eq};
use vstd::string::StringSliceAdditionalSpecFns;

verus! {

/// The deepest element nesting a JUnit document may use.
pub const MAX_ELEMENT_DEPTH: usize = 100;

/// Whether `pat` occurs in `b` at `i`.
pub open spec fn starts_at(b: Seq<u8>, i: int, pat: Seq<u8>) -> bool {
    0 <= i && i + pat.len() <= b.len() && b.subrange(i, i + pat.len()) == pat
}

/// The position just past the first `pat` at or after `from`, or the end of
/// `b` when there is none.
pub open spec fn skip_to(b: Seq<u8>, from: int, pat: Seq<u8>) -> int
    decreases b.len() - from,
{
    if from >= b.len() {
        b.len() as int
    } else if starts_at(b, from, pat) {
        from + pat.len()
    } else {
        skip_to(b, from + 1, pat)
    }
}

/// Walks a tag from `cursor` to the `>` that ends it, skipping quoted
/// attribute values: whether the tag closes itself with `/>`, and the
/// position just past it (the end of `b` when it never ends).
pub open spec fn scan_from(b: Seq<u8>, cursor: int, prev: Option<u8>, quote: Option<u8>) -> (bool, int)
    decreases b.len() - cursor,
{
    if cursor < 0 || cursor >= b.len() {
        (false, b.len() as int)
    } else {
        match quote {
            Some(q) => if b[cursor] == q {
                scan_from(b, cursor + 1, prev, None)
            } else {
                scan_from(b, cursor + 1, prev, Some(q))
            },
            None => if b[cursor] == 62u8 {
                (prev == Some(47u8), cursor + 1)
            } else if b[cursor] == 34u8 || b[cursor] == 39u8 {
                scan_from(b, cursor + 1, Some(b[cursor]), Some(b[cursor]))
            } else {
                scan_from(b, cursor + 1, Some(b[cursor]), None)
            },
        }
    }
}

/// Whether the bytes from `index` on, entered at `depth`, nest elements deeper
/// than the bound: a start tag is one level deeper, a close tag one level
/// shallower, and a comment, CDATA section or processing instruction is
/// skipped whole.
pub open spec fn too_deep_from(b: Seq<u8>, index: int, depth: nat) -> bool
    decreases b.len() - index,
{
    if index < 0 || index >= b.len() {
        false
    } else if b[index] != 60u8 {
        too_deep_from(b, index + 1, depth)
    } else if starts_at(b, index, seq![60u8, 33u8, 45u8, 45u8]) {
        too_deep_from(b, advance(skip_to(b, index + 4, seq![45u8, 45u8, 62u8]), index, b.len() as int), depth)
    } else if starts_at(b, index, seq![60u8, 33u8, 91u8, 67u8, 68u8, 65u8, 84u8, 65u8, 91u8]) {
        too_deep_from(b, advance(skip_to(b, index + 9, seq![93u8, 93u8, 62u8]), index, b.len() as int), depth)
    } else if index + 1 < b.len() && b[index + 1] == 63u8 {
        too_deep_from(b, advance(skip_to(b, index + 2, seq![63u8, 62u8]), index, b.len() as int), depth)
    } else if index + 1 < b.len() && b[index + 1] == 47u8 {
        too_deep_from(
            b,
            advance(skip_to(b, index + 1, seq![62u8]), index, b.len() as int),
            if depth == 0 { 0 } else { (depth - 1) as nat },
        )
    } else {
        let (self_closing, next) = scan_from(b, index + 1, None, None);
        if !self_closing && depth + 1 > MAX_ELEMENT_DEPTH {
            true
        } else {
            too_deep_from(b, advance(next, index, b.len() as int), if self_closing { depth } else { depth + 1 })
        }
    }
}

/// Where a scan at `index` goes on from: `next` when it lies ahead within
/// `len` bytes, as every skip does, and the next byte otherwise.
pub open spec fn advance(next: int, index: int, len: int) -> int {
    if index < next <= len { next } else { index + 1 }
}

proof fn lemma_skip_to_bounds(b: Seq<u8>, from: int, pat: Seq<u8>)
    requires
        0 <= from,
    ensures
        skip_to(b, from, pat) >= from || skip_to(b, from, pat) == b.len(),
        skip_to(b, from, pat) <= b.len(),
    decreases b.len() - from,
{
    if from < b.len() && !starts_at(b, from, pat) {
        lemma_skip_to_bounds(b, from + 1, pat);
    }
}

proof fn lemma_scan_bounds(b: Seq<u8>, cursor: int, prev: Option<u8>, quote: Option<u8>)
    ensures
        scan_from(b, cursor, prev, quote).1 <= b.len(),
        0 <= cursor < b.len() ==> scan_from(b, cursor, prev, quote).1 > cursor,
    decreases b.len() - cursor,
{
    if 0 <= cursor < b.len() {
        match quote {
            Some(q) => {
                if b[cursor] == q {
                    lemma_scan_bounds(b, cursor + 1, prev, None);
                } else {
                    lemma_scan_bounds(b, cursor + 1, prev, Some(q));
                }
            },
            None => {
                if b[cursor] == 62u8 {
                } else if b[cursor] == 34u8 || b[cursor] == 39u8 {
                    lemma_scan_bounds(b, cursor + 1, Some(b[cursor]), Some(b[cursor]));
                } else {
                    lemma_scan_bounds(b, cursor + 1, Some(b[cursor]), None);
                }
            },
        }
    }
}

fn starts_with_at(b: &[u8], i: usize, pat: &[u8]) -> (r: bool)
    ensures
        r == starts_at(b@, i as int, pat@),
{
    if i > b.len() || pat.len() > b.len() - i {
        return false;
    }
    let mut k: usize = 0;
    while k < pat.len()
        invariant
            k <= pat@.len(),
            b.len() == b@.len(),
            pat.len() == pat@.len(),
            i + pat@.len() <= b@.len(),
            forall|m: int| 0 <= m < k ==> b@[i + m] == pat@[m],
        decreases pat@.len() - k,
    {
        if b[i + k] != pat[k] {
            assert(b@.subrange(i as int, i + pat@.len())[k as int] != pat@[k as int]);
            return false;
        }
        k = k + 1;
    }
    assert(b@.subrange(i as int, i + pat@.len()) =~= pat@);
    true
}

/// The position just past `delimiter`, or the end of the document when the
/// construct is never closed.
fn skip_past(bytes: &[u8], from: usize, delimiter: &[u8]) -> (r: usize)
    ensures
        r == skip_to(bytes@, from as int, delimiter@),
{
    let mut cursor = from;
    while cursor < bytes.len()
        invariant
            from <= cursor,
            skip_to(bytes@, from as int, delimiter@) == skip_to(bytes@, cursor as int, delimiter@),
        decreases bytes.len() - cursor,
    {
        if starts_with_at(bytes, cursor, delimiter) {
            return cursor + delimiter.len();
        }
        cursor = cursor + 1;
    }
    bytes.len()
}

/// Walks the tag that starts just after `<` to the `>` that ends it, skipping
/// quoted attribute values: whether it closes itself with `/>`, and the
/// position just past it.
fn scan_tag(bytes: &[u8], from: usize) -> (r: (bool, usize))
    ensures
        (r.0, r.1 as int) == scan_from(bytes@, from as int, None, None),
{
    let mut cursor = from;
    let mut previous: Option<u8> = None;
    let mut quote: Option<u8> = None;
    while cursor < bytes.len()
        invariant
            scan_from(bytes@, from as int, None, None) == scan_from(bytes@, cursor as int, previous, quote),
        decreases bytes.len() - cursor,
    {
        let byte = bytes[cursor];
        match quote {
            Some(q) => {
                if byte == q {
                    quote = None;
                }
            },
            None => {
                if byte == 62u8 {
                    let closes = match previous {
                        Some(p) => p == 47u8,
                        None => false,
                    };
                    return (closes, cursor + 1);
                } else if byte == 34u8 || byte == 39u8 {
                    previous = Some(byte);
                    quote = Some(byte);
                } else {
                    previous = Some(byte);
                }
            },
        }
        cursor = cursor + 1;
    }
    (false, bytes.len())
}

/// Whether the raw document nests elements deeper than [`MAX_ELEMENT_DEPTH`].
///
/// A byte scan rather than a second XML parser: each start tag counts one
/// level deeper and each close tag one level shallower, while what looks like
/// markup but is not an element — a comment, a CDATA section, a processing
/// instruction, a quoted attribute value — is skipped whole, so neither can
/// fake a close tag to hold the count down.
pub fn nests_too_deeply(xml: &str) -> (r: bool)
    ensures
        r == too_deep_from(xml.spec_bytes(), 0, 0),
{
    let bytes = xml.as_bytes();
    let comment: [u8; 4] = [60u8, 33u8, 45u8, 45u8];
    let comment_end: [u8; 3] = [45u8, 45u8, 62u8];
    let cdata: [u8; 9] = [60u8, 33u8, 91u8, 67u8, 68u8, 65u8, 84u8, 65u8, 91u8];
    let cdata_end: [u8; 3] = [93u8, 93u8, 62u8];
    let pi_end: [u8; 2] = [63u8, 62u8];
    let tag_end: [u8; 1] = [62u8];
    assert(comment@ =~= seq![60u8, 33u8, 45u8, 45u8]);
    assert(comment_end@ =~= seq![45u8, 45u8, 62u8]);
    assert(cdata@ =~= seq![60u8, 33u8, 91u8, 67u8, 68u8, 65u8, 84u8, 65u8, 91u8]);
    assert(cdata_end@ =~= seq![93u8, 93u8, 62u8]);
    assert(pi_end@ =~= seq![63u8, 62u8]);
    assert(tag_end@ =~= seq![62u8]);
    let mut depth: usize = 0;
    let mut index: usize = 0;
    while index < bytes.len()
        invariant
            bytes@ == xml.spec_bytes(),
            depth <= MAX_ELEMENT_DEPTH,
            comment@ == seq![60u8, 33u8, 45u8, 45u8],
            comment_end@ == seq![45u8, 45u8, 62u8],
            cdata@ == seq![60u8, 33u8, 91u8, 67u8, 68u8, 65u8, 84u8, 65u8, 91u8],
            cdata_end@ == seq![93u8, 93u8, 62u8],
            pi_end@ == seq![63u8, 62u8],
            tag_end@ == seq![62u8],
            too_deep_from(bytes@, 0, 0) == too_deep_from(bytes@, index as int, depth as nat),
        decreases bytes.len() - index,
    {
        let ghost b = bytes@;
        if bytes[index] != 60u8 {
            index = index + 1;
        } else if starts_with_at(bytes, index, &comment) {
            let next = skip_past(bytes, index + 4, &comment_end);
            proof { lemma_skip_to_bounds(b, index + 4, comment_end@); }
            index = next;
        } else if starts_with_at(bytes, index, &cdata) {
            let next = skip_past(bytes, index + 9, &cdata_end);
            proof { lemma_skip_to_bounds(b, index + 9, cdata_end@); }
            index = next;
        } else if index + 1 < bytes.len() && bytes[index + 1] == 63u8 {
            let next = skip_past(bytes, index + 2, &pi_end);
            proof { lemma_skip_to_bounds(b, index + 2, pi_end@); }
            index = next;
        } else if index + 1 < bytes.len() && bytes[index + 1] == 47u8 {
            let next = skip_past(bytes, index + 1, &tag_end);
            proof { lemma_skip_to_bounds(b, index + 1, tag_end@); }
            if depth > 0 {
                depth = depth - 1;
            }
            index = next;
        } else {
            let (self_closing, next) = scan_tag(bytes, index + 1);
            proof { lemma_scan_bounds(b, index + 1, None, None); }
            if !self_closing {
                if depth + 1 > MAX_ELEMENT_DEPTH {
                    return true;
                }
                depth = depth + 1;
            }
            index = next;
        }
    }
    false
}


/// The status a testcase maps to: only three of the run's statuses can come
/// from a report.
#[derive(Debug, Clone, Copy, PartialEq, Eq, Structural)]
pub enum ImportStatus {
    Passed,
    Failed,
    Blocked,
}

/// The run status `status` stands for, as the API spells it.
pub open spec fn status_text(status: ImportStatus) -> Seq<char> {
    match status {
        ImportStatus::Passed => "Passed"@,
        ImportStatus::Failed => "Failed"@,
        ImportStatus::Blocked => "Blocked"@,
    }
}

impl ImportStatus {
    /// The run status this maps to, as the API spells it.
    pub fn as_str(self) -> (r: &'static str)
        ensures
            r@ == status_text(self),
    {
        match self {
            ImportStatus::Passed => "Passed",
            ImportStatus::Failed => "Failed",
            ImportStatus::Blocked => "Blocked",
        }
    }
}

/// One testcase a report described, before it meets the run it lands in.
#[derive(Debug)]
pub struct ParsedCase {
    pub test_case_id: String,
    pub status: ImportStatus,
    pub notes: Option<String>,
    pub timestamp: Option<String>,
}

/// The model of a [`ParsedCase`].
pub struct CaseModel {
    pub test_case_id: Seq<char>,
    pub status: ImportStatus,
    pub notes: Option<Seq<char>>,
    pub timestamp: Option<Seq<char>>,
}

/// The model of an optional text.
pub open spec fn opt_text(o: Option<String>) -> Option<Seq<char>> {
    match o {
        Some(s) => Some(s@),
        None => None,
    }
}

impl View for ParsedCase {
    type V = CaseModel;

    open spec fn view(&self) -> CaseModel {
        CaseModel {
            test_case_id: self.test_case_id@,
            status: self.status,
            notes: opt_text(self.notes),
            timestamp: opt_text(self.timestamp),
        }
    }
}

/// The models of a list of parsed cases.
pub open spec fn cases_model(v: Seq<ParsedCase>) -> Seq<CaseModel> {
    v.map_values(|c: ParsedCase| c@)
}

/// What a report contained: the cases it described and how many it could not.
#[derive(Debug)]
pub struct ParsedReport {
    pub cases: Vec<ParsedCase>,
    pub errors: usize,
}

/// One attribute of an XML element.
#[derive(Debug)]
pub struct XmlAttribute {
    pub namespace: Option<String>,
    pub name: String,
    pub value: String,
}

/// The model of an [`XmlAttribute`].
pub struct XmlAttributeModel {
    pub namespace: Option<Seq<char>>,
    pub name: Seq<char>,
    pub value: Seq<char>,
}

impl View for XmlAttribute {
    type V = XmlAttributeModel;

    open spec fn view(&self) -> XmlAttributeModel {
        XmlAttributeModel { namespace: opt_text(self.namespace), name: self.name@, value: self.value@ }
    }
}

/// One node of a parsed XML document, in document order, with the nodes it
/// relates to named by their positions.
#[derive(Debug)]
pub struct XmlNode {
    pub element: bool,
    pub namespace: Option<String>,
    pub name: String,
    pub attributes: Vec<XmlAttribute>,
    pub parent: Option<usize>,
    pub children: Vec<usize>,
}

/// The model of an [`XmlNode`].
pub struct XmlNodeModel {
    pub element: bool,
    pub namespace: Option<Seq<char>>,
    pub name: Seq<char>,
    pub attributes: Seq<XmlAttributeModel>,
    pub parent: Option<usize>,
    pub children: Seq<usize>,
}

impl View for XmlNode {
    type V = XmlNodeModel;

    open spec fn view(&self) -> XmlNodeModel {
        XmlNodeModel {
            element: self.element,
            namespace: opt_text(self.namespace),
            name: self.name@,
            attributes: self.attributes@.map_values(|a: XmlAttribute| a@),
            parent: self.parent,
            children: self.children@,
        }
    }
}

/// The nodes `roxmltree` reads from `xml`, in document order, or nothing when
/// it refuses the document.
pub uninterp spec fn xml_nodes(xml: Seq<char>) -> Option<Seq<XmlNodeModel>>;

/// Parses `xml` with `roxmltree::Document::parse` and lists every node the
/// document's `descendants` walk yields, each with its element flag, tag
/// name, attributes, parent and children as node positions.
#[verifier::external_body]
fn parse_xml(xml: &str) -> (r: Option<Vec<XmlNode>>)
    ensures
        match r {
            Some(v) => xml_nodes(xml@) == Some(v@.map_values(|n: XmlNode| n@)),
            None => xml_nodes(xml@) is None,
        },
{
    let document = roxmltree::Document::parse(xml).ok()?;
    Some(document.descendants().map(|n| XmlNode {
        element: n.is_element(),
        namespace: n.tag_name().namespace().map(str::to_owned),
        name: n.tag_name().name().to_owned(),
        attributes: n.attributes().map(|a| XmlAttribute { namespace: a.namespace().map(str::to_owned), name: a.name().to_owned(), value: a.value().to_owned() }).collect(),
        parent: n.parent().map(|p| p.id().get_usize()),
        children: n.children().map(|c| c.id().get_usize()).collect(),
    }).collect())
}

/// Whether `n` is an element named `tag`, whatever its namespace.
pub open spec fn is_tag(n: XmlNodeModel, tag: Seq<char>) -> bool {
    n.element && n.name == tag
}

/// The value of `n`'s first attribute named `key` without a namespace.
pub open spec fn attribute_of(n: XmlNodeModel, key: Seq<char>) -> Option<Seq<char>> {
    let i = crate::seqs::first_where(n.attributes, |a: XmlAttributeModel| a.namespace is None && a.name == key);
    if 0 <= i < n.attributes.len() { Some(n.attributes[i].value) } else { None }
}

/// Whether the node at position `c` is an element named `a` or `b`.
pub open spec fn node_is(nodes: Seq<XmlNodeModel>, c: usize, a: Seq<char>, b: Seq<char>) -> bool {
    c < nodes.len() && (is_tag(nodes[c as int], a) || is_tag(nodes[c as int], b))
}

/// Whether one of `n`'s children is an element named `a` or `b`.
pub open spec fn has_child(nodes: Seq<XmlNodeModel>, n: XmlNodeModel, a: Seq<char>, b: Seq<char>) -> bool {
    exists|k: int| 0 <= k < n.children.len() && node_is(nodes, #[trigger] n.children[k], a, b)
}

/// A testcase that failed or errored maps to `Failed`, one that was skipped to
/// `Blocked`, and everything else to `Passed`.
pub open spec fn status_of(nodes: Seq<XmlNodeModel>, n: XmlNodeModel) -> ImportStatus {
    if has_child(nodes, n, "failure"@, "error"@) {
        ImportStatus::Failed
    } else if has_child(nodes, n, "skipped"@, "skipped"@) {
        ImportStatus::Blocked
    } else {
        ImportStatus::Passed
    }
}

/// The `message` of the first failure or error, recorded as notes.
pub open spec fn failure_message(nodes: Seq<XmlNodeModel>, n: XmlNodeModel) -> Option<Seq<char>> {
    let k = crate::seqs::first_where(n.children, |c: usize| node_is(nodes, c, "failure"@, "error"@));
    if 0 <= k < n.children.len() {
        attribute_of(nodes[n.children[k] as int], "message"@)
    } else {
        None
    }
}

/// Whether the node at position `c` is a `failure` or an `error` element.
pub open spec fn failed_by(nodes: Seq<XmlNodeModel>, c: usize) -> bool {
    c < nodes.len() && nodes[c as int].element && (nodes[c as int].name == "failure"@ || nodes[c as int].name == "error"@)
}

/// A named testcase fails exactly when one of its children is a `failure` or
/// an `error` element; its notes are then the `message` of the first such
/// child, whichever of the two tags it carries, and it has no notes
/// otherwise.
pub proof fn lemma_testcase_notes(nodes: Seq<XmlNodeModel>, i: int)
    requires
        0 <= i < nodes.len(),
        case_of(nodes, i) is Some,
    ensures
        (case_of(nodes, i)->0.status == ImportStatus::Failed) <==> exists|k: int|
            0 <= k < nodes[i].children.len() && failed_by(nodes, #[trigger] nodes[i].children[k]),
        (forall|k: int| 0 <= k < nodes[i].children.len() ==> !failed_by(nodes, #[trigger] nodes[i].children[k]))
            ==> case_of(nodes, i)->0.notes is None,
        forall|k: int|
            0 <= k < nodes[i].children.len() && failed_by(nodes, #[trigger] nodes[i].children[k]) && (forall|j: int|
                0 <= j < k ==> !failed_by(nodes, #[trigger] nodes[i].children[j])) ==> case_of(nodes, i)->0.notes
                == attribute_of(nodes[nodes[i].children[k] as int], "message"@),
{
    let n = nodes[i];
    let f = |c: usize| node_is(nodes, c, "failure"@, "error"@);
    crate::seqs::lemma_first_where_facts(n.children, f);
    assert forall|c: usize| #[trigger] f(c) == failed_by(nodes, c) by {}
    let m = crate::seqs::first_where(n.children, f);
    assert(failure_message(nodes, n) == if 0 <= m < n.children.len() {
        attribute_of(nodes[n.children[m] as int], "message"@)
    } else {
        None
    });
    assert forall|k: int|
        0 <= k < n.children.len() && failed_by(nodes, #[trigger] n.children[k]) && (forall|j: int|
            0 <= j < k ==> !failed_by(nodes, #[trigger] n.children[j])) implies m == k by {
        assert(f(n.children[k]));
        if m >= 0 && m < k {
            assert(f(n.children[m]));
            assert(failed_by(nodes, n.children[m]));
        }
    }
    if forall|k: int| 0 <= k < n.children.len() ==> !failed_by(nodes, #[trigger] n.children[k]) {
        if m >= 0 {
            assert(f(n.children[m]));
            assert(failed_by(nodes, n.children[m]));
        }
    }
    if has_child(nodes, n, "failure"@, "error"@) {
        let k = choose|k: int| 0 <= k < n.children.len() && node_is(nodes, #[trigger] n.children[k], "failure"@, "error"@);
        assert(failed_by(nodes, n.children[k]));
    }
    if exists|k: int| 0 <= k < n.children.len() && failed_by(nodes, #[trigger] n.children[k]) {
        let k = choose|k: int| 0 <= k < n.children.len() && failed_by(nodes, #[trigger] n.children[k]);
        assert(node_is(nodes, n.children[k], "failure"@, "error"@));
    }
}

/// The `timestamp` of the nearest `testsuite` among the node at `at` and its
/// ancestors, looking at most `fuel` nodes up.
pub open spec fn suite_timestamp(nodes: Seq<XmlNodeModel>, at: Option<usize>, fuel: nat) -> Option<Seq<char>>
    decreases fuel,
{
    match at {
        None => None,
        Some(i) => if fuel == 0 || i >= nodes.len() {
            None
        } else if is_tag(nodes[i as int], "testsuite"@) {
            attribute_of(nodes[i as int], "timestamp"@)
        } else {
            suite_timestamp(nodes, nodes[i as int].parent, (fuel - 1) as nat)
        },
    }
}

/// The result testcase `i` records, or nothing when it cannot be named.
pub open spec fn case_of(nodes: Seq<XmlNodeModel>, i: int) -> Option<CaseModel> {
    let n = nodes[i];
    match attribute_of(n, "name"@) {
        Some(name) => if name.len() == 0 {
            None
        } else {
            Some(CaseModel {
                test_case_id: match attribute_of(n, "classname"@) {
                    Some(c) => if c.len() > 0 { c + "."@ + name } else { name },
                    None => name,
                },
                status: status_of(nodes, n),
                notes: failure_message(nodes, n),
                timestamp: suite_timestamp(nodes, Some(i as usize), nodes.len()),
            })
        },
        None => None,
    }
}

/// The cases the first `k` nodes describe and how many testcases among them
/// could not be named.
pub open spec fn report_upto(nodes: Seq<XmlNodeModel>, k: int) -> (Seq<CaseModel>, nat)
    decreases k,
{
    if k <= 0 {
        (Seq::empty(), 0)
    } else {
        let prior = report_upto(nodes, k - 1);
        if is_tag(nodes[k - 1], "testcase"@) {
            match case_of(nodes, k - 1) {
                Some(c) => (prior.0.push(c), prior.1),
                None => (prior.0, prior.1 + 1),
            }
        } else {
            prior
        }
    }
}

fn text_is(s: &String, t: &str) -> (r: bool)
    ensures
        r == (s@ == t@),
{
    str_eq(s.as_str(), t)
}

fn node_attribute(n: &XmlNode, key: &str) -> (r: Option<String>)
    ensures
        opt_text(r) == attribute_of(n@, key@),
{
    let ghost attrs = n@.attributes;
    let ghost f = |a: XmlAttributeModel| a.namespace is None && a.name == key@;
    let mut i: usize = 0;
    while i < n.attributes.len()
        invariant
            i <= n.attributes.len(),
            attrs == n@.attributes,
            f == (|a: XmlAttributeModel| a.namespace is None && a.name == key@),
            forall|k: int| 0 <= k < i ==> !f(#[trigger] attrs[k]),
        decreases n.attributes.len() - i,
    {
        let a = &n.attributes[i];
        assert(attrs[i as int] == a@);
        if a.namespace.is_none() && text_is(&a.name, key) {
            proof { crate::seqs::lemma_first_where(attrs, f, i as int); }
            return Some(a.value.clone());
        }
        i = i + 1;
    }
    proof { crate::seqs::lemma_first_where(attrs, f, i as int); }
    None
}

fn tagged(nodes: &Vec<XmlNode>, c: usize, a: &str, b: &str) -> (r: bool)
    ensures
        r == node_is(nodes@.map_values(|n: XmlNode| n@), c, a@, b@),
{
    if c >= nodes.len() {
        return false;
    }
    let n = &nodes[c];
    n.element && (text_is(&n.name, a) || text_is(&n.name, b))
}

fn first_child(nodes: &Vec<XmlNode>, n: &XmlNode, a: &str, b: &str) -> (r: Option<usize>)
    ensures
        match r {
            Some(k) => crate::seqs::first_where(n@.children, |c: usize| node_is(nodes@.map_values(|x: XmlNode| x@), c, a@, b@))
                == k as int && k < n@.children.len(),
            None => crate::seqs::first_where(n@.children, |c: usize| node_is(nodes@.map_values(|x: XmlNode| x@), c, a@, b@))
                == -1,
        },
{
    let ghost ns = nodes@.map_values(|x: XmlNode| x@);
    let ghost f = |c: usize| node_is(ns, c, a@, b@);
    let mut k: usize = 0;
    while k < n.children.len()
        invariant
            k <= n.children.len(),
            ns == nodes@.map_values(|x: XmlNode| x@),
            f == (|c: usize| node_is(ns, c, a@, b@)),
            forall|j: int| 0 <= j < k ==> !f(#[trigger] n@.children[j]),
        decreases n.children.len() - k,
    {
        if tagged(nodes, n.children[k], a, b) {
            proof { crate::seqs::lemma_first_where(n@.children, f, k as int); }
            return Some(k);
        }
        k = k + 1;
    }
    proof { crate::seqs::lemma_first_where(n@.children, f, k as int); }
    None
}

proof fn lemma_has_child(nodes: Seq<XmlNodeModel>, n: XmlNodeModel, a: Seq<char>, b: Seq<char>)
    ensures
        has_child(nodes, n, a, b) == (crate::seqs::first_where(n.children, |c: usize| node_is(nodes, c, a, b)) >= 0),
{
    let f = |c: usize| node_is(nodes, c, a, b);
    crate::seqs::lemma_first_where_facts(n.children, f);
    if has_child(nodes, n, a, b) {
        let k = choose|k: int| 0 <= k < n.children.len() && node_is(nodes, #[trigger] n.children[k], a, b);
        assert(f(n.children[k]));
    }
}

fn testcase_status(nodes: &Vec<XmlNode>, n: &XmlNode) -> (r: ImportStatus)
    ensures
        r == status_of(nodes@.map_values(|x: XmlNode| x@), n@),
{
    proof {
        lemma_has_child(nodes@.map_values(|x: XmlNode| x@), n@, "failure"@, "error"@);
        lemma_has_child(nodes@.map_values(|x: XmlNode| x@), n@, "skipped"@, "skipped"@);
    }
    if first_child(nodes, n, "failure", "error").is_some() {
        ImportStatus::Failed
    } else if first_child(nodes, n, "skipped", "skipped").is_some() {
        ImportStatus::Blocked
    } else {
        ImportStatus::Passed
    }
}

fn testcase_notes(nodes: &Vec<XmlNode>, n: &XmlNode) -> (r: Option<String>)
    ensures
        opt_text(r) == failure_message(nodes@.map_values(|x: XmlNode| x@), n@),
{
    match first_child(nodes, n, "failure", "error") {
        Some(k) => {
            let c = n.children[k];
            assert(node_is(nodes@.map_values(|x: XmlNode| x@), c, "failure"@, "error"@)) by {
                crate::seqs::lemma_first_where_facts(
                    n@.children,
                    |c: usize| node_is(nodes@.map_values(|x: XmlNode| x@), c, "failure"@, "error"@),
                );
            }
            node_attribute(&nodes[c], "message")
        },
        None => None,
    }
}

fn enclosing_timestamp(nodes: &Vec<XmlNode>, start: usize) -> (r: Option<String>)
    ensures
        opt_text(r) == suite_timestamp(nodes@.map_values(|x: XmlNode| x@), Some(start), nodes@.len()),
{
    let ghost ns = nodes@.map_values(|x: XmlNode| x@);
    let mut at: Option<usize> = Some(start);
    let mut fuel: usize = nodes.len();
    while fuel > 0
        invariant
            ns == nodes@.map_values(|x: XmlNode| x@),
            suite_timestamp(ns, Some(start), nodes@.len()) == suite_timestamp(ns, at, fuel as nat),
        decreases fuel,
    {
        let i = match at {
            Some(i) => i,
            None => {
                return None;
            },
        };
        if i >= nodes.len() {
            return None;
        }
        let n = &nodes[i];
        if n.element && text_is(&n.name, "testsuite") {
            return node_attribute(n, "timestamp");
        }
        at = n.parent;
        fuel = fuel - 1;
    }
    None
}

fn map_case(nodes: &Vec<XmlNode>, i: usize) -> (r: Option<ParsedCase>)
    requires
        i < nodes@.len(),
    ensures
        match r {
            Some(c) => case_of(nodes@.map_values(|x: XmlNode| x@), i as int) == Some(c@),
            None => case_of(nodes@.map_values(|x: XmlNode| x@), i as int) is None,
        },
{
    let n = &nodes[i];
    let name = match node_attribute(n, "name") {
        Some(name) => name,
        None => {
            return None;
        },
    };
    if crate::text::is_blank(name.as_str()) {
        return None;
    }
    let test_case_id = match node_attribute(n, "classname") {
        Some(c) => if crate::text::is_blank(c.as_str()) {
            name
        } else {
            let mut id = concat(c.as_str(), ".");
            push_str(&mut id, name.as_str());
            id
        },
        None => name,
    };
    Some(ParsedCase {
        test_case_id,
        status: testcase_status(nodes, n),
        notes: testcase_notes(nodes, n),
        timestamp: enclosing_timestamp(nodes, i),
    })
}

/// The report parsed nodes make: every `testcase` element that can be named
/// becomes a case, in document order, and every other `testcase` element
/// counts as an error.
pub fn report_from_nodes(nodes: &Vec<XmlNode>) -> (r: ParsedReport)
    ensures
        (cases_model(r.cases@), r.errors as nat) == report_upto(
            nodes@.map_values(|x: XmlNode| x@),
            nodes@.len() as int,
        ),
        r.cases@.len() + r.errors <= nodes@.len(),
{
    let ghost ns = nodes@.map_values(|x: XmlNode| x@);
    let mut cases: Vec<ParsedCase> = Vec::new();
    let mut errors: usize = 0;
    let mut i: usize = 0;
    while i < nodes.len()
        invariant
            i <= nodes.len(),
            ns == nodes@.map_values(|x: XmlNode| x@),
            (cases_model(cases@), errors as nat) == report_upto(ns, i as int),
            cases@.len() + errors <= i,
        decreases nodes.len() - i,
    {
        let n = &nodes[i];
        assert(ns[i as int] == n@);
        if n.element && text_is(&n.name, "testcase") {
            match map_case(&nodes, i) {
                Some(case) => {
                    let ghost before = cases_model(cases@);
                    cases.push(case);
                    assert(cases_model(cases@) =~= before.push(case@));
                },
                None => {
                    errors = errors + 1;
                },
            }
        }
        i = i + 1;
    }
    ParsedReport { cases, errors }
}

/// Reads a JUnit report, mapping every testcase it can name.
///
/// A document nested deeper than [`MAX_ELEMENT_DEPTH`] is refused before the
/// parser sees it, malformed XML is refused, and a testcase without a `name`
/// is counted in [`ParsedReport::errors`] rather than refused.
pub fn parse(xml: &str) -> (r: Result<ParsedReport, DomainError>)
    ensures
        match r {
            Ok(report) => !too_deep_from(xml.spec_bytes(), 0, 0) && (xml_nodes(xml@) matches Some(nodes) && (
            cases_model(report.cases@), report.errors as nat) == report_upto(nodes, nodes.len() as int))
                && report.cases@.len() + report.errors <= usize::MAX,
            Err(e) => if too_deep_from(xml.spec_bytes(), 0, 0) {
                e@ == invalid_request_model("JUnit XML nests elements too deeply"@)
            } else {
                xml_nodes(xml@) is None && e@ == invalid_request_model("Malformed JUnit XML"@)
            },
        },
{
    if nests_too_deeply(xml) {
        return Err(DomainError::invalid_request("JUnit XML nests elements too deeply".to_owned()));
    }
    let nodes = match parse_xml(xml) {
        Some(nodes) => nodes,
        None => {
            return Err(DomainError::invalid_request("Malformed JUnit XML".to_owned()));
        },
    };
    Ok(report_from_nodes(&nodes))
}


/// The entries of a JSON results body: a bare array, or an object whose only
/// member `results` holds one.
pub open spec fn entries_of(body: Json) -> Option<Seq<Json>> {
    match body {
        Json::Array(es) => Some(es),
        Json::Object(ms) => if ms.len() == 1 && ms[0].0 == "results"@ && ms[0].1 is Array {
            Some(ms[0].1->Array_0)
        } else {
            None
        },
        _ => None,
    }
}

/// The members an import entry may carry.
pub open spec fn entry_fields() -> Seq<Seq<char>> {
    seq!["testCaseId"@, "status"@, "notes"@, "timestamp"@]
}

/// Whether optional member `key` of `e` is absent, `null` or a string.
pub open spec fn optional_text_ok(e: Json, key: Seq<char>) -> bool {
    match e.get(key) {
        None => true,
        Some(Json::Null) => true,
        Some(Json::Str(_)) => true,
        Some(_) => false,
    }
}

/// The text optional member `key` of `e` holds.
pub open spec fn optional_text_of(e: Json, key: Seq<char>) -> Option<Seq<char>> {
    match e.get(key) {
        Some(Json::Str(t)) => Some(t),
        _ => None,
    }
}

/// Why an entry does not read as an import entry, if it does not.
pub open spec fn entry_defect(e: Json) -> Option<Seq<char>> {
    match e {
        Json::Object(ms) => match crate::validation::first_unknown(ms, entry_fields()) {
            Some(k) => Some("unknown field `"@ + k + "`"@),
            None => if e.str_at("testCaseId"@) is None {
                Some("testCaseId must be a string"@)
            } else if e.str_at("status"@) is None {
                Some("status must be a string"@)
            } else if !optional_text_ok(e, "notes"@) {
                Some("notes must be a string or null"@)
            } else if !optional_text_ok(e, "timestamp"@) {
                Some("timestamp must be a string or null"@)
            } else {
                None
            },
        },
        _ => Some("expected an object"@),
    }
}

/// The status an entry's text maps to, if any.
pub open spec fn import_status(t: Seq<char>) -> Option<ImportStatus> {
    if t == "Passed"@ {
        Some(ImportStatus::Passed)
    } else if t == "Failed"@ {
        Some(ImportStatus::Failed)
    } else if t == "Blocked"@ {
        Some(ImportStatus::Blocked)
    } else {
        None
    }
}

/// What entry `index` of a JSON body maps to, or the error it is refused with.
pub open spec fn entry_result(index: nat, e: Json) -> Result<CaseModel, ErrorModel> {
    match entry_defect(e) {
        Some(reason) => Err(invalid_request_model("Import entry "@ + decimal(index) + " is invalid: "@ + reason)),
        None => {
            let id = e.str_at("testCaseId"@)->0;
            if id.len() == 0 {
                Err(invalid_request_model("Import entry "@ + decimal(index) + " is missing testCaseId"@))
            } else {
                match import_status(e.str_at("status"@)->0) {
                    Some(status) => Ok(
                        CaseModel {
                            test_case_id: id,
                            status,
                            notes: optional_text_of(e, "notes"@),
                            timestamp: optional_text_of(e, "timestamp"@),
                        },
                    ),
                    None => Err(invalid_import_status_model()),
                }
            }
        },
    }
}

/// What the first `k` entries map to, or the error of the first that is
/// refused.
pub open spec fn entries_result(es: Seq<Json>, k: int) -> Result<Seq<CaseModel>, ErrorModel>
    decreases k,
{
    if k <= 0 {
        Ok(Seq::empty())
    } else {
        match entries_result(es, k - 1) {
            Ok(cs) => match entry_result((k - 1) as nat, es[k - 1]) {
                Ok(c) => Ok(cs.push(c)),
                Err(e) => Err(e),
            },
            Err(e) => Err(e),
        }
    }
}

/// The message of a body that is neither a results array nor the wrapper.
pub open spec fn unusable_body_message() -> Seq<char> {
    "Import body must be an array of results, or an object whose only field is `results`"@
}

fn entry_error(index: usize, detail: &str) -> (e: DomainError)
    ensures
        e@ == invalid_request_model("Import entry "@ + decimal(index as nat) + detail@),
{
    let mut message = String::new();
    push_str(&mut message, "Import entry ");
    push_decimal(&mut message, index as u64);
    push_str(&mut message, detail);
    assert(message@ =~= "Import entry "@ + decimal(index as nat) + detail@);
    DomainError::invalid_request(message)
}

fn invalid_entry(index: usize, reason: &str) -> (e: DomainError)
    ensures
        e@ == invalid_request_model("Import entry "@ + decimal(index as nat) + " is invalid: "@ + reason@),
{
    let detail = concat(" is invalid: ", reason);
    let e = entry_error(index, detail.as_str());
    assert("Import entry "@ + decimal(index as nat) + detail@ =~= "Import entry "@ + decimal(index as nat)
        + " is invalid: "@ + reason@);
    e
}

fn optional_text_member(e: &JsonValue, key: &str) -> (r: Result<Option<String>, ()>)
    ensures
        match r {
            Ok(t) => optional_text_ok(e@, key@) && opt_text(t) == optional_text_of(e@, key@),
            Err(()) => !optional_text_ok(e@, key@),
        },
{
    match e.get(key) {
        None => Ok(None),
        Some(JsonValue::Null) => Ok(None),
        Some(JsonValue::Str(t)) => Ok(Some(t.clone())),
        Some(_) => Err(()),
    }
}

fn map_json_entry(index: usize, e: &JsonValue) -> (r: Result<ParsedCase, DomainError>)
    ensures
        match r {
            Ok(c) => entry_result(index as nat, e@) == Ok::<CaseModel, ErrorModel>(c@),
            Err(err) => entry_result(index as nat, e@) == Err::<CaseModel, ErrorModel>(err@),
        },
{
    let members = match e {
        JsonValue::Object(m) => m,
        _ => {
            return Err(invalid_entry(index, "expected an object"));
        },
    };
    proof { crate::json::lemma_object_model(*members); }
    let ghost ms = crate::json::members_of(members@);
    let ghost f = |m: (Seq<char>, Json)| !entry_fields().contains(m.0);
    let mut i: usize = 0;
    while i < members.len()
        invariant
            i <= members.len(),
            ms == crate::json::members_of(members@),
            e@ == Json::Object(ms),
            f == (|m: (Seq<char>, Json)| !entry_fields().contains(m.0)),
            forall|k: int| 0 <= k < i ==> !f(#[trigger] ms[k]),
        decreases members.len() - i,
    {
        let key = members[i].0.as_str();
        assert(ms[i as int].0 == key@);
        let known = str_eq(key, "testCaseId") || str_eq(key, "status") || str_eq(key, "notes") || str_eq(
            key,
            "timestamp",
        );
        assert(known == entry_fields().contains(key@)) by {
            assert(entry_fields()[0] == "testCaseId"@ && entry_fields()[1] == "status"@);
            assert(entry_fields()[2] == "notes"@ && entry_fields()[3] == "timestamp"@);
        }
        if !known {
            proof { crate::seqs::lemma_first_where(ms, f, i as int); }
            let mut reason = concat("unknown field `", key);
            push_str(&mut reason, "`");
            return Err(invalid_entry(index, reason.as_str()));
        }
        i = i + 1;
    }
    proof { crate::seqs::lemma_first_where(ms, f, i as int); }
    let id = match e.str_at("testCaseId") {
        Some(id) => id,
        None => {
            return Err(invalid_entry(index, "testCaseId must be a string"));
        },
    };
    let status_text = match e.str_at("status") {
        Some(s) => s,
        None => {
            return Err(invalid_entry(index, "status must be a string"));
        },
    };
    let notes = match optional_text_member(e, "notes") {
        Ok(t) => t,
        Err(()) => {
            return Err(invalid_entry(index, "notes must be a string or null"));
        },
    };
    let timestamp = match optional_text_member(e, "timestamp") {
        Ok(t) => t,
        Err(()) => {
            return Err(invalid_entry(index, "timestamp must be a string or null"));
        },
    };
    if crate::text::is_blank(id.as_str()) {
        return Err(entry_error(index, " is missing testCaseId"));
    }
    let status = if str_eq(status_text.as_str(), "Passed") {
        ImportStatus::Passed
    } else if str_eq(status_text.as_str(), "Failed") {
        ImportStatus::Failed
    } else if str_eq(status_text.as_str(), "Blocked") {
        ImportStatus::Blocked
    } else {
        return Err(DomainError::invalid_import_status());
    };
    Ok(ParsedCase { test_case_id: id.clone(), status, notes, timestamp })
}

/// Reads a JSON results body: a bare array of entries, or an object whose
/// only member `results` holds that array; nothing (`None`) is a body that
/// was not JSON at all.
///
/// Every problem is fatal: the first entry that is not an object with a
/// non-empty `testCaseId`, a `status` the importer can map and at most the
/// optional `notes` and `timestamp` refuses the whole body, naming its
/// position.
pub fn parse_json(body: Option<&JsonValue>) -> (r: Result<Vec<ParsedCase>, DomainError>)
    ensures
        match body {
            None => r matches Err(e) && e@ == invalid_request_model("Import body must be valid JSON"@),
            Some(b) => match entries_of(b@) {
                None => r matches Err(e) && e@ == invalid_request_model(unusable_body_message()),
                Some(es) => match r {
                    Ok(v) => entries_result(es, es.len() as int) == Ok::<Seq<CaseModel>, ErrorModel>(cases_model(v@)),
                    Err(e) => entries_result(es, es.len() as int) == Err::<Seq<CaseModel>, ErrorModel>(e@),
                },
            },
        },
{
    let b = match body {
        Some(b) => b,
        None => {
            return Err(DomainError::invalid_request("Import body must be valid JSON".to_owned()));
        },
    };
    let entries: &Vec<JsonValue> = match b {
        JsonValue::Array(es) => es,
        JsonValue::Object(ms) => {
            proof { crate::json::lemma_object_model(*ms); }
            if ms.len() == 1 && str_eq(ms[0].0.as_str(), "results") {
                match &ms[0].1 {
                    JsonValue::Array(es) => es,
                    _ => {
                        return Err(DomainError::invalid_request(
                            "Import body must be an array of results, or an object whose only field is `results`".to_owned(),
                        ));
                    },
                }
            } else {
                return Err(DomainError::invalid_request(
                    "Import body must be an array of results, or an object whose only field is `results`".to_owned(),
                ));
            }
        },
        _ => {
            return Err(DomainError::invalid_request(
                "Import body must be an array of results, or an object whose only field is `results`".to_owned(),
            ));
        },
    };
    proof { crate::json::lemma_array_model(*entries); }
    let ghost es = crate::json::values_of(entries@);
    assert(entries_of(b@) == Some(es));
    let mut cases: Vec<ParsedCase> = Vec::new();
    assert(cases_model(cases@) =~= Seq::<CaseModel>::empty());
    let mut i: usize = 0;
    while i < entries.len()
        invariant
            i <= entries.len(),
            es == crate::json::values_of(entries@),
            body == Some(b),
            entries_of(b@) == Some(es),
            entries_result(es, i as int) == Ok::<Seq<CaseModel>, ErrorModel>(cases_model(cases@)),
        decreases entries.len() - i,
    {
        assert(es[i as int] == entries@[i as int]@);
        match map_json_entry(i, &entries[i]) {
            Ok(case) => {
                let ghost before = cases_model(cases@);
                cases.push(case);
                assert(cases_model(cases@) =~= before.push(case@));
            },
            Err(e) => {
                proof { lemma_entries_error_sticks(es, i as int + 1, es.len() as int); }
                return Err(e);
            },
        }
        i = i + 1;
    }
    Ok(cases)
}

proof fn lemma_entries_error_sticks(es: Seq<Json>, k: int, n: int)
    requires
        1 <= k <= n,
        entries_result(es, k) is Err,
    ensures
        entries_result(es, n) == entries_result(es, k),
    decreases n - k,
{
    if k < n {
        lemma_entries_error_sticks(es, k, n - 1);
    }
}

} // verus!
