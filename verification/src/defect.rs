//! Rules for linking a run result to a defect in an external tracker.
//!
//! A link records where a defect lives; the tracker it claims to live in is the
//! only thing the API can check without asking that tracker, so the URL is
//! matched against the shape the named tracker uses. Only the parts the
//! patterns look at are extracted: the host and the path segments, with the
//! query string and fragment dropped.

use vstd::prelude::*;

use crate::error::{DomainError, ErrorModel, invalid_request_model};
use crate::files::{ascii_lower, lowered};
use crate::json::JsonValue;
use crate::models::{DefectLink, DefectLinkRequest, Document};
use crate::text::{chars_of, concat, is_blank, push_str, str_eq};

verus! {

/// Whether `c` is a Unicode white-space character.
pub open spec fn is_space(c: char) -> bool {
    ('\u{9}' <= c && c <= '\u{d}') || c == ' ' || c == '\u{85}' || c == '\u{a0}' || c == '\u{1680}'
        || ('\u{2000}' <= c && c <= '\u{200a}') || c == '\u{2028}' || c == '\u{2029}'
        || c == '\u{202f}' || c == '\u{205f}' || c == '\u{3000}'
}

/// `s` up to its first `a` or `b`.
pub open spec fn before_any(s: Seq<char>, a: char, b: char) -> Seq<char>
    decreases s.len(),
{
    if s.len() == 0 || s[0] == a || s[0] == b {
        Seq::empty()
    } else {
        seq![s[0]] + before_any(s.drop_first(), a, b)
    }
}

/// The part of `s` before its first `c` and the part after it; all of `s` and
/// nothing when it holds none.
pub open spec fn split_first(s: Seq<char>, c: char) -> (Seq<char>, Seq<char>)
    decreases s.len(),
{
    if s.len() == 0 {
        (s, s)
    } else if s[0] == c {
        (Seq::empty(), s.drop_first())
    } else {
        let rest = split_first(s.drop_first(), c);
        (seq![s[0]] + rest.0, rest.1)
    }
}

/// The non-empty `/`-separated segments of `path`, folded from the left with
/// `done` already split off and `current` the segment in progress.
pub open spec fn segment_fold(path: Seq<char>, done: Seq<Seq<char>>, current: Seq<char>) -> Seq<Seq<char>>
    decreases path.len(),
{
    if path.len() == 0 {
        if current.len() == 0 { done } else { done.push(current) }
    } else if path[0] == '/' {
        segment_fold(path.drop_first(), if current.len() == 0 { done } else { done.push(current) }, Seq::empty())
    } else {
        segment_fold(path.drop_first(), done, current.push(path[0]))
    }
}

/// The non-empty `/`-separated segments of `path`.
pub open spec fn segments_of(path: Seq<char>) -> Seq<Seq<char>> {
    segment_fold(path, Seq::empty(), Seq::empty())
}

/// `authority` without a numeric `:port` suffix.
pub open spec fn host_of(authority: Seq<char>) -> Seq<char> {
    let port = crate::files::after_last(authority, ':');
    if port.len() < authority.len() && port.len() > 0
        && forall|k: int| 0 <= k < port.len() ==> crate::files::is_digit(#[trigger] port[k]) {
        authority.take(authority.len() - port.len() - 1)
    } else {
        authority
    }
}

/// The host and path segments of a well-formed `https://` URL, or nothing
/// when the URL is not one.
pub open spec fn parse_url(url: Seq<char>) -> Option<(Seq<char>, Seq<Seq<char>>)> {
    if url.len() < 8 || ascii_lower(url.take(8)) != "https://"@ {
        None
    } else if exists|k: int| 0 <= k < url.len() && is_space(#[trigger] url[k]) {
        None
    } else {
        let parts = split_first(url.skip(8), '/');
        let authority = parts.0;
        let path = before_any(parts.1, '?', '#');
        let host = host_of(authority);
        if authority.contains('@') || host.len() == 0 || host[0] == '.' || host.last() == '.' {
            None
        } else {
            Some((host, segments_of(path)))
        }
    }
}

/// Whether `s` equals the lower-case ASCII text `t` regardless of case.
pub open spec fn eq_ignore_case(s: Seq<char>, t: Seq<char>) -> bool {
    ascii_lower(s) == t
}

/// `https://<site>.atlassian.net/browse/<KEY>`
pub open spec fn jira_shape(host: Seq<char>, segments: Seq<Seq<char>>) -> bool {
    host.len() > 14 && eq_ignore_case(host.skip(host.len() - 14), ".atlassian.net"@)
        && segments.len() == 2 && segments[0] == "browse"@
}

/// `https://github.com/<owner>/<repo>/issues/<number>`
pub open spec fn github_shape(host: Seq<char>, segments: Seq<Seq<char>>) -> bool {
    eq_ignore_case(host, "github.com"@) && segments.len() == 4 && segments[2] == "issues"@
}

/// The position of the first `-` segment, or `-1`.
pub open spec fn separator_of(segments: Seq<Seq<char>>) -> int
    decreases segments.len(),
{
    if segments.len() == 0 {
        -1
    } else if segments[0] == "-"@ {
        0
    } else {
        let rest = separator_of(segments.drop_first());
        if rest < 0 { -1 } else { rest + 1 }
    }
}

/// `https://gitlab.com/<group>/…/<project>/-/issues/<number>`
pub open spec fn gitlab_shape(host: Seq<char>, segments: Seq<Seq<char>>) -> bool {
    let sep = separator_of(segments);
    eq_ignore_case(host, "gitlab.com"@) && sep >= 2 && sep + 3 == segments.len()
        && segments[sep + 1] == "issues"@
}

/// Whether `url` is a defect link `tracker` would accept.
pub open spec fn url_accepted(tracker: Seq<char>, url: Seq<char>) -> bool {
    match parse_url(url) {
        None => false,
        Some((host, segments)) => {
            if tracker == "jira"@ {
                jira_shape(host, segments)
            } else if tracker == "github"@ {
                github_shape(host, segments)
            } else if tracker == "gitlab"@ {
                gitlab_shape(host, segments)
            } else {
                tracker == "custom"@
            }
        },
    }
}

/// How many bytes `c` takes in UTF-8.
pub open spec fn utf8_width(c: char) -> nat {
    if (c as u32) < 0x80 {
        1
    } else if (c as u32) < 0x800 {
        2
    } else if (c as u32) < 0x10000 {
        3
    } else {
        4
    }
}

/// How many bytes `s` takes in UTF-8.
pub open spec fn utf8_len(s: Seq<char>) -> nat
    decreases s.len(),
{
    if s.len() == 0 { 0 } else { utf8_width(s[0]) + utf8_len(s.drop_first()) }
}

/// Whether cutting off the last `n` bytes of `s` would fall inside a
/// character: `s` is longer than `n` bytes and no suffix of whole characters
/// is exactly `n` bytes long.
pub open spec fn cut_inside(s: Seq<char>, n: nat) -> bool {
    utf8_len(s) > n && !exists|k: int| 0 <= k <= s.len() && utf8_len(#[trigger] s.skip(k)) == n
}

/// Whether a Jira check would cut the host inside a character: the suffix is
/// compared by the host's last fourteen bytes, and a host whose fourteenth
/// byte from the end sits inside a multi-byte character cannot be cut there.
pub open spec fn jira_cut_inside_char(tracker: Seq<char>, url: Seq<char>) -> bool {
    tracker == "jira"@ && match parse_url(url) {
        None => false,
        Some((host, _)) => cut_inside(host, 14),
    }
}

proof fn lemma_split_first(s: Seq<char>, c: char, i: int)
    requires
        0 <= i <= s.len(),
        forall|k: int| 0 <= k < i ==> s[k] != c,
        i < s.len() ==> s[i] == c,
    ensures
        split_first(s, c) == (if i < s.len() { (s.take(i), s.skip(i + 1)) } else { (s, Seq::<char>::empty()) }),
    decreases i,
{
    if i > 0 {
        assert(s[0] != c);
        lemma_split_first(s.drop_first(), c, i - 1);
        if i < s.len() {
            assert(seq![s[0]] + s.drop_first().take(i - 1) =~= s.take(i));
            assert(s.drop_first().skip(i) =~= s.skip(i + 1));
        } else {
            assert(seq![s[0]] + s.drop_first() =~= s);
        }
    } else if s.len() > 0 {
        assert(s.take(0) =~= Seq::<char>::empty());
        assert(s.drop_first() =~= s.skip(1));
    }
}

proof fn lemma_before_any(s: Seq<char>, a: char, b: char, i: int)
    requires
        0 <= i <= s.len(),
        forall|k: int| 0 <= k < i ==> s[k] != a && s[k] != b,
        i < s.len() ==> (s[i] == a || s[i] == b),
    ensures
        before_any(s, a, b) == s.take(i),
    decreases i,
{
    if i > 0 {
        assert(s[0] != a && s[0] != b);
        lemma_before_any(s.drop_first(), a, b, i - 1);
        assert(seq![s[0]] + s.drop_first().take(i - 1) =~= s.take(i));
    } else {
        assert(s.take(0) =~= Seq::<char>::empty());
    }
}

/// The view of a list of character vectors.
pub open spec fn texts(v: Seq<Vec<char>>) -> Seq<Seq<char>> {
    v.map_values(|t: Vec<char>| t@)
}

/// The parts of a URL the tracker patterns look at.
#[derive(Debug)]
pub struct UrlParts {
    pub host: Vec<char>,
    pub segments: Vec<Vec<char>>,
}

fn subrange_of(s: &Vec<char>, from: usize, to: usize) -> (r: Vec<char>)
    requires
        from <= to <= s.len(),
    ensures
        r@ == s@.subrange(from as int, to as int),
{
    let mut out: Vec<char> = Vec::new();
    let mut i = from;
    while i < to
        invariant
            from <= i <= to,
            to <= s.len(),
            out@ == s@.subrange(from as int, i as int),
        decreases to - i,
    {
        out.push(s[i]);
        assert(s@.subrange(from as int, i + 1) =~= s@.subrange(from as int, i as int).push(s@[i as int]));
        i = i + 1;
    }
    out
}

fn non_empty_segments(path: &Vec<char>) -> (r: Vec<Vec<char>>)
    ensures
        texts(r@) == segments_of(path@),
{
    let mut done: Vec<Vec<char>> = Vec::new();
    let mut current: Vec<char> = Vec::new();
    let mut i: usize = 0;
    assert(path@.skip(0) =~= path@);
    assert(texts(done@) =~= Seq::<Seq<char>>::empty());
    while i < path.len()
        invariant
            i <= path.len(),
            segments_of(path@) == segment_fold(path@.skip(i as int), texts(done@), current@),
        decreases path.len() - i,
    {
        let ghost rest = path@.skip(i as int);
        assert(rest[0] == path@[i as int]);
        assert(rest.drop_first() =~= path@.skip(i + 1));
        if path[i] == '/' {
            if current.len() > 0 {
                let ghost d = texts(done@);
                let ghost c = current@;
                done.push(current);
                assert(texts(done@) =~= d.push(c));
            }
            current = Vec::new();
        } else {
            current.push(path[i]);
        }
        i = i + 1;
    }
    assert(path@.skip(i as int) =~= Seq::<char>::empty());
    if current.len() > 0 {
        let ghost d = texts(done@);
        let ghost c = current@;
        done.push(current);
        assert(texts(done@) =~= d.push(c));
    }
    done
}


/// The message of a URL that is not a well-formed `https://` URL.
pub open spec fn invalid_url_message() -> Seq<char> {
    "defectUrl must be a well-formed https:// URL"@
}

/// The error `validate_url` answers for `url` under `tracker`, when it refuses.
pub open spec fn url_refusal(tracker: Seq<char>, url: Seq<char>) -> ErrorModel {
    if parse_url(url) is None {
        invalid_request_model(invalid_url_message())
    } else {
        invalid_request_model("defectUrl is not a valid "@ + tracker + " issue URL"@)
    }
}

fn invalid_url() -> (e: DomainError)
    ensures
        e@ == invalid_request_model(invalid_url_message()),
{
    DomainError::invalid_request("defectUrl must be a well-formed https:// URL".to_owned())
}

pub fn space_char(c: char) -> (r: bool)
    ensures
        r == is_space(c),
{
    ('\u{9}' <= c && c <= '\u{d}') || c == ' ' || c == '\u{85}' || c == '\u{a0}' || c == '\u{1680}'
        || ('\u{2000}' <= c && c <= '\u{200a}') || c == '\u{2028}' || c == '\u{2029}'
        || c == '\u{202f}' || c == '\u{205f}' || c == '\u{3000}'
}

fn has_space(s: &Vec<char>) -> (r: bool)
    ensures
        r == exists|k: int| 0 <= k < s@.len() && is_space(#[trigger] s@[k]),
{
    let mut i: usize = 0;
    while i < s.len()
        invariant
            i <= s.len(),
            forall|k: int| 0 <= k < i ==> !is_space(#[trigger] s@[k]),
        decreases s.len() - i,
    {
        if space_char(s[i]) {
            return true;
        }
        i = i + 1;
    }
    false
}

fn holds_char(s: &Vec<char>, c: char) -> (r: bool)
    ensures
        r == s@.contains(c),
{
    let mut i: usize = 0;
    while i < s.len()
        invariant
            i <= s.len(),
            forall|k: int| 0 <= k < i ==> s@[k] != c,
        decreases s.len() - i,
    {
        if s[i] == c {
            assert(s@[i as int] == c);
            return true;
        }
        i = i + 1;
    }
    false
}

pub(crate) fn split_at_first(s: &Vec<char>, c: char) -> (r: (Vec<char>, Vec<char>))
    ensures
        (r.0@, r.1@) == split_first(s@, c),
{
    let mut i: usize = 0;
    while i < s.len() && s[i] != c
        invariant
            i <= s.len(),
            forall|k: int| 0 <= k < i ==> s@[k] != c,
        decreases s.len() - i,
    {
        i = i + 1;
    }
    proof { lemma_split_first(s@, c, i as int); }
    if i < s.len() {
        let head = subrange_of(s, 0, i);
        let tail = subrange_of(s, i + 1, s.len());
        assert(head@ =~= s@.take(i as int));
        assert(tail@ =~= s@.skip(i + 1));
        (head, tail)
    } else {
        let head = subrange_of(s, 0, s.len());
        assert(head@ =~= s@);
        (head, Vec::new())
    }
}

fn before_either(s: &Vec<char>, a: char, b: char) -> (r: Vec<char>)
    ensures
        r@ == before_any(s@, a, b),
{
    let mut i: usize = 0;
    while i < s.len() && s[i] != a && s[i] != b
        invariant
            i <= s.len(),
            forall|k: int| 0 <= k < i ==> s@[k] != a && s@[k] != b,
        decreases s.len() - i,
    {
        i = i + 1;
    }
    proof { lemma_before_any(s@, a, b, i as int); }
    let r = subrange_of(s, 0, i);
    assert(r@ =~= s@.take(i as int));
    r
}

fn all_digits(s: &Vec<char>) -> (r: bool)
    ensures
        r == forall|k: int| 0 <= k < s@.len() ==> crate::files::is_digit(#[trigger] s@[k]),
{
    let mut i: usize = 0;
    while i < s.len()
        invariant
            i <= s.len(),
            forall|k: int| 0 <= k < i ==> crate::files::is_digit(#[trigger] s@[k]),
        decreases s.len() - i,
    {
        if !('0' <= s[i] && s[i] <= '9') {
            assert(!crate::files::is_digit(s@[i as int]));
            return false;
        }
        i = i + 1;
    }
    true
}

fn host_part(authority: &Vec<char>) -> (r: Vec<char>)
    ensures
        r@ == host_of(authority@),
{
    let port = crate::files::suffix_after_last(authority, ':');
    proof { lemma_after_last_len(authority@, ':'); }
    if port.len() < authority.len() && port.len() > 0 && all_digits(&port) {
        let r = subrange_of(authority, 0, authority.len() - port.len() - 1);
        assert(r@ =~= authority@.take(authority.len() - port.len() - 1));
        r
    } else {
        let r = subrange_of(authority, 0, authority.len());
        assert(r@ =~= authority@);
        r
    }
}

proof fn lemma_after_last_len(s: Seq<char>, c: char)
    ensures
        crate::files::after_last(s, c).len() <= s.len(),
    decreases s.len(),
{
    if s.len() > 0 && s.last() != c {
        lemma_after_last_len(s.drop_last(), c);
    }
}

/// Splits a URL into the parts the tracker patterns look at.
fn split_url(url: &str) -> (r: Result<UrlParts, DomainError>)
    ensures
        match r {
            Ok(parts) => parse_url(url@) == Some((parts.host@, texts(parts.segments@))),
            Err(e) => parse_url(url@) is None && e@ == invalid_request_model(invalid_url_message()),
        },
{
    proof { reveal_strlit("https://"); }
    let s = chars_of(url);
    if s.len() < 8 {
        return Err(invalid_url());
    }
    let head = lowered(&subrange_of(&s, 0, 8));
    let scheme = chars_of("https://");
    assert(s@.subrange(0, 8) =~= s@.take(8));
    if !crate::text::chars_eq(&head, &scheme) {
        return Err(invalid_url());
    }
    if has_space(&s) {
        return Err(invalid_url());
    }
    let rest = subrange_of(&s, 8, s.len());
    assert(rest@ =~= s@.skip(8));
    let (authority, after) = split_at_first(&rest, '/');
    let path = before_either(&after, '?', '#');
    if holds_char(&authority, '@') {
        return Err(invalid_url());
    }
    let host = host_part(&authority);
    if host.len() == 0 || host[0] == '.' || host[host.len() - 1] == '.' {
        return Err(invalid_url());
    }
    let segments = non_empty_segments(&path);
    Ok(UrlParts { host, segments })
}

fn matches_ignore_case(s: &Vec<char>, t: &str) -> (r: bool)
    ensures
        r == eq_ignore_case(s@, t@),
{
    let low = lowered(s);
    let target = chars_of(t);
    crate::text::chars_eq(&low, &target)
}

fn segment_is(segment: &Vec<char>, t: &str) -> (r: bool)
    ensures
        r == (segment@ == t@),
{
    let target = chars_of(t);
    crate::text::chars_eq(segment, &target)
}

fn is_jira(parts: &UrlParts) -> (r: bool)
    ensures
        r == jira_shape(parts.host@, texts(parts.segments@)),
{
    proof { reveal_strlit(".atlassian.net"); }
    let n = parts.host.len();
    if n <= 14 {
        return false;
    }
    let tail = subrange_of(&parts.host, n - 14, n);
    assert(tail@ =~= parts.host@.skip(n - 14));
    if !matches_ignore_case(&tail, ".atlassian.net") {
        return false;
    }
    parts.segments.len() == 2 && segment_is(&parts.segments[0], "browse")
}

fn is_github(parts: &UrlParts) -> (r: bool)
    ensures
        r == github_shape(parts.host@, texts(parts.segments@)),
{
    matches_ignore_case(&parts.host, "github.com") && parts.segments.len() == 4 && segment_is(
        &parts.segments[2],
        "issues",
    )
}

fn separator_position(segments: &Vec<Vec<char>>) -> (r: Option<usize>)
    ensures
        match r {
            Some(i) => separator_of(texts(segments@)) == i as int && i < segments@.len(),
            None => separator_of(texts(segments@)) == -1,
        },
{
    let ghost t = texts(segments@);
    let mut i: usize = 0;
    while i < segments.len()
        invariant
            i <= segments.len(),
            t == texts(segments@),
            forall|k: int| 0 <= k < i ==> t[k] != "-"@,
        decreases segments.len() - i,
    {
        if segment_is(&segments[i], "-") {
            proof { lemma_separator_at(t, i as int); }
            return Some(i);
        }
        i = i + 1;
    }
    proof { lemma_separator_at(t, t.len() as int); }
    None
}

proof fn lemma_separator_at(t: Seq<Seq<char>>, i: int)
    requires
        0 <= i <= t.len(),
        forall|k: int| 0 <= k < i ==> t[k] != "-"@,
        i < t.len() ==> t[i] == "-"@,
    ensures
        separator_of(t) == if i < t.len() { i } else { -1 },
    decreases i,
{
    if i > 0 {
        assert(t[0] != "-"@);
        lemma_separator_at(t.drop_first(), i - 1);
    }
}

fn is_gitlab(parts: &UrlParts) -> (r: bool)
    ensures
        r == gitlab_shape(parts.host@, texts(parts.segments@)),
{
    if !matches_ignore_case(&parts.host, "gitlab.com") {
        return false;
    }
    match separator_position(&parts.segments) {
        Some(sep) => {
            sep >= 2 && parts.segments.len() - sep == 3 && segment_is(&parts.segments[sep + 1], "issues")
        },
        None => false,
    }
}

/// Whether the last `n` bytes of `s` start inside a character.
fn cuts_inside(s: &Vec<char>, n: u64) -> (r: bool)
    requires
        n <= 14,
    ensures
        r == cut_inside(s@, n as nat),
{
    let mut k: usize = s.len();
    let mut acc: u64 = 0;
    assert(s@.skip(k as int) =~= Seq::<char>::empty());
    while k > 0 && acc < n
        invariant
            k <= s.len(),
            acc == utf8_len(s@.skip(k as int)),
            acc < n + 4,
            n <= 14,
            forall|j: int| k < j <= s.len() ==> utf8_len(#[trigger] s@.skip(j)) < n,
        decreases k,
    {
        let c = s[k - 1];
        let w: u64 = if (c as u32) < 0x80 {
            1
        } else if (c as u32) < 0x800 {
            2
        } else if (c as u32) < 0x10000 {
            3
        } else {
            4
        };
        assert(s@.skip(k - 1).drop_first() =~= s@.skip(k as int));
        assert(s@.skip(k - 1)[0] == c);
        acc = acc + w;
        k = k - 1;
    }
    proof {
        lemma_suffix_lengths(s@, k as int);
        lemma_utf8_total(s@, k as int);
    }
    assert(s@.skip(0) =~= s@);
    if acc == n {
        assert(utf8_len(s@.skip(k as int)) == n);
        false
    } else if acc < n {
        assert(k == 0);
        false
    } else {
        assert forall|j: int| 0 <= j <= s@.len() implies utf8_len(#[trigger] s@.skip(j)) != n by {
            if j < k {
                assert(utf8_len(s@.skip(j)) > utf8_len(s@.skip(k as int)));
            }
        }
        true
    }
}

proof fn lemma_suffix_lengths(s: Seq<char>, k: int)
    requires
        0 <= k <= s.len(),
    ensures
        forall|j: int| 0 <= j < k ==> utf8_len(#[trigger] s.skip(j)) > utf8_len(s.skip(k)),
    decreases k,
{
    if k > 0 {
        lemma_suffix_lengths(s, k - 1);
        assert(s.skip(k - 1).drop_first() =~= s.skip(k));
    }
}

proof fn lemma_utf8_total(s: Seq<char>, k: int)
    requires
        0 <= k <= s.len(),
    ensures
        utf8_len(s) >= utf8_len(s.skip(k)),
        k > 0 ==> utf8_len(s) > utf8_len(s.skip(k)),
{
    lemma_suffix_lengths(s, k);
    assert(s.skip(0) =~= s);
}

/// Whether checking `url` against `tracker` would cut the URL's host inside a
/// character, which no check can do.
pub fn jira_cut_splits_char(tracker: &str, url: &str) -> (r: bool)
    ensures
        r == jira_cut_inside_char(tracker@, url@),
{
    proof { reveal_strlit("jira"); }
    if !str_eq(tracker, "jira") {
        return false;
    }
    match split_url(url) {
        Ok(parts) => cuts_inside(&parts.host, 14),
        Err(_) => false,
    }
}

/// Checks that `url` is the shape `tracker_type` uses for defect links.
///
/// `custom` accepts any well-formed `https://` URL: a tracker the API does not
/// know by name can still be linked, it just cannot be checked.
pub fn validate_url(tracker_type: &str, url: &str) -> (r: Result<(), DomainError>)
    requires
        !jira_cut_inside_char(tracker_type@, url@),
    ensures
        match r {
            Ok(()) => url_accepted(tracker_type@, url@),
            Err(e) => !url_accepted(tracker_type@, url@) && e@ == url_refusal(tracker_type@, url@),
        },
{
    let parsed = match split_url(url) {
        Ok(parts) => parts,
        Err(e) => {
            return Err(e);
        },
    };
    let accepted = if str_eq(tracker_type, "jira") {
        is_jira(&parsed)
    } else if str_eq(tracker_type, "github") {
        is_github(&parsed)
    } else if str_eq(tracker_type, "gitlab") {
        is_gitlab(&parsed)
    } else {
        str_eq(tracker_type, "custom")
    };
    if accepted {
        Ok(())
    } else {
        let mut message = concat("defectUrl is not a valid ", tracker_type);
        push_str(&mut message, " issue URL");
        Err(DomainError::invalid_request(message))
    }
}

/// Tracker types a defect link may name.
pub const TRACKER_TYPES: [&'static str; 4] = ["jira", "github", "gitlab", "custom"];

/// Whether `tracker` is one of the supported tracker types.
pub open spec fn known_tracker(tracker: Seq<char>) -> bool {
    tracker == "jira"@ || tracker == "github"@ || tracker == "gitlab"@ || tracker == "custom"@
}

/// The error a link request with these fields is refused with, if any.
pub open spec fn request_refusal(defect_id: Seq<char>, defect_url: Seq<char>, tracker: Seq<char>) -> Option<ErrorModel> {
    if defect_id.len() == 0 {
        Some(invalid_request_model("Required field defectId is missing"@))
    } else if defect_url.len() == 0 {
        Some(invalid_request_model("Required field defectUrl is missing"@))
    } else if tracker.len() == 0 {
        Some(invalid_request_model("Required field trackerType is missing"@))
    } else if !known_tracker(tracker) {
        Some(invalid_request_model(
            "Unsupported trackerType `"@ + tracker + "`; expected one of jira, github, gitlab, custom"@,
        ))
    } else if !url_accepted(tracker, defect_url) {
        Some(url_refusal(tracker, defect_url))
    } else {
        None
    }
}

/// Checks a decoded link request against what the API will store: the three
/// fields the client supplies must be non-empty, the tracker must be one the
/// API knows, and the URL must have that tracker's shape.
pub fn check_request(request: DefectLinkRequest) -> (r: Result<DefectLinkRequest, DomainError>)
    requires
        !jira_cut_inside_char(request.tracker_type@, request.defect_url@),
    ensures
        match r {
            Ok(x) => x == request && request_refusal(
                request.defect_id@,
                request.defect_url@,
                request.tracker_type@,
            ) is None,
            Err(e) => request_refusal(request.defect_id@, request.defect_url@, request.tracker_type@)
                == Some(e@),
        },
{
    if is_blank(request.defect_id.as_str()) {
        return Err(DomainError::invalid_request("Required field defectId is missing".to_owned()));
    }
    if is_blank(request.defect_url.as_str()) {
        return Err(DomainError::invalid_request("Required field defectUrl is missing".to_owned()));
    }
    if is_blank(request.tracker_type.as_str()) {
        return Err(DomainError::invalid_request("Required field trackerType is missing".to_owned()));
    }
    let t = request.tracker_type.as_str();
    if !(str_eq(t, "jira") || str_eq(t, "github") || str_eq(t, "gitlab") || str_eq(t, "custom")) {
        let mut message = concat("Unsupported trackerType `", t);
        push_str(&mut message, "`; expected one of jira, github, gitlab, custom");
        return Err(DomainError::invalid_request(message));
    }
    match validate_url(t, request.defect_url.as_str()) {
        Ok(()) => Ok(request),
        Err(e) => Err(e),
    }
}

/// Builds the stored link from a validated request: the client supplies where
/// the defect lives; the API supplies the link's identity and the moment it
/// was made.
pub fn new_link(request: DefectLinkRequest, link_id: String, linked_at: String) -> (r: DefectLink)
    ensures
        r.link_id == link_id,
        r.defect_id == request.defect_id,
        r.defect_url == request.defect_url,
        r.tracker_type == request.tracker_type,
        r.title == request.title,
        r.status == request.status,
        r.linked_at == linked_at,
{
    DefectLink {
        link_id,
        defect_id: request.defect_id,
        defect_url: request.defect_url,
        tracker_type: request.tracker_type,
        title: request.title,
        status: request.status,
        linked_at,
    }
}


/// The message a body that is not a link request is refused with.
pub open spec fn malformed_request_message() -> Seq<char> {
    "Defect link request is invalid: expected defectId, defectUrl and trackerType strings, optional title and status, and nothing else"@
}

/// Reads a link request body, rejecting anything the API will not store: a
/// body that is not a link request document (a member missing, of the wrong
/// type, or one the request does not define), then whatever
/// [`check_request`] refuses.
pub fn parse_request(body: &JsonValue) -> (r: Result<DefectLinkRequest, DomainError>)
    requires
        !(body@.str_at("trackerType"@) matches Some(t) && body@.str_at("defectUrl"@) matches Some(u)
            && jira_cut_inside_char(t, u)),
    ensures
        match r {
            Ok(x) => {
                &&& DefectLinkRequest::fits(body@)
                &&& x.read_from(body@)
                &&& request_refusal(x.defect_id@, x.defect_url@, x.tracker_type@) is None
            },
            Err(e) => if !DefectLinkRequest::fits(body@) {
                e@ == invalid_request_model(malformed_request_message())
            } else {
                body@.str_at("defectId"@) matches Some(d) && body@.str_at("defectUrl"@) matches Some(u)
                    && body@.str_at("trackerType"@) matches Some(t) && request_refusal(d, u, t) == Some(e@)
            },
        },
{
    let request = match DefectLinkRequest::from_json(body) {
        Some(request) => request,
        None => {
            return Err(DomainError::invalid_request(
                "Defect link request is invalid: expected defectId, defectUrl and trackerType strings, optional title and status, and nothing else".to_owned(),
            ));
        },
    };
    check_request(request)
}

} // verus!
