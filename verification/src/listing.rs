//! The filters a listing applies: a case-insensitive substring of the
//! identifier, a set of requested tags, and for runs a linked configuration.

use vstd::prelude::*;

use crate::defect::is_space;
use crate::json::{Json, JsonValue};
use crate::text::{chars_of, string_of, str_eq};

verus! {

/// What `str::to_lowercase` gives for a text.
pub uninterp spec fn lowercase(s: Seq<char>) -> Seq<char>;

/// The text in lower case, by the Unicode rules `str::to_lowercase` applies.
#[verifier::external_body]
pub fn to_lowercase(s: &str) -> (r: String)
    ensures
        r@ == lowercase(s@),
{
    s.to_lowercase()
}

/// Whether `needle` occurs in `hay`.
pub open spec fn contains_text(hay: Seq<char>, needle: Seq<char>) -> bool {
    exists|i: int| 0 <= i && i + needle.len() <= hay.len() && #[trigger] hay.subrange(i, i + needle.len()) == needle
}

/// Whether `needle` occurs in `hay`.
pub fn text_contains(hay: &str, needle: &str) -> (r: bool)
    ensures
        r == contains_text(hay@, needle@),
{
    let h = chars_of(hay);
    let n = chars_of(needle);
    if n.len() > h.len() {
        assert forall|i: int| 0 <= i && i + n@.len() <= h@.len() implies #[trigger] h@.subrange(i, i + n@.len()) != n@ by {}
        return false;
    }
    let mut i: usize = 0;
    while i <= h.len() - n.len()
        invariant
            n@ == needle@,
            h@ == hay@,
            n.len() <= h.len(),
            i <= h.len() - n.len() + 1,
            forall|k: int| 0 <= k < i ==> #[trigger] h@.subrange(k, k + n@.len()) != n@,
        decreases h.len() - i,
    {
        let mut j: usize = 0;
        while j < n.len() && h[i + j] == n[j]
            invariant
                i + n.len() <= h.len(),
                j <= n.len(),
                forall|m: int| 0 <= m < j ==> h@[i + m] == n@[m],
            decreases n.len() - j,
        {
            j = j + 1;
        }
        if j == n.len() {
            assert(h@.subrange(i as int, i + n@.len()) =~= n@);
            return true;
        }
        assert(h@.subrange(i as int, i + n@.len())[j as int] != n@[j as int]);
        i = i + 1;
    }
    false
}

/// `s` without leading and trailing white space.
pub open spec fn trimmed(s: Seq<char>) -> Seq<char>
    decreases s.len(),
{
    if s.len() > 0 && is_space(s[0]) {
        trimmed(s.drop_first())
    } else if s.len() > 0 && is_space(s.last()) {
        trimmed(s.drop_last())
    } else {
        s
    }
}

/// The pieces of `s` between its commas, empty ones included.
pub open spec fn comma_pieces(s: Seq<char>) -> Seq<Seq<char>>
    decreases s.len(),
{
    if s.len() == 0 {
        seq![Seq::empty()]
    } else if s.last() == ',' {
        comma_pieces(s.drop_last()).push(Seq::empty())
    } else {
        let p = comma_pieces(s.drop_last());
        p.update(p.len() - 1, p.last().push(s.last()))
    }
}

/// The tags a `?tags=` parameter asks for: its comma-separated pieces, each
/// trimmed and in lower case.
pub open spec fn requested_tags(param: Seq<char>) -> Seq<Seq<char>> {
    comma_pieces(param).map_values(|t: Seq<char>| lowercase(trimmed(t)))
}

/// Whether `document` carries one of `requested` among its `tags`, compared
/// in lower case.
pub open spec fn has_any_tag(document: Json, requested: Seq<Seq<char>>) -> bool {
    match document.get("tags"@) {
        Some(Json::Array(tags)) => exists|k: int|
            0 <= k < tags.len() && (#[trigger] tags[k] matches Json::Str(t) && requested.contains(lowercase(t))),
        _ => false,
    }
}

/// Whether `document` links configuration `config_id` in its `configurations`.
pub open spec fn links_config(document: Json, config_id: Seq<char>) -> bool {
    match document.get("configurations"@) {
        Some(Json::Array(cs)) => exists|k: int| 0 <= k < cs.len() && (#[trigger] cs[k]).str_at("configId"@) == Some(config_id),
        _ => false,
    }
}

proof fn lemma_comma_pieces_len(s: Seq<char>)
    ensures
        comma_pieces(s).len() >= 1,
    decreases s.len(),
{
    if s.len() > 0 {
        lemma_comma_pieces_len(s.drop_last());
    }
}

/// The pieces `ps` written out with a comma between each two.
pub open spec fn joined(ps: Seq<Seq<char>>) -> Seq<char>
    decreases ps.len(),
{
    if ps.len() == 0 {
        Seq::empty()
    } else if ps.len() == 1 {
        ps[0]
    } else {
        joined(ps.drop_last()) + seq![','] + ps.last()
    }
}

/// How many commas `s` holds.
pub open spec fn comma_count(s: Seq<char>) -> nat
    decreases s.len(),
{
    if s.len() == 0 {
        0
    } else {
        comma_count(s.drop_last()) + if s.last() == ',' { 1nat } else { 0nat }
    }
}

proof fn lemma_pieces_split(s: Seq<char>)
    ensures
        comma_pieces(s).len() == comma_count(s) + 1,
        joined(comma_pieces(s)) == s,
        forall|k: int, i: int|
            0 <= k < comma_pieces(s).len() && 0 <= i < comma_pieces(s)[k].len() ==> #[trigger] comma_pieces(s)[k][i] != ',',
    decreases s.len(),
{
    if s.len() == 0 {
        assert(joined(comma_pieces(s)) =~= s);
    } else {
        let init = s.drop_last();
        lemma_pieces_split(init);
        let p = comma_pieces(init);
        let q = comma_pieces(s);
        if s.last() == ',' {
            assert(q == p.push(Seq::<char>::empty()));
            assert(q.drop_last() =~= p);
            assert(joined(q) == joined(p) + seq![','] + Seq::<char>::empty());
            assert(joined(q) =~= s);
            assert forall|k: int, i: int| 0 <= k < q.len() && 0 <= i < q[k].len() implies #[trigger] q[k][i] != ',' by {
                assert(k < p.len());
                assert(q[k] == p[k]);
            }
        } else {
            let n = p.len() - 1;
            let last = p.last().push(s.last());
            assert(q == p.update(n, last));
            if p.len() == 1 {
                assert(joined(p) == p[0]);
                assert(joined(q) == q[0]);
                assert(joined(q) =~= s);
            } else {
                assert(q.drop_last() =~= p.drop_last());
                assert(joined(p) == joined(p.drop_last()) + seq![','] + p.last());
                assert(joined(q) == joined(p.drop_last()) + seq![','] + last);
                let a = joined(p.drop_last()) + seq![','];
                assert(a + last =~= (a + p.last()).push(s.last()));
                assert(s =~= init.push(s.last()));
                assert(joined(q) =~= s);
            }
            assert forall|k: int, i: int| 0 <= k < q.len() && 0 <= i < q[k].len() implies #[trigger] q[k][i] != ',' by {
                if k == n {
                    if i < p[n].len() {
                        assert(q[k][i] == p[n][i]);
                    } else {
                        assert(q[k][i] == s.last());
                    }
                } else {
                    assert(q[k] == p[k]);
                }
            }
        }
    }
}

/// The tags a `?tags=` parameter asks for are its comma-separated pieces:
/// one more than the commas it holds, none holding a comma, the pieces
/// joined by commas giving the parameter back, and each tag the piece at its
/// position, trimmed and in lower case.
pub proof fn lemma_requested_tags_split(param: Seq<char>)
    ensures
        requested_tags(param).len() == comma_count(param) + 1,
        joined(comma_pieces(param)) == param,
        forall|k: int, i: int|
            0 <= k < comma_pieces(param).len() && 0 <= i < comma_pieces(param)[k].len() ==> #[trigger] comma_pieces(
                param,
            )[k][i] != ',',
        forall|k: int|
            0 <= k < requested_tags(param).len() ==> #[trigger] requested_tags(param)[k] == lowercase(
                trimmed(comma_pieces(param)[k]),
            ),
{
    lemma_pieces_split(param);
}

fn trim_text(s: &Vec<char>) -> (r: Vec<char>)
    ensures
        r@ == trimmed(s@),
{
    let mut lo: usize = 0;
    let mut hi: usize = s.len();
    assert(s@.subrange(0, s.len() as int) =~= s@);
    while lo < hi && crate::defect::space_char(s[lo])
        invariant
            lo <= hi <= s.len(),
            hi == s.len(),
            trimmed(s@) == trimmed(s@.subrange(lo as int, hi as int)),
        decreases hi - lo,
    {
        assert(s@.subrange(lo as int, hi as int).drop_first() =~= s@.subrange(lo + 1, hi as int));
        lo = lo + 1;
    }
    while lo < hi && crate::defect::space_char(s[hi - 1])
        invariant
            lo <= hi <= s.len(),
            trimmed(s@) == trimmed(s@.subrange(lo as int, hi as int)),
            lo < hi ==> !is_space(s@[lo as int]),
        decreases hi - lo,
    {
        let ghost t = s@.subrange(lo as int, hi as int);
        assert(t[0] == s@[lo as int]);
        assert(t.drop_last() =~= s@.subrange(lo as int, hi - 1));
        hi = hi - 1;
    }
    let mut out: Vec<char> = Vec::new();
    let mut i = lo;
    while i < hi
        invariant
            lo <= i <= hi,
            hi <= s.len(),
            out@ == s@.subrange(lo as int, i as int),
        decreases hi - i,
    {
        out.push(s[i]);
        assert(s@.subrange(lo as int, i + 1) =~= s@.subrange(lo as int, i as int).push(s@[i as int]));
        i = i + 1;
    }
    proof {
        let t = s@.subrange(lo as int, hi as int);
        if t.len() > 0 {
            assert(t[0] == s@[lo as int]);
            assert(t.last() == s@[hi - 1]);
        }
    }
    out
}

/// The tags a `?tags=` parameter asks for.
pub fn parse_requested_tags(param: &str) -> (r: Vec<String>)
    ensures
        r@.map_values(|t: String| t@) == requested_tags(param@),
{
    let s = chars_of(param);
    let mut pieces: Vec<Vec<char>> = Vec::new();
    pieces.push(Vec::new());
    let mut i: usize = 0;
    assert(s@.take(0) =~= Seq::<char>::empty());
    assert(pieces@.map_values(|t: Vec<char>| t@) =~= comma_pieces(s@.take(0)));
    while i < s.len()
        invariant
            i <= s.len(),
            pieces@.len() >= 1,
            pieces@.map_values(|t: Vec<char>| t@) == comma_pieces(s@.take(i as int)),
        decreases s.len() - i,
    {
        let ghost before = pieces@.map_values(|t: Vec<char>| t@);
        assert(s@.take(i + 1).drop_last() =~= s@.take(i as int));
        assert(s@.take(i + 1).last() == s@[i as int]);
        if s[i] == ',' {
            pieces.push(Vec::new());
            assert(pieces@.map_values(|t: Vec<char>| t@) =~= before.push(Seq::<char>::empty()));
        } else {
            let last = pieces.len() - 1;
            let mut current = pieces.remove(last);
            current.push(s[i]);
            pieces.push(current);
            assert(pieces@.map_values(|t: Vec<char>| t@) =~= before.update(before.len() - 1, before.last().push(s@[i as int])));
        }
        i = i + 1;
    }
    assert(s@.take(i as int) =~= s@);
    let mut out: Vec<String> = Vec::new();
    let mut k: usize = 0;
    while k < pieces.len()
        invariant
            k <= pieces.len(),
            pieces@.map_values(|t: Vec<char>| t@) == comma_pieces(s@),
            s@ == param@,
            out@.map_values(|t: String| t@) == requested_tags(param@).take(k as int),
        decreases pieces.len() - k,
    {
        let trimmed_piece = trim_text(&pieces[k]);
        let text = string_of(&trimmed_piece);
        let lowered = to_lowercase(text.as_str());
        let ghost before = out@.map_values(|t: String| t@);
        assert(comma_pieces(s@)[k as int] == pieces@[k as int]@);
        out.push(lowered);
        assert(out@.map_values(|t: String| t@) =~= before.push(requested_tags(param@)[k as int]));
        assert(requested_tags(param@).take(k + 1) =~= requested_tags(param@).take(k as int).push(
            requested_tags(param@)[k as int],
        ));
        k = k + 1;
    }
    assert(requested_tags(param@).take(k as int) =~= requested_tags(param@));
    out
}

fn contains_lowered(requested: &Vec<String>, tag: &str) -> (r: bool)
    ensures
        r == requested@.map_values(|t: String| t@).contains(lowercase(tag@)),
{
    let low = to_lowercase(tag);
    let ghost texts = requested@.map_values(|t: String| t@);
    let mut i: usize = 0;
    while i < requested.len()
        invariant
            i <= requested.len(),
            texts == requested@.map_values(|t: String| t@),
            low@ == lowercase(tag@),
            forall|k: int| 0 <= k < i ==> texts[k] != low@,
        decreases requested.len() - i,
    {
        if str_eq(requested[i].as_str(), low.as_str()) {
            assert(texts[i as int] == low@);
            return true;
        }
        i = i + 1;
    }
    false
}

/// Whether `document` carries one of `requested` among its `tags`.
pub fn document_has_any_tag(document: &JsonValue, requested: &Vec<String>) -> (r: bool)
    ensures
        r == has_any_tag(document@, requested@.map_values(|t: String| t@)),
{
    let tags = match document.get("tags") {
        Some(JsonValue::Array(tags)) => tags,
        _ => {
            return false;
        },
    };
    proof { crate::json::lemma_array_model(*tags); }
    let ghost req = requested@.map_values(|t: String| t@);
    let ghost ts = crate::json::values_of(tags@);
    let mut i: usize = 0;
    while i < tags.len()
        invariant
            i <= tags.len(),
            ts == crate::json::values_of(tags@),
            req == requested@.map_values(|t: String| t@),
            document@.get("tags"@) == Some(Json::Array(ts)),
            forall|k: int| 0 <= k < i ==> !(#[trigger] ts[k] matches Json::Str(t) && req.contains(lowercase(t))),
        decreases tags.len() - i,
    {
        assert(ts[i as int] == tags@[i as int]@);
        match &tags[i] {
            JsonValue::Str(t) => {
                if contains_lowered(requested, t.as_str()) {
                    return true;
                }
            },
            _ => {},
        }
        i = i + 1;
    }
    false
}

/// Whether `document` links configuration `config_id`.
pub fn document_links_configuration(document: &JsonValue, config_id: &str) -> (r: bool)
    ensures
        r == links_config(document@, config_id@),
{
    let cs = match document.get("configurations") {
        Some(JsonValue::Array(cs)) => cs,
        _ => {
            return false;
        },
    };
    proof { crate::json::lemma_array_model(*cs); }
    let ghost vs = crate::json::values_of(cs@);
    let mut i: usize = 0;
    while i < cs.len()
        invariant
            i <= cs.len(),
            vs == crate::json::values_of(cs@),
            document@.get("configurations"@) == Some(Json::Array(vs)),
            forall|k: int| 0 <= k < i ==> (#[trigger] vs[k]).str_at("configId"@) != Some(config_id@),
        decreases cs.len() - i,
    {
        assert(vs[i as int] == cs@[i as int]@);
        match cs[i].str_at("configId") {
            Some(c) => {
                if str_eq(c.as_str(), config_id) {
                    return true;
                }
            },
            None => {},
        }
        i = i + 1;
    }
    false
}

} // verus!
