//! Attachment naming: the content type a stored file is recorded with, the
//! name its uploader gave it, and the header a download carries.

use vstd::prelude::*;

use crate::text::{chars_of, concat, push_char, push_str, string_of};

verus! {

/// Largest attachment — and therefore request body — the API accepts, in bytes.
pub const MAX_ATTACHMENT_BYTES: usize = 52428800;

/// Media type every attachment download is answered with.
pub const ATTACHMENT_MEDIA_TYPE: &'static str = "application/octet-stream";

/// The characters after the last `c` in `s`, or all of `s` when it holds none.
pub open spec fn after_last(s: Seq<char>, c: char) -> Seq<char>
    decreases s.len(),
{
    if s.len() == 0 {
        s
    } else if s.last() == c {
        Seq::empty()
    } else {
        after_last(s.drop_last(), c).push(s.last())
    }
}

/// A character in ASCII lower case; any other character is unchanged.
pub open spec fn lower_char(c: char) -> char {
    if 'A' <= c && c <= 'Z' { ((c as u32) + 32) as char } else { c }
}

/// `s` with its ASCII letters in lower case.
pub open spec fn ascii_lower(s: Seq<char>) -> Seq<char> {
    s.map_values(|c: char| lower_char(c))
}

/// The content type recorded for a file with extension `ext` (already lower
/// case).
pub open spec fn mime_for(ext: Seq<char>) -> Seq<char> {
    if ext == "png"@ {
        "image/png"@
    } else if ext == "jpg"@ || ext == "jpeg"@ {
        "image/jpeg"@
    } else if ext == "gif"@ {
        "image/gif"@
    } else if ext == "pdf"@ {
        "application/pdf"@
    } else if ext == "txt"@ {
        "text/plain"@
    } else if ext == "json"@ {
        "application/json"@
    } else {
        "application/octet-stream"@
    }
}

/// The lower-case ASCII form of a character.
pub fn to_lower(c: char) -> (r: char)
    ensures
        r == lower_char(c),
{
    if 'A' <= c && c <= 'Z' {
        proof { assert((c as u32) + 32 < 0xD800); }
        ((c as u32 + 32) as u8) as char
    } else {
        c
    }
}

/// The characters after the last `c`, or all of `s` when it holds none.
pub fn suffix_after_last(s: &Vec<char>, c: char) -> (r: Vec<char>)
    ensures
        r@ == after_last(s@, c),
{
    let mut start: usize = s.len();
    assert(s@.take(start as int) =~= s@);
    assert(after_last(s@, c) + s@.skip(start as int) =~= after_last(s@, c));
    while start > 0 && s[start - 1] != c
        invariant
            start <= s.len(),
            after_last(s@, c) == after_last(s@.take(start as int), c) + s@.skip(start as int),
        decreases start,
    {
        proof {
            let t = s@.take(start as int);
            assert(t.drop_last() =~= s@.take(start - 1));
            assert(s@.skip(start - 1) =~= seq![s@[start - 1]] + s@.skip(start as int));
            assert(after_last(t, c) == after_last(t.drop_last(), c).push(t.last()));
            assert(after_last(t.drop_last(), c).push(t.last()) + s@.skip(start as int)
                =~= after_last(t.drop_last(), c) + s@.skip(start - 1));
        }
        start = start - 1;
    }
    proof {
        let t = s@.take(start as int);
        if start > 0 {
            assert(t.last() == c);
            assert(after_last(t, c) =~= Seq::<char>::empty());
        } else {
            assert(after_last(t, c) =~= Seq::<char>::empty());
        }
        assert(Seq::<char>::empty() + s@.skip(start as int) =~= s@.skip(start as int));
    }
    let mut out: Vec<char> = Vec::new();
    let mut i = start;
    while i < s.len()
        invariant
            start <= i <= s.len(),
            out@ == s@.subrange(start as int, i as int),
        decreases s.len() - i,
    {
        out.push(s[i]);
        assert(s@.subrange(start as int, i + 1) =~= s@.subrange(start as int, i as int).push(s@[i as int]));
        i = i + 1;
    }
    assert(s@.subrange(start as int, s.len() as int) =~= s@.skip(start as int));
    out
}

/// `s` with its ASCII letters in lower case.
pub fn lowered(s: &Vec<char>) -> (r: Vec<char>)
    ensures
        r@ == ascii_lower(s@),
{
    let mut out: Vec<char> = Vec::new();
    let mut i: usize = 0;
    while i < s.len()
        invariant
            i <= s.len(),
            out@ == ascii_lower(s@.take(i as int)),
        decreases s.len() - i,
    {
        out.push(to_lower(s[i]));
        assert(ascii_lower(s@.take(i + 1)) =~= ascii_lower(s@.take(i as int)).push(lower_char(s@[i as int])));
        i = i + 1;
    }
    assert(s@.take(s.len() as int) =~= s@);
    out
}

/// Content type recorded for a stored attachment, chosen by the file's
/// extension regardless of its case.
pub fn mime_type(filename: &str) -> (r: &'static str)
    ensures
        r@ == mime_for(ascii_lower(after_last(filename@, '.'))),
{
    let chars = chars_of(filename);
    let ext_chars = lowered(&suffix_after_last(&chars, '.'));
    let ext = string_of(&ext_chars);
    let e = ext.as_str();
    if crate::text::str_eq(e, "png") {
        "image/png"
    } else if crate::text::str_eq(e, "jpg") || crate::text::str_eq(e, "jpeg") {
        "image/jpeg"
    } else if crate::text::str_eq(e, "gif") {
        "image/gif"
    } else if crate::text::str_eq(e, "pdf") {
        "application/pdf"
    } else if crate::text::str_eq(e, "txt") {
        "text/plain"
    } else if crate::text::str_eq(e, "json") {
        "application/json"
    } else {
        "application/octet-stream"
    }
}

/// The position of the first `c` in `s`, or `-1` when it holds none.
pub open spec fn first_index(s: Seq<char>, c: char) -> int
    decreases s.len(),
{
    if s.len() == 0 {
        -1
    } else if s[0] == c {
        0
    } else {
        let rest = first_index(s.drop_first(), c);
        if rest < 0 { -1 } else { rest + 1 }
    }
}

/// Whether `c` is an ASCII digit.
pub open spec fn is_digit(c: char) -> bool {
    '0' <= c && c <= '9'
}

/// The name a client supplied for a stored attachment: a stored name is
/// `<digits>-<original name>`, and any other name is its own original.
pub open spec fn original_of(s: Seq<char>) -> Seq<char> {
    let i = first_index(s, '-');
    if i > 0 && forall|k: int| 0 <= k < i ==> is_digit(#[trigger] s[k]) {
        s.skip(i + 1)
    } else {
        s
    }
}

proof fn lemma_first_index(s: Seq<char>, c: char, i: int)
    requires
        0 <= i <= s.len(),
        forall|k: int| 0 <= k < i ==> s[k] != c,
        i < s.len() ==> s[i] == c,
    ensures
        first_index(s, c) == (if i < s.len() { i } else { -1 }),
    decreases i,
{
    if i > 0 {
        assert(s[0] != c);
        lemma_first_index(s.drop_first(), c, i - 1);
    }
}

/// The name the client supplied for a stored attachment.
pub fn original_name(filename: &str) -> (r: String)
    ensures
        r@ == original_of(filename@),
{
    let s = chars_of(filename);
    let mut i: usize = 0;
    while i < s.len() && s[i] != '-'
        invariant
            i <= s.len(),
            s@ == filename@,
            forall|k: int| 0 <= k < i ==> s@[k] != '-',
        decreases s.len() - i,
    {
        i = i + 1;
    }
    proof { lemma_first_index(s@, '-', i as int); }
    if i == 0 || i == s.len() {
        return filename.to_owned();
    }
    let mut k: usize = 0;
    while k < i
        invariant
            k <= i,
            i < s.len(),
            s@ == filename@,
            first_index(filename@, '-') == i,
            forall|j: int| 0 <= j < k ==> is_digit(s@[j]),
        decreases i - k,
    {
        if !('0' <= s[k] && s[k] <= '9') {
            assert(!is_digit(filename@[k as int]));
            return filename.to_owned();
        }
        k = k + 1;
    }
    let mut out: Vec<char> = Vec::new();
    let mut j: usize = i + 1;
    while j < s.len()
        invariant
            i < j <= s.len(),
            out@ == s@.subrange(i + 1, j as int),
        decreases s.len() - j,
    {
        out.push(s[j]);
        assert(s@.subrange(i + 1, j + 1) =~= s@.subrange(i + 1, j as int).push(s@[j as int]));
        j = j + 1;
    }
    assert(s@.subrange(i + 1, s.len() as int) =~= s@.skip(i + 1));
    string_of(&out)
}

/// The character an uploaded name keeps in the plain `filename` form: a
/// printable ASCII character other than a quote or a backslash, and `_` in
/// place of anything else.
pub open spec fn plain_char(c: char) -> char {
    if '!' <= c && c <= '~' && c != '"' && c != '\\' { c } else { '_' }
}

/// The upper-case hexadecimal digit for `n`.
pub open spec fn hex_char(n: nat) -> char {
    if n < 10 { ((n + 48) as u32) as char } else { ((n + 55) as u32) as char }
}

/// Whether a byte is in the attribute character set RFC 5987 allows.
pub open spec fn attr_char(b: u8) -> bool {
    (48 <= b && b <= 57) || (65 <= b && b <= 90) || (97 <= b && b <= 122)
        || b == 33 || b == 35 || b == 36 || b == 38 || b == 43 || b == 45 || b == 46
        || b == 94 || b == 95 || b == 96 || b == 124 || b == 126
}

/// One byte, percent-encoded when it is outside the attribute set.
pub open spec fn encode_byte(b: u8) -> Seq<char> {
    if attr_char(b) {
        seq![(b as u32) as char]
    } else {
        seq!['%', hex_char((b / 16) as nat), hex_char((b % 16) as nat)]
    }
}

/// Bytes percent-encoded with the attribute character set RFC 5987 allows.
pub open spec fn percent_encoded(bytes: Seq<u8>) -> Seq<char>
    decreases bytes.len(),
{
    if bytes.len() == 0 {
        Seq::empty()
    } else {
        percent_encoded(bytes.drop_last()) + encode_byte(bytes.last())
    }
}

/// The `Content-Disposition` value for a download of a file named `name`
/// (the original name, already recovered).
pub open spec fn disposition_for(name: Seq<char>) -> Seq<char> {
    let plain = name.map_values(|c: char| plain_char(c));
    let encoded = percent_encoded(vstd::utf8::encode_utf8(name));
    if plain == encoded {
        "attachment; filename=\""@ + plain + "\""@
    } else {
        "attachment; filename=\""@ + plain + "\"; filename*=UTF-8''"@ + encoded
    }
}

fn hex_digit(n: u8) -> (c: char)
    requires
        n < 16,
    ensures
        c == hex_char(n as nat),
{
    if n < 10 { (n + 48) as char } else { (n + 55) as char }
}

/// Percent-encodes a name with the attribute character set RFC 5987 allows.
pub fn percent_encode(name: &str) -> (r: Vec<char>)
    ensures
        r@ == percent_encoded(vstd::utf8::encode_utf8(name@)),
{
    let bytes = name.as_bytes();
    let mut out: Vec<char> = Vec::new();
    let mut i: usize = 0;
    while i < bytes.len()
        invariant
            i <= bytes@.len(),
            bytes@ == vstd::utf8::encode_utf8(name@),
            out@ == percent_encoded(bytes@.take(i as int)),
        decreases bytes@.len() - i,
    {
        let b = bytes[i];
        let ghost before = out@;
        let allowed = (48 <= b && b <= 57) || (65 <= b && b <= 90) || (97 <= b && b <= 122)
            || b == 33 || b == 35 || b == 36 || b == 38 || b == 43 || b == 45 || b == 46
            || b == 94 || b == 95 || b == 96 || b == 124 || b == 126;
        if allowed {
            out.push(b as char);
        } else {
            out.push('%');
            out.push(hex_digit(b / 16));
            out.push(hex_digit(b % 16));
        }
        proof {
            assert(bytes@.take(i + 1).drop_last() =~= bytes@.take(i as int));
            assert(out@ =~= before + encode_byte(b));
        }
        i = i + 1;
    }
    assert(bytes@.take(bytes@.len() as int) =~= bytes@);
    out
}

/// Value of the `Content-Disposition` header for a download of `filename`.
///
/// The uploader's name travels in both the plain and the RFC 5987 forms a
/// client may understand; the encoded form is added only when the two differ.
pub fn content_disposition(filename: &str) -> (r: String)
    ensures
        r@ == disposition_for(original_of(filename@)),
{
    let name = original_name(filename);
    let chars = chars_of(name.as_str());
    let mut plain: Vec<char> = Vec::new();
    let mut i: usize = 0;
    while i < chars.len()
        invariant
            i <= chars.len(),
            plain@ == chars@.take(i as int).map_values(|c: char| plain_char(c)),
        decreases chars.len() - i,
    {
        let c = chars[i];
        let kept = if '!' <= c && c <= '~' && c != '"' && c != '\\' { c } else { '_' };
        plain.push(kept);
        assert(chars@.take(i + 1).map_values(|c: char| plain_char(c))
            =~= chars@.take(i as int).map_values(|c: char| plain_char(c)).push(plain_char(c)));
        i = i + 1;
    }
    assert(chars@.take(chars.len() as int) =~= chars@);
    let encoded = percent_encode(name.as_str());
    let plain_text = string_of(&plain);
    let encoded_text = string_of(&encoded);
    let mut out = concat("attachment; filename=\"", plain_text.as_str());
    if crate::text::chars_eq(&plain, &encoded) {
        push_str(&mut out, "\"");
    } else {
        push_str(&mut out, "\"; filename*=UTF-8''");
        push_str(&mut out, encoded_text.as_str());
    }
    out
}

} // verus!
