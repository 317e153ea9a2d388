//! The pure parts of the web backend: identifier prefixes, URLs, sitemaps, content types and
//! small display formats.

use vstd::prelude::*;
use crate::ids::SynsetId;
use crate::model::MemberSynset;
use crate::settings::EweSettings;
use crate::text::{chars_of, push_char, starts_with, str_eq, strip_prefix, string_from_chars, trim, trimmed};

verus! {

// ---------------------------------------------------------------------------------------------
// Case folding of ASCII letters.
// ---------------------------------------------------------------------------------------------

/// The code of `c` with an ASCII capital letter folded to lowercase.
pub open spec fn fold_ascii(c: char) -> u32 {
    if 'A' <= c && c <= 'Z' {
        ((c as u32) + 32) as u32
    } else {
        c as u32
    }
}

fn fold(c: char) -> (r: u32)
    ensures
        r == fold_ascii(c),
{
    if c >= 'A' && c <= 'Z' {
        (c as u32) + 32
    } else {
        c as u32
    }
}

/// `a` and `b` agree, character by character, up to the case of ASCII letters.
pub open spec fn same_ignoring_ascii_case(a: Seq<char>, b: Seq<char>) -> bool {
    a.len() == b.len() && forall|i: int| 0 <= i < a.len() ==> fold_ascii(#[trigger] a[i]) == fold_ascii(b[i])
}

/// Whether `a[from..from + b.len()]` agrees with `b` up to the case of ASCII letters.
fn chars_match_ignoring_case(a: &Vec<char>, b: &Vec<char>) -> (r: bool)
    requires
        b.len() <= a.len(),
    ensures
        r == same_ignoring_ascii_case(a@.take(b@.len() as int), b@),
{
    let mut i: usize = 0;
    while i < b.len()
        invariant
            b.len() <= a.len(),
            i <= b.len(),
            forall|j: int| 0 <= j < i ==> fold_ascii(#[trigger] a@[j]) == fold_ascii(b@[j]),
        decreases b.len() - i,
    {
        if fold(a[i]) != fold(b[i]) {
            assert(a@.take(b@.len() as int)[i as int] == a@[i as int]);
            return false;
        }
        i += 1;
    }
    assert forall|j: int| 0 <= j < b@.len() implies fold_ascii(#[trigger] a@.take(b@.len() as int)[j]) == fold_ascii(b@[j]) by {
        assert(a@.take(b@.len() as int)[j] == a@[j]);
    }
    true
}

/// Whether two strings agree up to the case of ASCII letters.
pub fn eq_ignore_ascii_case(a: &str, b: &str) -> (r: bool)
    ensures
        r == same_ignoring_ascii_case(a@, b@),
{
    let x = chars_of(a);
    let y = chars_of(b);
    if x.len() != y.len() {
        return false;
    }
    let r = chars_match_ignoring_case(&x, &y);
    assert(x@.take(y@.len() as int) =~= x@);
    r
}

// ---------------------------------------------------------------------------------------------
// Identifier prefixes.
// ---------------------------------------------------------------------------------------------

/// `query` without a leading `{id_prefix}-`, compared up to the case of ASCII letters.
pub open spec fn without_id_prefix(query: Seq<char>, id_prefix: Seq<char>) -> Seq<char> {
    let p = id_prefix + "-"@;
    if p.len() <= query.len() && same_ignoring_ascii_case(query.take(p.len() as int), p) {
        query.skip(p.len() as int)
    } else {
        query
    }
}

/// Strips a leading, case-insensitive `{id_prefix}-` from a search query, so that both
/// `00001740-n` and `oewn-00001740-n` find the same synset.
pub fn strip_id_prefix(query: &str, id_prefix: &str) -> (r: String)
    ensures
        r@ == without_id_prefix(query@, id_prefix@),
{
    proof {
        reveal_strlit("-");
    }
    let mut prefixed = id_prefix.to_owned();
    push_char(&mut prefixed, '-');
    assert(prefixed@ == id_prefix@ + "-"@);
    let q = chars_of(query);
    let p = chars_of(prefixed.as_str());
    if p.len() <= q.len() && chars_match_ignoring_case(&q, &p) {
        string_from_chars(&q, p.len())
    } else {
        query.to_owned()
    }
}

/// `id` without a leading `{id_prefix}-`, or else without a leading `ewn-`.
pub open spec fn bare_synset_id(id: Seq<char>, id_prefix: Seq<char>) -> Option<Seq<char>> {
    let p = id_prefix + "-"@;
    if p.len() <= id.len() && id.take(p.len() as int) == p {
        Some(id.skip(p.len() as int))
    } else if "ewn-"@.len() <= id.len() && id.take("ewn-"@.len() as int) == "ewn-"@ {
        Some(id.skip("ewn-"@.len() as int))
    } else {
        None
    }
}

/// Legacy synset ids carry the dataset name: the configured `{id_prefix}-`, or `ewn-` from when
/// the project had another name. Returns the bare id, or `None` if `id` carries neither prefix.
pub fn strip_synset_id_prefix(id: &str, id_prefix: &str) -> (r: Option<String>)
    ensures
        match bare_synset_id(id@, id_prefix@) {
            Some(b) => r matches Some(s) && s@ == b,
            None => r is None,
        },
{
    proof {
        reveal_strlit("-");
    }
    let mut prefixed = id_prefix.to_owned();
    push_char(&mut prefixed, '-');
    assert(prefixed@ == id_prefix@ + "-"@);
    match strip_prefix(id, prefixed.as_str()) {
        Some(s) => {
            assert(id@.subrange(0, prefixed@.len() as int) == id@.take(prefixed@.len() as int));
            Some(s)
        },
        None => {
            assert(id@.subrange(0, "ewn-"@.len() as int) == id@.take("ewn-"@.len() as int));
            strip_prefix(id, "ewn-")
        },
    }
}

/// The corpus key of a synset: its id with an `oewn-` prefix.
pub fn oewn_key(id: &SynsetId) -> (r: String)
    ensures
        r@ == "oewn-"@ + id@,
{
    let mut r = String::from_str("oewn-");
    r.append(id.as_str());
    r
}

/// The parts of `s` between the separator `sep`, as `str::split` gives them.
pub open spec fn split_on(s: Seq<char>, sep: char) -> Seq<Seq<char>>
    decreases s.len(),
{
    if s.len() == 0 {
        seq![seq![]]
    } else {
        let rest = split_on(s.drop_last(), sep);
        if s.last() == sep {
            rest.push(seq![])
        } else {
            rest.update(rest.len() - 1, rest.last().push(s.last()))
        }
    }
}

proof fn lemma_split_on_nonempty(s: Seq<char>, sep: char)
    ensures
        split_on(s, sep).len() > 0,
    decreases s.len(),
{
    if s.len() > 0 {
        lemma_split_on_nonempty(s.drop_last(), sep);
    }
}

/// The parts of `cs` between the occurrences of `sep`.
fn split_parts(cs: &Vec<char>, sep: char) -> (parts: Vec<Vec<char>>)
    ensures
        parts@.len() == split_on(cs@, sep).len(),
        forall|k: int| 0 <= k < parts@.len() ==> (#[trigger] parts@[k])@ == split_on(cs@, sep)[k],
{
    let mut parts: Vec<Vec<char>> = Vec::new();
    parts.push(Vec::new());
    let mut i: usize = 0;
    while i < cs.len()
        invariant
            i <= cs.len(),
            parts@.len() > 0,
            parts@.len() == split_on(cs@.take(i as int), sep).len(),
            forall|k: int| 0 <= k < parts@.len() ==> (#[trigger] parts@[k])@ == split_on(cs@.take(i as int), sep)[k],
        decreases cs.len() - i,
    {
        let c = cs[i];
        proof {
            assert(cs@.take(i + 1).drop_last() =~= cs@.take(i as int));
            lemma_split_on_nonempty(cs@.take(i as int), sep);
        }
        if c == sep {
            parts.push(Vec::new());
        } else {
            let last = parts.len() - 1;
            let mut cur = parts.pop().unwrap();
            cur.push(c);
            parts.push(cur);
            proof {
                let sp = split_on(cs@.take(i as int), sep);
                assert forall|k: int| 0 <= k < parts@.len() implies (#[trigger] parts@[k])@ == split_on(cs@.take(i + 1), sep)[k] by {
                    if k == last {
                        assert(parts@[k]@ == sp.last().push(c));
                    }
                }
            }
        }
        i += 1;
    }
    assert(cs@.take(cs@.len() as int) =~= cs@);
    parts
}

/// The parts of `s` between the occurrences of `sep`, as `str::split` gives them.
pub fn split_text(s: &str, sep: char) -> (r: Vec<String>)
    ensures
        r@.map_values(|x: String| x@) == split_on(s@, sep),
{
    let cs = chars_of(s);
    let parts = split_parts(&cs, sep);
    let mut r: Vec<String> = Vec::new();
    let mut k: usize = 0;
    while k < parts.len()
        invariant
            k <= parts@.len(),
            parts@.len() == split_on(s@, sep).len(),
            forall|x: int| 0 <= x < parts@.len() ==> (#[trigger] parts@[x])@ == split_on(s@, sep)[x],
            r@.map_values(|x: String| x@) == split_on(s@, sep).take(k as int),
        decreases parts@.len() - k,
    {
        let part = string_from_chars(&parts[k], 0);
        proof {
            assert(parts@[k as int]@.skip(0) =~= parts@[k as int]@);
        }
        let ghost before = r@;
        r.push(part);
        assert(r@.map_values(|x: String| x@) =~= before.map_values(|x: String| x@).push(split_on(s@, sep)[k as int]));
        assert(split_on(s@, sep).take(k + 1) =~= split_on(s@, sep).take(k as int).push(split_on(s@, sep)[k as int]));
        k += 1;
    }
    assert(split_on(s@, sep).take(parts@.len() as int) =~= split_on(s@, sep));
    r
}

/// Whether one of the `;`-separated sense keys of a corpus token is `target`.
pub fn has_sense(value: &str, target: &str) -> (r: bool)
    ensures
        r == split_on(value@, ';').contains(target@),
{
    let cs = chars_of(value);
    let t = chars_of(target);
    let parts = split_parts(&cs, ';');
    let ghost sp = split_on(value@, ';');
    let mut k: usize = 0;
    while k < parts.len()
        invariant
            parts@.len() == sp.len(),
            forall|x: int| 0 <= x < parts@.len() ==> (#[trigger] parts@[x])@ == sp[x],
            t@ == target@,
            k <= parts.len(),
            forall|x: int| 0 <= x < k ==> sp[x] != target@,
            sp == split_on(value@, ';'),
        decreases parts.len() - k,
    {
        if vec_chars_eq(&parts[k], &t) {
            assert(sp[k as int] == target@);
            assert(sp.contains(target@));
            return true;
        }
        k += 1;
    }
    false
}

fn vec_chars_eq(a: &Vec<char>, b: &Vec<char>) -> (r: bool)
    ensures
        r == (a@ == b@),
{
    if a.len() != b.len() {
        return false;
    }
    let mut i: usize = 0;
    while i < a.len()
        invariant
            a.len() == b.len(),
            i <= a.len(),
            forall|j: int| 0 <= j < i ==> a@[j] == b@[j],
        decreases a.len() - i,
    {
        if a[i] != b[i] {
            return false;
        }
        i += 1;
    }
    assert(a@ =~= b@);
    true
}


// ---------------------------------------------------------------------------------------------
// URLs and sitemaps.
// ---------------------------------------------------------------------------------------------

/// `s` without trailing `c`s.
pub open spec fn trim_end_char(s: Seq<char>, c: char) -> Seq<char>
    decreases s.len(),
{
    if s.len() > 0 && s.last() == c {
        trim_end_char(s.drop_last(), c)
    } else {
        s
    }
}

/// `s` without leading `c`s.
pub open spec fn trim_start_char(s: Seq<char>, c: char) -> Seq<char>
    decreases s.len(),
{
    if s.len() > 0 && s[0] == c {
        trim_start_char(s.drop_first(), c)
    } else {
        s
    }
}

/// A base URL and a path joined with exactly one `/` between them.
pub open spec fn joined_url(base: Seq<char>, path: Seq<char>) -> Seq<char> {
    trim_end_char(base, '/') + seq!['/'] + trim_start_char(path, '/')
}

/// Joins a base URL (with or without a trailing slash) and a path (with or without a leading
/// slash) with exactly one `/` between them.
pub fn join_url(base: &str, path: &str) -> (r: String)
    ensures
        r@ == joined_url(base@, path@),
{
    let b = chars_of(base);
    let mut end = b.len();
    assert(b@.take(end as int) =~= b@);
    while end > 0 && b[end - 1] == '/'
        invariant
            b@ == base@,
            end <= b.len(),
            trim_end_char(b@.take(end as int), '/') == trim_end_char(base@, '/'),
        decreases end,
    {
        assert(b@.take(end as int).drop_last() =~= b@.take(end - 1));
        end -= 1;
    }
    let p = chars_of(path);
    let mut start: usize = 0;
    assert(p@.skip(0) =~= p@);
    while start < p.len() && p[start] == '/'
        invariant
            p@ == path@,
            start <= p.len(),
            trim_start_char(p@.skip(start as int), '/') == trim_start_char(path@, '/'),
        decreases p.len() - start,
    {
        assert(p@.skip(start as int).drop_first() =~= p@.skip(start + 1));
        start += 1;
    }
    let mut r = String::new();
    let mut i: usize = 0;
    while i < end
        invariant
            end <= b.len(),
            i <= end,
            r@ == b@.take(i as int),
        decreases end - i,
    {
        push_char(&mut r, b[i]);
        assert(b@.take(i + 1) =~= b@.take(i as int).push(b@[i as int]));
        i += 1;
    }
    push_char(&mut r, '/');
    let tail = string_from_chars(&p, start);
    r.append(tail.as_str());
    proof {
        if end > 0 {
            assert(b@.take(end as int).last() != '/');
        }
        assert(trim_end_char(b@.take(end as int), '/') == b@.take(end as int));
        if start < p@.len() {
            assert(p@.skip(start as int)[0] != '/');
        }
        assert(trim_start_char(p@.skip(start as int), '/') == p@.skip(start as int));
    }
    r
}

/// A character escaped for XML text, as `quick_xml::escape::escape` replaces it.
pub open spec fn xml_escape_char(c: char) -> Seq<char> {
    if c == '<' {
        "&lt;"@
    } else if c == '>' {
        "&gt;"@
    } else if c == '&' {
        "&amp;"@
    } else if c == '\'' {
        "&apos;"@
    } else if c == '"' {
        "&quot;"@
    } else if c == '\r' {
        "&#13;"@
    } else {
        seq![c]
    }
}

/// A string escaped for XML text.
pub open spec fn xml_escaped(s: Seq<char>) -> Seq<char>
    decreases s.len(),
{
    if s.len() == 0 {
        seq![]
    } else {
        xml_escaped(s.drop_last()) + xml_escape_char(s.last())
    }
}

/// `quick_xml::escape::escape`: replaces `<`, `>`, `&`, `'`, `"` and carriage returns by their
/// character references and leaves every other character as it is.
#[verifier::external_body]
fn xml_escape(s: &str) -> (r: String)
    ensures
        r@ == xml_escaped(s@),
{
    quick_xml::escape::escape(s).into_owned()
}

/// The decimal digits of `n`.
pub open spec fn decimal_text(n: nat) -> Seq<char>
    decreases n,
{
    if n < 10 {
        seq![(48 + n) as char]
    } else {
        decimal_text(n / 10) + seq![(48 + n % 10) as char]
    }
}

fn digit_char(d: usize) -> (c: char)
    requires
        d < 10,
    ensures
        c == (48 + d) as char,
{
    match d {
        0 => '0',
        1 => '1',
        2 => '2',
        3 => '3',
        4 => '4',
        5 => '5',
        6 => '6',
        7 => '7',
        8 => '8',
        _ => '9',
    }
}

/// Appends the decimal digits of `n`.
pub fn push_decimal(s: &mut String, n: usize)
    ensures
        final(s)@ == old(s)@ + decimal_text(n as nat),
    decreases n,
{
    if n >= 10 {
        push_decimal(s, n / 10);
    }
    push_char(s, digit_char(n % 10));
}

/// The XML declaration every generated document starts with.
pub open spec fn xml_declaration() -> Seq<char> {
    "<?xml version=\"1.0\" encoding=\"UTF-8\"?>"@
}

/// The `<sitemap>` entries of an index of `n` chunks.
pub open spec fn sitemap_index_entries(base: Seq<char>, n: nat) -> Seq<char>
    decreases n,
{
    if n == 0 {
        seq![]
    } else {
        sitemap_index_entries(base, (n - 1) as nat) + "<sitemap><loc>"@ + xml_escaped(
            joined_url(base, "sitemap/"@ + decimal_text((n - 1) as nat)),
        ) + "</loc></sitemap>"@
    }
}

/// The sitemap index that lists `n` chunk sitemaps.
pub open spec fn sitemap_index_text(base: Seq<char>, n: nat) -> Seq<char> {
    xml_declaration() + "<sitemapindex xmlns=\"http://www.sitemaps.org/schemas/sitemap/0.9\">"@
        + sitemap_index_entries(base, n) + "</sitemapindex>"@
}

/// The `<url>` entries of a chunk sitemap.
pub open spec fn sitemap_chunk_entries(base: Seq<char>, ids: Seq<SynsetId>) -> Seq<char>
    decreases ids.len(),
{
    if ids.len() == 0 {
        seq![]
    } else {
        sitemap_chunk_entries(base, ids.drop_last()) + "<url><loc>"@ + xml_escaped(
            joined_url(base, "view/synset/"@ + ids.last()@),
        ) + "</loc></url>"@
    }
}

/// The chunk sitemap that lists the pages of `ids`.
pub open spec fn sitemap_chunk_text(base: Seq<char>, ids: Seq<SynsetId>) -> Seq<char> {
    xml_declaration() + "<urlset xmlns=\"http://www.sitemaps.org/schemas/sitemap/0.9\">"@
        + sitemap_chunk_entries(base, ids) + "</urlset>"@
}

fn utf8_bytes(s: &String) -> (r: Vec<u8>)
    ensures
        r@ == vstd::utf8::encode_utf8(s@),
{
    vstd::slice::slice_to_vec(s.as_str().as_bytes())
}

/// The sitemap index listing the chunk sitemaps `0..n_chunks`, as UTF-8 XML.
pub fn gen_sitemap_index_xml(base_url: &str, n_chunks: usize) -> (r: Vec<u8>)
    ensures
        r@ == vstd::utf8::encode_utf8(sitemap_index_text(base_url@, n_chunks as nat)),
{
    let mut xml = String::from_str("<?xml version=\"1.0\" encoding=\"UTF-8\"?>");
    xml.append("<sitemapindex xmlns=\"http://www.sitemaps.org/schemas/sitemap/0.9\">");
    let ghost head = xml@;
    let mut i: usize = 0;
    while i < n_chunks
        invariant
            i <= n_chunks,
            xml@ == head + sitemap_index_entries(base_url@, i as nat),
        decreases n_chunks - i,
    {
        let mut path = String::from_str("sitemap/");
        push_decimal(&mut path, i);
        let url = join_url(base_url, path.as_str());
        xml.append("<sitemap><loc>");
        let escaped = xml_escape(url.as_str());
        xml.append(escaped.as_str());
        xml.append("</loc></sitemap>");
        proof {
            assert(xml@ =~= head + sitemap_index_entries(base_url@, (i + 1) as nat));
        }
        i += 1;
    }
    xml.append("</sitemapindex>");
    assert(xml@ =~= sitemap_index_text(base_url@, n_chunks as nat));
    utf8_bytes(&xml)
}

/// The chunk sitemap listing the synset pages of `ids`, as UTF-8 XML.
pub fn gen_sitemap_chunk_xml(base_url: &str, ids: &[SynsetId]) -> (r: Vec<u8>)
    ensures
        r@ == vstd::utf8::encode_utf8(sitemap_chunk_text(base_url@, ids@)),
{
    let mut xml = String::from_str("<?xml version=\"1.0\" encoding=\"UTF-8\"?>");
    xml.append("<urlset xmlns=\"http://www.sitemaps.org/schemas/sitemap/0.9\">");
    let ghost head = xml@;
    let mut i: usize = 0;
    while i < ids.len()
        invariant
            i <= ids@.len(),
            xml@ == head + sitemap_chunk_entries(base_url@, ids@.take(i as int)),
        decreases ids@.len() - i,
    {
        let mut path = String::from_str("view/synset/");
        path.append(ids[i].as_str());
        let url = join_url(base_url, path.as_str());
        xml.append("<url><loc>");
        let escaped = xml_escape(url.as_str());
        xml.append(escaped.as_str());
        xml.append("</loc></url>");
        proof {
            assert(ids@.take(i + 1).drop_last() =~= ids@.take(i as int));
            assert(xml@ =~= head + sitemap_chunk_entries(base_url@, ids@.take(i + 1)));
        }
        i += 1;
    }
    xml.append("</urlset>");
    assert(ids@.take(ids@.len() as int) =~= ids@);
    assert(xml@ =~= sitemap_chunk_text(base_url@, ids@));
    utf8_bytes(&xml)
}

/// Whether `p` begins with `prefix`.
pub open spec fn begins_with(p: Seq<char>, prefix: Seq<char>) -> bool {
    prefix.len() <= p.len() && p.subrange(0, prefix.len() as int) == prefix
}

/// The routes of the export links (API docs and the JSON, RDF, Turtle and XML exports of
/// synsets and lemmas), whose requests are served without their `Referer`.
pub open spec fn export_link_path(p: Seq<char>) -> bool {
    p == "/api/docs"@ || begins_with(p, "/api/synset/"@) || begins_with(p, "/api/lemma/"@) || begins_with(
        p,
        "/rdf/synset/"@,
    ) || begins_with(p, "/rdf/lemma/"@) || begins_with(p, "/ttl/synset/"@) || begins_with(p, "/ttl/lemma/"@)
        || begins_with(p, "/xml/synset/"@) || begins_with(p, "/xml/lemma/"@)
}

/// Whether a request path is an export link, whose `Referer` header is removed before the
/// request is handled.
pub fn is_export_link(path: &str) -> (r: bool)
    ensures
        r == export_link_path(path@),
{
    str_eq(path, "/api/docs") || starts_with(path, "/api/synset/") || starts_with(path, "/api/lemma/")
        || starts_with(path, "/rdf/synset/") || starts_with(path, "/rdf/lemma/") || starts_with(path, "/ttl/synset/")
        || starts_with(path, "/ttl/lemma/") || starts_with(path, "/xml/synset/") || starts_with(path, "/xml/lemma/")
}

/// Synsets per chunk sitemap: comfortably under the protocol's cap of 50,000 URLs per file.
pub const SITEMAP_CHUNK_SIZE: usize = 45000;

/// How many chunk sitemaps `n` synsets take: one per started chunk, and at least one.
pub open spec fn chunk_count(n: nat) -> nat {
    if n == 0 {
        1
    } else {
        ((n + SITEMAP_CHUNK_SIZE - 1) / (SITEMAP_CHUNK_SIZE as int)) as nat
    }
}

/// How many chunk sitemaps `n_synsets` synsets take.
pub fn sitemap_chunk_count(n_synsets: usize) -> (r: usize)
    ensures
        r == chunk_count(n_synsets as nat),
{
    let full = n_synsets / SITEMAP_CHUNK_SIZE;
    let chunks = if n_synsets % SITEMAP_CHUNK_SIZE != 0 { full + 1 } else { full };
    if chunks < 1 {
        1
    } else {
        chunks
    }
}

/// The synsets that chunk `n` (0-indexed) of the sitemap lists, out of all of them in order:
/// none for a chunk past the last one.
pub open spec fn chunk_of(ids: Seq<SynsetId>, n: nat) -> Seq<SynsetId> {
    let start = n * SITEMAP_CHUNK_SIZE;
    if start >= ids.len() {
        seq![]
    } else if start + SITEMAP_CHUNK_SIZE <= ids.len() {
        ids.subrange(start as int, start + SITEMAP_CHUNK_SIZE)
    } else {
        ids.subrange(start as int, ids.len() as int)
    }
}

/// The synsets of chunk `n` of the sitemap.
pub fn sitemap_chunk_ids(ids: &[SynsetId], n: usize) -> (r: Vec<SynsetId>)
    ensures
        r@ == chunk_of(ids@, n as nat),
{
    let len = ids.len();
    if n > len / SITEMAP_CHUNK_SIZE {
        assert(n * SITEMAP_CHUNK_SIZE >= len) by (nonlinear_arith)
            requires
                n > len / 45000,
                SITEMAP_CHUNK_SIZE == 45000,
        ;
        return Vec::new();
    }
    assert(n * SITEMAP_CHUNK_SIZE <= len) by (nonlinear_arith)
        requires
            n <= len / 45000,
            SITEMAP_CHUNK_SIZE == 45000,
    ;
    let start = n * SITEMAP_CHUNK_SIZE;
    let end = if len - start >= SITEMAP_CHUNK_SIZE { start + SITEMAP_CHUNK_SIZE } else { len };
    let mut r: Vec<SynsetId> = Vec::new();
    let mut k = start;
    while k < end
        invariant
            start <= k <= end <= len,
            len == ids@.len(),
            r@ == ids@.subrange(start as int, k as int),
        decreases end - k,
    {
        r.push(ids[k].clone());
        assert(ids@.subrange(start as int, k + 1) =~= ids@.subrange(start as int, k as int).push(ids@[k as int]));
        k += 1;
    }
    if start == len {
        assert(r@ =~= Seq::<SynsetId>::empty());
    }
    r
}

/// The sitemap loses no synset: synset `k` of all of them is listed by chunk
/// `k / SITEMAP_CHUNK_SIZE`, one of the chunks the index lists, at position
/// `k % SITEMAP_CHUNK_SIZE`.
pub proof fn law_every_synset_is_in_its_chunk(ids: Seq<SynsetId>, k: int)
    requires
        0 <= k < ids.len(),
    ensures
        k / (SITEMAP_CHUNK_SIZE as int) < chunk_count(ids.len()),
        k % (SITEMAP_CHUNK_SIZE as int) < chunk_of(ids, (k / (SITEMAP_CHUNK_SIZE as int)) as nat).len(),
        chunk_of(ids, (k / (SITEMAP_CHUNK_SIZE as int)) as nat)[k % (SITEMAP_CHUNK_SIZE as int)] == ids[k],
{
    let p = k / 45000;
    let i = k % 45000;
    let n = ids.len() as int;
    assert(p * 45000 + i == k && 0 <= i < 45000 && p >= 0) by (nonlinear_arith)
        requires
            p == k / 45000,
            i == k % 45000,
            k >= 0,
    ;
    assert(p < (n + 44999) / 45000) by (nonlinear_arith)
        requires
            p == k / 45000,
            0 <= k < n,
    ;
}

/// The rules every crawler gets: the machine-readable routes are disallowed.
pub open spec fn robots_rules() -> Seq<char> {
    "User-agent: *\nDisallow: /id/\nDisallow: /synset/\nDisallow: /lemma/\nDisallow: /rdf/\nDisallow: /xml/\nDisallow: /ttl/\nDisallow: /api/\n"@
}

/// The body of `robots.txt`: the rules, then the sitemap's address when a base URL is set.
pub fn robots_body(base_url: Option<&str>) -> (r: String)
    ensures
        r@ == match base_url {
            Some(b) => robots_rules() + "\nSitemap: "@ + joined_url(b@, "sitemap.xml"@) + "\n"@,
            None => robots_rules(),
        },
{
    let mut body = String::from_str("User-agent: *\nDisallow: /id/\nDisallow: /synset/\nDisallow: /lemma/\nDisallow: /rdf/\nDisallow: /xml/\nDisallow: /ttl/\nDisallow: /api/\n");
    if let Some(b) = base_url {
        body.append("\nSitemap: ");
        let url = join_url(b, "sitemap.xml");
        body.append(url.as_str());
        body.append("\n");
    }
    body
}


// ---------------------------------------------------------------------------------------------
// Content types.
// ---------------------------------------------------------------------------------------------

/// The extension of the final component of a path, as `Path::extension` finds it.
pub uninterp spec fn path_extension(p: Seq<char>) -> Option<Seq<char>>;

/// `Path::extension` of `path`, spelled as a string.
#[verifier::external_body]
fn extension_of(path: &str) -> (r: Option<String>)
    ensures
        path_extension(path@) == match r {
            Some(e) => Some(e@),
            None => None,
        },
{
    match std::path::Path::new(path).extension() {
        Some(e) => Some(e.to_string_lossy().to_string()),
        None => None,
    }
}

/// The media type a release archive is served with, by its extension (ignoring ASCII case).
pub open spec fn download_media_type(ext: Option<Seq<char>>) -> Seq<char> {
    match ext {
        Some(e) => if same_ignoring_ascii_case(e, "zip"@) {
            "application/zip"@
        } else if same_ignoring_ascii_case(e, "gz"@) {
            "application/gzip"@
        } else if same_ignoring_ascii_case(e, "xml"@) {
            "application/xml"@
        } else if same_ignoring_ascii_case(e, "ttl"@) {
            "text/turtle"@
        } else if same_ignoring_ascii_case(e, "json"@) {
            "application/json"@
        } else {
            "application/octet-stream"@
        },
        None => "application/octet-stream"@,
    }
}

/// The media type a release archive is served with.
pub fn download_content_type(filename: &str) -> (r: &'static str)
    ensures
        r@ == download_media_type(path_extension(filename@)),
{
    match extension_of(filename) {
        Some(e) => {
            let e = e.as_str();
            if eq_ignore_ascii_case(e, "zip") {
                "application/zip"
            } else if eq_ignore_ascii_case(e, "gz") {
                "application/gzip"
            } else if eq_ignore_ascii_case(e, "xml") {
                "application/xml"
            } else if eq_ignore_ascii_case(e, "ttl") {
                "text/turtle"
            } else if eq_ignore_ascii_case(e, "json") {
                "application/json"
            } else {
                "application/octet-stream"
            }
        },
        None => "application/octet-stream",
    }
}

/// The media type a configured static file (logo, stylesheet) is served with.
pub open spec fn static_media_type(ext: Option<Seq<char>>) -> Seq<char> {
    match ext {
        Some(e) => if same_ignoring_ascii_case(e, "svg"@) {
            "image/svg+xml"@
        } else if same_ignoring_ascii_case(e, "png"@) {
            "image/png"@
        } else if same_ignoring_ascii_case(e, "jpg"@) || same_ignoring_ascii_case(e, "jpeg"@) {
            "image/jpeg"@
        } else if same_ignoring_ascii_case(e, "gif"@) {
            "image/gif"@
        } else if same_ignoring_ascii_case(e, "webp"@) {
            "image/webp"@
        } else if same_ignoring_ascii_case(e, "ico"@) {
            "image/x-icon"@
        } else if same_ignoring_ascii_case(e, "css"@) {
            "text/css"@
        } else {
            "application/octet-stream"@
        },
        None => "application/octet-stream"@,
    }
}

/// The media type a configured static file is served with.
pub fn static_content_type(path: &str) -> (r: &'static str)
    ensures
        r@ == static_media_type(path_extension(path@)),
{
    match extension_of(path) {
        Some(e) => {
            let e = e.as_str();
            if eq_ignore_ascii_case(e, "svg") {
                "image/svg+xml"
            } else if eq_ignore_ascii_case(e, "png") {
                "image/png"
            } else if eq_ignore_ascii_case(e, "jpg") || eq_ignore_ascii_case(e, "jpeg") {
                "image/jpeg"
            } else if eq_ignore_ascii_case(e, "gif") {
                "image/gif"
            } else if eq_ignore_ascii_case(e, "webp") {
                "image/webp"
            } else if eq_ignore_ascii_case(e, "ico") {
                "image/x-icon"
            } else if eq_ignore_ascii_case(e, "css") {
                "text/css"
            } else {
                "application/octet-stream"
            }
        },
        None => "application/octet-stream",
    }
}

/// The representations a page can be negotiated into.
#[derive(Debug, PartialEq, Eq, Clone, Copy)]
pub enum ContentType {
    HTML,
    RDFXML,
    Turtle,
    XML,
    JSON,
}

/// The representation a media range of an `Accept` header asks for, if it is one served.
pub open spec fn media_range_type(mime: Seq<char>) -> Option<ContentType> {
    if mime == "text/html"@ {
        Some(ContentType::HTML)
    } else if mime == "application/rdf+xml"@ {
        Some(ContentType::RDFXML)
    } else if mime == "text/turtle"@ {
        Some(ContentType::Turtle)
    } else if mime == "application/xml"@ {
        Some(ContentType::XML)
    } else if mime == "application/json"@ {
        Some(ContentType::JSON)
    } else if mime == "*/*"@ {
        Some(ContentType::HTML)
    } else {
        None
    }
}

/// The representation a media range asks for.
pub fn content_type_for(mime: &str) -> (r: Option<ContentType>)
    ensures
        r == media_range_type(mime@),
{
    if str_eq(mime, "text/html") {
        Some(ContentType::HTML)
    } else if str_eq(mime, "application/rdf+xml") {
        Some(ContentType::RDFXML)
    } else if str_eq(mime, "text/turtle") {
        Some(ContentType::Turtle)
    } else if str_eq(mime, "application/xml") {
        Some(ContentType::XML)
    } else if str_eq(mime, "application/json") {
        Some(ContentType::JSON)
    } else if str_eq(mime, "*/*") {
        Some(ContentType::HTML)
    } else {
        None
    }
}

/// The quality of a media range, as text: what follows `q=` in the last of its parameters that
/// begins with `q=` once trimmed; none when no parameter does.
pub open spec fn quality_text(params: Seq<Seq<char>>) -> Option<Seq<char>>
    decreases params.len(),
{
    if params.len() == 0 {
        None
    } else if begins_with(trimmed(params.last()), "q="@) {
        Some(trimmed(params.last()).skip(2))
    } else {
        quality_text(params.drop_last())
    }
}

/// The media ranges of an `Accept` header, in order: for each comma-separated part, its media
/// type (what comes before its first `;`, trimmed) and its quality text.
pub open spec fn media_ranges(accept: Seq<char>) -> Seq<(Seq<char>, Option<Seq<char>>)> {
    split_on(accept, ',').map_values(
        |part: Seq<char>| (trimmed(split_on(part, ';')[0]), quality_text(split_on(part, ';').drop_first())),
    )
}

/// The text of an optional string.
pub open spec fn opt_text(o: Option<String>) -> Option<Seq<char>> {
    match o {
        Some(t) => Some(t@),
        None => None,
    }
}

/// The quality text of the parameters `params[1..]`.
fn quality_of(params: &Vec<String>) -> (r: Option<String>)
    requires
        params@.len() > 0,
    ensures
        opt_text(r) == quality_text(params@.map_values(|x: String| x@).drop_first()),
{
    let ghost ps = params@.map_values(|x: String| x@).drop_first();
    let mut q: Option<String> = None;
    let mut k: usize = 1;
    proof {
        reveal_strlit("q=");
        assert(ps.take(0) =~= Seq::<Seq<char>>::empty());
    }
    while k < params.len()
        invariant
            1 <= k <= params@.len(),
            ps == params@.map_values(|x: String| x@).drop_first(),
            opt_text(q) == quality_text(ps.take(k - 1)),
        decreases params@.len() - k,
    {
        let piece = trim(params[k].as_str());
        proof {
            reveal_strlit("q=");
            let t = ps.take(k as int);
            assert(t.drop_last() =~= ps.take(k - 1));
            assert(t.last() == params@[k as int]@);
        }
        if starts_with(piece.as_str(), "q=") {
            let cs = chars_of(piece.as_str());
            q = Some(string_from_chars(&cs, 2));
        }
        k += 1;
    }
    proof {
        assert(ps.take(params@.len() - 1) =~= ps);
    }
    q
}

/// The media ranges of an `Accept` header, each with its quality text (see `media_ranges`).
pub fn accept_media_ranges(accept: &str) -> (r: Vec<(String, Option<String>)>)
    ensures
        r@.map_values(|x: (String, Option<String>)| (x.0@, opt_text(x.1))) == media_ranges(accept@),
{
    let parts = split_text(accept, ',');
    let ghost all = media_ranges(accept@);
    let mut r: Vec<(String, Option<String>)> = Vec::new();
    let mut k: usize = 0;
    while k < parts.len()
        invariant
            k <= parts@.len(),
            all == media_ranges(accept@),
            parts@.map_values(|x: String| x@) == split_on(accept@, ','),
            r@.map_values(|x: (String, Option<String>)| (x.0@, opt_text(x.1))) == all.take(k as int),
        decreases parts@.len() - k,
    {
        let params = split_text(parts[k].as_str(), ';');
        proof {
            lemma_split_on_nonempty(parts@[k as int]@, ';');
            assert(params@.map_values(|x: String| x@).drop_first() =~= split_on(parts@[k as int]@, ';').drop_first());
            assert(params@[0]@ == split_on(parts@[k as int]@, ';')[0]);
        }
        let mime = trim(params[0].as_str());
        let q = quality_of(&params);
        let ghost before = r@;
        r.push((mime, q));
        proof {
            assert(all[k as int] == (trimmed(split_on(parts@[k as int]@, ';')[0]), quality_text(
                split_on(parts@[k as int]@, ';').drop_first(),
            )));
            assert(r@.map_values(|x: (String, Option<String>)| (x.0@, opt_text(x.1))) =~= before.map_values(
                |x: (String, Option<String>)| (x.0@, opt_text(x.1)),
            ).push(all[k as int]));
            assert(all.take(k + 1) =~= all.take(k as int).push(all[k as int]));
        }
        k += 1;
    }
    proof {
        assert(all.take(parts@.len() as int) =~= all);
    }
    r
}

/// The representation chosen from media ranges already ordered by preference: the first one
/// served, or HTML when none is.
pub open spec fn first_served(mimes: Seq<&str>) -> ContentType
    decreases mimes.len(),
{
    if mimes.len() == 0 {
        ContentType::HTML
    } else {
        match media_range_type(mimes[0]@) {
            Some(t) => t,
            None => first_served(mimes.drop_first()),
        }
    }
}

/// Chooses the representation for media ranges ordered by preference (highest quality first).
pub fn negotiate_ranked(mimes: &[&str]) -> (r: ContentType)
    ensures
        r == first_served(mimes@),
{
    let mut i: usize = 0;
    assert(mimes@.skip(0) =~= mimes@);
    while i < mimes.len()
        invariant
            i <= mimes@.len(),
            first_served(mimes@) == first_served(mimes@.skip(i as int)),
        decreases mimes@.len() - i,
    {
        assert(mimes@.skip(i as int).drop_first() =~= mimes@.skip(i + 1));
        assert(mimes@.skip(i as int)[0] == mimes@[i as int]);
        if let Some(t) = content_type_for(mimes[i]) {
            return t;
        }
        i += 1;
    }
    ContentType::HTML
}

// ---------------------------------------------------------------------------------------------
// Small display formats.
// ---------------------------------------------------------------------------------------------

/// The text `chrono` formats for the UTC time `ms` milliseconds after the epoch with the format
/// `fmt`; `None` when `ms` is out of `chrono`'s range.
pub uninterp spec fn utc_millis_text(ms: i64, fmt: Seq<char>) -> Option<Seq<char>>;

/// A format that `chrono`'s strftime parser accepts: every `%` begins one of the specifiers
/// `%Y`, `%m`, `%d`, `%H`, `%M`, `%S`; every other character stands for itself.
pub open spec fn plain_time_format(fmt: Seq<char>) -> bool {
    forall|i: int|
        0 <= i < fmt.len() && #[trigger] fmt[i] == '%' ==> i + 1 < fmt.len() && (fmt[i + 1] == 'Y' || fmt[i + 1] == 'm'
            || fmt[i + 1] == 'd' || fmt[i + 1] == 'H' || fmt[i + 1] == 'M' || fmt[i + 1] == 'S')
}

/// `DateTime::<Utc>::from_timestamp_millis` followed by `format(fmt)`; `fmt` is held to formats
/// without an invalid specifier, on which formatting (and so `to_string`) would panic.
#[verifier::external_body]
fn format_utc_millis(ms: i64, fmt: &str) -> (r: Option<String>)
    requires
        plain_time_format(fmt@),
    ensures
        utc_millis_text(ms, fmt@) == match r {
            Some(t) => Some(t@),
            None => None,
        },
{
    match chrono::DateTime::<chrono::Utc>::from_timestamp_millis(ms) {
        Some(dt) => Some(dt.format(fmt).to_string()),
        None => None,
    }
}

/// A change-log timestamp in milliseconds as `YYYY-MM-DD HH:MM:SS UTC`, or `unknown time`.
pub fn format_timestamp(timestamp_ms: u64) -> (r: String)
    ensures
        r@ == match utc_millis_text(timestamp_ms as i64, "%Y-%m-%d %H:%M:%S UTC"@) {
            Some(t) => t,
            None => "unknown time"@,
        },
{
    proof {
        reveal_strlit("%Y-%m-%d %H:%M:%S UTC");
        let f = "%Y-%m-%d %H:%M:%S UTC"@;
        assert forall|i: int| 0 <= i < f.len() && #[trigger] f[i] == '%' implies i + 1 < f.len() && (f[i + 1] == 'Y'
            || f[i + 1] == 'm' || f[i + 1] == 'd' || f[i + 1] == 'H' || f[i + 1] == 'M' || f[i + 1] == 'S') by {
            assert(i == 0 || i == 3 || i == 6 || i == 9 || i == 12 || i == 15);
        }
    }
    match format_utc_millis(timestamp_ms as i64, "%Y-%m-%d %H:%M:%S UTC") {
        Some(t) => t,
        None => String::from_str("unknown time"),
    }
}

/// The three digits of `n` below 1000, with leading zeros.
pub open spec fn three_digits(n: nat) -> Seq<char> {
    seq![(48 + n / 100 % 10) as char, (48 + n / 10 % 10) as char, (48 + n % 10) as char]
}

/// `n` in decimal with its digits grouped by thousands, e.g. `142,384`.
pub open spec fn grouped_decimal(n: nat) -> Seq<char>
    decreases n,
{
    if n < 1000 {
        decimal_text(n)
    } else {
        grouped_decimal(n / 1000) + seq![','] + three_digits(n % 1000)
    }
}

fn push_grouped(s: &mut String, n: usize)
    ensures
        final(s)@ == old(s)@ + grouped_decimal(n as nat),
    decreases n,
{
    if n < 1000 {
        push_decimal(s, n);
    } else {
        push_grouped(s, n / 1000);
        push_char(s, ',');
        let m = n % 1000;
        push_char(s, digit_char(m / 100 % 10));
        push_char(s, digit_char(m / 10 % 10));
        push_char(s, digit_char(m % 10));
    }
}

/// `n` with its digits grouped by thousands, e.g. `142,384`.
pub fn format_count(n: usize) -> (r: String)
    ensures
        r@ == grouped_decimal(n as nat),
{
    let mut r = String::new();
    push_grouped(&mut r, n);
    r
}

/// The lemmas of `members`, each in single quotes, separated by `, `.
pub open spec fn quoted_lemmas(ms: Seq<crate::model::Member>) -> Seq<char>
    decreases ms.len(),
{
    if ms.len() == 0 {
        seq![]
    } else if ms.len() == 1 {
        "'"@ + ms[0].lemma@ + "'"@
    } else {
        quoted_lemmas(ms.drop_last()) + ", '"@ + ms.last().lemma@ + "'"@
    }
}

/// The heading of the occurrences page of a synset: its quoted lemmas (or the bare id when it
/// has none, or when the synset is missing) and its first definition.
pub open spec fn heading_for(synset: Option<MemberSynset>, id: Seq<char>) -> Seq<char> {
    match synset {
        None => "Occurrences of "@ + id,
        Some(s) => {
            let lemma_text = if s.members@.len() == 0 {
                id
            } else {
                quoted_lemmas(s.members@)
            };
            if s.definition@.len() > 0 {
                "Occurrences of "@ + lemma_text + " ("@ + s.definition@[0]@ + ")"@
            } else {
                "Occurrences of "@ + lemma_text
            }
        },
    }
}

/// The heading of the occurrences page of a synset.
pub fn heading_text(synset: Option<MemberSynset>, id: &str) -> (r: String)
    ensures
        r@ == heading_for(synset, id@),
{
    let mut r = String::from_str("Occurrences of ");
    match synset {
        None => {
            r.append(id);
            r
        },
        Some(s) => {
            if s.members.len() == 0 {
                r.append(id);
            } else {
                let ghost head = r@;
                let mut i: usize = 0;
                while i < s.members.len()
                    invariant
                        i <= s.members@.len(),
                        r@ == head + quoted_lemmas(s.members@.take(i as int)),
                    decreases s.members@.len() - i,
                {
                    proof {
                        assert(s.members@.take(i + 1).drop_last() =~= s.members@.take(i as int));
                    }
                    if i == 0 {
                        r.append("'");
                    } else {
                        r.append(", '");
                    }
                    r.append(s.members[i].lemma.as_str());
                    r.append("'");
                    proof {
                        assert(r@ =~= head + quoted_lemmas(s.members@.take(i + 1)));
                    }
                    i += 1;
                }
                assert(s.members@.take(s.members@.len() as int) =~= s.members@);
            }
            if s.definition.len() > 0 {
                r.append(" (");
                r.append(s.definition[0].as_str());
                r.append(")");
            }
            r
        },
    }
}

/// The metadata recorded in an exported lexicon.
#[derive(Debug)]
pub struct LexiconMetadata {
    pub id_prefix: String,
    pub label: String,
    pub language: String,
    pub email: Option<String>,
    pub license: String,
    pub version: String,
    pub url: Option<String>,
}

fn clone_opt(o: &Option<String>) -> (r: Option<String>)
    ensures
        r == *o,
{
    match o {
        Some(s) => Some(s.clone()),
        None => None,
    }
}

/// The export metadata of a deployment: its id prefix, project name, contact and source URL,
/// with the fixed language, license and version.
pub fn metadata(settings: &EweSettings) -> (r: LexiconMetadata)
    ensures
        r.id_prefix == settings.id_prefix,
        r.label == settings.project_name,
        r.language@ == "en"@,
        r.email == settings.contact_email,
        r.license@ == "https://creativecommons.org/licenses/by/4.0"@,
        r.version@ == "2024"@,
        r.url == settings.source_url,
{
    LexiconMetadata {
        id_prefix: settings.id_prefix.clone(),
        label: settings.project_name.clone(),
        language: String::from_str("en"),
        email: clone_opt(&settings.contact_email),
        license: String::from_str("https://creativecommons.org/licenses/by/4.0"),
        version: String::from_str("2024"),
        url: clone_opt(&settings.source_url),
    }
}

/// Which heading of a lemma's page a synset is listed under, by the last character of its
/// identifier: 0 for nouns (`n`), 1 for verbs (`v`), 2 for adjectives (`a` or `s`) and 3 for the
/// rest, the adverbs.
pub open spec fn pos_group(id: Seq<char>) -> nat {
    if id.len() > 0 && id.last() == 'n' {
        0
    } else if id.len() > 0 && id.last() == 'v' {
        1
    } else if id.len() > 0 && (id.last() == 'a' || id.last() == 's') {
        2
    } else {
        3
    }
}

/// The synsets of `ids` listed under heading `g`, in order.
pub open spec fn in_group(ids: Seq<SynsetId>, g: nat) -> Seq<SynsetId>
    decreases ids.len(),
{
    if ids.len() == 0 {
        seq![]
    } else if pos_group(ids.last()@) == g {
        in_group(ids.drop_last(), g).push(ids.last())
    } else {
        in_group(ids.drop_last(), g)
    }
}

/// The synsets of a lemma's page under their headings: nouns, verbs, adjectives and adverbs,
/// each in the order given.
pub fn group_by_part_of_speech(ids: &Vec<SynsetId>) -> (r: (Vec<SynsetId>, Vec<SynsetId>, Vec<SynsetId>, Vec<SynsetId>))
    ensures
        r.0@ == in_group(ids@, 0),
        r.1@ == in_group(ids@, 1),
        r.2@ == in_group(ids@, 2),
        r.3@ == in_group(ids@, 3),
{
    let mut nouns: Vec<SynsetId> = Vec::new();
    let mut verbs: Vec<SynsetId> = Vec::new();
    let mut adjectives: Vec<SynsetId> = Vec::new();
    let mut adverbs: Vec<SynsetId> = Vec::new();
    let mut k: usize = 0;
    while k < ids.len()
        invariant
            k <= ids@.len(),
            nouns@ == in_group(ids@.take(k as int), 0),
            verbs@ == in_group(ids@.take(k as int), 1),
            adjectives@ == in_group(ids@.take(k as int), 2),
            adverbs@ == in_group(ids@.take(k as int), 3),
        decreases ids@.len() - k,
    {
        let id = &ids[k];
        let cs = chars_of(id.as_str());
        proof {
            assert(ids@.take(k + 1).drop_last() =~= ids@.take(k as int));
            assert(ids@.take(k + 1).last() == *id);
        }
        let n = cs.len();
        if n > 0 && cs[n - 1] == 'n' {
            nouns.push(id.clone());
        } else if n > 0 && cs[n - 1] == 'v' {
            verbs.push(id.clone());
        } else if n > 0 && (cs[n - 1] == 'a' || cs[n - 1] == 's') {
            adjectives.push(id.clone());
        } else {
            adverbs.push(id.clone());
        }
        k += 1;
    }
    assert(ids@.take(ids@.len() as int) =~= ids@);
    (nouns, verbs, adjectives, adverbs)
}

/// The headings of a lemma's page share out its synsets: each is listed under exactly one of
/// them, so together they list as many as there are.
pub proof fn law_headings_list_each_synset_once(ids: Seq<SynsetId>)
    ensures
        in_group(ids, 0).len() + in_group(ids, 1).len() + in_group(ids, 2).len() + in_group(ids, 3).len() == ids.len(),
        forall|g: nat| g > 3 ==> #[trigger] in_group(ids, g).len() == 0,
    decreases ids.len(),
{
    if ids.len() > 0 {
        law_headings_list_each_synset_once(ids.drop_last());
        assert forall|g: nat| g > 3 implies #[trigger] in_group(ids, g).len() == 0 by {
            assert(in_group(ids.drop_last(), g).len() == 0);
        }
    }
}


/// The uppercase hexadecimal digit of `n`, for `n < 16`.
pub open spec fn hex_digit(n: u8) -> char {
    if n < 10 {
        (48 + n) as char
    } else {
        (55 + n) as char
    }
}

/// A byte that a download link keeps as it is: printable ASCII other than
/// `/ # ? & = + $ , ; : @` and the space.
pub open spec fn kept_in_link(b: u8) -> bool {
    &&& 0x20 <= b < 0x7F
    &&& b != 0x2F && b != 0x23 && b != 0x3F && b != 0x26 && b != 0x3D && b != 0x2B
    &&& b != 0x24 && b != 0x2C && b != 0x3B && b != 0x3A && b != 0x40 && b != 0x20
}

/// One byte of an identifier in a download link: itself where it is kept, else `%` and its
/// two uppercase hexadecimal digits.
pub open spec fn link_byte(b: u8) -> Seq<char> {
    if kept_in_link(b) {
        seq![b as char]
    } else {
        seq!['%', hex_digit(b / 16), hex_digit(b % 16)]
    }
}

/// The bytes `bs`, each as it stands in a download link.
pub open spec fn link_bytes(bs: Seq<u8>) -> Seq<char>
    decreases bs.len(),
{
    if bs.len() == 0 {
        seq![]
    } else {
        link_bytes(bs.drop_last()) + link_byte(bs.last())
    }
}

/// An identifier as it stands in a download link: its UTF-8 bytes percent-encoded, controls,
/// non-ASCII bytes and the characters `/#?&=+$,;:@` and space encoded.
pub open spec fn export_id_encoded(id: Seq<char>) -> Seq<char> {
    link_bytes(vstd::utf8::encode_utf8(id))
}

fn hex_digit_of(n: u8) -> (c: char)
    requires
        n < 16,
    ensures
        c == hex_digit(n),
{
    if n < 10 {
        (48 + n) as char
    } else {
        (55 + n) as char
    }
}

fn kept_in_link_exec(b: u8) -> (r: bool)
    ensures
        r == kept_in_link(b),
{
    0x20 <= b && b < 0x7F && b != 0x2F && b != 0x23 && b != 0x3F && b != 0x26 && b != 0x3D && b != 0x2B
        && b != 0x24 && b != 0x2C && b != 0x3B && b != 0x3A && b != 0x40 && b != 0x20
}

/// Percent-encodes an identifier for a download link.
pub fn encode_export_id(id: &str) -> (r: String)
    ensures
        r@ == export_id_encoded(id@),
{
    let bytes = id.as_bytes();
    let mut out = String::new();
    let mut k: usize = 0;
    while k < bytes.len()
        invariant
            k <= bytes@.len(),
            bytes@ == vstd::utf8::encode_utf8(id@),
            out@ == link_bytes(bytes@.take(k as int)),
        decreases bytes@.len() - k,
    {
        let b = bytes[k];
        proof {
            assert(bytes@.take(k as int + 1).drop_last() =~= bytes@.take(k as int));
        }
        if kept_in_link_exec(b) {
            push_char(&mut out, b as char);
        } else {
            push_char(&mut out, '%');
            push_char(&mut out, hex_digit_of(b / 16));
            push_char(&mut out, hex_digit_of(b % 16));
            assert(out@ =~= link_bytes(bytes@.take(k as int)) + link_byte(b));
        }
        k += 1;
    }
    proof {
        assert(bytes@.take(bytes@.len() as int) =~= bytes@);
    }
    out
}

/// The path of one download link: `/<route>/<kind>/<encoded identifier>`.
fn export_path(route: &str, kind: &str, encoded: &String) -> (r: String)
    ensures
        r@ == "/"@ + route@ + "/"@ + kind@ + "/"@ + encoded@,
{
    let mut r = String::from_str("/");
    r.append(route);
    r.append("/");
    r.append(kind);
    r.append("/");
    r.append(encoded.as_str());
    r
}

/// The "Download As" links of a synset or lemma page: JSON, RDF/XML, Turtle and XML exports of
/// `id`, which is percent-encoded.
pub fn download_links(kind: &str, id: &str) -> (r: Vec<(&'static str, String)>)
    ensures
        r@.len() == 4,
        r@[0].0@ == "JSON"@ && r@[0].1@ == "/api/"@ + kind@ + "/"@ + export_id_encoded(id@),
        r@[1].0@ == "RDF/XML"@ && r@[1].1@ == "/rdf/"@ + kind@ + "/"@ + export_id_encoded(id@),
        r@[2].0@ == "Turtle"@ && r@[2].1@ == "/ttl/"@ + kind@ + "/"@ + export_id_encoded(id@),
        r@[3].0@ == "XML"@ && r@[3].1@ == "/xml/"@ + kind@ + "/"@ + export_id_encoded(id@),
{
    proof {
        reveal_strlit("/");
        reveal_strlit("api");
        reveal_strlit("rdf");
        reveal_strlit("ttl");
        reveal_strlit("xml");
        reveal_strlit("/api/");
        reveal_strlit("/rdf/");
        reveal_strlit("/ttl/");
        reveal_strlit("/xml/");
    }
    let encoded = encode_export_id(id);
    let json = export_path("api", kind, &encoded);
    let rdf = export_path("rdf", kind, &encoded);
    let ttl = export_path("ttl", kind, &encoded);
    let xml = export_path("xml", kind, &encoded);
    assert(json@ =~= "/api/"@ + kind@ + "/"@ + encoded@);
    assert(rdf@ =~= "/rdf/"@ + kind@ + "/"@ + encoded@);
    assert(ttl@ =~= "/ttl/"@ + kind@ + "/"@ + encoded@);
    assert(xml@ =~= "/xml/"@ + kind@ + "/"@ + encoded@);
    let mut r: Vec<(&'static str, String)> = Vec::new();
    r.push(("JSON", json));
    r.push(("RDF/XML", rdf));
    r.push(("Turtle", ttl));
    r.push(("XML", xml));
    r
}


/// Law of content negotiation: each served representation is asked for by its own media type
/// (`text/html`, `application/rdf+xml`, `text/turtle`, `application/xml`, `application/json`),
/// HTML also by `*/*`, and no other media range asks for any; so no two of the five media
/// types ask for the same representation.
pub proof fn law_media_type_picks_its_representation(m: Seq<char>)
    ensures
        media_range_type(m) == Some(ContentType::HTML) <==> (m == "text/html"@ || m == "*/*"@),
        media_range_type(m) == Some(ContentType::RDFXML) <==> m == "application/rdf+xml"@,
        media_range_type(m) == Some(ContentType::Turtle) <==> m == "text/turtle"@,
        media_range_type(m) == Some(ContentType::XML) <==> m == "application/xml"@,
        media_range_type(m) == Some(ContentType::JSON) <==> m == "application/json"@,
        first_served(seq!["application/json"]) == ContentType::JSON,
{
    reveal_strlit("text/html");
    reveal_strlit("*/*");
    reveal_strlit("application/rdf+xml");
    reveal_strlit("text/turtle");
    reveal_strlit("application/xml");
    reveal_strlit("application/json");
    assert("text/html"@.len() == 9 && "*/*"@.len() == 3 && "application/rdf+xml"@.len() == 19);
    assert("text/turtle"@.len() == 11 && "application/xml"@.len() == 15 && "application/json"@.len() == 16);
    assert(seq!["application/json"].drop_first().len() == 0);
}

} // verus!
