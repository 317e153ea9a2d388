//! Keyword-in-context lines of the corpus occurrences of a sense, and their pages.

use vstd::prelude::*;
use crate::web::{has_sense, split_on};
use crate::text::{sorted_distinct, strictly_sorted, texts};

verus! {

/// Words of context on each side of an occurrence.
pub const CONTEXT_WORDS: usize = 20;

/// Rows per page of occurrences.
pub const PAGE_SIZE: usize = 100;

/// One occurrence of a sense in the corpus, with the words around it.
#[derive(Debug, PartialEq)]
pub struct ConcordanceLine {
    pub doc_id: String,
    pub left: String,
    pub target: String,
    pub right: String,
}

/// One page of occurrences.
#[derive(Debug, PartialEq)]
pub struct ConcordancePage {
    pub lines: Vec<ConcordanceLine>,
    /// 0-indexed.
    pub page: usize,
    pub total_pages: usize,
    pub total: usize,
}

/// Words joined with single spaces.
pub open spec fn join_words(ws: Seq<String>) -> Seq<char>
    decreases ws.len(),
{
    if ws.len() == 0 {
        seq![]
    } else if ws.len() == 1 {
        ws[0]@
    } else {
        join_words(ws.drop_last()) + seq![' '] + ws.last()@
    }
}

/// The line of the occurrence at token `i`: up to twenty words before it, the word, and up to
/// twenty words after it.
pub open spec fn line_at(doc_id: Seq<char>, tokens: Seq<String>, i: int) -> (Seq<char>, Seq<char>, Seq<char>, Seq<char>) {
    let left_start = if i >= CONTEXT_WORDS { i - CONTEXT_WORDS } else { 0 };
    let right_end = if i + 1 + CONTEXT_WORDS <= tokens.len() { i + 1 + CONTEXT_WORDS } else { tokens.len() as int };
    (doc_id, join_words(tokens.subrange(left_start, i)), tokens[i]@, join_words(tokens.subrange(i + 1, right_end)))
}

/// The lines of a document: one per tagged token whose keys include `target` and that is a token
/// of the text, in tag order.
pub open spec fn doc_lines(doc_id: Seq<char>, pairs: Seq<(u32, String)>, tokens: Seq<String>, target: Seq<char>) -> Seq<(Seq<char>, Seq<char>, Seq<char>, Seq<char>)>
    decreases pairs.len(),
{
    if pairs.len() == 0 {
        seq![]
    } else {
        let p = pairs.last();
        doc_lines(doc_id, pairs.drop_last(), tokens, target) + if split_on(p.1@, ';').contains(target) && (p.0 as int) < tokens.len() {
            seq![line_at(doc_id, tokens, p.0 as int)]
        } else {
            seq![]
        }
    }
}

/// The text of a line.
pub open spec fn line_view(l: ConcordanceLine) -> (Seq<char>, Seq<char>, Seq<char>, Seq<char>) {
    (l.doc_id@, l.left@, l.target@, l.right@)
}

fn join_range(tokens: &Vec<String>, from: usize, to: usize) -> (r: String)
    requires
        from <= to <= tokens@.len(),
    ensures
        r@ == join_words(tokens@.subrange(from as int, to as int)),
{
    let mut r = String::new();
    let mut i = from;
    while i < to
        invariant
            from <= i <= to <= tokens@.len(),
            r@ == join_words(tokens@.subrange(from as int, i as int)),
        decreases to - i,
    {
        let ghost prev = r@;
        if i > from {
            r.append(" ");
            proof {
                reveal_strlit(" ");
            }
        }
        let ghost spaced = r@;
        r.append(tokens[i].as_str());
        proof {
            let a = tokens@.subrange(from as int, i + 1);
            assert(a.drop_last() =~= tokens@.subrange(from as int, i as int));
            if i > from {
                assert(spaced =~= prev + seq![' ']);
                assert(r@ =~= join_words(a.drop_last()) + seq![' '] + a.last()@);
            } else {
                assert(r@ =~= a[0]@);
            }
        }
        i += 1;
    }
    r
}

/// The occurrence lines of one document: `pairs` are its tagged tokens (position and `;`-joined
/// sense keys), `tokens` its words.
pub fn doc_concordance_lines(doc_id: &str, pairs: &Vec<(u32, String)>, tokens: &Vec<String>, target: &str) -> (r: Vec<ConcordanceLine>)
    ensures
        r@.map_values(|l: ConcordanceLine| line_view(l)) == doc_lines(doc_id@, pairs@, tokens@, target@),
{
    let mut lines: Vec<ConcordanceLine> = Vec::new();
    let mut k: usize = 0;
    while k < pairs.len()
        invariant
            k <= pairs@.len(),
            lines@.map_values(|l: ConcordanceLine| line_view(l)) == doc_lines(doc_id@, pairs@.take(k as int), tokens@, target@),
        decreases pairs@.len() - k,
    {
        let (idx, value) = &pairs[k];
        proof {
            assert(pairs@.take(k + 1).drop_last() =~= pairs@.take(k as int));
        }
        let ghost before = lines@;
        let i = *idx as usize;
        if has_sense(value.as_str(), target) && i < tokens.len() {
            let left_start = if i >= CONTEXT_WORDS { i - CONTEXT_WORDS } else { 0 };
            let right_end = if tokens.len() - (i + 1) >= CONTEXT_WORDS { i + 1 + CONTEXT_WORDS } else { tokens.len() };
            let line = ConcordanceLine {
                doc_id: doc_id.to_owned(),
                left: join_range(tokens, left_start, i),
                target: tokens[i].clone(),
                right: join_range(tokens, i + 1, right_end),
            };
            lines.push(line);
            proof {
                assert(lines@.map_values(|l: ConcordanceLine| line_view(l)) =~= before.map_values(|l: ConcordanceLine| line_view(l)).push(
                    line_at(doc_id@, tokens@, i as int),
                ));
            }
        }
        assert(lines@.map_values(|l: ConcordanceLine| line_view(l)) =~= doc_lines(doc_id@, pairs@.take(k + 1), tokens@, target@));
        k += 1;
    }
    assert(pairs@.take(pairs@.len() as int) =~= pairs@);
    lines
}

/// The number of pages of `total` lines: at least one.
pub open spec fn page_count(total: nat) -> nat {
    (if total == 0 { 0 } else { total - 1 }) as nat / (PAGE_SIZE as nat) + 1
}

/// The lines of page `page` (0-indexed): the hundred from `page * PAGE_SIZE` on, fewer on the
/// last page, none past it.
pub open spec fn page_lines(all: Seq<ConcordanceLine>, page: nat) -> Seq<ConcordanceLine> {
    let start = page * PAGE_SIZE;
    if start >= all.len() {
        seq![]
    } else if start + PAGE_SIZE <= all.len() {
        all.subrange(start as int, start + PAGE_SIZE)
    } else {
        all.subrange(start as int, all.len() as int)
    }
}

/// One page (0-indexed) of the occurrence lines of a sense; a page past the end gives the last
/// page rather than an error.
pub fn get_sense_concordance(all: Vec<ConcordanceLine>, page: usize) -> (r: ConcordancePage)
    ensures
        r.total == all@.len(),
        r.total_pages == page_count(all@.len()),
        r.page == if (page as nat) < page_count(all@.len()) { page as nat } else { (page_count(all@.len()) - 1) as nat },
        r.lines@ == page_lines(all@, r.page as nat),
{
    let total = all.len();
    let total_pages = (if total == 0 { 0 } else { total - 1 }) / PAGE_SIZE + 1;
    let page = if page < total_pages { page } else { total_pages - 1 };
    assert(page * PAGE_SIZE <= total) by (nonlinear_arith)
        requires
            page < total_pages,
            total_pages == (if total == 0 { 0 } else { total - 1 }) / 100 + 1,
            PAGE_SIZE == 100,
    ;
    let start = page * PAGE_SIZE;
    let end = if total - start >= PAGE_SIZE { start + PAGE_SIZE } else { total };
    let mut lines: Vec<ConcordanceLine> = Vec::new();
    let ghost whole = all@;
    let mut idx: usize = 0;
    for line in it: all.into_iter()
        invariant
            it.seq() == whole,
            idx == it.index(),
            idx <= whole.len() <= usize::MAX,
            start <= end <= whole.len(),
            lines@ == whole.subrange(start as int, if idx < start { start as int } else if idx <= end { idx as int } else { end as int }),
    {
        if idx >= start && idx < end {
            lines.push(line);
        }
        proof {
            let y = idx + 1;
            assert(whole.subrange(start as int, if y < start { start as int } else if y <= end { y as int } else { end as int })
                =~= lines@);
        }
        idx = idx + 1;
    }
    ConcordancePage { lines, page, total_pages, total }
}

/// The document ids of a list of lines.
pub open spec fn doc_ids(lines: Seq<ConcordanceLine>) -> Seq<Seq<char>> {
    lines.map_values(|l: ConcordanceLine| l.doc_id@)
}

/// The ids of the documents that the lines come from: each once, in lexicographic order.
pub fn get_sense_documents(lines: &Vec<ConcordanceLine>) -> (r: Vec<String>)
    ensures
        strictly_sorted(texts(r@)),
        forall|s: Seq<char>| texts(r@).contains(s) <==> doc_ids(lines@).contains(s),
{
    let mut ids: Vec<String> = Vec::new();
    let mut k: usize = 0;
    while k < lines.len()
        invariant
            k <= lines@.len(),
            texts(ids@) == doc_ids(lines@.take(k as int)),
        decreases lines@.len() - k,
    {
        let ghost before = ids@;
        let id = lines[k].doc_id.clone();
        ids.push(id);
        assert(lines@.take(k + 1) =~= lines@.take(k as int).push(lines@[k as int]));
        assert(texts(ids@) =~= texts(before).push(lines@[k as int].doc_id@));
        assert(doc_ids(lines@.take(k + 1)) =~= doc_ids(lines@.take(k as int)).push(lines@[k as int].doc_id@));
        k += 1;
    }
    assert(lines@.take(lines@.len() as int) =~= lines@);
    sorted_distinct(&ids)
}

/// Paging loses no line: line `k` of all the lines is on page `k / PAGE_SIZE`, one of the
/// pages there are, at position `k % PAGE_SIZE`.
pub proof fn law_every_line_is_on_its_page(all: Seq<ConcordanceLine>, k: int)
    requires
        0 <= k < all.len(),
    ensures
        k / (PAGE_SIZE as int) < page_count(all.len()),
        k % (PAGE_SIZE as int) < page_lines(all, (k / (PAGE_SIZE as int)) as nat).len(),
        page_lines(all, (k / (PAGE_SIZE as int)) as nat)[k % (PAGE_SIZE as int)] == all[k],
{
    let p = k / 100;
    let i = k % 100;
    let n = all.len() as int;
    assert(p * 100 + i == k && 0 <= i < 100 && p >= 0) by (nonlinear_arith)
        requires
            p == k / 100,
            i == k % 100,
            k >= 0,
    ;
    assert(p <= (n - 1) / 100) by (nonlinear_arith)
        requires
            p == k / 100,
            0 <= k < n,
    ;
}

} // verus!
