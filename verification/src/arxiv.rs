//! The arXiv feed: keyword queries, keyword matching, merging and ordering
//! of papers, and the reading of the Atom response.

use quick_xml::events::{BytesStart, Event};
use vstd::prelude::*;
use vstd::string::StringExecFns;

use crate::common::{join2, join3, owned};
use crate::deadline_time::{instant_le, parse_rfc3339, rfc3339_instant};
use crate::sort::{is_stable_order, le_of, permuted, stable_sort_by, Preorder};
use crate::text::{
    chars_of, contains, contains_seq, contains_string, join_strings, join_with, split_whitespace,
    texts, to_lowercase, trim, trim_by, trim_char, trim_non_alphanumeric, trim_ws,
    unicode_alphanumeric, unicode_lowercase, words, chars_equal, replace_all, replace_text,
};

verus! {

/// A keyword as keywords are compared: trimmed, without surrounding double
/// quotes, lowercased.
pub open spec fn normalize_keyword_spec(keyword: Seq<char>) -> Seq<char> {
    unicode_lowercase(trim_by(trim_ws(keyword), |c: char| c == '"'))
}

/// A keyword as keywords are compared (see `normalize_keyword_spec`).
pub fn normalize_keyword(keyword: &str) -> (r: String)
    ensures
        r@ == normalize_keyword_spec(keyword@),
{
    let t = trim(keyword);
    let u = trim_char(t.as_str(), '"');
    to_lowercase(u.as_str())
}

/// Words trimmed of surrounding characters that are not alphanumeric,
/// dropping those left empty.
pub open spec fn clean_terms(ws: Seq<Seq<char>>) -> Seq<Seq<char>>
    decreases ws.len(),
{
    if ws.len() == 0 {
        Seq::empty()
    } else {
        let prev = clean_terms(ws.drop_last());
        let t = trim_by(ws.last(), |c: char| !unicode_alphanumeric(c));
        if t.len() > 0 {
            prev.push(t)
        } else {
            prev
        }
    }
}

/// The search terms of a keyword: the words of its normalized form, each
/// trimmed of non-alphanumeric characters, without empty ones.
pub open spec fn keyword_terms_spec(keyword: Seq<char>) -> Seq<Seq<char>> {
    clean_terms(words(normalize_keyword_spec(keyword)))
}

/// The search terms of a keyword (see `keyword_terms_spec`).
pub fn keyword_terms(keyword: &str) -> (r: Vec<String>)
    ensures
        texts(r@) == keyword_terms_spec(keyword@),
{
    let normalized = normalize_keyword(keyword);
    let ws = split_whitespace(normalized.as_str());
    let mut r: Vec<String> = Vec::new();
    let mut i: usize = 0;
    while i < ws.len()
        invariant
            i <= ws@.len(),
            texts(r@) == clean_terms(texts(ws@).subrange(0, i as int)),
        decreases ws@.len() - i,
    {
        assert(texts(ws@).subrange(0, i + 1).drop_last() =~= texts(ws@).subrange(0, i as int));
        let t = trim_non_alphanumeric(ws[i].as_str());
        let ghost before = texts(r@);
        if !t.as_str().is_empty() {
            r.push(t);
            assert(texts(r@) =~= before.push(t@));
        }
        i += 1;
    }
    assert(texts(ws@).subrange(0, ws@.len() as int) =~= texts(ws@));
    r
}

/// The keywords kept for querying, with the normalized forms seen: each
/// keyword, trimmed, whose normalized form is not empty and not seen before.
pub open spec fn unique_keywords_state(ks: Seq<Seq<char>>) -> (Seq<Seq<char>>, Seq<Seq<char>>)
    decreases ks.len(),
{
    if ks.len() == 0 {
        (Seq::empty(), Seq::empty())
    } else {
        let (kept, seen) = unique_keywords_state(ks.drop_last());
        let n = normalize_keyword_spec(ks.last());
        if n.len() == 0 || seen.contains(n) {
            (kept, seen)
        } else {
            (kept.push(trim_ws(ks.last())), seen.push(n))
        }
    }
}

/// The keywords to query, each once by normalized form (see `unique_keywords_state`).
pub fn get_unique_keywords(keywords: &[String]) -> (r: Vec<String>)
    ensures
        texts(r@) == unique_keywords_state(texts(keywords@)).0,
{
    let mut seen: Vec<String> = Vec::new();
    let mut unique: Vec<String> = Vec::new();
    let mut i: usize = 0;
    while i < keywords.len()
        invariant
            i <= keywords@.len(),
            (texts(unique@), texts(seen@)) == unique_keywords_state(texts(keywords@).subrange(0, i as int)),
        decreases keywords@.len() - i,
    {
        assert(texts(keywords@).subrange(0, i + 1).drop_last() =~= texts(keywords@).subrange(0, i as int));
        let normalized = normalize_keyword(keywords[i].as_str());
        if !normalized.as_str().is_empty() && !contains_string(&seen, &normalized) {
            let ghost (bu, bs) = (texts(unique@), texts(seen@));
            let t = trim(keywords[i].as_str());
            seen.push(normalized);
            unique.push(t);
            assert(texts(unique@) =~= bu.push(t@));
            assert(texts(seen@) =~= bs.push(normalized@));
        }
        i += 1;
    }
    assert(texts(keywords@).subrange(0, keywords@.len() as int) =~= texts(keywords@));
    unique
}

/// The arXiv query of a keyword: none without terms; `all:<term>` for one
/// term; `(all:<t1> AND all:<t2> ...)` for more.
pub open spec fn arxiv_keyword_query_spec(keyword: Seq<char>) -> Option<Seq<char>> {
    let terms = keyword_terms_spec(keyword);
    if terms.len() == 0 {
        None
    } else if terms.len() == 1 {
        Some("all:"@ + terms[0])
    } else {
        Some("("@ + join_with(terms.map_values(|t: Seq<char>| "all:"@ + t), " AND "@) + ")"@)
    }
}

/// The arXiv query of a keyword (see `arxiv_keyword_query_spec`).
pub fn arxiv_keyword_query(keyword: &str) -> (r: Option<String>)
    ensures
        match arxiv_keyword_query_spec(keyword@) {
            Some(q) => r matches Some(x) && x@ == q,
            None => r is None,
        },
{
    let terms = keyword_terms(keyword);
    if terms.len() == 0 {
        return None;
    }
    if terms.len() == 1 {
        return Some(join2("all:", terms[0].as_str()));
    }
    let mut parts: Vec<String> = Vec::new();
    let mut i: usize = 0;
    while i < terms.len()
        invariant
            i <= terms@.len(),
            texts(parts@) == texts(terms@).subrange(0, i as int).map_values(|t: Seq<char>| "all:"@ + t),
        decreases terms@.len() - i,
    {
        let ghost before = texts(parts@);
        let ghost f = |t: Seq<char>| "all:"@ + t;
        parts.push(join2("all:", terms[i].as_str()));
        assert(texts(parts@) =~= before.push(f(terms@[i as int]@)));
        assert(texts(terms@).subrange(0, i + 1).map_values(f) =~= texts(terms@).subrange(0, i as int).map_values(f).push(f(terms@[i as int]@)));
        i += 1;
    }
    assert(texts(terms@).subrange(0, terms@.len() as int) =~= texts(terms@));
    let joined = join_strings(&parts, " AND ");
    Some(join3("(", joined.as_str(), ")"))
}

/// Whether a paper's text (already lowercased) matches a keyword: the
/// normalized keyword occurs in it, or every one of its (at least one) terms does.
pub open spec fn paper_matches_keyword_spec(haystack: Seq<char>, keyword: Seq<char>) -> bool {
    let n = normalize_keyword_spec(keyword);
    let terms = keyword_terms_spec(keyword);
    n.len() > 0 && (contains_seq(haystack, n) || (terms.len() > 0 && forall|k: int|
        0 <= k < terms.len() ==> contains_seq(haystack, #[trigger] terms[k])))
}

/// Whether a paper's text matches a keyword (see `paper_matches_keyword_spec`).
pub fn paper_matches_keyword(haystack: &str, keyword: &str) -> (r: bool)
    ensures
        r == paper_matches_keyword_spec(haystack@, keyword@),
{
    let normalized = normalize_keyword(keyword);
    if normalized.as_str().is_empty() {
        return false;
    }
    let h = chars_of(haystack);
    if contains(&h, &chars_of(normalized.as_str())) {
        return true;
    }
    let terms = keyword_terms(keyword);
    if terms.len() == 0 {
        return false;
    }
    let mut i: usize = 0;
    while i < terms.len()
        invariant
            i <= terms@.len(),
            h@ == haystack@,
            !contains_seq(h@, normalize_keyword_spec(keyword@)),
            normalize_keyword_spec(keyword@).len() > 0,
            texts(terms@) == keyword_terms_spec(keyword@),
            forall|k: int| 0 <= k < i ==> contains_seq(h@, #[trigger] texts(terms@)[k]),
        decreases terms@.len() - i,
    {
        if !contains(&h, &chars_of(terms[i].as_str())) {
            assert(!contains_seq(h@, texts(terms@)[i as int]));
            return false;
        }
        i += 1;
    }
    true
}

/// The arXiv category query: `cat:cs*` without categories, else
/// `(cat:<c1>* OR cat:<c2>* ...)` with each category trimmed.
pub open spec fn build_category_query_spec(categories: Seq<Seq<char>>) -> Seq<char> {
    if categories.len() == 0 {
        "cat:cs*"@
    } else {
        "("@ + join_with(categories.map_values(|c: Seq<char>| "cat:"@ + trim_ws(c) + "*"@), " OR "@)
            + ")"@
    }
}

/// The arXiv category query (see `build_category_query_spec`).
pub fn build_category_query(categories: &[String]) -> (r: String)
    ensures
        r@ == build_category_query_spec(texts(categories@)),
{
    if categories.len() == 0 {
        return owned("cat:cs*");
    }
    let mut parts: Vec<String> = Vec::new();
    let mut i: usize = 0;
    while i < categories.len()
        invariant
            i <= categories@.len(),
            texts(parts@) == texts(categories@).subrange(0, i as int).map_values(
                |c: Seq<char>| "cat:"@ + trim_ws(c) + "*"@,
            ),
        decreases categories@.len() - i,
    {
        let ghost before = texts(parts@);
        let ghost f = |c: Seq<char>| "cat:"@ + trim_ws(c) + "*"@;
        let t = trim(categories[i].as_str());
        parts.push(join3("cat:", t.as_str(), "*"));
        assert(texts(parts@) =~= before.push(f(categories@[i as int]@)));
        assert(texts(categories@).subrange(0, i + 1).map_values(f) =~= texts(categories@).subrange(0, i as int).map_values(f).push(f(categories@[i as int]@)));
        i += 1;
    }
    assert(texts(categories@).subrange(0, categories@.len() as int) =~= texts(categories@));
    let joined = join_strings(&parts, " OR ");
    join3("(", joined.as_str(), ")")
}


/// A paper of the arXiv feed.
#[derive(Debug)]
pub struct ArxivPaper {
    pub id: String,
    pub title: String,
    pub summary: String,
    pub matched_keywords: Vec<String>,
    pub authors: Vec<String>,
    pub link: String,
    pub published: String,
    pub updated: String,
}

/// The keywords of `keywords` (trimmed) that the lowercased paper text
/// `haystack` matches, in order.
pub open spec fn matched_keywords_spec(haystack: Seq<char>, keywords: Seq<Seq<char>>) -> Seq<Seq<char>>
    decreases keywords.len(),
{
    if keywords.len() == 0 {
        Seq::empty()
    } else {
        let prev = matched_keywords_spec(haystack, keywords.drop_last());
        if paper_matches_keyword_spec(haystack, keywords.last()) {
            prev.push(trim_ws(keywords.last()))
        } else {
            prev
        }
    }
}

/// The text a paper is matched against: title and summary, lowercased.
pub open spec fn paper_haystack(title: Seq<char>, summary: Seq<char>) -> Seq<char> {
    unicode_lowercase(title + " "@ + summary)
}

/// The keywords that a paper matches (see `matched_keywords_spec`).
pub fn matched_keywords_for_paper(paper: &ArxivPaper, keywords: &[String]) -> (r: Vec<String>)
    ensures
        texts(r@) == matched_keywords_spec(paper_haystack(paper.title@, paper.summary@), texts(keywords@)),
{
    let text = join3(paper.title.as_str(), " ", paper.summary.as_str());
    let haystack = to_lowercase(text.as_str());
    let mut r: Vec<String> = Vec::new();
    let mut i: usize = 0;
    while i < keywords.len()
        invariant
            i <= keywords@.len(),
            haystack@ == paper_haystack(paper.title@, paper.summary@),
            texts(r@) == matched_keywords_spec(haystack@, texts(keywords@).subrange(0, i as int)),
        decreases keywords@.len() - i,
    {
        assert(texts(keywords@).subrange(0, i + 1).drop_last() =~= texts(keywords@).subrange(0, i as int));
        if paper_matches_keyword(haystack.as_str(), keywords[i].as_str()) {
            let ghost before = texts(r@);
            r.push(trim(keywords[i].as_str()));
            assert(texts(r@) =~= before.push(trim_ws(keywords@[i as int]@)));
        }
        i += 1;
    }
    assert(texts(keywords@).subrange(0, keywords@.len() as int) =~= texts(keywords@));
    r
}

/// The texts of a paper.
pub struct PaperView {
    pub id: Seq<char>,
    pub title: Seq<char>,
    pub summary: Seq<char>,
    pub matched_keywords: Seq<Seq<char>>,
    pub authors: Seq<Seq<char>>,
    pub link: Seq<char>,
    pub published: Seq<char>,
    pub updated: Seq<char>,
}

/// The texts of a paper.
pub open spec fn paper_view(p: ArxivPaper) -> PaperView {
    PaperView {
        id: p.id@,
        title: p.title@,
        summary: p.summary@,
        matched_keywords: texts(p.matched_keywords@),
        authors: texts(p.authors@),
        link: p.link@,
        published: p.published@,
        updated: p.updated@,
    }
}

/// The texts of a list of papers.
pub open spec fn paper_views(s: Seq<ArxivPaper>) -> Seq<PaperView> {
    s.map_values(|p: ArxivPaper| paper_view(p))
}

/// Whether some keyword of `existing` has the same normalized form as `k`.
pub open spec fn has_keyword(existing: Seq<Seq<char>>, k: Seq<char>) -> bool {
    exists|i: int| 0 <= i < existing.len() && normalize_keyword_spec(#[trigger] existing[i]) == normalize_keyword_spec(k)
}

/// `existing` with each keyword of `new`, in order, appended unless a
/// keyword with the same normalized form is already there.
pub open spec fn merge_keywords(existing: Seq<Seq<char>>, new: Seq<Seq<char>>) -> Seq<Seq<char>>
    decreases new.len(),
{
    if new.len() == 0 {
        existing
    } else {
        merge_keywords(
            if has_keyword(existing, new[0]) { existing } else { existing.push(new[0]) },
            new.drop_first(),
        )
    }
}

/// The first paper of `s` with this id.
pub open spec fn first_with_id(s: Seq<PaperView>, id: Seq<char>) -> Option<int>
    decreases s.len(),
{
    if s.len() == 0 {
        None
    } else if s[0].id == id {
        Some(0)
    } else {
        match first_with_id(s.drop_first(), id) {
            Some(k) => Some(k + 1),
            None => None,
        }
    }
}

/// Merges one paper into the list: a paper with the same id gains its
/// new keywords; otherwise the paper is appended.
pub open spec fn merge_one(target: Seq<PaperView>, p: PaperView) -> Seq<PaperView> {
    match first_with_id(target, p.id) {
        Some(k) => target.update(
            k,
            PaperView { matched_keywords: merge_keywords(target[k].matched_keywords, p.matched_keywords), ..target[k] },
        ),
        None => target.push(p),
    }
}

/// Merges the papers of `source`, in order, into `target`.
pub open spec fn merge_all(target: Seq<PaperView>, source: Seq<PaperView>) -> Seq<PaperView>
    decreases source.len(),
{
    if source.len() == 0 {
        target
    } else {
        merge_all(merge_one(target, source[0]), source.drop_first())
    }
}

proof fn lemma_first_with_id(s: Seq<PaperView>, id: Seq<char>, i: int)
    requires
        0 <= i <= s.len(),
        forall|k: int| 0 <= k < i ==> s[k].id != id,
    ensures
        i < s.len() && s[i].id == id ==> first_with_id(s, id) == Some(i),
        i == s.len() ==> first_with_id(s, id) is None,
    decreases i,
{
    if i > 0 {
        lemma_first_with_id(s.drop_first(), id, i - 1);
    } else if s.len() > 0 && s[0].id == id {
    }
}

/// Whether some keyword of `existing` has the normalized form `n`.
fn has_normalized_keyword(existing: &Vec<String>, n: &String) -> (r: bool)
    ensures
        r == exists|i: int| 0 <= i < existing@.len() && normalize_keyword_spec(#[trigger] texts(existing@)[i]) == n@,
{
    let mut i: usize = 0;
    while i < existing.len()
        invariant
            i <= existing@.len(),
            forall|k: int| 0 <= k < i ==> normalize_keyword_spec(#[trigger] texts(existing@)[k]) != n@,
        decreases existing@.len() - i,
    {
        if normalize_keyword(existing[i].as_str()) == *n {
            assert(normalize_keyword_spec(texts(existing@)[i as int]) == n@);
            return true;
        }
        i += 1;
    }
    false
}

/// Merges the papers of `source` into `target` (see `merge_all`).
pub fn merge_papers(target: &mut Vec<ArxivPaper>, source: Vec<ArxivPaper>)
    ensures
        paper_views(final(target)@) == merge_all(paper_views(old(target)@), paper_views(source@)),
{
    let ghost goal = merge_all(paper_views(target@), paper_views(source@));
    let ghost src = source@;
    let n = source.len();
    let mut rest = source;
    let mut i: usize = 0;
    while i < n
        invariant
            n == src.len(),
            i <= n,
            rest@ == src.subrange(i as int, n as int),
            merge_all(paper_views(target@), paper_views(rest@)) == goal,
        decreases n - i,
    {
        let paper = rest.remove(0);
        assert(paper_views(src.subrange(i as int, n as int)).drop_first() =~= paper_views(rest@));
        let ghost before = paper_views(target@);
        let mut k: usize = 0;
        while k < target.len() && !(target[k].id == paper.id)
            invariant
                k <= target@.len(),
                forall|j: int| 0 <= j < k ==> paper_views(target@)[j].id != paper.id@,
            decreases target@.len() - k,
        {
            k += 1;
        }
        proof {
            lemma_first_with_id(paper_views(target@), paper.id@, k as int);
        }
        if k < target.len() {
            let mut existing = target.remove(k);
            let ghost ex_view = paper_view(existing);
            let ArxivPaper { id: pid, title: ptitle, summary: psummary, matched_keywords: new_keywords, authors: pauthors, link: plink, published: ppub, updated: pupd } = paper;
            let ghost nk = texts(new_keywords@);
            let mut kws = new_keywords;
            let mut j: usize = 0;
            let m = kws.len();
            let ghost all_new = kws@;
            while j < m
                invariant
                    m == all_new.len(),
                    j <= m,
                    kws@ == all_new.subrange(j as int, m as int),
                    merge_keywords(texts(existing.matched_keywords@), texts(kws@))
                        == merge_keywords(ex_view.matched_keywords, texts(all_new)),
                    existing.id@ == ex_view.id,
                    existing.title@ == ex_view.title,
                    existing.summary@ == ex_view.summary,
                    texts(existing.authors@) == ex_view.authors,
                    existing.link@ == ex_view.link,
                    existing.published@ == ex_view.published,
                    existing.updated@ == ex_view.updated,
                decreases m - j,
            {
                let kw = kws.remove(0);
                let ghost before_mk = texts(existing.matched_keywords@);
                assert(texts(all_new.subrange(j as int, m as int)).drop_first() =~= texts(kws@));
                assert(texts(all_new.subrange(j as int, m as int))[0] == kw@);
                let nkw = normalize_keyword(kw.as_str());
                if !has_normalized_keyword(&existing.matched_keywords, &nkw) {
                    existing.matched_keywords.push(kw);
                    assert(texts(existing.matched_keywords@) =~= before_mk.push(texts(all_new.subrange(j as int, m as int))[0]));
                } else {
                    assert(has_keyword(before_mk, texts(all_new.subrange(j as int, m as int))[0]));
                }
                j += 1;
            }
            assert(texts(kws@) =~= Seq::<Seq<char>>::empty());
            let ghost updated_view = paper_view(existing);
            target.insert(k, existing);
            assert(paper_views(target@) =~= before.update(k as int, updated_view));
        } else {
            let ghost pv = paper_view(paper);
            target.push(paper);
            assert(paper_views(target@) =~= before.push(pv));
        }
        i += 1;
        assert(rest@ =~= src.subrange(i as int, n as int));
    }
    assert(paper_views(rest@) =~= Seq::<PaperView>::empty());
}


/// When a paper was last updated: its `updated` time, else its `published`
/// time, as RFC 3339 instants.
pub open spec fn updated_instant(p: ArxivPaper) -> Option<(i64, u32)> {
    match rfc3339_instant(p.updated@) {
        Some(t) => Some(t),
        None => rfc3339_instant(p.published@),
    }
}

/// When a paper was last updated (see `updated_instant`).
pub fn paper_updated_at(paper: &ArxivPaper) -> (r: Option<(i64, u32)>)
    ensures
        r == updated_instant(*paper),
{
    match parse_rfc3339(paper.updated.as_str()) {
        Some(t) => Some(t),
        None => parse_rfc3339(paper.published.as_str()),
    }
}

/// The order of optional instants: none first, then by time.
pub open spec fn opt_instant_le(x: Option<(i64, u32)>, y: Option<(i64, u32)>) -> bool {
    match (x, y) {
        (None, _) => true,
        (Some(_), None) => false,
        (Some(a), Some(b)) => instant_le(a, b),
    }
}

/// The feed order: most recently updated first, papers without a time last.
pub open spec fn paper_le(a: ArxivPaper, b: ArxivPaper) -> bool {
    opt_instant_le(updated_instant(b), updated_instant(a))
}

/// The feed order of papers (see `paper_le`).
pub struct PaperRecency;

impl Preorder<ArxivPaper> for PaperRecency {
    open spec fn le_spec(&self, a: ArxivPaper, b: ArxivPaper) -> bool {
        paper_le(a, b)
    }

    fn le(&self, a: &ArxivPaper, b: &ArxivPaper) -> (r: bool) {
        let ta = paper_updated_at(a);
        let tb = paper_updated_at(b);
        match (tb, ta) {
            (None, _) => true,
            (Some(_), None) => false,
            (Some(x), Some(y)) => x.0 < y.0 || (x.0 == y.0 && x.1 <= y.1),
        }
    }

    proof fn lemma_total(&self, a: ArxivPaper, b: ArxivPaper) {
    }

    proof fn lemma_transitive(&self, a: ArxivPaper, b: ArxivPaper, c: ArxivPaper) {
    }
}

/// Sorts papers, most recently updated first, keeping the order of papers
/// with the same time (a stable sort).
pub fn sort_papers_by_updated_desc(papers: &mut Vec<ArxivPaper>)
    ensures
        exists|p: Seq<int>|
            is_stable_order(|a: ArxivPaper, b: ArxivPaper| paper_le(a, b), old(papers)@, p)
                && final(papers)@ == permuted(old(papers)@, p),
{
    let mut items: Vec<ArxivPaper> = Vec::new();
    std::mem::swap(&mut items, papers);
    let order = PaperRecency;
    let sorted = stable_sort_by(items, &order);
    assert(le_of(order) =~= |a: ArxivPaper, b: ArxivPaper| paper_le(a, b));
    *papers = sorted;
}

/// Whether the paper's id, trimmed, is among the ids already seen.
pub open spec fn is_seen(p: ArxivPaper, seen: Seq<Seq<char>>) -> bool {
    seen.contains(trim_ws(p.id@))
}

/// The papers not seen before, in order.
pub open spec fn unseen_papers(papers: Seq<ArxivPaper>, seen: Seq<Seq<char>>) -> Seq<ArxivPaper>
    decreases papers.len(),
{
    if papers.len() == 0 {
        Seq::empty()
    } else {
        let prev = unseen_papers(papers.drop_last(), seen);
        if is_seen(papers.last(), seen) {
            prev
        } else {
            prev.push(papers.last())
        }
    }
}

/// Drops the papers whose id (trimmed) the user has already seen.
pub fn remove_seen_papers(papers: Vec<ArxivPaper>, seen: &Vec<String>) -> (r: Vec<ArxivPaper>)
    ensures
        r@ == unseen_papers(papers@, texts(seen@)),
{
    let ghost orig = papers@;
    let n = papers.len();
    let mut rest = papers;
    let mut r: Vec<ArxivPaper> = Vec::new();
    let mut i: usize = 0;
    while i < n
        invariant
            n == orig.len(),
            i <= n,
            rest@ == orig.subrange(i as int, n as int),
            r@ == unseen_papers(orig.subrange(0, i as int), texts(seen@)),
        decreases n - i,
    {
        let p = rest.remove(0);
        assert(orig.subrange(0, i + 1).drop_last() =~= orig.subrange(0, i as int));
        let id = trim(p.id.as_str());
        if !contains_string(seen, &id) {
            r.push(p);
        }
        i += 1;
        assert(rest@ =~= orig.subrange(i as int, n as int));
    }
    assert(orig.subrange(0, n as int) =~= orig);
    r
}


#[verifier::external_type_specification]
#[verifier::external_body]
#[verifier::reject_recursive_types(R)]
pub struct ExXmlReader<R>(quick_xml::Reader<R>);

/// An XML event, with names and text as (lossy) UTF-8.
pub enum XmlEvent {
    Start(String, Vec<(String, String)>),
    Empty(String, Vec<(String, String)>),
    End(String),
    Text(String),
    Eof,
    Other,
    Error(String),
}

/// The `k`-th event (counting from 0) that `quick_xml`'s reader gives for the
/// document `xml`, read from the start with text trimmed: an element's local
/// name and its attributes (local names and values, those that parse), an end
/// tag's local name and text as (lossy) UTF-8, and an error's text.
pub uninterp spec fn xml_document_event(xml: Seq<char>, k: nat) -> XmlEventView;

/// The document that a `quick_xml` reader reads.
pub uninterp spec fn xml_reader_document(reader: quick_xml::Reader<&[u8]>) -> Seq<char>;

/// How many events a `quick_xml` reader has given.
pub uninterp spec fn xml_reader_count(reader: quick_xml::Reader<&[u8]>) -> nat;

/// The local name of an element's start tag, as (lossy) UTF-8.
pub uninterp spec fn start_tag_name(tag: BytesStart) -> Seq<char>;

/// The attributes of an element's start tag that parse, in order, as their
/// local names and values in (lossy) UTF-8.
pub uninterp spec fn start_tag_attributes(tag: BytesStart) -> Seq<(Seq<char>, Seq<char>)>;

/// `quick_xml::Reader::from_str` on the document, with text trimmed: a reader
/// of `xml` that has given no event yet.
#[verifier::external_body]
fn xml_reader<'a>(xml: &'a str) -> (r: quick_xml::Reader<&'a [u8]>)
    ensures
        xml_reader_document(r) == xml@,
        xml_reader_count(r) == 0,
{
    let mut reader = quick_xml::Reader::from_str(xml);
    reader.config_mut().trim_text(true);
    reader
}

#[verifier::external_type_specification]
#[verifier::external_body]
pub struct ExBytesStart<'a>(BytesStart<'a>);

/// An XML event as the reader gives it: an element's start (with its name
/// and attributes still unread), or names and text as (lossy) UTF-8.
pub enum RawXmlEvent<'a> {
    Start(BytesStart<'a>),
    Empty(BytesStart<'a>),
    End(String),
    Text(String),
    Eof,
    Other,
    Error(String),
}

/// Whether a raw event is the document's event `e`, with a start tag taken by
/// its name and attributes.
pub open spec fn raw_event_is(r: RawXmlEvent, e: XmlEventView) -> bool {
    match r {
        RawXmlEvent::Start(t) => e == XmlEventView::Start(start_tag_name(t), start_tag_attributes(t)),
        RawXmlEvent::Empty(t) => e == XmlEventView::Empty(start_tag_name(t), start_tag_attributes(t)),
        RawXmlEvent::End(n) => e == XmlEventView::End(n@),
        RawXmlEvent::Text(t) => e == XmlEventView::Text(t@),
        RawXmlEvent::Eof => e == XmlEventView::Eof,
        RawXmlEvent::Other => e == XmlEventView::Other,
        RawXmlEvent::Error(m) => e == XmlEventView::Error(m@),
    }
}

/// `quick_xml::Reader::read_event`: the next event of the document, with an
/// end tag's local name and text as (lossy) UTF-8, and the error's text.
/// After an event that is neither the end of the document nor an error, the
/// reader has given one event more; after those two, nothing is stated of it.
#[verifier::external_body]
fn next_xml_event<'a>(reader: &mut quick_xml::Reader<&'a [u8]>) -> (r: RawXmlEvent<'a>)
    ensures
        raw_event_is(r, xml_document_event(xml_reader_document(*old(reader)), xml_reader_count(*old(reader)))),
        !(r is Eof) && !(r is Error) ==> xml_reader_document(*final(reader)) == xml_reader_document(*old(reader))
            && xml_reader_count(*final(reader)) == xml_reader_count(*old(reader)) + 1,
{
    let text = |b: &[u8]| String::from_utf8_lossy(b).into_owned();
    match reader.read_event() {
        Err(e) => RawXmlEvent::Error(e.to_string()),
        Ok(Event::Start(e)) => RawXmlEvent::Start(e),
        Ok(Event::Empty(e)) => RawXmlEvent::Empty(e),
        Ok(Event::End(e)) => RawXmlEvent::End(text(e.local_name().as_ref())),
        Ok(Event::Text(e)) => RawXmlEvent::Text(text(&e)),
        Ok(Event::Eof) => RawXmlEvent::Eof,
        Ok(_) => RawXmlEvent::Other,
    }
}

/// An element's local name and its attributes (local names and values), as
/// (lossy) UTF-8; attributes that fail to parse are left out.
#[verifier::external_body]
fn xml_start_parts(e: &BytesStart) -> (r: (String, Vec<(String, String)>))
    ensures
        r.0@ == start_tag_name(*e),
        attr_views(r.1@) == start_tag_attributes(*e),
{
    let text = |b: &[u8]| String::from_utf8_lossy(b).into_owned();
    let attrs = e.attributes().flatten().map(|a| (text(a.key.local_name().as_ref()), text(&a.value)));
    (text(e.local_name().as_ref()), attrs.collect())
}

/// The next event of the document the reader reads, with an element's name
/// and attributes read; the reader moves past it (unless it is the end of
/// the document or an error).
fn read_xml_event(reader: &mut quick_xml::Reader<&[u8]>) -> (r: XmlEvent)
    ensures
        event_view(r) == xml_document_event(xml_reader_document(*old(reader)), xml_reader_count(*old(reader))),
        !(r is Eof) && !(r is Error) ==> xml_reader_document(*final(reader)) == xml_reader_document(*old(reader))
            && xml_reader_count(*final(reader)) == xml_reader_count(*old(reader)) + 1,
{
    match next_xml_event(reader) {
        RawXmlEvent::Start(e) => {
            let (name, attrs) = xml_start_parts(&e);
            XmlEvent::Start(name, attrs)
        },
        RawXmlEvent::Empty(e) => {
            let (name, attrs) = xml_start_parts(&e);
            XmlEvent::Empty(name, attrs)
        },
        RawXmlEvent::End(n) => XmlEvent::End(n),
        RawXmlEvent::Text(t) => XmlEvent::Text(t),
        RawXmlEvent::Eof => XmlEvent::Eof,
        RawXmlEvent::Other => XmlEvent::Other,
        RawXmlEvent::Error(m) => XmlEvent::Error(m),
    }
}

/// The texts of an XML event.
pub enum XmlEventView {
    Start(Seq<char>, Seq<(Seq<char>, Seq<char>)>),
    Empty(Seq<char>, Seq<(Seq<char>, Seq<char>)>),
    End(Seq<char>),
    Text(Seq<char>),
    Eof,
    Other,
    Error(Seq<char>),
}

/// The texts of attribute pairs.
pub open spec fn attr_views(a: Seq<(String, String)>) -> Seq<(Seq<char>, Seq<char>)> {
    a.map_values(|p: (String, String)| (p.0@, p.1@))
}

/// The texts of an XML event.
pub open spec fn event_view(e: XmlEvent) -> XmlEventView {
    match e {
        XmlEvent::Start(n, a) => XmlEventView::Start(n@, attr_views(a@)),
        XmlEvent::Empty(n, a) => XmlEventView::Empty(n@, attr_views(a@)),
        XmlEvent::End(n) => XmlEventView::End(n@),
        XmlEvent::Text(t) => XmlEventView::Text(t@),
        XmlEvent::Eof => XmlEventView::Eof,
        XmlEvent::Other => XmlEventView::Other,
        XmlEvent::Error(m) => XmlEventView::Error(m@),
    }
}

/// The digits of a decimal number, and its value.
pub open spec fn decimal_value(d: Seq<char>) -> int
    decreases d.len(),
{
    if d.len() == 0 {
        0
    } else {
        decimal_value(d.drop_last()) * 10 + (d.last() as int - '0' as int)
    }
}

/// `str::parse::<usize>`: an optional `+`, then one or more ASCII digits
/// whose value fits in `usize`.
pub open spec fn parse_usize_spec(s: Seq<char>) -> Option<usize> {
    parse_digits_spec(if s.len() > 0 && s[0] == '+' { s.drop_first() } else { s })
}

/// Whether every character of `d` is an ASCII digit.
pub open spec fn all_digits(d: Seq<char>) -> bool {
    forall|k: int| 0 <= k < d.len() ==> '0' <= #[trigger] d[k] <= '9'
}

/// One or more ASCII digits whose value fits in `usize`.
pub open spec fn parse_digits_spec(d: Seq<char>) -> Option<usize> {
    if d.len() > 0 && all_digits(d) && decimal_value(d) <= usize::MAX {
        Some(decimal_value(d) as usize)
    } else {
        None
    }
}

proof fn lemma_decimal_nonneg(d: Seq<char>)
    requires
        forall|k: int| 0 <= k < d.len() ==> '0' <= #[trigger] d[k] <= '9',
    ensures
        decimal_value(d) >= 0,
    decreases d.len(),
{
    if d.len() > 0 {
        lemma_decimal_nonneg(d.drop_last());
    }
}

proof fn lemma_decimal_grows(d: Seq<char>, i: int)
    requires
        0 <= i <= d.len(),
        forall|k: int| 0 <= k < d.len() ==> '0' <= #[trigger] d[k] <= '9',
    ensures
        decimal_value(d.subrange(0, i)) <= decimal_value(d),
    decreases d.len() - i,
{
    if i < d.len() {
        lemma_decimal_grows(d, i + 1);
        assert(d.subrange(0, i + 1).drop_last() =~= d.subrange(0, i));
        lemma_decimal_nonneg(d.subrange(0, i));
    } else {
        assert(d.subrange(0, i) =~= d);
    }
}

/// Reads an unsigned number as `str::parse::<usize>` does (see `parse_usize_spec`).
pub fn parse_usize(s: &str) -> (r: Option<usize>)
    ensures
        r == parse_usize_spec(s@),
{
    let v = chars_of(s);
    let start: usize = if v.len() > 0 && v[0] == '+' { 1 } else { 0 };
    let ghost d = if s@.len() > 0 && s@[0] == '+' { s@.drop_first() } else { s@ };
    assert(d =~= v@.subrange(start as int, v@.len() as int));
    if start >= v.len() {
        return None;
    }
    let mut value: usize = 0;
    let mut i = start;
    assert(d.subrange(0, 0) =~= Seq::<char>::empty());
    while i < v.len()
        invariant
            start <= i <= v@.len(),
            v@ == s@,
            parse_usize_spec(s@) == parse_digits_spec(d),
            d == v@.subrange(start as int, v@.len() as int),
            d.len() > 0,
            forall|k: int| 0 <= k < i - start ==> '0' <= #[trigger] d[k] <= '9',
            value == decimal_value(d.subrange(0, i - start)),
        decreases v@.len() - i,
    {
        let c = v[i];
        assert(d[i - start] == c);
        if !('0' <= c && c <= '9') {
            assert(!all_digits(d));
            return None;
        }
        let digit = (c as u32 - '0' as u32) as usize;
        assert(d.subrange(0, i + 1 - start).drop_last() =~= d.subrange(0, i - start));
        assert(decimal_value(d.subrange(0, i + 1 - start)) == value * 10 + digit);
        if value > (usize::MAX - digit) / 10 {
            assert(value * 10 + digit > usize::MAX) by (nonlinear_arith)
                requires
                    value > (usize::MAX - digit) / 10,
                    digit <= 9,
            ;
            proof {
                if all_digits(d) {
                    lemma_decimal_grows(d, i + 1 - start);
                }
            }
            return None;
        }
        assert(value * 10 + digit <= usize::MAX) by (nonlinear_arith)
            requires
                value <= (usize::MAX - digit) / 10,
                digit <= 9,
        ;
        value = value * 10 + digit;
        i += 1;
    }
    assert(d.subrange(0, d.len() as int) =~= d);
    Some(value)
}


/// A paper with every text empty.
pub open spec fn empty_paper_view() -> PaperView {
    PaperView {
        id: Seq::empty(),
        title: Seq::empty(),
        summary: Seq::empty(),
        matched_keywords: Seq::empty(),
        authors: Seq::empty(),
        link: Seq::empty(),
        published: Seq::empty(),
        updated: Seq::empty(),
    }
}

/// Whether some attribute is `title="pdf"`.
pub open spec fn is_pdf_link(attrs: Seq<(Seq<char>, Seq<char>)>) -> bool {
    exists|i: int| 0 <= i < attrs.len() && (#[trigger] attrs[i]).0 == "title"@ && attrs[i].1 == "pdf"@
}

/// The value of the last `href` attribute (empty when there is none).
pub open spec fn href_of(attrs: Seq<(Seq<char>, Seq<char>)>) -> Seq<char>
    decreases attrs.len(),
{
    if attrs.len() == 0 {
        Seq::empty()
    } else if attrs.last().0 == "href"@ {
        attrs.last().1
    } else {
        href_of(attrs.drop_last())
    }
}

/// A `link` element: its `href`, made `https`, becomes the paper's link when
/// it is the PDF link or the paper has no link yet.
pub open spec fn apply_link(cur: PaperView, attrs: Seq<(Seq<char>, Seq<char>)>) -> PaperView {
    let h = replace_all(href_of(attrs), "http://"@, "https://"@);
    if is_pdf_link(attrs) || cur.link.len() == 0 {
        PaperView { link: h, ..cur }
    } else {
        cur
    }
}

/// Text of a title or summary: line breaks made spaces, then double spaces
/// made single (one pass).
pub open spec fn clean_text(t: Seq<char>) -> Seq<char> {
    replace_all(replace_all(t, "\n"@, " "@), "  "@, " "@)
}

/// The state of reading an arXiv response.
pub struct ParseView {
    pub papers: Seq<PaperView>,
    pub total_results: Option<usize>,
    pub current: PaperView,
    pub in_entry: bool,
    pub current_tag: Seq<char>,
    pub in_author: bool,
}

/// The state before the first event.
pub open spec fn initial_parse_view() -> ParseView {
    ParseView {
        papers: Seq::empty(),
        total_results: None,
        current: empty_paper_view(),
        in_entry: false,
        current_tag: Seq::empty(),
        in_author: false,
    }
}

/// The state after a start tag `n`.
pub open spec fn on_start(st: ParseView, n: Seq<char>, attrs: Seq<(Seq<char>, Seq<char>)>) -> ParseView {
    let st1 = if n == "entry"@ {
        ParseView { in_entry: true, current: empty_paper_view(), ..st }
    } else if st.in_entry {
        if n == "author"@ {
            ParseView { in_author: true, ..st }
        } else if n == "name"@ && st.in_author {
            ParseView { current: PaperView { authors: st.current.authors.push(Seq::empty()), ..st.current }, ..st }
        } else if n == "link"@ {
            ParseView { current: apply_link(st.current, attrs), ..st }
        } else {
            st
        }
    } else {
        st
    };
    ParseView { current_tag: n, ..st1 }
}

/// The state after an end tag `n`: the end of an entry records the paper,
/// with the keywords it matches.
pub open spec fn on_end(st: ParseView, n: Seq<char>, keywords: Seq<Seq<char>>) -> ParseView {
    let st1 = if n == "entry"@ {
        let cur = PaperView {
            matched_keywords: matched_keywords_spec(paper_haystack(st.current.title, st.current.summary), keywords),
            ..st.current
        };
        ParseView { in_entry: false, current: cur, papers: st.papers.push(cur), ..st }
    } else if n == "author"@ {
        ParseView { in_author: false, ..st }
    } else {
        st
    };
    ParseView { current_tag: Seq::empty(), ..st1 }
}

/// The state after text `t` inside the current tag.
pub open spec fn on_text(st: ParseView, t: Seq<char>) -> ParseView {
    let c = st.current;
    if st.in_entry {
        if st.current_tag == "id"@ {
            ParseView { current: PaperView { id: c.id + t, ..c }, ..st }
        } else if st.current_tag == "title"@ {
            ParseView { current: PaperView { title: c.title + clean_text(t), ..c }, ..st }
        } else if st.current_tag == "summary"@ {
            ParseView { current: PaperView { summary: c.summary + clean_text(t), ..c }, ..st }
        } else if st.current_tag == "published"@ {
            ParseView { current: PaperView { published: c.published + t, ..c }, ..st }
        } else if st.current_tag == "updated"@ {
            ParseView { current: PaperView { updated: c.updated + t, ..c }, ..st }
        } else if st.current_tag == "name"@ && st.in_author && c.authors.len() > 0 {
            ParseView {
                current: PaperView {
                    authors: c.authors.update(c.authors.len() - 1, c.authors.last() + trim_ws(t)),
                    ..c
                },
                ..st
            }
        } else {
            st
        }
    } else if st.current_tag == "totalResults"@ {
        ParseView { total_results: parse_usize_spec(trim_ws(t)), ..st }
    } else {
        st
    }
}

/// The state after one event (`Eof` and errors end the reading elsewhere).
pub open spec fn parse_step(st: ParseView, e: XmlEventView, keywords: Seq<Seq<char>>) -> ParseView {
    match e {
        XmlEventView::Start(n, a) => on_start(st, n, a),
        XmlEventView::Empty(n, a) => if st.in_entry && n == "link"@ {
            ParseView { current: apply_link(st.current, a), ..st }
        } else {
            st
        },
        XmlEventView::End(n) => on_end(st, n, keywords),
        XmlEventView::Text(t) => on_text(st, t),
        _ => st,
    }
}

/// The result of reading the events `es` from the state `st`: the papers and
/// the total at `Eof` (or when the events run out), the error's text after
/// `Error parsing arxiv XML: ` at an error.
pub open spec fn parse_events(st: ParseView, es: Seq<XmlEventView>, keywords: Seq<Seq<char>>) -> Result<(Seq<PaperView>, Option<usize>), Seq<char>>
    decreases es.len(),
{
    if es.len() == 0 {
        Ok((st.papers, st.total_results))
    } else {
        match es[0] {
            XmlEventView::Eof => Ok((st.papers, st.total_results)),
            XmlEventView::Error(m) => Err("Error parsing arxiv XML: "@ + m),
            e => parse_events(parse_step(st, e, keywords), es.drop_first(), keywords),
        }
    }
}

/// The state of reading an arXiv response.
pub struct ParseState {
    pub papers: Vec<ArxivPaper>,
    pub total_results: Option<usize>,
    pub current: ArxivPaper,
    pub in_entry: bool,
    pub current_tag: String,
    pub in_author: bool,
}

/// The texts of a reading state.
pub open spec fn parse_view(st: ParseState) -> ParseView {
    ParseView {
        papers: paper_views(st.papers@),
        total_results: st.total_results,
        current: paper_view(st.current),
        in_entry: st.in_entry,
        current_tag: st.current_tag@,
        in_author: st.in_author,
    }
}

/// A paper with every text empty.
pub fn empty_paper() -> (p: ArxivPaper)
    ensures
        paper_view(p) == empty_paper_view(),
{
    let p = ArxivPaper {
        id: String::new(),
        title: String::new(),
        summary: String::new(),
        matched_keywords: Vec::new(),
        authors: Vec::new(),
        link: String::new(),
        published: String::new(),
        updated: String::new(),
    };
    assert(texts(p.matched_keywords@) =~= Seq::<Seq<char>>::empty());
    assert(texts(p.authors@) =~= Seq::<Seq<char>>::empty());
    p
}

/// A copy of a list of strings.
pub fn copy_strings(v: &Vec<String>) -> (r: Vec<String>)
    ensures
        texts(r@) == texts(v@),
{
    let mut r: Vec<String> = Vec::new();
    let mut i: usize = 0;
    while i < v.len()
        invariant
            i <= v@.len(),
            texts(r@) == texts(v@).subrange(0, i as int),
        decreases v@.len() - i,
    {
        let ghost before = texts(r@);
        let c = v[i].clone();
        assert(c@ == v@[i as int]@);
        r.push(c);
        assert(texts(r@) =~= before.push(v@[i as int]@));
        i += 1;
        assert(texts(r@) =~= texts(v@).subrange(0, i as int));
    }
    assert(texts(v@).subrange(0, v@.len() as int) =~= texts(v@));
    r
}

/// A copy of a paper.
pub fn copy_paper(p: &ArxivPaper) -> (r: ArxivPaper)
    ensures
        paper_view(r) == paper_view(*p),
{
    ArxivPaper {
        id: p.id.clone(),
        title: p.title.clone(),
        summary: p.summary.clone(),
        matched_keywords: copy_strings(&p.matched_keywords),
        authors: copy_strings(&p.authors),
        link: p.link.clone(),
        published: p.published.clone(),
        updated: p.updated.clone(),
    }
}

/// Whether the text is exactly `lit`.
fn text_is(s: &String, lit: &str) -> (r: bool)
    ensures
        r == (s@ == lit@),
{
    chars_equal(&chars_of(s.as_str()), &chars_of(lit))
}

/// The effect of a `link` element's attributes on the paper (see `apply_link`).
fn apply_link_exec(cur: &mut ArxivPaper, attrs: &Vec<(String, String)>)
    ensures
        paper_view(*final(cur)) == apply_link(paper_view(*old(cur)), attr_views(attrs@)),
{
    let mut is_pdf = false;
    let mut href = String::new();
    let mut i: usize = 0;
    while i < attrs.len()
        invariant
            i <= attrs@.len(),
            is_pdf == is_pdf_link(attr_views(attrs@).subrange(0, i as int)),
            href@ == href_of(attr_views(attrs@).subrange(0, i as int)),
        decreases attrs@.len() - i,
    {
        let ghost pre = attr_views(attrs@).subrange(0, i as int);
        let ghost post = attr_views(attrs@).subrange(0, i + 1);
        assert(post.drop_last() =~= pre);
        assert(post.last() == (attrs@[i as int].0@, attrs@[i as int].1@));
        let (k, v) = &attrs[i];
        if text_is(k, "title") && text_is(v, "pdf") {
            is_pdf = true;
            assert(post[i as int] == (k@, v@));
        } else {
            assert forall|j: int| 0 <= j < post.len() && (#[trigger] post[j]).0 == "title"@ implies post[j].1 != "pdf"@ || is_pdf by {
                if j < i {
                    assert(post[j] == pre[j]);
                }
            }
        }
        if text_is(k, "href") {
            href = v.clone();
        }
        i += 1;
    }
    assert(attr_views(attrs@).subrange(0, attrs@.len() as int) =~= attr_views(attrs@));
    proof {
        reveal_strlit("http://");
    }
    let h = replace_text(href.as_str(), "http://", "https://");
    if is_pdf || cur.link.as_str().is_empty() {
        cur.link = h;
    }
}


/// The state before the first event.
pub fn initial_parse_state() -> (st: ParseState)
    ensures
        parse_view(st) == initial_parse_view(),
{
    let st = ParseState {
        papers: Vec::new(),
        total_results: None,
        current: empty_paper(),
        in_entry: false,
        current_tag: String::new(),
        in_author: false,
    };
    assert(paper_views(st.papers@) =~= Seq::<PaperView>::empty());
    st
}

fn on_start_exec(st: &mut ParseState, n: &String, attrs: &Vec<(String, String)>)
    ensures
        parse_view(*final(st)) == on_start(parse_view(*old(st)), n@, attr_views(attrs@)),
{
    if text_is(n, "entry") {
        st.in_entry = true;
        st.current = empty_paper();
    } else if st.in_entry {
        if text_is(n, "author") {
            st.in_author = true;
        } else if text_is(n, "name") && st.in_author {
            let ghost before = texts(st.current.authors@);
            st.current.authors.push(String::new());
            assert(texts(st.current.authors@) =~= before.push(Seq::empty()));
        } else if text_is(n, "link") {
            apply_link_exec(&mut st.current, attrs);
        }
    }
    st.current_tag = n.clone();
}

fn on_end_exec(st: &mut ParseState, n: &String, keywords: &[String])
    ensures
        parse_view(*final(st)) == on_end(parse_view(*old(st)), n@, texts(keywords@)),
{
    if text_is(n, "entry") {
        st.in_entry = false;
        let matched = matched_keywords_for_paper(&st.current, keywords);
        st.current.matched_keywords = matched;
        let ghost before = paper_views(st.papers@);
        let copy = copy_paper(&st.current);
        st.papers.push(copy);
        assert(paper_views(st.papers@) =~= before.push(paper_view(st.current)));
    } else if text_is(n, "author") {
        st.in_author = false;
    }
    st.current_tag = String::new();
}

fn on_text_exec(st: &mut ParseState, t: &String)
    ensures
        parse_view(*final(st)) == on_text(parse_view(*old(st)), t@),
{
    proof {
        reveal_strlit("\n");
        reveal_strlit("  ");
    }
    if st.in_entry {
        if text_is(&st.current_tag, "id") {
            st.current.id = join2(st.current.id.as_str(), t.as_str());
        } else if text_is(&st.current_tag, "title") {
            let once = replace_text(t.as_str(), "\n", " ");
            let cleaned = replace_text(once.as_str(), "  ", " ");
            st.current.title = join2(st.current.title.as_str(), cleaned.as_str());
        } else if text_is(&st.current_tag, "summary") {
            let once = replace_text(t.as_str(), "\n", " ");
            let cleaned = replace_text(once.as_str(), "  ", " ");
            st.current.summary = join2(st.current.summary.as_str(), cleaned.as_str());
        } else if text_is(&st.current_tag, "published") {
            st.current.published = join2(st.current.published.as_str(), t.as_str());
        } else if text_is(&st.current_tag, "updated") {
            st.current.updated = join2(st.current.updated.as_str(), t.as_str());
        } else if text_is(&st.current_tag, "name") && st.in_author && st.current.authors.len() > 0 {
            let ghost before = texts(st.current.authors@);
            let last = st.current.authors.pop().unwrap();
            let trimmed = trim(t.as_str());
            st.current.authors.push(join2(last.as_str(), trimmed.as_str()));
            assert(texts(st.current.authors@) =~= before.update(
                before.len() - 1,
                before.last() + trim_ws(t@),
            ));
        }
    } else if text_is(&st.current_tag, "totalResults") {
        let trimmed = trim(t.as_str());
        st.total_results = parse_usize(trimmed.as_str());
    }
}

/// Applies one XML event to the reading state (see `parse_step`).
pub fn apply_xml_event(st: &mut ParseState, e: &XmlEvent, keywords: &[String])
    ensures
        parse_view(*final(st)) == parse_step(parse_view(*old(st)), event_view(*e), texts(keywords@)),
{
    match e {
        XmlEvent::Start(n, a) => on_start_exec(st, n, a),
        XmlEvent::Empty(n, a) => {
            if st.in_entry && text_is(n, "link") {
                apply_link_exec(&mut st.current, a);
            }
        },
        XmlEvent::End(n) => on_end_exec(st, n, keywords),
        XmlEvent::Text(t) => on_text_exec(st, t),
        _ => {},
    }
}

/// The texts of the result of reading a response.
pub open spec fn parse_result_view(r: Result<(Vec<ArxivPaper>, Option<usize>), String>) -> Result<(Seq<PaperView>, Option<usize>), Seq<char>> {
    match r {
        Ok((p, t)) => Ok((paper_views(p@), t)),
        Err(e) => Err(e@),
    }
}

/// The first `n` events of a document (see `xml_document_event`).
pub open spec fn xml_document_events(xml: Seq<char>, n: nat) -> Seq<XmlEventView> {
    Seq::new(n, |k: int| xml_document_event(xml, k as nat))
}

/// Reads the papers (with the keywords each matches) and the total result
/// count of an arXiv Atom response: the reading (see `parse_events`) of the
/// events that `quick_xml` gives for it, of which at most one more than the
/// response has bytes are read; the reading stops there as it stops at the
/// end of the document.
pub fn parse_arxiv_response(xml: &str, keywords: &[String]) -> (r: Result<(Vec<ArxivPaper>, Option<usize>), String>)
    ensures
        parse_result_view(r) == parse_events(
            initial_parse_view(),
            xml_document_events(xml@, (xml.len() + 1) as nat),
            texts(keywords@),
        ),
{
    let mut reader = xml_reader(xml);
    let mut st = initial_parse_state();
    let limit = xml.len();
    let ghost all = xml_document_events(xml@, (limit + 1) as nat);
    let mut count: usize = 0;
    let ghost mut seen: Seq<XmlEventView> = Seq::empty();
    while count <= limit
        invariant_except_break
            seen.len() == count,
            seen =~= all.subrange(0, count as int),
            xml_reader_document(reader) == xml@,
            xml_reader_count(reader) == count,
        invariant
            limit == xml.len(),
            all == xml_document_events(xml@, (limit + 1) as nat),
            count <= limit + 1,
            forall|rest: Seq<XmlEventView>|
                parse_events(initial_parse_view(), seen + rest, texts(keywords@))
                    == #[trigger] parse_events(parse_view(st), rest, texts(keywords@)),
        ensures
            seen =~= all,
        decreases limit + 1 - count,
    {
        let e = read_xml_event(&mut reader);
        proof {
            assert(all[count as int] == event_view(e));
            assert(all =~= seen + all.subrange(count as int, all.len() as int));
            assert(all.subrange(count as int, all.len() as int)[0] == event_view(e));
        }
        match e {
            XmlEvent::Eof => {
                proof {
                    let rest = all.subrange(count as int, all.len() as int);
                    assert(parse_events(parse_view(st), rest, texts(keywords@)) == Ok::<(Seq<PaperView>, Option<usize>), Seq<char>>((parse_view(st).papers, parse_view(st).total_results)));
                }
                return Ok((st.papers, st.total_results));
            },
            XmlEvent::Error(m) => {
                proof {
                    let rest = all.subrange(count as int, all.len() as int);
                    assert(parse_events(parse_view(st), rest, texts(keywords@)) == Err::<(Seq<PaperView>, Option<usize>), Seq<char>>("Error parsing arxiv XML: "@ + m@));
                }
                return Err(join2("Error parsing arxiv XML: ", m.as_str()));
            },
            _ => {},
        }
        let ghost pre = parse_view(st);
        let ghost ev = event_view(e);
        apply_xml_event(&mut st, &e, keywords);
        proof {
            assert forall|rest: Seq<XmlEventView>|
                parse_events(initial_parse_view(), (seen.push(ev)) + rest, texts(keywords@))
                    == #[trigger] parse_events(parse_view(st), rest, texts(keywords@)) by {
                assert((seen.push(ev)) + rest =~= seen + (seq![ev] + rest));
                assert((seq![ev] + rest).drop_first() =~= rest);
                assert(parse_events(initial_parse_view(), seen + (seq![ev] + rest), texts(keywords@))
                    == parse_events(pre, seq![ev] + rest, texts(keywords@)));
            }
            seen = seen.push(ev);
        }
        if count == limit {
            proof {
                assert(seen =~= all);
            }
            break;
        }
        count += 1;
    }
    proof {
        assert(seen + Seq::<XmlEventView>::empty() =~= seen);
        assert(parse_events(parse_view(st), Seq::<XmlEventView>::empty(), texts(keywords@)) == Ok::<(Seq<PaperView>, Option<usize>), Seq<char>>((parse_view(st).papers, parse_view(st).total_results)));
    }
    Ok((st.papers, st.total_results))
}

} // verus!
