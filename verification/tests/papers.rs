use widgitron::arxiv::{
    build_category_query, get_unique_keywords, keyword_terms, matched_keywords_for_paper,
    merge_papers, normalize_keyword, parse_arxiv_response, remove_seen_papers,
    sort_papers_by_updated_desc, ArxivPaper,
};

fn paper(id: &str, updated: &str, keywords: &[&str]) -> ArxivPaper {
    ArxivPaper {
        id: id.to_string(),
        title: format!("Title {}", id),
        summary: String::new(),
        matched_keywords: keywords.iter().map(|k| k.to_string()).collect(),
        authors: Vec::new(),
        link: String::new(),
        published: String::new(),
        updated: updated.to_string(),
    }
}

const FEED: &str = r#"<?xml version="1.0" encoding="UTF-8"?>
<feed xmlns="http://www.w3.org/2005/Atom" xmlns:opensearch="http://a9.com/-/spec/opensearch/1.1/">
  <opensearch:totalResults>42</opensearch:totalResults>
  <entry>
    <id>http://arxiv.org/abs/2601.00001v1</id>
    <updated>2026-01-01T10:00:00Z</updated>
    <published>2026-01-01T09:00:00Z</published>
    <title>Diffusion   Models
 for Graphs</title>
    <summary>We study graph diffusion.</summary>
    <author><name>Ada Lovelace</name></author>
    <author><name>Alan Turing</name></author>
    <link href="http://arxiv.org/abs/2601.00001v1" rel="alternate" type="text/html"/>
    <link title="pdf" href="http://arxiv.org/pdf/2601.00001v1" rel="related" type="application/pdf"/>
  </entry>
</feed>"#;

#[test]
fn reads_entries_of_an_atom_feed() {
    let keywords = vec!["graph diffusion".to_string(), "transformers".to_string()];
    let (papers, total) = parse_arxiv_response(FEED, &keywords).unwrap();
    assert_eq!(total, Some(42));
    assert_eq!(papers.len(), 1);
    let p = &papers[0];
    assert!(p.id.contains("2601.00001"));
    assert_eq!(p.updated, "2026-01-01T10:00:00Z");
    assert_eq!(p.authors, vec!["Ada Lovelace".to_string(), "Alan Turing".to_string()]);
    assert!(p.link.contains("pdf"));
    assert_eq!(p.matched_keywords, vec!["graph diffusion".to_string()]);
}

#[test]
fn broken_feeds_are_errors() {
    let err = parse_arxiv_response("<feed><entry></feed>", &[]).unwrap_err();
    assert!(err.starts_with("Error parsing arxiv XML: "));
}

#[test]
fn keywords_are_normalized_and_deduplicated() {
    assert_eq!(normalize_keyword("  \"Graph Nets\" "), "graph nets");
    assert_eq!(keyword_terms("\"(Self-Supervised) learning!\""), vec!["self-supervised", "learning"]);
    let unique = get_unique_keywords(&[
        " GNN ".to_string(),
        "gnn".to_string(),
        "".to_string(),
        "RL".to_string(),
    ]);
    assert_eq!(unique, vec!["GNN".to_string(), "RL".to_string()]);
    assert_eq!(build_category_query(&["cs.LG ".to_string(), "stat.ML".to_string()]), "(cat:cs.LG* OR cat:stat.ML*)");
}

#[test]
fn keyword_matches_need_every_term() {
    let mut p = paper("1", "", &[]);
    p.title = "Scaling Graph Neural Networks".to_string();
    p.summary = "We scale message passing.".to_string();
    let found = matched_keywords_for_paper(&p, &["graph networks".to_string(), "graph transformers".to_string()]);
    assert_eq!(found, vec!["graph networks".to_string()]);
}

#[test]
fn merging_unites_keywords_of_the_same_paper() {
    let mut target = vec![paper("a", "", &["GNN"])];
    merge_papers(&mut target, vec![paper("a", "", &["gnn", "RL"]), paper("b", "", &["CV"])]);
    let ids: Vec<&str> = target.iter().map(|p| p.id.as_str()).collect();
    assert_eq!(ids, vec!["a", "b"]);
    assert_eq!(target[0].matched_keywords, vec!["GNN".to_string(), "RL".to_string()]);
}

#[test]
fn sorts_newest_first_and_drops_seen_papers() {
    let mut papers = vec![
        paper("old", "2025-01-01T00:00:00Z", &[]),
        paper("none", "garbage", &[]),
        paper("new", "2026-01-01T00:00:00Z", &[]),
    ];
    sort_papers_by_updated_desc(&mut papers);
    let ids: Vec<&str> = papers.iter().map(|p| p.id.as_str()).collect();
    assert_eq!(ids, vec!["new", "old", "none"]);
    let left = remove_seen_papers(papers, &vec!["old".to_string()]);
    let ids: Vec<&str> = left.iter().map(|p| p.id.as_str()).collect();
    assert_eq!(ids, vec!["new", "none"]);
}
