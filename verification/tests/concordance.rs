use ewe::concordance::{doc_concordance_lines, get_sense_concordance, get_sense_documents, ConcordanceLine};

fn words(n: usize) -> Vec<String> {
    (0..n).map(|i| format!("w{}", i)).collect()
}

fn line(doc: &str, n: usize) -> ConcordanceLine {
    ConcordanceLine { doc_id: doc.to_string(), left: String::new(), target: format!("t{}", n), right: String::new() }
}

#[test]
fn concordance_lines_take_twenty_words_each_side() {
    let tokens = words(50);
    let pairs = vec![(25u32, "oewn-00001740-n".to_string())];
    let lines = doc_concordance_lines("br-a01", &pairs, &tokens, "oewn-00001740-n");
    assert_eq!(lines.len(), 1);
    let l = &lines[0];
    assert_eq!(l.doc_id, "br-a01");
    assert_eq!(l.target, "w25");
    let left: Vec<String> = (5..25).map(|i| format!("w{}", i)).collect();
    let right: Vec<String> = (26..46).map(|i| format!("w{}", i)).collect();
    assert_eq!(l.left, left.join(" "));
    assert_eq!(l.right, right.join(" "));
}

#[test]
fn concordance_lines_clip_at_document_edges() {
    let tokens = words(5);
    let pairs = vec![(0u32, "k".to_string()), (4u32, "x;k".to_string())];
    let lines = doc_concordance_lines("d", &pairs, &tokens, "k");
    assert_eq!(lines.len(), 2);
    assert_eq!(lines[0].left, "");
    assert_eq!(lines[0].target, "w0");
    assert_eq!(lines[0].right, "w1 w2 w3 w4");
    assert_eq!(lines[1].left, "w0 w1 w2 w3");
    assert_eq!(lines[1].target, "w4");
    assert_eq!(lines[1].right, "");
}

#[test]
fn concordance_lines_skip_other_senses_and_missing_tokens() {
    let tokens = words(3);
    let pairs = vec![(1u32, "other".to_string()), (7u32, "k".to_string()), (2u32, "k".to_string())];
    let lines = doc_concordance_lines("d", &pairs, &tokens, "k");
    assert_eq!(lines.len(), 1);
    assert_eq!(lines[0].target, "w2");
    assert_eq!(lines[0].left, "w0 w1");
}

#[test]
fn concordance_page_slices_and_clamps() {
    let all: Vec<ConcordanceLine> = (0..250).map(|i| line("d", i)).collect();
    let p = get_sense_concordance(all, 1);
    assert_eq!(p.total, 250);
    assert_eq!(p.total_pages, 3);
    assert_eq!(p.page, 1);
    assert_eq!(p.lines.len(), 100);
    assert_eq!(p.lines[0].target, "t100");

    let all: Vec<ConcordanceLine> = (0..250).map(|i| line("d", i)).collect();
    let last = get_sense_concordance(all, 9);
    assert_eq!(last.page, 2);
    assert_eq!(last.lines.len(), 50);
    assert_eq!(last.lines[49].target, "t249");
}

#[test]
fn concordance_page_of_nothing_is_one_empty_page() {
    let p = get_sense_concordance(Vec::new(), 3);
    assert_eq!(p.total, 0);
    assert_eq!(p.total_pages, 1);
    assert_eq!(p.page, 0);
    assert!(p.lines.is_empty());
}

#[test]
fn sense_documents_are_sorted_and_unique() {
    let lines = vec![line("br-b02", 0), line("br-a01", 1), line("br-b02", 2), line("br-a10", 3), line("br-a01", 4)];
    assert_eq!(get_sense_documents(&lines), vec!["br-a01".to_string(), "br-a10".to_string(), "br-b02".to_string()]);
    assert!(get_sense_documents(&Vec::new()).is_empty());
}

#[test]
fn sense_documents_order_prefixes_first() {
    let lines = vec![line("ab", 0), line("a", 1), line("b", 2), line("aa", 3)];
    let mut expected = vec!["ab".to_string(), "a".to_string(), "b".to_string(), "aa".to_string()];
    expected.sort();
    assert_eq!(get_sense_documents(&lines), expected);
}
