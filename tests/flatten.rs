use docs_indexer::records::{
    document_ids_fit_check, flatten, loop_insert, whole_page_record, DocumentItem,
    MeilisearchDocument,
};

fn item(url: &str, title: &str, content: &str, tag: Option<&str>, toc: Vec<DocumentItem>) -> DocumentItem {
    DocumentItem {
        url: url.to_string(),
        title: title.to_string(),
        content: content.to_string(),
        tag: tag.map(|t| t.to_string()),
        toc,
    }
}

fn ids(records: &[MeilisearchDocument]) -> Vec<String> {
    records.iter().map(|r| r.id.clone()).collect()
}

#[test]
fn empty_outline_gives_only_the_page_record() {
    let doc = item("/guide", "Guide - MySite", "intro", None, vec![]);
    assert!(flatten(&doc).is_empty());
    let page = whole_page_record(&doc);
    assert_eq!(page.id, "0");
    assert_eq!(page.url, "/guide");
    assert_eq!(page.title, "Guide - MySite");
    assert_eq!(page.tag, "DOM");
    assert_eq!(page.content, "intro");
    assert_eq!(page.pinyin, "intro");
}

#[test]
fn single_child_record() {
    let setup = item("/setup", "Setup", "steps", None, vec![]);
    let doc = item("/guide", "Guide - MySite", "intro", None, vec![setup]);
    let records = flatten(&doc);
    assert_eq!(records.len(), 1);
    let r = &records[0];
    assert_eq!(r.id, "2");
    assert_eq!(r.url, "/setup - Guide");
    assert_eq!(r.title, "Setup");
    assert_eq!(r.tag, "DOM");
    assert_eq!(r.content, "steps");
    assert_eq!(r.pinyin, "intro");
    assert_eq!(r.get_uid(), "2");
}

#[test]
fn child_records_carry_the_parent_transliteration() {
    let leaf = item("/b", "B", "叶", None, vec![]);
    let a = item("/a", "A", "拼音", None, vec![leaf]);
    let doc = item("/", "Site", "中国", None, vec![a]);
    let records = flatten(&doc);
    assert_eq!(records.len(), 2);
    assert_eq!(records[0].pinyin, " zhong guo");
    assert_eq!(records[1].pinyin, " pin yin");
    assert_eq!(whole_page_record(&doc).pinyin, " zhong guo");
}

#[test]
fn tags_default_and_are_kept() {
    let a = item("/a", "A", "", Some("API"), vec![]);
    let b = item("/b", "B", "", None, vec![]);
    let doc = item("/", "Site", "", Some("PAGE"), vec![a, b]);
    let records = flatten(&doc);
    assert_eq!(records[0].tag, "API");
    assert_eq!(records[1].tag, "DOM");
    assert_eq!(whole_page_record(&doc).tag, "PAGE");
    for r in &records {
        assert!(!r.tag.is_empty());
    }
}

#[test]
fn untitled_child_and_its_subtree_are_skipped() {
    let hidden_leaf = item("/h/x", "Hidden leaf", "x", None, vec![]);
    let hidden = item("/h", "", "h", None, vec![hidden_leaf]);
    let a = item("/a", "A", "a", None, vec![]);
    let b = item("/b", "B", "b", None, vec![]);
    let doc = item("/", "Docs - Site", "root", None, vec![a, hidden, b]);
    let records = flatten(&doc);
    assert_eq!(ids(&records), vec!["2".to_string(), "3".to_string()]);
    assert_eq!(records[0].title, "A");
    assert_eq!(records[1].title, "B");
    assert!(records.iter().all(|r| r.title != "Hidden leaf"));
}

#[test]
fn nested_ids_follow_one_counter_and_are_distinct() {
    let g1 = item("/a/1", "A1", "", None, vec![]);
    let g2 = item("/a/2", "A2", "", None, vec![item("/a/2/x", "A2x", "", None, vec![])]);
    let a = item("/a", "A", "", None, vec![g1, g2]);
    let b = item("/b", "B", "", None, vec![item("/b/1", "B1", "", None, vec![])]);
    let doc = item("/", "Site", "", None, vec![a, b]);
    let records = flatten(&doc);
    let got = ids(&records);
    let want: Vec<String> = ["2", "3", "4", "5", "6", "7"].iter().map(|s| s.to_string()).collect();
    assert_eq!(got, want);
    for i in 0..got.len() {
        for j in (i + 1)..got.len() {
            assert_ne!(got[i], got[j]);
        }
    }
}

#[test]
fn loop_insert_appends_after_existing_records() {
    let doc = item("/", "Site", "c", None, vec![item("/a", "A", "", None, vec![])]);
    let mut context = vec![whole_page_record(&doc)];
    assert_eq!(loop_insert(&doc, &mut context, &doc, 1), 2);
    assert_eq!(ids(&context), vec!["0".to_string(), "2".to_string()]);
    assert_eq!(context[1].url, "/a - Site");
}

#[test]
fn loop_insert_with_a_wider_level() {
    let doc = item("/", "Site", "", None, vec![item("/a", "A", "", None, vec![]), item("/b", "B", "", None, vec![])]);
    let mut context = Vec::new();
    assert_eq!(loop_insert(&doc, &mut context, &doc, 40), 42);
    assert_eq!(ids(&context), vec!["41".to_string(), "42".to_string()]);
}

#[test]
fn ids_fit_for_ordinary_outlines() {
    let doc = item("/", "Site", "", None, vec![item("/a", "A", "", None, vec![item("/b", "B", "", None, vec![])])]);
    assert!(document_ids_fit_check(&doc));
}

#[test]
fn deep_outlines_are_numbered_in_order() {
    let mut node = item("/leaf", "Leaf", "", None, vec![]);
    for _ in 0..25 {
        node = item("/n", "N", "", None, vec![node]);
    }
    let doc = item("/", "Site", "", None, vec![node]);
    assert!(document_ids_fit_check(&doc));
    let got = ids(&flatten(&doc));
    assert_eq!(got.len(), 26);
    assert_eq!(got[25], "27");
}

#[test]
fn an_empty_source_tag_becomes_dom() {
    let doc = item("/", "Site", "", Some(""), vec![item("/a", "A", "", Some(""), vec![])]);
    assert_eq!(flatten(&doc)[0].tag, "DOM");
    assert_eq!(whole_page_record(&doc).tag, "DOM");
}

#[test]
fn many_children_do_not_collide_with_nested_ids() {
    let leaves: Vec<DocumentItem> = (0..11).map(|k| item("/l", &format!("L{}", k), "", None, vec![])).collect();
    let first = item("/a", "A", "", None, leaves);
    let second = item("/b", "B", "", None, vec![item("/b/1", "B1", "", None, vec![])]);
    let doc = item("/", "Site", "", None, vec![first, second]);
    let got = ids(&flatten(&doc));
    assert_eq!(got.len(), 14);
    for (k, id) in got.iter().enumerate() {
        assert_eq!(*id, (k + 2).to_string());
    }
    assert!(got.iter().all(|id| id != "0"));
}

#[test]
fn nine_entries_at_the_top_reach_id_ten() {
    let toc: Vec<DocumentItem> = (0..9).map(|k| item("/k", &format!("T{}", k), "", None, vec![])).collect();
    let doc = item("/", "Site", "", None, toc);
    let got = ids(&flatten(&doc));
    assert_eq!(got.len(), 9);
    assert_eq!(got[0], "2");
    assert_eq!(got[8], "10");
}
