use guide::chunker::DocumentChunk;
use guide::extractor::{align_to_patch, normalize_page_text};
use guide::pipeline::{
    chunk_char_budget, infer_lore_type, lore_chunks_created, lore_collection, lore_visible, LoreKind,
    add_to_meta_index, DocSummary, MetaIndex,
    chapter_name_of, group_chunks_by_chapter, join_and_truncate, join_chunks, meta_index_path,
    plan_story_extraction, summary_excerpt, truncate_for_embed, windows_for_chapter, StoryPlan,
};

fn chunk(path: &str, content: &str) -> DocumentChunk {
    DocumentChunk { content: content.to_string(), page_range: (1, 1), section_path: path.to_string() }
}

#[test]
fn embed_text_cut_at_char_boundary() {
    let short = "hello";
    assert_eq!(truncate_for_embed(short), "hello");
    let long = format!("{}é", "a".repeat(7999));
    let t = truncate_for_embed(&long);
    assert_eq!(t.len(), 7999);
    let exact = "b".repeat(8000);
    assert_eq!(truncate_for_embed(&exact).len(), 8000);
}

#[test]
fn index_paths() {
    assert_eq!(meta_index_path("global"), "data/indexes/global/meta.json");
    assert_eq!(meta_index_path("abc/"), "data/indexes/abc/meta.json");
    assert_eq!(meta_index_path("/abs"), "/abs/meta.json");
    assert_eq!(meta_index_path(""), "data/indexes/meta.json");
}

#[test]
fn chapter_names() {
    assert_eq!(chapter_name_of(&chunk("Chapter 1 > Arrival", "x")), "Chapter 1");
    assert_eq!(chapter_name_of(&chunk("", "x")), "(Introduction)");
    assert_eq!(chapter_name_of(&chunk("  Solo  ", "x")), "Solo");
    assert_eq!(chapter_name_of(&chunk(" > B", "x")), "(Introduction)");
}

#[test]
fn groups_by_first_appearance() {
    let cs = vec![chunk("B > x", "1"), chunk("A", "2"), chunk("B > y", "3"), chunk("", "4")];
    let g = group_chunks_by_chapter(&cs);
    let names: Vec<&str> = g.iter().map(|(n, _)| n.as_str()).collect();
    assert_eq!(names, vec!["B", "A", "(Introduction)"]);
    let b: Vec<&str> = g[0].1.iter().map(|c| c.content.as_str()).collect();
    assert_eq!(b, vec!["1", "3"]);
}

#[test]
fn joining_and_windows() {
    let a = chunk("A", "aaaa");
    let b = chunk("A", "bbbb");
    let c = chunk("A", "cccccccccc");
    let refs = vec![&a, &b, &c];
    assert_eq!(join_chunks(&refs), "aaaa\n\nbbbb\n\ncccccccccc");
    assert_eq!(join_and_truncate(&refs, 7), "aaaa\n\nb");
    let ws = windows_for_chapter(&refs, 10);
    let sizes: Vec<usize> = ws.iter().map(|w| w.len()).collect();
    assert_eq!(sizes, vec![2, 1]);
    let ws2 = windows_for_chapter(&refs, 5);
    let sizes2: Vec<usize> = ws2.iter().map(|w| w.len()).collect();
    assert_eq!(sizes2, vec![1, 1, 1]);
    let empty: Vec<&DocumentChunk> = vec![];
    assert!(windows_for_chapter(&empty, 10).is_empty());
}

#[test]
fn story_plan_single_chapter() {
    let cs = vec![chunk("A", "one"), chunk("A > b", "two")];
    match plan_story_extraction(&cs) {
        StoryPlan::Whole { text } => assert_eq!(text, "one\n\ntwo"),
        StoryPlan::Windows { .. } => panic!("expected one call"),
    }
}

#[test]
fn story_plan_per_chapter_windows() {
    let big = "x".repeat(15000);
    let cs = vec![chunk("A", &big), chunk("A", &big), chunk("B", "short")];
    match plan_story_extraction(&cs) {
        StoryPlan::Windows { calls } => {
            let labels: Vec<&str> = calls.iter().map(|c| c.label.as_str()).collect();
            assert_eq!(labels, vec!["A (part 1/2)", "A (part 2/2)", "B"]);
            assert_eq!(calls[2].text, "short");
            assert_eq!(calls[0].chapter, "A");
        }
        StoryPlan::Whole { .. } => panic!("expected windows"),
    }
}

#[test]
fn page_text_normalised() {
    assert_eq!(normalize_page_text("a\r\nb\rc\td   e  \n"), "a\nb\nc d e");
    assert_eq!(normalize_page_text(""), "");
    assert_eq!(normalize_page_text("x  \t y"), "x y");
}

#[test]
fn patch_alignment() {
    assert_eq!(align_to_patch(0), 0);
    assert_eq!(align_to_patch(1), 28);
    assert_eq!(align_to_patch(28), 28);
    assert_eq!(align_to_patch(29), 56);
}

#[test]
fn summary_excerpt_takes_first_chunk_prefix() {
    assert_eq!(summary_excerpt(&[]), "");
    let short = vec![chunk("A", "short text"), chunk("B", "other")];
    assert_eq!(summary_excerpt(&short), "short text");
    let long = "é".repeat(2500);
    let got = summary_excerpt(&[chunk("A", &long)]);
    assert_eq!(got.chars().count(), 2000);
    assert_eq!(got, "é".repeat(2000));
}

fn summary(id: u128, text: &str) -> DocSummary {
    DocSummary {
        doc_id: id,
        doc_name: format!("doc{id}"),
        filename: format!("doc{id}.pdf"),
        summary: text.to_string(),
        scope: "global".to_string(),
        ingested_at: "2024-01-01T00:00:00Z".to_string(),
    }
}

#[test]
fn meta_index_replaces_earlier_summary() {
    let index = MetaIndex { scope: "global".to_string(), entries: vec![summary(1, "a"), summary(2, "b"), summary(1, "c")] };
    let r = add_to_meta_index(index, summary(1, "new"));
    assert_eq!(r.scope, "global");
    let got: Vec<(u128, String)> = r.entries.iter().map(|e| (e.doc_id, e.summary.clone())).collect();
    assert_eq!(got, vec![(2, "b".to_string()), (1, "new".to_string())]);
}

#[test]
fn meta_index_appends_new_document() {
    let index = MetaIndex { scope: "7".to_string(), entries: vec![summary(1, "a")] };
    let r = add_to_meta_index(index, summary(3, "c"));
    let ids: Vec<u128> = r.entries.iter().map(|e| e.doc_id).collect();
    assert_eq!(ids, vec![1, 3]);
}

#[test]
fn lore_type_follows_the_kind() {
    assert_eq!(infer_lore_type(LoreKind::Rulebook), "mechanic");
    assert_eq!(infer_lore_type(LoreKind::Campaign), "plot");
}

#[test]
fn lore_goes_to_the_right_collection() {
    assert_eq!(lore_collection(LoreKind::Rulebook, None).unwrap(), "global_rules");
    assert_eq!(lore_collection(LoreKind::Rulebook, Some("7")).unwrap(), "global_rules");
    assert_eq!(lore_collection(LoreKind::Campaign, Some("7")).unwrap(), "campaign_7_lore");
    match lore_collection(LoreKind::Campaign, None) {
        Err(guide::error::GuideError::PdfProcessing(m)) => assert_eq!(m, "campaign_id required for Campaign documents"),
        _ => panic!("expected an error"),
    }
}

#[test]
fn rulebooks_are_always_visible() {
    assert!(lore_visible(LoreKind::Rulebook, false, false));
    assert!(lore_visible(LoreKind::Campaign, true, true));
    assert!(!lore_visible(LoreKind::Campaign, true, false));
    assert!(!lore_visible(LoreKind::Campaign, false, true));
}

#[test]
fn created_count_skips_failed_embeddings() {
    assert_eq!(lore_chunks_created(&[true, false, true, true]), 3);
    assert_eq!(lore_chunks_created(&[]), 0);
    assert_eq!(chunk_char_budget(400), 1600);
}
