use guide::agent::{
    get_page_range_tool, get_page_tool, get_toc_tool, lookup_index_tool, ArgType,
    agent_chapter_prompt, agent_system_prompt, decimal_exec, get_page, get_page_range, get_toc,
    lookup_index, DocumentData, ToolErr,
};
use guide::navigation::{IndexEntry, TocEntry};
use std::collections::HashMap;

fn data() -> DocumentData {
    let mut pages = HashMap::new();
    for n in 1u32..=40 {
        pages.insert(n, format!("page {n}"));
    }
    DocumentData {
        pages,
        toc: vec![
            TocEntry { title: "Intro".to_string(), page: 1, depth: 0 },
            TocEntry { title: "Arrival".to_string(), page: 3, depth: 1 },
        ],
        index: vec![
            IndexEntry { term: "barovia".to_string(), pages: vec![5, 14] },
            IndexEntry { term: "empty".to_string(), pages: vec![] },
        ],
        page_offset: 2,
    }
}

#[test]
fn decimal_text() {
    assert_eq!(decimal_exec(0).iter().collect::<String>(), "0");
    assert_eq!(decimal_exec(4096).iter().collect::<String>(), "4096");
}

#[test]
fn page_with_offset() {
    let d = data();
    assert_eq!(get_page(&d, 3).ok().unwrap(), "page 5");
    let err = get_page(&d, 100).err().unwrap();
    assert_eq!(err.to_string(), "Page 100 not found in document (pdf_page=102)");
    let mut neg = data();
    neg.page_offset = -10;
    assert_eq!(get_page(&neg, 3).ok().unwrap(), "page 1");
}

#[test]
fn page_ranges_capped_at_thirty() {
    let d = data();
    let t = get_page_range(&d, 1, 2).ok().unwrap();
    assert_eq!(t, "page 3\n\n---\n\npage 4");
    let long = get_page_range(&d, 1, 100).ok().unwrap();
    assert_eq!(long.matches("---").count(), 29);
    let ToolErr(msg) = get_page_range(&d, 50, 60).err().unwrap();
    assert_eq!(msg, "No pages found in range 50-60 (pdf 52-62)");
}

#[test]
fn toc_listing() {
    let d = data();
    assert_eq!(get_toc(&d), "Intro \u{2014} page 1\n  Arrival \u{2014} page 3");
    let mut e = data();
    e.toc.clear();
    assert_eq!(get_toc(&e), "No Table of Contents available for this document.");
}

#[test]
fn index_lookup() {
    let d = data();
    assert_eq!(lookup_index(&d, "Barovia"), "'Barovia' appears on page(s): 5, 14");
    assert_eq!(lookup_index(&d, "Empty"), "'Empty' was not found in the document index.");
    assert_eq!(lookup_index(&d, "Strahd"), "'Strahd' was not found in the document index.");
}

#[test]
fn agent_prompts() {
    let p = agent_chapter_prompt("TEXT", "Ch 1", "Doc", Some("before"));
    assert!(p.starts_with("Document: Doc\nChapter: Ch 1\n\nPrevious chapters summary:\nbefore\n\n# Ch 1\nTEXT\n\nExtract"));
    let q = agent_chapter_prompt("T", "C", "D", None);
    assert!(q.starts_with("Document: D\nChapter: C\n\n# C\nT"));
    let s = agent_system_prompt("Curse", "Barovia", "gothic", "dread");
    assert!(s.contains("'Curse'"));
    assert!(s.contains("Setting: Barovia. Tone: gothic. Themes: dread."));
    assert!(s.contains("{\"title\": \"<arc name>\""));
}

#[test]
fn tool_definitions_name_their_arguments() {
    let p = get_page_tool();
    assert_eq!(p.name, "get_page");
    assert_eq!(p.args.len(), 1);
    assert_eq!(p.args[0].name, "page_num");
    assert_eq!(p.args[0].arg_type, ArgType::Integer);
    let r = get_page_range_tool();
    assert_eq!(r.name, "get_page_range");
    assert_eq!(r.args.iter().map(|a| a.name).collect::<Vec<_>>(), vec!["start", "end"]);
    assert!(r.description.contains("Limit to 30 pages per call."));
    let t = get_toc_tool();
    assert_eq!(t.name, "get_toc");
    assert!(t.args.is_empty());
    let l = lookup_index_tool();
    assert_eq!(l.name, "lookup_index");
    assert_eq!(l.args[0].name, "term");
    assert_eq!(l.args[0].arg_type, ArgType::Text);
}
