use guide::extractor::PageExtraction;
use guide::navigation::{detect_document_navigation, detect_page_offset, page_offset_safe_exec, parse_index_line, parse_toc_line, TocEntry};
use std::collections::HashMap;

fn fake_page(page_num: u32, text: &str) -> PageExtraction {
    PageExtraction {
        page_num,
        raw_text: text.to_string(),
        headings: vec![],
    }
}

#[test]
fn detects_toc_dotted_leaders() {
    let toc_text = "\
Chapter 1: Welcome to Barovia .......... 5\n\
Chapter 2: The Village of Barovia ..... 14\n\
Chapter 3: The Village of Krezk ........ 38\n\
Chapter 4: Castle Ravenloft ............. 55\n\
Appendix A: Monsters ................... 230\n";
    let pages = vec![fake_page(2, toc_text)];
    let (toc, _) = detect_document_navigation(&pages);
    assert_eq!(toc.len(), 5);
    assert_eq!(toc[0].title, "Chapter 1: Welcome to Barovia");
    assert_eq!(toc[0].page, 5);
    assert_eq!(toc[0].depth, 0);
}

#[test]
fn toc_handles_tab_separated_ocr() {
    let toc_text = "\
Introduction ..............................3\n\
Campaign\tOverview...........................4\n\
Leveling\tUp.........................................................................6\n\
Chapter 1: The\tVillage ....................................................14\n\
Chapter 2: The\tCastle ....................................................55\n";
    let pages = vec![fake_page(2, toc_text)];
    let (toc, _) = detect_document_navigation(&pages);
    assert_eq!(toc.len(), 5);
    assert_eq!(toc[1].title, "Campaign Overview");
    assert_eq!(toc[1].page, 4);
    assert_eq!(toc[2].title, "Leveling Up");
    assert_eq!(toc[2].page, 6);
}

#[test]
fn toc_not_detected_on_sparse_page() {
    let text = "Some random page\nChapter 1 ...... 5\nAnother line\nChapter 2 ...... 14\n";
    let pages = vec![fake_page(1, text)];
    let (toc, _) = detect_document_navigation(&pages);
    assert!(toc.is_empty());
}

#[test]
fn detects_index_entries() {
    let index_text = "\
Barovia, 5, 14, 109\n\
Bats, 23, 45\n\
Beasts, 78\n\
Bones of St. Andral, 55\n\
Burgomaster, 14, 21\n\
Castle Ravenloft, 55, 78, 100\n\
Coffin maker, 30\n\
Crypts, 100\n\
Death house, 7\n";
    let pages = vec![fake_page(240, index_text)];
    let (_, index) = detect_document_navigation(&pages);
    assert!(index.len() >= 8);
    let barovia = index.iter().find(|e| e.term == "barovia").unwrap();
    assert!(barovia.pages.contains(&5));
    assert!(barovia.pages.contains(&14));
}

#[test]
fn index_not_detected_in_early_pages() {
    let index_text = "\
Alpha, 1, 2\nBeta, 3\nGamma, 4\nDelta, 5\nEpsilon, 6\nZeta, 7\nEta, 8\nTheta, 9\n";
    let pages: Vec<PageExtraction> = (1u32..=300)
        .map(|n| fake_page(n, if n == 3 { index_text } else { "Regular content here.\n" }))
        .collect();
    let (_, index) = detect_document_navigation(&pages);
    assert!(index.is_empty());
}

#[test]
fn index_merges_terms_case_insensitively_and_sorts() {
    let text = "\
Zombies, 40, 12\n\
Arrows, 3\n\
zombies, 12, 7\n\
Mist, 9\n\
Bats, 23\n\
Crypts, 100\n\
Dogs, 8\n\
Elves, 2\n";
    let pages = vec![fake_page(200, text)];
    let (_, index) = detect_document_navigation(&pages);
    let terms: Vec<&str> = index.iter().map(|e| e.term.as_str()).collect();
    assert_eq!(terms, vec!["arrows", "bats", "crypts", "dogs", "elves", "mist", "zombies"]);
    let z = index.iter().find(|e| e.term == "zombies").unwrap();
    assert_eq!(z.pages, vec![7, 12, 40]);
}

#[test]
fn toc_keeps_first_of_repeated_entries() {
    let text = "\
Intro ........ 1\n\
Intro ........ 1\n\
Part One ..... 5\n\
Part Two ..... 9\n";
    let pages = vec![fake_page(1, text), fake_page(2, text)];
    let (toc, _) = detect_document_navigation(&pages);
    assert_eq!(toc.len(), 3);
    assert_eq!(toc[2].title, "Part Two");
}

#[test]
fn toc_line_depth_from_indent() {
    let r = parse_toc_line("      Sub Section ...... 12").unwrap();
    assert_eq!(r, ("Sub Section".to_string(), 12, 2));
    assert!(parse_toc_line("No leader here 12").is_none());
    assert!(parse_toc_line("Title .... 0").is_none());
}

#[test]
fn index_line_ranges_keep_first_page() {
    let r = parse_index_line("Strahd, 109-111, 120\u{2013}122").unwrap();
    assert_eq!(r, ("Strahd".to_string(), vec![109, 120]));
    assert!(parse_index_line("3 dragons, 4").is_none());
}

#[test]
fn page_offset_from_footer() {
    let toc = vec![TocEntry { title: "Intro".to_string(), page: 3, depth: 0 }];
    let mut pages = HashMap::new();
    pages.insert(1u32, "Cover".to_string());
    pages.insert(5u32, "Some text\n\n  3  \n".to_string());
    assert_eq!(detect_page_offset(&pages, &toc), 2);
    assert_eq!(detect_page_offset(&pages, &[]), 0);
}

#[test]
fn offset_overflow_only_matters_on_pages_that_are_read() {
    let toc = vec![TocEntry { title: "Intro".to_string(), page: 3, depth: 0 }];
    let mut pages = std::collections::HashMap::new();
    // a page number past i32::MAX whose footer is a ToC page
    pages.insert(0x8000_0001u32, "text\n3".to_string());
    assert!(!page_offset_safe_exec(&pages, &toc));
    // an earlier page gives the offset first, so that page is never read
    pages.insert(5u32, "3\nbody".to_string());
    assert!(page_offset_safe_exec(&pages, &toc));
    assert_eq!(detect_page_offset(&pages, &toc), 2);
    // beyond the first twenty pages nothing is read
    let mut many = std::collections::HashMap::new();
    for k in 1..=20u32 {
        many.insert(k, "no number here".to_string());
    }
    many.insert(0x8000_0001u32, "3".to_string());
    assert!(page_offset_safe_exec(&many, &toc));
    assert_eq!(detect_page_offset(&many, &toc), 0);
    assert!(page_offset_safe_exec(&many, &[]));
}
