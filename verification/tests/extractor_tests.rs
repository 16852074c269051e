use guide::extractor::{
    combine_sheet_pages, count_valleys, ocr_rescale, Rescale, has_text_layer, layout_for_valleys, text_layer_headings,
    text_layer_page, vision_page, OcrPageReply,
};

#[test]
fn text_layer_needs_eighty_words() {
    let eighty = vec!["word"; 80].join(" ");
    let seventy_nine = vec!["word"; 79].join("\n");
    assert!(has_text_layer(&eighty));
    assert!(!has_text_layer(&seventy_nine));
    assert!(!has_text_layer(""));
}

#[test]
fn text_layer_headings_pick_heading_lines() {
    let text = "CHAPTER ONE\nSome normal text here.\n# Intro\n  ## Deep\nlower\nABC def";
    assert_eq!(
        text_layer_headings(text),
        vec!["CHAPTER ONE".to_string(), "Intro".to_string(), "## Deep".to_string()]
    );
}

#[test]
fn text_layer_headings_skip_long_lines() {
    let long = "A".repeat(80);
    let shorter = "A".repeat(79);
    let text = format!("{long}\n{shorter}");
    assert_eq!(text_layer_headings(&text), vec![shorter]);
}

#[test]
fn text_layer_headings_keep_first_ten() {
    let text = (1..=12).map(|i| format!("# H{i}")).collect::<Vec<_>>().join("\n");
    let got = text_layer_headings(&text);
    assert_eq!(got.len(), 10);
    assert_eq!(got[0], "H1");
    assert_eq!(got[9], "H10");
}

#[test]
fn text_layer_page_normalizes_text() {
    let p = text_layer_page(4, "# Title\r\nsome   text\t here  ");
    assert_eq!(p.page_num, 4);
    assert_eq!(p.raw_text, "# Title\nsome text here");
    assert_eq!(p.headings, vec!["Title".to_string()]);
}

#[test]
fn vision_page_failed_call_is_empty() {
    let p = vision_page(2, None, None);
    assert_eq!(p.page_num, 2);
    assert_eq!(p.raw_text, "");
    assert!(p.headings.is_empty());
}

#[test]
fn vision_page_uses_reply() {
    let reply = OcrPageReply { raw_text: "a  b".to_string(), headings: vec!["H".to_string()] };
    let p = vision_page(3, Some("{\"raw_text\":\"a  b\"}"), Some(reply));
    assert_eq!(p.raw_text, "a b");
    assert_eq!(p.headings, vec!["H".to_string()]);
}

#[test]
fn vision_page_plain_answer_is_the_text() {
    let p = vision_page(5, Some("plain  answer\r\nline two"), None);
    assert_eq!(p.raw_text, "plain answer\nline two");
    assert!(p.headings.is_empty());
}

#[test]
fn sheet_pages_are_joined_with_page_marks() {
    let pages = vec![
        (1, Some("A".to_string())),
        (2, None),
        (3, Some("C".to_string())),
    ];
    assert_eq!(combine_sheet_pages(&pages, "fallback".to_string()), "A\n\n--- Page 3 ---\nC");
}

#[test]
fn sheet_pages_mark_only_after_text() {
    let pages = vec![(1, Some(String::new())), (2, Some("B".to_string()))];
    assert_eq!(combine_sheet_pages(&pages, "fallback".to_string()), "B");
}

#[test]
fn blank_sheet_pages_fall_back() {
    let pages = vec![(1, Some("  ".to_string())), (2, None)];
    assert_eq!(combine_sheet_pages(&pages, "layer text".to_string()), "layer text");
    assert_eq!(combine_sheet_pages(&[], "layer text".to_string()), "layer text");
}

#[test]
fn valleys_are_counted_in_the_middle_third() {
    let mut hist = [9u32; 24];
    hist[7] = 0;
    hist[8] = 0;
    hist[10] = 1;
    hist[11] = 0;
    hist[14] = 0;
    hist[16] = 0;
    assert_eq!(count_valleys(&hist, 1), 3);
    assert_eq!(count_valleys(&[9u32; 24], 1), 0);
    assert_eq!(count_valleys(&[0u32; 24], 1), 1);
}

#[test]
fn layout_names_follow_valley_count() {
    assert_eq!(layout_for_valleys(0), "single-column");
    assert_eq!(layout_for_valleys(1), "two-column");
    assert_eq!(layout_for_valleys(2), "three-column");
    assert_eq!(layout_for_valleys(5), "three-column");
}

#[test]
fn rescale_keeps_images_within_budget() {
    assert_eq!(ocr_rescale(100, 100), Rescale::Up);
    assert_eq!(ocr_rescale(112, 112), Rescale::Keep);
    assert_eq!(ocr_rescale(1700, 2200), Rescale::Keep);
    assert_eq!(ocr_rescale(10000, 8000), Rescale::Down);
}
