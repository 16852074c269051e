use guide::llm::{LlmTask, MessageRole};
use guide::prompts::{character_sheet_ocr_prompt, ocr_simple_prompt, story_extraction_system};
use guide::requests::{
    chapter_story_request, doc_summary_request, page_ocr_request, sheet_ocr_request,
    sheet_text_ocr_request, story_request,
};

#[test]
fn whole_document_story_request() {
    let r = story_request("the text", "adventure.pdf");
    assert_eq!(r.task, LlmTask::StoryExtraction);
    assert_eq!(r.messages.len(), 2);
    assert_eq!(r.messages[0].role, MessageRole::System);
    assert_eq!(r.messages[0].content, story_extraction_system());
    assert_eq!(r.messages[1].role, MessageRole::User);
    assert!(r.messages[1].content.starts_with("Document: adventure.pdf\n\nFull Text:\nthe text"));
    assert!(r.model_override.is_none());
    assert_eq!(r.temperature_hundredths, Some(30));
    assert_eq!(r.max_tokens, Some(8192));
    assert!(r.json_mode);
}

#[test]
fn chapter_story_request_names_the_chapter() {
    let r = chapter_story_request("body", "adv.pdf", "Chapter 2");
    assert_eq!(r.task, LlmTask::StoryExtraction);
    assert!(r.messages[1].content.starts_with("Document: adv.pdf\nChapter: Chapter 2\n\n# Chapter 2\n\nbody"));
    assert_eq!(r.temperature_hundredths, Some(30));
    assert_eq!(r.max_tokens, Some(8192));
    assert!(r.json_mode);
}

#[test]
fn summary_request_is_short_plain_text() {
    let r = doc_summary_request("adv.pdf", "excerpt");
    assert_eq!(r.task, LlmTask::General);
    assert_eq!(r.messages.len(), 1);
    assert!(r.messages[0].content.contains("Document name: adv.pdf"));
    assert_eq!(r.max_tokens, Some(200));
    assert_eq!(r.temperature_hundredths, Some(30));
    assert!(!r.json_mode);
}

#[test]
fn ocr_requests() {
    let r = sheet_ocr_request(vec![1, 2, 3]);
    assert_eq!(r.task, LlmTask::CharacterSheetOcr);
    assert_eq!(r.prompt, character_sheet_ocr_prompt());
    assert_eq!(r.image_bytes, vec![1, 2, 3]);
    assert_eq!(r.image_mime_type, "image/jpeg");
    assert!(r.model_override.is_none());
    assert_eq!((r.max_tokens, r.temperature_hundredths, r.top_p_hundredths), (Some(4096), Some(80), Some(90)));

    let p = page_ocr_request(vec![9], "read it", "glm-ocr");
    assert_eq!(p.task, LlmTask::OcrExtraction);
    assert_eq!(p.prompt, "read it");
    assert_eq!(p.model_override, Some("glm-ocr".to_string()));
    assert_eq!((p.max_tokens, p.temperature_hundredths, p.top_p_hundredths), (Some(4096), Some(80), Some(90)));

    let t = sheet_text_ocr_request(vec![], "glm-ocr");
    assert_eq!(t.prompt, ocr_simple_prompt());
    assert_eq!((t.max_tokens, t.temperature_hundredths, t.top_p_hundredths), (Some(4096), Some(30), None));
}
