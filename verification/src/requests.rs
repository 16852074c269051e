//! The model requests that document ingestion and sheet reading send.
use vstd::prelude::*;
use crate::llm::{CompletionRequest, LlmTask, Message, MessageRole, VisionRequest};
use crate::prompts::{
    character_sheet_ocr_prompt, doc_summary_prompt, doc_summary_text, ocr_simple_prompt,
    story_chapter_text, story_extraction_system, story_extraction_user,
    story_extraction_user_chapter, story_user_text, CHARACTER_SHEET_OCR_PROMPT, OCR_SIMPLE_PROMPT,
    STORY_EXTRACTION_SYSTEM,
};
use crate::text::{chars_of, string_of};

verus! {

fn own(s: &str) -> (r: String)
    ensures
        r@ == s@,
{
    string_of(&chars_of(s))
}

/// A story-extraction request: the system prompt, then the user prompt,
/// in JSON mode at temperature 0.3 with up to 8192 tokens.
pub open spec fn is_story_request(r: CompletionRequest, user: Seq<char>) -> bool {
    &&& r.task == LlmTask::StoryExtraction
    &&& r.messages@.len() == 2
    &&& r.messages@[0].role == MessageRole::System
    &&& r.messages@[0].content@ == STORY_EXTRACTION_SYSTEM@
    &&& r.messages@[1].role == MessageRole::User
    &&& r.messages@[1].content@ == user
    &&& r.model_override is None
    &&& r.temperature_hundredths == Some(30u32)
    &&& r.max_tokens == Some(8192u32)
    &&& r.json_mode
}

fn story_request_with(user: String) -> (r: CompletionRequest)
    ensures
        is_story_request(r, user@),
{
    let system = own(story_extraction_system());
    CompletionRequest {
        task: LlmTask::StoryExtraction,
        messages: vec![
            Message { role: MessageRole::System, content: system },
            Message { role: MessageRole::User, content: user },
        ],
        model_override: None,
        temperature_hundredths: Some(30),
        max_tokens: Some(8192),
        json_mode: true,
    }
}

/// The request that extracts the story of a whole document from its text.
pub fn story_request(full_text: &str, doc_title: &str) -> (r: CompletionRequest)
    ensures
        is_story_request(r, story_user_text(full_text@, doc_title@)),
{
    story_request_with(story_extraction_user(full_text, doc_title))
}

/// The request that extracts the story of one chapter window.
pub fn chapter_story_request(chapter_text: &str, doc_title: &str, chapter_name: &str) -> (r: CompletionRequest)
    ensures
        is_story_request(r, story_chapter_text(chapter_text@, doc_title@, chapter_name@)),
{
    story_request_with(story_extraction_user_chapter(chapter_text, doc_title, chapter_name))
}

/// The request for a document summary: one user message, general task,
/// temperature 0.3, up to 200 tokens, plain text.
pub fn doc_summary_request(doc_name: &str, excerpt: &str) -> (r: CompletionRequest)
    ensures
        r.task == LlmTask::General,
        r.messages@.len() == 1,
        r.messages@[0].role == MessageRole::User,
        r.messages@[0].content@ == doc_summary_text(doc_name@, excerpt@),
        r.model_override is None,
        r.temperature_hundredths == Some(30u32),
        r.max_tokens == Some(200u32),
        !r.json_mode,
{
    CompletionRequest {
        task: LlmTask::General,
        messages: vec![Message { role: MessageRole::User, content: doc_summary_prompt(doc_name, excerpt) }],
        model_override: None,
        temperature_hundredths: Some(30),
        max_tokens: Some(200),
        json_mode: false,
    }
}

/// The vision request that reads one rendered page of a character sheet
/// into JSON: the sheet OCR prompt, a JPEG, up to 4096 tokens, temperature
/// 0.8 and nucleus cutoff 0.9, on the default model.
pub fn sheet_ocr_request(image: Vec<u8>) -> (r: VisionRequest)
    ensures
        r.task == LlmTask::CharacterSheetOcr,
        r.prompt@ == CHARACTER_SHEET_OCR_PROMPT@,
        r.image_bytes@ == image@,
        r.image_mime_type@ == "image/jpeg"@,
        r.model_override is None,
        r.max_tokens == Some(4096u32),
        r.temperature_hundredths == Some(80u32),
        r.top_p_hundredths == Some(90u32),
{
    VisionRequest {
        task: LlmTask::CharacterSheetOcr,
        prompt: own(character_sheet_ocr_prompt()),
        image_bytes: image,
        image_mime_type: own("image/jpeg"),
        model_override: None,
        max_tokens: Some(4096),
        temperature_hundredths: Some(80),
        top_p_hundredths: Some(90),
    }
}

/// The vision request that transcribes one page of a document with the
/// given prompt on the OCR model: a JPEG, up to 4096 tokens, temperature 0.8
/// and nucleus cutoff 0.9.
pub fn page_ocr_request(image: Vec<u8>, prompt: &str, ocr_model: &str) -> (r: VisionRequest)
    ensures
        r.task == LlmTask::OcrExtraction,
        r.prompt@ == prompt@,
        r.image_bytes@ == image@,
        r.image_mime_type@ == "image/jpeg"@,
        r.model_override matches Some(m) && m@ == ocr_model@,
        r.max_tokens == Some(4096u32),
        r.temperature_hundredths == Some(80u32),
        r.top_p_hundredths == Some(90u32),
{
    VisionRequest {
        task: LlmTask::OcrExtraction,
        prompt: own(prompt),
        image_bytes: image,
        image_mime_type: own("image/jpeg"),
        model_override: Some(own(ocr_model)),
        max_tokens: Some(4096),
        temperature_hundredths: Some(80),
        top_p_hundredths: Some(90),
    }
}

/// The vision request that transcribes a page of a character sheet as
/// plain text (when its text layer is too thin): the simple OCR prompt on
/// the OCR model, up to 4096 tokens, temperature 0.3, no nucleus cutoff.
pub fn sheet_text_ocr_request(image: Vec<u8>, ocr_model: &str) -> (r: VisionRequest)
    ensures
        r.task == LlmTask::OcrExtraction,
        r.prompt@ == OCR_SIMPLE_PROMPT@,
        r.image_bytes@ == image@,
        r.image_mime_type@ == "image/jpeg"@,
        r.model_override matches Some(m) && m@ == ocr_model@,
        r.max_tokens == Some(4096u32),
        r.temperature_hundredths == Some(30u32),
        r.top_p_hundredths is None,
{
    VisionRequest {
        task: LlmTask::OcrExtraction,
        prompt: own(ocr_simple_prompt()),
        image_bytes: image,
        image_mime_type: own("image/jpeg"),
        model_override: Some(own(ocr_model)),
        max_tokens: Some(4096),
        temperature_hundredths: Some(30),
        top_p_hundredths: None,
    }
}

} // verus!
