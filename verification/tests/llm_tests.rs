use guide::error::GuideError;
use guide::llm::{
    always_local_plan, backoff_delay_ms, completion_from_reply, filter_think_tokens, wire_max_tokens, wire_role,
    MessageRole, is_rate_limited, plan_router, retry_after,
    router_config_valid, select_provider, strip_think_tags, think_filter_step, vision_provider,
    EmbeddingHint, LlmTask, ModelSet, Provider, RoutingStrategy, ThinkState,
};

fn toks(v: &[&str]) -> Vec<String> {
    v.iter().map(|s| s.to_string()).collect()
}

#[test]
fn think_block_removed() {
    assert_eq!(strip_think_tags("<think>plan</think>\n  Answer "), "Answer");
    assert_eq!(strip_think_tags("  plain  "), "plain");
    assert_eq!(strip_think_tags("<think>a</think>x</think> y"), "y");
}

#[test]
fn stream_filter_drops_reasoning() {
    let out = filter_think_tokens(&toks(&["<thi", "nk>secret", " more</think>", " Hello", " world"]));
    assert_eq!(out, vec![" Hello".to_string(), " world".to_string()]);
}

#[test]
fn stream_filter_passes_plain_text() {
    let out = filter_think_tokens(&toks(&["", "Hi", " there", ""]));
    assert_eq!(out.concat(), "Hi there");
}

#[test]
fn stream_filter_step_buffers_angle_bracket() {
    let st = ThinkState { in_think: false, past_think: false, buf: String::new() };
    let (st, out) = think_filter_step(st, "<");
    assert_eq!(out, "");
    assert_eq!(st.buf, "<");
    let (st, out) = think_filter_step(st, "b>bold");
    assert_eq!(out, "");
    assert!(!st.past_think);
}

#[test]
fn rate_limit_detection() {
    assert!(is_rate_limited(&GuideError::Llm("HTTP 429 Too Many Requests".to_string())));
    assert!(is_rate_limited(&GuideError::Llm("RESOURCE_EXHAUSTED".to_string())));
    assert!(is_rate_limited(&GuideError::Llm("quota exceeded".to_string())));
    assert!(!is_rate_limited(&GuideError::Llm("bad request".to_string())));
    assert!(!is_rate_limited(&GuideError::Internal("429".to_string())));
}

#[test]
fn backoff_doubles_and_caps() {
    let d: Vec<u64> = (1..=6).map(backoff_delay_ms).collect();
    assert_eq!(d, vec![2000, 4000, 8000, 16000, 32000, 64000]);
    let e = GuideError::Llm("429".to_string());
    assert_eq!(retry_after(0, &e), Some(2000));
    assert_eq!(retry_after(5, &e), Some(64000));
    assert_eq!(retry_after(6, &e), None);
    assert_eq!(retry_after(0, &GuideError::Llm("boom".to_string())), None);
}

#[test]
fn models_for_tasks() {
    let m = ModelSet {
        default_model: "chat".to_string(),
        ocr_model: "ocr".to_string(),
        embedding_model: "embed".to_string(),
    };
    assert_eq!(m.model_for_task(LlmTask::OcrExtraction, None), "ocr");
    assert_eq!(m.model_for_task(LlmTask::EmbeddingGeneration, None), "embed");
    assert_eq!(m.model_for_task(LlmTask::General, None), "chat");
    assert_eq!(m.model_for_task(LlmTask::OcrExtraction, Some("x")), "x");
}

#[test]
fn provider_selection() {
    let local = RoutingStrategy::AlwaysLocal;
    let cloud = RoutingStrategy::AlwaysCloud { provider: "openai".to_string() };
    assert_eq!(select_provider(&cloud, true, false, LlmTask::EmbeddingGeneration), Provider::Local);
    assert_eq!(select_provider(&local, true, true, LlmTask::StoryExtraction), Provider::Cloud);
    assert_eq!(select_provider(&local, true, true, LlmTask::General), Provider::Local);
    assert_eq!(select_provider(&cloud, true, false, LlmTask::General), Provider::Cloud);
    assert_eq!(select_provider(&cloud, false, false, LlmTask::General), Provider::Local);
    assert_eq!(vision_provider(false, false).unwrap(), Provider::Local);
    assert_eq!(vision_provider(true, true).unwrap(), Provider::Cloud);
    assert!(matches!(vision_provider(true, false), Err(GuideError::Internal(_))));
}

#[test]
fn router_plans() {
    assert!(router_config_valid("local", "local", None, None));
    assert!(!router_config_valid("cloud", "local", None, Some("openai")));
    assert!(!router_config_valid("cloud", "local", Some("k"), Some("other")));
    let p = plan_router("cloud", "local", Some("key"), Some("gemini"), None);
    assert!(p.ocr_uses_cloud && !p.story_uses_cloud);
    let c = p.cloud.unwrap();
    assert_eq!(c.model, "gemini-2.0-flash-lite");
    assert_eq!(c.base_url.as_deref(), Some("https://generativelanguage.googleapis.com/v1beta/openai"));
    assert_eq!(c.label, "gemini");
    let q = plan_router("local", "cloud", Some("key"), Some("openai"), Some("gpt-x"));
    let qc = q.cloud.unwrap();
    assert_eq!(qc.model, "gpt-x");
    assert!(qc.base_url.is_none());
    assert!(plan_router("local", "local", None, None, None).cloud.is_none());
}

#[test]
fn embedding_hint_defaults_to_document() {
    assert_eq!(EmbeddingHint::default(), EmbeddingHint::Document);
}

#[test]
fn assistant_turns_are_sent_as_user_messages() {
    assert_eq!(wire_role(MessageRole::System), MessageRole::System);
    assert_eq!(wire_role(MessageRole::User), MessageRole::User);
    assert_eq!(wire_role(MessageRole::Assistant), MessageRole::User);
}

#[test]
fn token_limit_is_sixteen_bits() {
    assert_eq!(wire_max_tokens(4096), 4096);
    assert_eq!(wire_max_tokens(65535), 65535);
    assert_eq!(wire_max_tokens(65536), 0);
    assert_eq!(wire_max_tokens(70000), 4464);
}

#[test]
fn reply_without_choice_is_an_error() {
    match completion_from_reply(None, Some((1, 2)), "m".to_string(), "ollama".to_string(), true) {
        Err(GuideError::Llm(m)) => assert_eq!(m, "No choices returned"),
        _ => panic!("expected an LLM error"),
    }
}

#[test]
fn reply_content_and_usage() {
    let r = completion_from_reply(
        Some(Some("<think>hmm</think> Answer".to_string())),
        Some((10, 3)),
        "qwen3".to_string(),
        "ollama".to_string(),
        true,
    )
    .unwrap();
    assert_eq!(r.content, "Answer");
    assert_eq!(r.model, "qwen3");
    assert_eq!(r.provider, "ollama");
    assert_eq!((r.prompt_tokens, r.completion_tokens), (10, 3));

    let raw = completion_from_reply(Some(Some("<think>x</think>y".to_string())), None, "m".to_string(), "cloud".to_string(), false).unwrap();
    assert_eq!(raw.content, "<think>x</think>y");
    assert_eq!((raw.prompt_tokens, raw.completion_tokens), (0, 0));

    let empty = completion_from_reply(Some(None), None, "m".to_string(), "cloud".to_string(), false).unwrap();
    assert_eq!(empty.content, "");
}

#[test]
fn always_local_router_has_no_cloud() {
    let p = always_local_plan();
    assert!(!p.ocr_uses_cloud);
    assert!(!p.story_uses_cloud);
    assert!(p.cloud.is_none());
}
