//! Model-call vocabulary and the decisions taken around model calls: which
//! model and provider serve a task, when a rate-limited call is retried,
//! and how reasoning (`<think>`) output is removed from replies.
use vstd::prelude::*;
use crate::error::GuideError;
use crate::pipeline::find_from;
use crate::split::{contains, contains_seq, occurs_at, occurs_at_exec, rfind, rfind_exec};
use crate::text::{byte_len, chars_of, opt_str, fits_within, lemma_utf8_len_bounds, lowercase, slice_of, string_of, to_lowercase, trim, trimmed, utf8_len};

verus! {

/// The kind of work a model call does.
#[derive(Debug, Clone, Copy, PartialEq, Eq, Structural)]
pub enum LlmTask {
    OcrExtraction,
    EmbeddingGeneration,
    CampaignAssistant,
    BackstoryAnalysis,
    EncounterGeneration,
    SessionSummary,
    SessionRecap,
    StorySoFar,
    StoryAhead,
    CharacterRoadmap,
    CharacterSheetParse,
    CharacterSheetOcr,
    StoryExtraction,
    General,
}

/// Who speaks in a chat message.
#[derive(Debug, Clone, Copy, PartialEq, Eq, Structural)]
pub enum MessageRole {
    System,
    User,
    Assistant,
}

/// One chat message.
pub struct Message {
    pub role: MessageRole,
    pub content: String,
}

/// A chat request to a model. The sampling temperature is given in
/// hundredths (30 is 0.3): the caller hands the provider the float.
pub struct CompletionRequest {
    pub task: LlmTask,
    pub messages: Vec<Message>,
    pub model_override: Option<String>,
    pub temperature_hundredths: Option<u32>,
    pub max_tokens: Option<u32>,
    pub json_mode: bool,
}

/// A request to a vision model about one image. Temperature and nucleus
/// cutoff are given in hundredths (80 is 0.8).
pub struct VisionRequest {
    pub task: LlmTask,
    pub prompt: String,
    pub image_bytes: Vec<u8>,
    pub image_mime_type: String,
    pub model_override: Option<String>,
    pub max_tokens: Option<u32>,
    pub temperature_hundredths: Option<u32>,
    pub top_p_hundredths: Option<u32>,
}

/// A model's reply.
pub struct CompletionResponse {
    pub content: String,
    pub model: String,
    pub provider: String,
    pub prompt_tokens: u32,
    pub completion_tokens: u32,
}

/// Whether text to embed is a search query or a document being indexed.
#[derive(Debug, Clone, Copy, PartialEq, Eq, Structural)]
pub enum EmbeddingHint {
    Query,
    Document,
}

impl Default for EmbeddingHint {
    fn default() -> (r: Self)
        ensures
            r == EmbeddingHint::Document,
    {
        EmbeddingHint::Document
    }
}

/// A request to embed text.
pub struct EmbeddingRequest {
    pub text: String,
    pub model_override: Option<String>,
    pub hint: EmbeddingHint,
}

/// How calls are routed between the local and the cloud provider.
pub enum RoutingStrategy {
    AlwaysLocal,
    AlwaysCloud { provider: String },
}

// ───────────────────────── reasoning output ─────────────────────────

/// A reply without its reasoning: the text after the last `</think>`,
/// trimmed (the whole reply, trimmed, when there is none).
pub open spec fn strip_think_spec(s: Seq<char>) -> Seq<char> {
    let i = rfind(s, "</think>"@);
    if i >= 0 {
        trim(s.skip(i + 8))
    } else {
        trim(s)
    }
}

/// Removes the reasoning block from a reply.
pub fn strip_think_tags(content: &str) -> (r: String)
    ensures
        r@ == strip_think_spec(content@),
{
    let v = chars_of(content);
    let tag = chars_of("</think>");
    proof {
        reveal_strlit("</think>");
    }
    match rfind_exec(&v, &tag) {
        Some(end) => {
            assert(crate::split::last_occurrence(v@, tag@, v.len() as int) == end);
            proof {
                lemma_rfind_occurs(v@, tag@, v.len() as int);
            }
            let rest = slice_of(&v, end + 8, v.len());
            assert(rest@ =~= v@.skip(end + 8));
            string_of(&trimmed(&rest))
        },
        None => string_of(&trimmed(&v)),
    }
}

proof fn lemma_rfind_occurs(s: Seq<char>, p: Seq<char>, hi: int)
    ensures
        crate::split::last_occurrence(s, p, hi) >= 0 ==> occurs_at(
            s,
            p,
            crate::split::last_occurrence(s, p, hi),
        ),
    decreases hi + 1,
{
    if hi >= 0 && !occurs_at(s, p, hi) {
        lemma_rfind_occurs(s, p, hi - 1);
    }
}

/// State of the streaming reasoning filter.
pub struct ThinkState {
    pub in_think: bool,
    pub past_think: bool,
    pub buf: String,
}

/// The filter's state as values.
pub struct ThinkModel {
    pub in_think: bool,
    pub past_think: bool,
    pub buf: Seq<char>,
}

pub open spec fn think_model(s: ThinkState) -> ThinkModel {
    ThinkModel { in_think: s.in_think, past_think: s.past_think, buf: s.buf@ }
}

/// The state before the first token.
pub open spec fn think_start() -> ThinkModel {
    ThinkModel { in_think: false, past_think: false, buf: Seq::empty() }
}

/// One streamed token through the filter: the next state and the text to
/// pass on (empty when nothing is passed on). Before the reasoning is known
/// to be over, tokens are buffered; a `<think>` starts discarding up to
/// `</think>`, after which (trimmed) text flows through. A buffer over 32
/// bytes, or one without `<`, ends the waiting.
pub open spec fn think_step(st: ThinkModel, tok: Seq<char>) -> (ThinkModel, Seq<char>) {
    if st.past_think {
        (st, tok)
    } else {
        let buf = st.buf + tok;
        if st.in_think {
            let end = find_from(buf, "</think>"@, 0);
            if end < buf.len() {
                (
                    ThinkModel { in_think: false, past_think: true, buf: Seq::empty() },
                    trim(buf.skip(end + 8)),
                )
            } else {
                (ThinkModel { in_think: true, past_think: false, buf: Seq::empty() }, Seq::empty())
            }
        } else if contains_seq(buf, "<think>"@) {
            (ThinkModel { in_think: true, past_think: false, buf: Seq::empty() }, Seq::empty())
        } else if utf8_len(buf) > 32 || (buf.len() > 0 && !buf.contains('<')) {
            (ThinkModel { in_think: false, past_think: true, buf: Seq::empty() }, buf)
        } else {
            (ThinkModel { in_think: false, past_think: false, buf }, Seq::empty())
        }
    }
}

fn find_exec(v: &[char], p: &[char]) -> (r: usize)
    ensures
        r == find_from(v@, p@, 0),
        r <= v.len(),
{
    let mut i: usize = 0;
    while i < v.len() && !occurs_at_exec(v, p, i)
        invariant
            i <= v.len(),
            find_from(v@, p@, 0) == find_from(v@, p@, i as int),
        decreases v.len() - i,
    {
        i = i + 1;
    }
    i
}

/// Passes one streamed token through the reasoning filter.
pub fn think_filter_step(state: ThinkState, token: &str) -> (r: (ThinkState, String))
    ensures
        (think_model(r.0), r.1@) == think_step(think_model(state), token@),
{
    if state.past_think {
        return (state, string_of(&chars_of(token)));
    }
    let mut buf = chars_of(state.buf.as_str());
    let t = chars_of(token);
    crate::text::append_all(&mut buf, &t);
    let empty = ThinkState { in_think: false, past_think: false, buf: String::new() };
    if state.in_think {
        let tag = chars_of("</think>");
        proof {
            reveal_strlit("</think>");
        }
        let end = find_exec(&buf, &tag);
        if end < buf.len() {
            proof {
                lemma_find_occurs(buf@, tag@, 0);
            }
            let rest = slice_of(&buf, end + 8, buf.len());
            assert(rest@ =~= buf@.skip(end + 8));
            (ThinkState { in_think: false, past_think: true, buf: String::new() }, string_of(&trimmed(&rest)))
        } else {
            (ThinkState { in_think: true, past_think: false, buf: String::new() }, String::new())
        }
    } else {
        let open = chars_of("<think>");
        if contains(&buf, &open) {
            (ThinkState { in_think: true, past_think: false, buf: String::new() }, String::new())
        } else {
            let lt = crate::split::first_index_of_exec(&buf, '<');
            proof {
                crate::split::lemma_first_index_of(buf@, '<');
                if lt < buf.len() {
                    assert(buf@.contains('<'));
                }
            }
            if !fits_within(&buf, 32) || (buf.len() > 0 && lt == buf.len()) {
                (ThinkState { in_think: false, past_think: true, buf: String::new() }, string_of(&buf))
            } else {
                (ThinkState { in_think: false, past_think: false, buf: string_of(&buf) }, String::new())
            }
        }
    }
}

proof fn lemma_find_occurs(s: Seq<char>, p: Seq<char>, i: int)
    requires
        0 <= i,
    ensures
        find_from(s, p, i) < s.len() ==> occurs_at(s, p, find_from(s, p, i)),
    decreases s.len() - i,
{
    if i < s.len() && !occurs_at(s, p, i) {
        lemma_find_occurs(s, p, i + 1);
    }
}

/// The state and the passed-on texts after a sequence of tokens.
pub open spec fn think_run(tokens: Seq<Seq<char>>) -> (ThinkModel, Seq<Seq<char>>)
    decreases tokens.len(),
{
    if tokens.len() == 0 {
        (think_start(), Seq::empty())
    } else {
        let (st, outs) = think_run(tokens.drop_last());
        let (st2, o) = think_step(st, tokens.last());
        (st2, if o.len() > 0 {
            outs.push(o)
        } else {
            outs
        })
    }
}

/// The reasoning filter over a whole stream of tokens: the non-empty texts
/// it passes on, in order.
pub fn filter_think_tokens(tokens: &[String]) -> (r: Vec<String>)
    ensures
        r@.map_values(|s: String| s@) == think_run(tokens@.map_values(|s: String| s@)).1,
{
    let ghost ts = tokens@.map_values(|s: String| s@);
    let mut st = ThinkState { in_think: false, past_think: false, buf: String::new() };
    let mut out: Vec<String> = Vec::new();
    let mut i: usize = 0;
    assert(ts.take(0) =~= Seq::<Seq<char>>::empty());
    assert(out@.map_values(|s: String| s@) =~= Seq::<Seq<char>>::empty());
    while i < tokens.len()
        invariant
            i <= tokens.len(),
            ts == tokens@.map_values(|s: String| s@),
            (think_model(st), out@.map_values(|s: String| s@)) == think_run(ts.take(i as int)),
        decreases tokens.len() - i,
    {
        assert(ts.take(i + 1).drop_last() =~= ts.take(i as int));
        assert(ts.take(i + 1).last() == tokens@[i as int]@);
        let (st2, o) = think_filter_step(st, tokens[i].as_str());
        st = st2;
        let oc = chars_of(o.as_str());
        if oc.len() > 0 {
            let ghost before = out@;
            out.push(o);
            assert(out@.map_values(|s: String| s@) =~= before.map_values(|s: String| s@).push(
                out@[out@.len() - 1]@,
            ));
        }
        i = i + 1;
    }
    assert(ts.take(i as int) =~= ts);
    out
}


/// The texts concatenated.
pub open spec fn concat(ss: Seq<Seq<char>>) -> Seq<char>
    decreases ss.len(),
{
    if ss.len() == 0 {
        Seq::empty()
    } else {
        concat(ss.drop_last()) + ss.last()
    }
}

proof fn lemma_plain_run(tokens: Seq<Seq<char>>)
    requires
        forall|i: int| 0 <= i < tokens.len() ==> !(#[trigger] tokens[i]).contains('<'),
    ensures
        !think_run(tokens).0.in_think,
        think_run(tokens).0.past_think || think_run(tokens).0.buf.len() == 0,
        concat(think_run(tokens).1) == concat(tokens),
    decreases tokens.len(),
{
    if tokens.len() > 0 {
        let prev = tokens.drop_last();
        assert forall|i: int| 0 <= i < prev.len() implies !(#[trigger] prev[i]).contains('<') by {
            assert(prev[i] == tokens[i]);
        }
        lemma_plain_run(prev);
        let (st, outs) = think_run(prev);
        let t = tokens.last();
        assert(!t.contains('<')) by {
            assert(t == tokens[tokens.len() - 1]);
        }
        let (st2, o) = think_step(st, t);
        if !st.past_think {
            let buf = st.buf + t;
            assert(buf =~= t);
            if contains_seq(buf, "<think>"@) {
                let i = choose|i: int| occurs_at(buf, "<think>"@, i);
                reveal_strlit("<think>");
                assert(buf.subrange(i, i + 7)[0] == '<');
                assert(buf[i] == '<');
                assert(t.contains('<'));
            }
            if t.len() == 0 {
                assert(utf8_len(t) == 0);
            }
        }
        if o.len() > 0 {
            assert(concat(outs.push(o)).len() >= 0);
            assert(outs.push(o).drop_last() =~= outs);
        } else {
            assert(o =~= t || t.len() == 0);
            assert(concat(prev) + t =~= concat(prev));
        }
    }
}

/// When no token holds a `<`, the reasoning filter passes the streamed text
/// on unchanged.
pub proof fn think_filter_keeps_plain_text(tokens: Seq<Seq<char>>)
    requires
        forall|i: int| 0 <= i < tokens.len() ==> !(#[trigger] tokens[i]).contains('<'),
    ensures
        concat(think_run(tokens).1) == concat(tokens),
{
    lemma_plain_run(tokens);
}


// ───────────────────────── retries ─────────────────────────

/// Retries after a rate-limit error.
pub const MAX_RETRIES: u32 = 6;

/// Delay before the first retry, in milliseconds.
pub const BASE_DELAY_MS: u64 = 2000;

/// Longest delay between retries, in milliseconds.
pub const MAX_DELAY_MS: u64 = 90000;

/// Phrases that mark a rate-limit error (after lowercasing).
pub open spec fn rate_limit_markers() -> Seq<Seq<char>> {
    seq!["429"@, "resource_exhausted"@, "rate_limit"@, "quota"@, "too many requests"@, "too_many_requests"@]
}

/// A model-call error that reports rate limiting.
pub open spec fn rate_limited_spec(err: GuideError) -> bool {
    match err {
        GuideError::Llm(msg) => exists|i: int|
            0 <= i < 6 && contains_seq(lowercase(msg@), #[trigger] rate_limit_markers()[i]),
        _ => false,
    }
}

/// Whether an error reports rate limiting by the provider.
pub fn is_rate_limited(err: &GuideError) -> (b: bool)
    ensures
        b == rate_limited_spec(*err),
{
    match err {
        GuideError::Llm(msg) => {
            let m = to_lowercase(&chars_of(msg.as_str()));
            proof {
                reveal_strlit("429");
                reveal_strlit("resource_exhausted");
                reveal_strlit("rate_limit");
                reveal_strlit("quota");
                reveal_strlit("too many requests");
                reveal_strlit("too_many_requests");
            }
            let a = contains(&m, &chars_of("429"));
            let b = contains(&m, &chars_of("resource_exhausted"));
            let c = contains(&m, &chars_of("rate_limit"));
            let d = contains(&m, &chars_of("quota"));
            let e = contains(&m, &chars_of("too many requests"));
            let f = contains(&m, &chars_of("too_many_requests"));
            proof {
                let k = rate_limit_markers();
                if a {
                    assert(contains_seq(lowercase(msg@), k[0]));
                }
                if b {
                    assert(contains_seq(lowercase(msg@), k[1]));
                }
                if c {
                    assert(contains_seq(lowercase(msg@), k[2]));
                }
                if d {
                    assert(contains_seq(lowercase(msg@), k[3]));
                }
                if e {
                    assert(contains_seq(lowercase(msg@), k[4]));
                }
                if f {
                    assert(contains_seq(lowercase(msg@), k[5]));
                }
                if !(a || b || c || d || e || f) {
                    assert forall|i: int| 0 <= i < 6 implies !contains_seq(
                        lowercase(msg@),
                        #[trigger] k[i],
                    ) by {
                        if i == 0 {
                        } else if i == 1 {
                        } else if i == 2 {
                        } else if i == 3 {
                        } else if i == 4 {
                        } else {
                        }
                    }
                }
            }
            a || b || c || d || e || f
        },
        _ => false,
    }
}

/// 2 to the power `n`.
pub open spec fn pow2(n: nat) -> nat
    decreases n,
{
    if n == 0 {
        1
    } else {
        2 * pow2((n - 1) as nat)
    }
}

/// The delay before retry number `attempt` (from 1): 2 s, doubling each
/// time, at most 90 s.
pub open spec fn backoff_spec(attempt: nat) -> nat {
    let d = 2000 * pow2((attempt - 1) as nat);
    if d < 90000 {
        d
    } else {
        90000
    }
}

/// Delay in milliseconds before retry number `attempt`.
pub fn backoff_delay_ms(attempt: u32) -> (r: u64)
    requires
        1 <= attempt <= MAX_RETRIES,
    ensures
        r == backoff_spec(attempt as nat),
{
    let mut d: u64 = BASE_DELAY_MS;
    let mut k: u32 = 1;
    while k < attempt
        invariant
            1 <= k <= attempt <= 6,
            d == 2000 * pow2((k - 1) as nat),
            d <= 2000 * 32,
        decreases attempt - k,
    {
        assert(pow2(k as nat) == 2 * pow2((k - 1) as nat));
        assert(pow2((k - 1) as nat) <= 16) by {
            assert(pow2(0) == 1);
            assert(pow2(1) == 2);
            assert(pow2(2) == 4);
            assert(pow2(3) == 8);
            assert(pow2(4) == 16);
        }
        d = d * 2;
        k = k + 1;
    }
    if d < MAX_DELAY_MS {
        d
    } else {
        MAX_DELAY_MS
    }
}

/// After attempt number `attempt` (from 0) failed with `err`: the delay
/// before trying again, or `None` to give up with the error.
pub open spec fn retry_spec(attempt: nat, err: GuideError) -> Option<nat> {
    if attempt < 6 && rate_limited_spec(err) {
        Some(backoff_spec(attempt + 1))
    } else {
        None
    }
}

/// Whether to retry a failed call, and after how long.
pub fn retry_after(attempt: u32, err: &GuideError) -> (r: Option<u64>)
    ensures
        match r {
            Some(d) => retry_spec(attempt as nat, *err) == Some(d as nat),
            None => retry_spec(attempt as nat, *err) is None,
        },
{
    if attempt < MAX_RETRIES && is_rate_limited(err) {
        Some(backoff_delay_ms(attempt + 1))
    } else {
        None
    }
}

// ───────────────────────── models and providers ─────────────────────────

/// The models a local provider uses for its tasks.
pub struct ModelSet {
    pub default_model: String,
    pub ocr_model: String,
    pub embedding_model: String,
}

/// The model for a task: the override when given, else the OCR model for
/// OCR, the embedding model for embeddings, and the default model otherwise.
pub open spec fn model_for_task_spec(m: ModelSet, task: LlmTask, override_model: Option<Seq<char>>) -> Seq<
    char,
> {
    match override_model {
        Some(o) => o,
        None => match task {
            LlmTask::OcrExtraction => m.ocr_model@,
            LlmTask::EmbeddingGeneration => m.embedding_model@,
            _ => m.default_model@,
        },
    }
}

impl ModelSet {
    pub fn model_for_task(&self, task: LlmTask, override_model: Option<&str>) -> (r: String)
        ensures
            r@ == model_for_task_spec(
                *self,
                task,
                match override_model {
                    Some(o) => Some(o@),
                    None => None,
                },
            ),
    {
        match override_model {
            Some(o) => string_of(&chars_of(o)),
            None => match task {
                LlmTask::OcrExtraction => string_of(&chars_of(self.ocr_model.as_str())),
                LlmTask::EmbeddingGeneration => string_of(&chars_of(self.embedding_model.as_str())),
                _ => string_of(&chars_of(self.default_model.as_str())),
            },
        }
    }
}

/// Which provider serves a call.
#[derive(Debug, Clone, Copy, PartialEq, Eq, Structural)]
pub enum Provider {
    Local,
    Cloud,
}

/// The provider for a text call. Embeddings and character-sheet OCR stay
/// local; story extraction goes to the cloud when configured so; otherwise
/// the strategy decides, falling back to local without a cloud provider.
pub open spec fn select_provider_spec(
    strategy: RoutingStrategy,
    has_cloud: bool,
    story_uses_cloud: bool,
    task: LlmTask,
) -> Provider {
    if task == LlmTask::EmbeddingGeneration || task == LlmTask::CharacterSheetOcr {
        Provider::Local
    } else if task == LlmTask::StoryExtraction && story_uses_cloud {
        Provider::Cloud
    } else {
        match strategy {
            RoutingStrategy::AlwaysLocal => Provider::Local,
            RoutingStrategy::AlwaysCloud { .. } => if has_cloud {
                Provider::Cloud
            } else {
                Provider::Local
            },
        }
    }
}

/// Chooses the provider for a text call.
pub fn select_provider(
    strategy: &RoutingStrategy,
    has_cloud: bool,
    story_uses_cloud: bool,
    task: LlmTask,
) -> (r: Provider)
    requires
        !(task == LlmTask::StoryExtraction && story_uses_cloud && !has_cloud),
    ensures
        r == select_provider_spec(*strategy, has_cloud, story_uses_cloud, task),
{
    if task == LlmTask::EmbeddingGeneration || task == LlmTask::CharacterSheetOcr {
        Provider::Local
    } else if task == LlmTask::StoryExtraction && story_uses_cloud {
        Provider::Cloud
    } else {
        match strategy {
            RoutingStrategy::AlwaysLocal => Provider::Local,
            RoutingStrategy::AlwaysCloud { .. } => if has_cloud {
                Provider::Cloud
            } else {
                Provider::Local
            },
        }
    }
}

/// The provider for a vision call: the cloud when OCR is configured for it
/// (an error without a cloud provider), else local.
pub fn vision_provider(ocr_uses_cloud: bool, has_cloud: bool) -> (r: Result<Provider, GuideError>)
    ensures
        ocr_uses_cloud && !has_cloud <==> r is Err,
        r matches Ok(p) ==> p == (if ocr_uses_cloud {
            Provider::Cloud
        } else {
            Provider::Local
        }),
        r matches Err(e) ==> (e matches GuideError::Internal(m) && m@
            == "Cloud provider required for OCR but not initialised"@),
{
    if ocr_uses_cloud {
        if has_cloud {
            Ok(Provider::Cloud)
        } else {
            Err(GuideError::Internal(string_of(&chars_of("Cloud provider required for OCR but not initialised"))))
        }
    } else {
        Ok(Provider::Local)
    }
}


/// The cloud provider to set up.
pub struct CloudSettings {
    pub api_key: String,
    pub model: String,
    pub base_url: Option<String>,
    pub label: String,
}

/// How the router is set up: which work goes to the cloud, and the cloud
/// provider when any work does.
pub struct RouterPlan {
    pub ocr_uses_cloud: bool,
    pub story_uses_cloud: bool,
    pub cloud: Option<CloudSettings>,
}

/// A configuration from which a router can be set up: when OCR or story
/// extraction uses the cloud, an API key and a known cloud provider
/// ("openai" or "gemini") are given.
pub open spec fn router_config_ok(
    ocr_provider: Seq<char>,
    story_provider: Seq<char>,
    cloud_api_key: Option<Seq<char>>,
    cloud_fallback: Option<Seq<char>>,
) -> bool {
    (ocr_provider == "cloud"@ || story_provider == "cloud"@) ==> (cloud_api_key is Some
        && cloud_fallback is Some && (cloud_fallback->0 == "openai"@ || cloud_fallback->0
        == "gemini"@))
}

pub open spec fn opt_view(o: Option<&str>) -> Option<Seq<char>> {
    match o {
        Some(s) => Some(s@),
        None => None,
    }
}

fn same(a: &str, b: &str) -> (r: bool)
    ensures
        r == (a@ == b@),
{
    crate::split::chars_eq(&chars_of(a), &chars_of(b))
}

fn own(a: &str) -> (r: String)
    ensures
        r@ == a@,
{
    string_of(&chars_of(a))
}

/// The router that keeps all work on the local models: no cloud provider.
pub fn always_local_plan() -> (r: RouterPlan)
    ensures
        !r.ocr_uses_cloud,
        !r.story_uses_cloud,
        r.cloud is None,
{
    RouterPlan { ocr_uses_cloud: false, story_uses_cloud: false, cloud: None }
}

/// Whether a router can be set up from this configuration.
pub fn router_config_valid(
    ocr_provider: &str,
    story_provider: &str,
    cloud_api_key: Option<&str>,
    cloud_fallback: Option<&str>,
) -> (b: bool)
    ensures
        b == router_config_ok(ocr_provider@, story_provider@, opt_view(cloud_api_key), opt_view(cloud_fallback)),
{
    let needs = same(ocr_provider, "cloud") || same(story_provider, "cloud");
    if !needs {
        return true;
    }
    match (cloud_api_key, cloud_fallback) {
        (Some(_), Some(f)) => same(f, "openai") || same(f, "gemini"),
        _ => false,
    }
}

/// Sets up the router from configuration: OCR and story extraction use the
/// cloud when their provider is "cloud"; the cloud provider is OpenAI
/// (default model gpt-4o-mini) or Gemini through its OpenAI-compatible
/// endpoint (default model gemini-2.0-flash-lite); `cloud_model` overrides
/// the default model.
pub fn plan_router(
    ocr_provider: &str,
    story_provider: &str,
    cloud_api_key: Option<&str>,
    cloud_fallback: Option<&str>,
    cloud_model: Option<&str>,
) -> (r: RouterPlan)
    requires
        router_config_ok(ocr_provider@, story_provider@, opt_view(cloud_api_key), opt_view(cloud_fallback)),
    ensures
        r.ocr_uses_cloud == (ocr_provider@ == "cloud"@),
        r.story_uses_cloud == (story_provider@ == "cloud"@),
        r.cloud is Some <==> (r.ocr_uses_cloud || r.story_uses_cloud),
        r.cloud matches Some(c) ==> {
            let gemini = opt_view(cloud_fallback) == Some("gemini"@);
            &&& Some(c.api_key@) == opt_view(cloud_api_key)
            &&& Some(c.label@) == opt_view(cloud_fallback)
            &&& c.model@ == match cloud_model {
                Some(m) => m@,
                None => if gemini {
                    "gemini-2.0-flash-lite"@
                } else {
                    "gpt-4o-mini"@
                },
            }
            &&& opt_str(c.base_url) == if gemini {
                Some("https://generativelanguage.googleapis.com/v1beta/openai"@)
            } else {
                None
            }
        },
{
    let ocr_uses_cloud = same(ocr_provider, "cloud");
    let story_uses_cloud = same(story_provider, "cloud");
    let cloud = if ocr_uses_cloud || story_uses_cloud {
        let api_key = match cloud_api_key {
            Some(k) => own(k),
            None => String::new(),
        };
        let fallback = match cloud_fallback {
            Some(f) => f,
            None => "",
        };
        let gemini = same(fallback, "gemini");
        let base_url = if gemini {
            Some(own("https://generativelanguage.googleapis.com/v1beta/openai"))
        } else {
            None
        };
        let model = match cloud_model {
            Some(m) => own(m),
            None => if gemini {
                own("gemini-2.0-flash-lite")
            } else {
                own("gpt-4o-mini")
            },
        };
        Some(CloudSettings { api_key, model, base_url, label: own(fallback) })
    } else {
        None
    };
    RouterPlan { ocr_uses_cloud, story_uses_cloud, cloud }
}


// ───────────────────────── laws ─────────────────────────

proof fn lemma_pow2_mono(a: nat, b: nat)
    requires
        a <= b,
    ensures
        pow2(a) <= pow2(b),
        pow2(a) >= 1,
    decreases b,
{
    if b > a {
        lemma_pow2_mono(a, (b - 1) as nat);
    } else if a > 0 {
        lemma_pow2_mono((a - 1) as nat, (a - 1) as nat);
    }
}

/// Retry delays never shrink from one attempt to the next, start at 2 s
/// and never exceed 90 s.
pub proof fn backoff_grows_within_cap(a: nat, b: nat)
    requires
        1 <= a <= b,
    ensures
        backoff_spec(a) <= backoff_spec(b),
        2000 <= backoff_spec(a) <= 90000,
        backoff_spec(1) == 2000,
{
    lemma_pow2_mono((a - 1) as nat, (b - 1) as nat);
    assert(pow2(0) == 1);
}

/// Embeddings and character-sheet OCR always stay on the local provider.
pub proof fn local_only_tasks(strategy: RoutingStrategy, has_cloud: bool, story_uses_cloud: bool)
    ensures
        select_provider_spec(strategy, has_cloud, story_uses_cloud, LlmTask::EmbeddingGeneration) == Provider::Local,
        select_provider_spec(strategy, has_cloud, story_uses_cloud, LlmTask::CharacterSheetOcr) == Provider::Local,
{
}

/// Without rate limiting, or after six retries, a failed call is not retried.
pub proof fn retries_are_bounded(attempt: nat, err: GuideError)
    ensures
        (attempt >= 6 || !rate_limited_spec(err)) ==> retry_spec(attempt, err) is None,
{
}

// ───────────────────────── chat requests and replies ─────────────────────────

/// The role a message is sent with: system messages as system messages, all
/// others (assistant turns too) as user messages.
pub fn wire_role(role: MessageRole) -> (r: MessageRole)
    ensures
        r == if role == MessageRole::System {
            MessageRole::System
        } else {
            MessageRole::User
        },
{
    match role {
        MessageRole::System => MessageRole::System,
        _ => MessageRole::User,
    }
}

/// The token limit as the request carries it: a 16-bit number, so the limit
/// is taken modulo 65536.
pub fn wire_max_tokens(max: u32) -> (r: u16)
    ensures
        r == max % 65536,
{
    (max % 65536) as u16
}

/// The reply made from a chat completion: `first_choice` is the first
/// choice's content (`None` when the reply has no choice, `Some(None)` when
/// the choice has no content), `usage` the reported prompt and completion
/// tokens. No choice is an error; missing content is empty, missing usage is
/// zero tokens; with `strip_think` the reasoning block is removed.
pub fn completion_from_reply(
    first_choice: Option<Option<String>>,
    usage: Option<(u32, u32)>,
    model: String,
    provider: String,
    strip_think: bool,
) -> (r: Result<CompletionResponse, GuideError>)
    ensures
        first_choice is None <==> r is Err,
        r matches Err(e) ==> e matches GuideError::Llm(m) && m@ == "No choices returned"@,
        r matches Ok(c) ==> {
            let raw = match first_choice {
                Some(Some(t)) => t@,
                _ => Seq::empty(),
            };
            &&& c.content@ == if strip_think {
                strip_think_spec(raw)
            } else {
                raw
            }
            &&& c.model@ == model@
            &&& c.provider@ == provider@
            &&& (c.prompt_tokens, c.completion_tokens) == match usage {
                Some(u) => u,
                None => (0u32, 0u32),
            }
        },
{
    let choice = match first_choice {
        Some(c) => c,
        None => return Err(GuideError::Llm(String::from_str("No choices returned"))),
    };
    let raw = match choice {
        Some(t) => t,
        None => String::new(),
    };
    let content = if strip_think {
        strip_think_tags(raw.as_str())
    } else {
        raw
    };
    let (prompt_tokens, completion_tokens) = match usage {
        Some(u) => u,
        None => (0, 0),
    };
    Ok(CompletionResponse { content, model, provider, prompt_tokens, completion_tokens })
}

} // verus!
