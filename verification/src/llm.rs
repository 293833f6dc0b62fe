//! The decisions of the LLM client: provider configuration, the
//! retry-worthiness of an error, the backoff schedule, request shaping
//! per provider, and the masking of stored API keys. The HTTP calls
//! themselves happen outside; they hand their outcomes to these
//! functions and carry out what they decide.

use vstd::prelude::*;
use crate::strutil::{
    chars_of, string_from_chars, append_chars, str_contains, contains_seq, lower_ascii, str_eq,
    lower_ascii_x,
};
use crate::ai_types::{OpenAIMessage, OpenAIRequest, ResponseFormat};
use crate::auth::clone_string;
use crate::rate_limiter::backoff_multiplier;

verus! {

/// How many attempts a chat completion gets in total.
pub const MAX_RETRIES: u32 = 3;

/// Delay before the first retry, in milliseconds; it doubles each time.
pub const INITIAL_RETRY_DELAY_MS: u64 = 1000;

/// The stand-in shown instead of a stored API key.
pub const MASKED_API_KEY: &'static str = "********";

/// LLM provider type.
#[derive(Debug, Clone, Copy, PartialEq, Eq, Structural)]
pub enum LLMProvider {
    OpenAI,
    Ollama,
}

/// LLM provider configuration.
#[derive(Debug)]
pub struct LLMConfig {
    pub provider: LLMProvider,
    pub base_url: String,
    pub api_key: Option<String>,
    pub model: String,
}

impl Default for LLMConfig {
    /// The remote provider against its public endpoint, no key yet.
    fn default() -> (r: Self)
        ensures
            r.provider == LLMProvider::OpenAI,
            r.base_url@ == "https://api.openai.com"@,
            r.api_key is None,
            r.model@ == "gpt-4o-mini"@,
    {
        LLMConfig {
            provider: LLMProvider::OpenAI,
            base_url: "https://api.openai.com".to_owned(),
            api_key: None,
            model: "gpt-4o-mini".to_owned(),
        }
    }
}

/// A model reported by the local provider.
#[derive(Debug)]
pub struct OllamaModel {
    pub name: String,
    pub size: Option<u64>,
    pub modified_at: Option<String>,
    pub parameter_size: Option<String>,
}

/// A configuration can be used: the local provider always, the remote
/// one only with a non-empty API key.
pub open spec fn llm_configured(provider: LLMProvider, api_key: Option<Seq<char>>) -> bool {
    match provider {
        LLMProvider::Ollama => true,
        LLMProvider::OpenAI => api_key matches Some(k) && k.len() > 0,
    }
}

impl LLMConfig {
    pub open spec fn key_view(&self) -> Option<Seq<char>> {
        match self.api_key {
            Some(k) => Some(k@),
            None => None,
        }
    }

    /// Whether a chat completion may be attempted with this
    /// configuration.
    pub fn is_configured(&self) -> (r: bool)
        ensures
            r == llm_configured(self.provider, self.key_view()),
    {
        match self.provider {
            LLMProvider::Ollama => true,
            LLMProvider::OpenAI => match &self.api_key {
                Some(k) => k.as_str().unicode_len() > 0,
                None => false,
            },
        }
    }

    /// A copy with the key replaced by the mask when one is set, for
    /// handing to the UI.
    pub fn masked(&self) -> (r: LLMConfig)
        ensures
            r.provider == self.provider,
            r.base_url@ == self.base_url@,
            r.model@ == self.model@,
            r.key_view() == if self.key_view() matches Some(k) && k.len() > 0 {
                Some(MASKED_API_KEY@)
            } else {
                self.key_view()
            },
    {
        let api_key: Option<String> = match &self.api_key {
            Some(k) => {
                if k.as_str().unicode_len() > 0 {
                    Some(MASKED_API_KEY.to_owned())
                } else {
                    Some(clone_string(k))
                }
            },
            None => None,
        };
        LLMConfig {
            provider: self.provider,
            base_url: clone_string(&self.base_url),
            api_key,
            model: clone_string(&self.model),
        }
    }
}

/// Merge an updated configuration with the stored key: a masked key in
/// the update means "keep the current one".
pub fn resolve_config_update(update: LLMConfig, current_key: Option<String>) -> (r: LLMConfig)
    ensures
        r.provider == update.provider,
        r.base_url@ == update.base_url@,
        r.model@ == update.model@,
        r.key_view() == if update.key_view() == Some(MASKED_API_KEY@) {
            match current_key {
                Some(k) => Some(k@),
                None => None::<Seq<char>>,
            }
        } else {
            update.key_view()
        },
{
    let masked = match &update.api_key {
        Some(k) => str_eq(k.as_str(), MASKED_API_KEY),
        None => false,
    };
    if masked {
        LLMConfig { api_key: current_key, ..update }
    } else {
        update
    }
}

/// An error text worth retrying: the service said too-many-requests or
/// a server error, or the transport failed in a transient way.
pub open spec fn retryable_error(s: Seq<char>) -> bool {
    ||| contains_seq(s, "429"@)
    ||| (contains_seq(s, "API error"@) && (contains_seq(s, "500"@) || contains_seq(s, "502"@)
        || contains_seq(s, "503"@) || contains_seq(s, "504"@)))
    ||| contains_seq(lower_ascii(s), "connection refused"@)
    ||| contains_seq(lower_ascii(s), "timed out"@)
    ||| contains_seq(lower_ascii(s), "timeout"@)
    ||| contains_seq(lower_ascii(s), "reset by peer"@)
}

/// Whether a failed attempt should be retried.
pub fn should_retry(error: &str) -> (r: bool)
    ensures
        r == retryable_error(error@),
{
    if str_contains(error, "429") {
        return true;
    }
    if str_contains(error, "API error") && (str_contains(error, "500") || str_contains(
        error,
        "502",
    ) || str_contains(error, "503") || str_contains(error, "504")) {
        return true;
    }
    let cs = chars_of(error);
    let low_chars = lower_ascii_x(&cs);
    let low = string_from_chars(&low_chars);
    str_contains(low.as_str(), "connection refused") || str_contains(low.as_str(), "timed out")
        || str_contains(low.as_str(), "timeout") || str_contains(low.as_str(), "reset by peer")
}

/// The delay before the retry after `attempt` failures: the initial
/// delay doubled each time, capped at sixty-four times.
pub fn retry_delay_ms(attempt: u32) -> (r: u64)
    ensures
        r == INITIAL_RETRY_DELAY_MS * backoff_multiplier(attempt),
{
    let multiplier: u64 = if attempt >= 6 {
        64
    } else if attempt == 5 {
        32
    } else if attempt == 4 {
        16
    } else if attempt == 3 {
        8
    } else if attempt == 2 {
        4
    } else if attempt == 1 {
        2
    } else {
        1
    };
    INITIAL_RETRY_DELAY_MS * multiplier
}

/// `s` with every trailing slash removed.
pub open spec fn trim_trailing_slashes(s: Seq<char>) -> Seq<char>
    decreases s.len(),
{
    if s.len() > 0 && s.last() == '/' {
        trim_trailing_slashes(s.drop_last())
    } else {
        s
    }
}

fn strip_trailing_slashes(s: &str) -> (r: Vec<char>)
    ensures
        r@ == trim_trailing_slashes(s@),
{
    let cs = chars_of(s);
    let mut b = cs.len();
    proof {
        assert(cs@.take(cs@.len() as int) =~= cs@);
    }
    while b > 0 && cs[b - 1] == '/'
        invariant
            0 <= b <= cs@.len(),
            cs@ == s@,
            trim_trailing_slashes(s@) == trim_trailing_slashes(cs@.take(b as int)),
        decreases b,
    {
        proof {
            let cur = cs@.take(b as int);
            assert(cur.last() == cs@[b - 1]);
            assert(cur.drop_last() =~= cs@.take(b - 1));
        }
        b -= 1;
    }
    let mut out: Vec<char> = Vec::new();
    let mut i: usize = 0;
    while i < b
        invariant
            0 <= i <= b <= cs@.len(),
            cs@ == s@,
            out@ == cs@.take(b as int).take(i as int),
        decreases b - i,
    {
        proof {
            assert(cs@.take(b as int)[i as int] == cs@[i as int]);
        }
        out.push(cs[i]);
        assert(out@ =~= cs@.take(b as int).take(i + 1));
        i += 1;
    }
    proof {
        let cur = cs@.take(b as int);
        assert(cur.take(b as int) =~= cur);
        if cur.len() > 0 {
            assert(cur.last() == cs@[b - 1]);
        }
        assert(trim_trailing_slashes(cur) == cur);
    }
    out
}

/// The chat-completions endpoint under a base URL, trailing slashes
/// dropped.
pub fn chat_completions_url(base_url: &str) -> (r: String)
    ensures
        r@ == trim_trailing_slashes(base_url@) + "/v1/chat/completions"@,
{
    let mut out = strip_trailing_slashes(base_url);
    let path = chars_of("/v1/chat/completions");
    append_chars(&mut out, &path);
    string_from_chars(&out)
}

/// The model-list endpoint of the local provider under a base URL.
pub fn ollama_tags_url(base_url: &str) -> (r: String)
    ensures
        r@ == trim_trailing_slashes(base_url@) + "/api/tags"@,
{
    let mut out = strip_trailing_slashes(base_url);
    let path = chars_of("/api/tags");
    append_chars(&mut out, &path);
    string_from_chars(&out)
}

/// The directive appended to the system message for local providers in
/// JSON mode, which do not honor a response-format field.
pub const RAW_JSON_DIRECTIVE: &'static str = "\n\nCRITICAL: Output ONLY the raw JSON object. No markdown code fences, no explanation, no text before or after the JSON.";

/// First index of a system-role message.
pub open spec fn first_system_idx(ms: Seq<(Seq<char>, Seq<char>)>) -> Option<int>
    decreases ms.len(),
{
    if ms.len() == 0 {
        None
    } else if ms[0].0 == "system"@ {
        Some(0)
    } else {
        match first_system_idx(ms.drop_first()) {
            Some(j) => Some(j + 1),
            None => None,
        }
    }
}

pub open spec fn message_views(ms: Seq<OpenAIMessage>) -> Seq<(Seq<char>, Seq<char>)> {
    ms.map_values(|m: OpenAIMessage| (m.role@, m.content@))
}

proof fn lemma_first_system_at(ms: Seq<(Seq<char>, Seq<char>)>, k: int)
    requires
        0 <= k < ms.len(),
        ms[k].0 == "system"@,
        forall|i: int| 0 <= i < k ==> ms[i].0 != "system"@,
    ensures
        first_system_idx(ms) == Some(k),
    decreases k,
{
    if k > 0 {
        assert(forall|i: int|
            0 <= i < k - 1 ==> ms.drop_first()[i] == ms[i + 1]);
        lemma_first_system_at(ms.drop_first(), k - 1);
    }
}

proof fn lemma_first_system_absent(ms: Seq<(Seq<char>, Seq<char>)>)
    requires
        forall|i: int| 0 <= i < ms.len() ==> ms[i].0 != "system"@,
    ensures
        first_system_idx(ms) is None,
    decreases ms.len(),
{
    if ms.len() > 0 {
        assert(forall|i: int|
            0 <= i < ms.len() - 1 ==> ms.drop_first()[i] == ms[i + 1]);
        lemma_first_system_absent(ms.drop_first());
    }
}

/// Shape a chat-completion request for the configured provider: the
/// remote provider gets a response-format field in JSON mode; the local
/// provider instead gets the raw-JSON directive appended to its first
/// system message.
pub fn build_chat_request(
    provider: LLMProvider,
    model: &String,
    messages: Vec<OpenAIMessage>,
    temperature_tenths: u32,
    max_tokens: i32,
    json_response: bool,
) -> (r: OpenAIRequest)
    ensures
        r.model@ == model@,
        r.temperature_tenths == temperature_tenths,
        r.max_tokens == max_tokens,
        provider == LLMProvider::OpenAI ==> {
            &&& message_views(r.messages@) == message_views(messages@)
            &&& if json_response {
                r.response_format matches Some(f) && f.format_type@ == "json_object"@
            } else {
                r.response_format is None
            }
        },
        provider == LLMProvider::Ollama ==> {
            &&& r.response_format is None
            &&& if json_response {
                match first_system_idx(message_views(messages@)) {
                    Some(i) => {
                        &&& message_views(r.messages@).len() == messages@.len()
                        &&& message_views(r.messages@)[i].0 == "system"@
                        &&& message_views(r.messages@)[i].1 == messages@[i].content@
                            + RAW_JSON_DIRECTIVE@
                        &&& forall|k: int|
                            0 <= k < messages@.len() && k != i ==> message_views(r.messages@)[k]
                                == message_views(messages@)[k]
                    },
                    None => message_views(r.messages@) == message_views(messages@),
                }
            } else {
                message_views(r.messages@) == message_views(messages@)
            }
        },
{
    let model_copy = clone_string(model);
    match provider {
        LLMProvider::OpenAI => {
            let response_format: Option<ResponseFormat> = if json_response {
                Some(ResponseFormat { format_type: "json_object".to_owned() })
            } else {
                None
            };
            OpenAIRequest {
                model: model_copy,
                messages,
                temperature_tenths,
                max_tokens,
                response_format,
            }
        },
        LLMProvider::Ollama => {
            let mut msgs = messages;
            if json_response {
                let ghost orig = msgs@;
                let mut i: usize = 0;
                let n = msgs.len();
                assert(msgs@.len() == n <= usize::MAX);
                while i < n
                    invariant
                        n == msgs@.len() <= usize::MAX,
                        msgs@ == orig,
                        0 <= i <= n,
                        provider == LLMProvider::Ollama,
                        json_response,
                        model_copy@ == model@,
                        orig == messages@,
                        forall|k: int| 0 <= k < i ==> message_views(orig)[k].0 != "system"@,
                    decreases n - i,
                {
                    if str_eq(msgs[i].role.as_str(), "system") {
                        proof {
                            assert(message_views(orig)[i as int].0 == orig[i as int].role@);
                            lemma_first_system_at(message_views(orig), i as int);
                        }
                        let mut m = msgs.remove(i);
                        let ghost old_content = m.content@;
                        let mut content_chars = chars_of(m.content.as_str());
                        let directive = chars_of(RAW_JSON_DIRECTIVE);
                        append_chars(&mut content_chars, &directive);
                        m.content = string_from_chars(&content_chars);
                        msgs.insert(i, m);
                        proof {
                            assert(msgs@ =~= orig.update(
                                i as int,
                                msgs@[i as int],
                            ));
                            assert(msgs@[i as int].role@ == orig[i as int].role@);
                            assert(msgs@[i as int].content@ == old_content + RAW_JSON_DIRECTIVE@);
                            assert forall|k: int|
                                0 <= k < orig.len() && k != i implies message_views(msgs@)[k]
                                == message_views(orig)[k] by {
                                assert(msgs@[k] == orig[k]);
                            }
                        }
                        return OpenAIRequest {
                            model: model_copy,
                            messages: msgs,
                            temperature_tenths,
                            max_tokens,
                            response_format: None,
                        };
                    }
                    i += 1;
                }
                proof {
                    lemma_first_system_absent(message_views(orig));
                }
            }
            OpenAIRequest {
                model: model_copy,
                messages: msgs,
                temperature_tenths,
                max_tokens,
                response_format: None,
            }
        },
    }
}

} // verus!
