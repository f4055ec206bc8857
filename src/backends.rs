//! The backend adapters: which endpoint, headers and body translation each
//! provider needs. The HTTP exchange itself is made by the caller with what
//! these values describe.

use vstd::prelude::*;
use crate::config::{BackendConfig, Config, Provider};
use crate::text::same_text;
use crate::error::{ErrorKind, GatewayError};
use crate::json::{Json, field, text_of, unsigned_of, member, first_element};
use crate::messages::{to_anthropic, from_anthropic, usage_fits, usage_number, array_of, object_of, pair, number, TranslateError,
    request_error, translated_request, translated_response,
};

verus! {

/// Value of the API-version header sent to Messages-style backends.
pub const ANTHROPIC_VERSION: &'static str = "2023-06-01";


/// A text without its trailing slashes.
pub open spec fn trim_slashes(s: Seq<char>) -> Seq<char>
    decreases s.len(),
{
    if s.len() > 0 && s.last() == '/' {
        trim_slashes(s.drop_last())
    } else {
        s
    }
}

/// Removes the trailing slashes of a base URL.
pub fn trim_trailing_slashes(s: &str) -> (r: String)
    ensures
        r@ == trim_slashes(s@),
{
    let mut n: usize = s.unicode_len();
    assert(s@.subrange(0, n as int) =~= s@);
    while n > 0 && s.get_char(n - 1) == '/'
        invariant
            n <= s@.len(),
            trim_slashes(s@) == trim_slashes(s@.subrange(0, n as int)),
        decreases n,
    {
        assert(s@.subrange(0, n as int).drop_last() =~= s@.subrange(0, n - 1));
        n = n - 1;
    }
    s.substring_char(0, n).to_owned()
}

/// Adapter for backends speaking the canonical protocol.
#[derive(Debug)]
pub struct OpenAIAdapter {
    pub base_url: String,
    pub timeout_ms: u64,
    /// Sent as a bearer token when present.
    pub api_key: Option<String>,
    /// Adds the headers recommended by aggregating providers.
    pub referrer_headers: bool,
}

/// Adapter for local inference servers; no authentication.
#[derive(Debug)]
pub struct OllamaAdapter {
    pub base_url: String,
    pub timeout_ms: u64,
}

/// Adapter for the Messages-style protocol.
#[derive(Debug)]
pub struct AnthropicAdapter {
    pub base_url: String,
    pub timeout_ms: u64,
    pub api_key: String,
}

impl OpenAIAdapter {
    pub fn new(base_url: String, timeout_ms: u64, api_key: Option<String>) -> (r: Self)
        ensures
            r.base_url == base_url,
            r.timeout_ms == timeout_ms,
            r.api_key == api_key,
            !r.referrer_headers,
    {
        OpenAIAdapter { base_url, timeout_ms, api_key, referrer_headers: false }
    }
}

impl OllamaAdapter {
    pub fn new(base_url: String, timeout_ms: u64) -> (r: Self)
        ensures
            r.base_url == base_url,
            r.timeout_ms == timeout_ms,
    {
        OllamaAdapter { base_url, timeout_ms }
    }
}

impl AnthropicAdapter {
    pub fn new(base_url: String, timeout_ms: u64, api_key: String) -> (r: Self)
        ensures
            r.base_url == base_url,
            r.timeout_ms == timeout_ms,
            r.api_key == api_key,
    {
        AnthropicAdapter { base_url, timeout_ms, api_key }
    }
}

/// One adapter, chosen by the backend's provider.
#[derive(Debug)]
pub enum BackendClient {
    /// Canonical passthrough, also used for the referrer-headers variant.
    OpenAI(OpenAIAdapter),
    /// Messages-style translation.
    Anthropic(AnthropicAdapter),
    /// Local inference server.
    Ollama(OllamaAdapter),
}

/// Whether a resolved key can be used.
pub open spec fn usable_key(key: Option<String>) -> bool {
    key matches Some(k) && k@.len() > 0
}

fn concat(a: &str, b: &str) -> (r: String)
    ensures
        r@ == a@ + b@,
{
    let mut s = a.to_owned();
    s.append(b);
    s
}

impl BackendClient {
    /// Builds the adapter for a backend; `api_key` is the value of its key
    /// variable, when set. A Messages-style backend needs a non-empty key;
    /// every other provider accepts a missing one.
    pub fn new(cfg: &BackendConfig, api_key: Option<String>) -> (r: Result<Self, GatewayError>)
        ensures
            r is Err <==> cfg.provider == Provider::Anthropic && !usable_key(api_key),
            r is Err ==> r->Err_0.kind == ErrorKind::Configuration,
            r is Ok ==> match r->Ok_0 {
                BackendClient::OpenAI(a) => {
                    &&& (cfg.provider == Provider::OpenAI || cfg.provider == Provider::OpenRouter)
                    &&& a.base_url@ == trim_slashes(cfg.base_url@)
                    &&& a.timeout_ms == cfg.timeout_ms
                    &&& a.api_key == api_key
                    &&& a.referrer_headers == (cfg.provider == Provider::OpenRouter)
                },
                BackendClient::Ollama(a) => {
                    &&& cfg.provider == Provider::Ollama
                    &&& a.base_url@ == trim_slashes(cfg.base_url@)
                    &&& a.timeout_ms == cfg.timeout_ms
                },
                BackendClient::Anthropic(a) => {
                    &&& cfg.provider == Provider::Anthropic
                    &&& a.base_url@ == trim_slashes(cfg.base_url@)
                    &&& a.timeout_ms == cfg.timeout_ms
                    &&& Some(a.api_key) == api_key
                },
            },
    {
        let base_url = trim_trailing_slashes(cfg.base_url.as_str());
        match cfg.provider {
            Provider::OpenAI => Ok(BackendClient::OpenAI(OpenAIAdapter::new(base_url, cfg.timeout_ms, api_key))),
            Provider::OpenRouter => {
                let mut a = OpenAIAdapter::new(base_url, cfg.timeout_ms, api_key);
                a.referrer_headers = true;
                Ok(BackendClient::OpenAI(a))
            },
            Provider::Ollama => Ok(BackendClient::Ollama(OllamaAdapter::new(base_url, cfg.timeout_ms))),
            Provider::Anthropic => {
                let usable = match &api_key {
                    Some(k) => k.unicode_len() > 0,
                    None => false,
                };
                if !usable {
                    let var: &str = match &cfg.api_key_env {
                        Some(v) => v.as_str(),
                        None => "<unset>",
                    };
                    let mut m = concat("Anthropic backend requires an API key; set the `", var);
                    m.append("` environment variable");
                    return Err(GatewayError::new(ErrorKind::Configuration, m));
                }
                match api_key {
                    Some(k) => Ok(BackendClient::Anthropic(AnthropicAdapter::new(base_url, cfg.timeout_ms, k))),
                    None => Err(GatewayError::configuration("Anthropic backend requires an API key")),
                }
            },
        }
    }

    /// The base URL of the adapter.
    pub fn base_url(&self) -> (r: &str)
        ensures
            r@ == match self {
                BackendClient::OpenAI(a) => a.base_url@,
                BackendClient::Anthropic(a) => a.base_url@,
                BackendClient::Ollama(a) => a.base_url@,
            },
    {
        match self {
            BackendClient::OpenAI(a) => a.base_url.as_str(),
            BackendClient::Anthropic(a) => a.base_url.as_str(),
            BackendClient::Ollama(a) => a.base_url.as_str(),
        }
    }

    /// The per-request timeout of buffered calls, in milliseconds.
    pub fn timeout_ms(&self) -> (r: u64)
        ensures
            r == match self {
                BackendClient::OpenAI(a) => a.timeout_ms,
                BackendClient::Anthropic(a) => a.timeout_ms,
                BackendClient::Ollama(a) => a.timeout_ms,
            },
    {
        match self {
            BackendClient::OpenAI(a) => a.timeout_ms,
            BackendClient::Anthropic(a) => a.timeout_ms,
            BackendClient::Ollama(a) => a.timeout_ms,
        }
    }

    /// The chat endpoint: `{base}/v1/messages` for Messages-style backends,
    /// `{base}/v1/chat/completions` otherwise.
    pub fn chat_url(&self) -> (r: String)
        ensures
            self is Anthropic ==> r@ == self.base_url_spec() + "/v1/messages"@,
            !(self is Anthropic) ==> r@ == self.base_url_spec() + "/v1/chat/completions"@,
    {
        match self {
            BackendClient::Anthropic(a) => concat(a.base_url.as_str(), "/v1/messages"),
            BackendClient::OpenAI(a) => concat(a.base_url.as_str(), "/v1/chat/completions"),
            BackendClient::Ollama(a) => concat(a.base_url.as_str(), "/v1/chat/completions"),
        }
    }

    pub open spec fn base_url_spec(&self) -> Seq<char> {
        match self {
            BackendClient::OpenAI(a) => a.base_url@,
            BackendClient::Anthropic(a) => a.base_url@,
            BackendClient::Ollama(a) => a.base_url@,
        }
    }

    /// The liveness probe endpoint: `GET {base}/v1/models` for canonical
    /// backends, `GET {base}/` for local servers, and a one-token
    /// `POST {base}/v1/messages` for Messages-style backends.
    pub fn health_url(&self) -> (r: String)
        ensures
            self is OpenAI ==> r@ == self.base_url_spec() + "/v1/models"@,
            self is Ollama ==> r@ == self.base_url_spec() + "/"@,
            self is Anthropic ==> r@ == self.base_url_spec() + "/v1/messages"@,
    {
        match self {
            BackendClient::OpenAI(a) => concat(a.base_url.as_str(), "/v1/models"),
            BackendClient::Ollama(a) => concat(a.base_url.as_str(), "/"),
            BackendClient::Anthropic(a) => concat(a.base_url.as_str(), "/v1/messages"),
        }
    }

    /// Headers sent with every call: a bearer token for canonical backends
    /// with a key, plus the title header for the referrer-headers variant;
    /// the key header and the API version for Messages-style backends;
    /// nothing for local servers.
    pub fn headers(&self) -> (r: Vec<(String, String)>)
        ensures
            self matches BackendClient::OpenAI(a) ==> {
                &&& r@.len() == (if a.api_key is Some { 1int } else { 0 }) + (if a.referrer_headers { 1int } else { 0 })
                &&& a.api_key matches Some(k) ==> r@[0].0@ == "Authorization"@ && r@[0].1@ == "Bearer "@ + k@
                &&& a.referrer_headers ==> r@.last().0@ == "X-Title"@ && r@.last().1@ == "lm-gateway"@
            },
            self matches BackendClient::Anthropic(a) ==> {
                &&& r@.len() == 2
                &&& r@[0].0@ == "x-api-key"@ && r@[0].1@ == a.api_key@
                &&& r@[1].0@ == "anthropic-version"@ && r@[1].1@ == ANTHROPIC_VERSION@
            },
            self is Ollama ==> r@.len() == 0,
    {
        let mut h: Vec<(String, String)> = Vec::new();
        match self {
            BackendClient::OpenAI(a) => {
                match &a.api_key {
                    Some(k) => h.push(("Authorization".to_owned(), concat("Bearer ", k.as_str()))),
                    None => {},
                }
                if a.referrer_headers {
                    h.push(("X-Title".to_owned(), "lm-gateway".to_owned()));
                }
            },
            BackendClient::Anthropic(a) => {
                h.push(("x-api-key".to_owned(), a.api_key.clone()));
                h.push(("anthropic-version".to_owned(), ANTHROPIC_VERSION.to_owned()));
            },
            BackendClient::Ollama(_) => {},
        }
        h
    }

    /// The body to send for a canonical request: translated for
    /// Messages-style backends, unchanged otherwise.
    pub fn prepare_request(&self, request: Json) -> (r: Result<Json, TranslateError>)
        ensures
            !(self is Anthropic) ==> r == Ok::<Json, TranslateError>(request),
            self is Anthropic ==> (r is Err <==> request_error(request) is Some),
            self is Anthropic && r is Err ==> request_error(request) == Some(r->Err_0),
            self is Anthropic && r is Ok ==> translated_request(request, r->Ok_0),
    {
        match self {
            BackendClient::Anthropic(_) => to_anthropic(request),
            _ => Ok(request),
        }
    }

    /// Whether streamed bytes go to the client unchanged; Messages-style
    /// streams are translated instead.
    pub fn streams_verbatim(&self) -> (r: bool)
        ensures
            r == !(self is Anthropic),
    {
        match self {
            BackendClient::Anthropic(_) => false,
            _ => true,
        }
    }

    /// The canonical response for an upstream body: translated for
    /// Messages-style backends, unchanged otherwise. A translation failure,
    /// or token counts whose sum does not fit, is a decode error.
    pub fn read_response(&self, body: Json) -> (r: Result<Json, GatewayError>)
        ensures
            !(self is Anthropic) ==> (r matches Ok(v) && v == body),
            self is Anthropic ==> (r is Ok <==> usage_fits(body) && crate::messages::answer_text(body) is Some),
            self is Anthropic && r is Ok ==> translated_response(body, r->Ok_0),
            r is Err ==> r->Err_0.kind == ErrorKind::Decode,
    {
        match self {
            BackendClient::Anthropic(_) => {
                if !usage_in_range(&body) {
                    return Err(GatewayError::new(ErrorKind::Decode, "token usage out of range".to_owned()));
                }
                match from_anthropic(body) {
                    Ok(v) => Ok(v),
                    Err(e) => Err(GatewayError::new(ErrorKind::Decode, e.message().to_owned())),
                }
            },
            _ => Ok(body),
        }
    }
}

/// Whether the token counts of a response sum within range.
pub fn usage_in_range(resp: &Json) -> (r: bool)
    ensures
        r == usage_fits(*resp),
{
    let a = usage_number(resp, "input_tokens");
    let b = usage_number(resp, "output_tokens");
    a <= u64::MAX - b
}

/// Whether `i` is the position of the cheapest tier served by `backend`.
pub open spec fn first_tier_on(c: Config, backend: Seq<char>, i: int) -> bool {
    &&& 0 <= i < c.tiers@.len()
    &&& c.tiers@[i].backend@ == backend
    &&& forall|j: int| 0 <= j < i ==> #[trigger] c.tiers@[j].backend@ != backend
}

/// The model a liveness probe of `backend` asks for: that of the cheapest
/// tier the backend serves, a model the configuration knows it to have.
pub fn probe_model<'a>(config: &'a Config, backend: &str) -> (r: Option<&'a str>)
    ensures
        r is None <==> forall|i: int| 0 <= i < config.tiers@.len() ==> #[trigger] config.tiers@[i].backend@ != backend@,
        r is Some ==> exists|i: int| first_tier_on(*config, backend@, i) && r->0@ == config.tiers@[i].model@,
{
    let mut i: usize = 0;
    while i < config.tiers.len()
        invariant
            i <= config.tiers@.len(),
            forall|j: int| 0 <= j < i ==> #[trigger] config.tiers@[j].backend@ != backend@,
        decreases config.tiers@.len() - i,
    {
        let name: &str = config.tiers[i].backend.as_str();
        if same_text(name, backend) {
            assert(first_tier_on(*config, backend@, i as int));
            return Some(config.tiers[i].model.as_str());
        }
        i = i + 1;
    }
    None
}

/// The body of the Messages-style liveness probe: one token of `model`, one
/// user message `ping`.
pub fn health_probe_body(model: &str) -> (r: Json)
    ensures
        text_of(field(r, "model"@)) == Some(model@),
        unsigned_of(field(r, "max_tokens"@)) == Some(1u64),
        array_of(field(r, "messages"@)) matches Some(ms) && ms.len() == 1
            && text_of(field(ms[0], "role"@)) == Some("user"@)
            && text_of(field(ms[0], "content"@)) == Some("ping"@),
{
    proof {
        reveal_strlit("model");
        reveal_strlit("max_tokens");
        reveal_strlit("messages");
        reveal_strlit("role");
        reveal_strlit("content");
        assert("model"@.len() == 5);
        assert("max_tokens"@.len() == 10);
        assert("messages"@.len() == 8);
        assert("role"@.len() == 4);
        assert("content"@.len() == 7);
    }
    let mut m: Vec<(String, Json)> = Vec::new();
    m.push(pair("role", Json::Str("user".to_owned())));
    m.push(pair("content", Json::Str("ping".to_owned())));
    let ghost mf = m@;
    assert(mf[0].0@ == "role"@ && mf[1].0@ == "content"@);
    let message = object_of(m);
    assert(field(message, "role"@) == Some(mf[0].1));
    assert(field(message, "content"@) == Some(mf[1].1));
    let mut messages: Vec<Json> = Vec::new();
    messages.push(message);
    let mut f: Vec<(String, Json)> = Vec::new();
    f.push(pair("model", Json::Str(model.to_owned())));
    f.push(pair("max_tokens", number(1)));
    f.push(pair("messages", Json::Array(messages)));
    let ghost ff = f@;
    assert(ff[0].0@ == "model"@ && ff[1].0@ == "max_tokens"@ && ff[2].0@ == "messages"@);
    let r = object_of(f);
    assert(field(r, "model"@) == Some(ff[0].1));
    assert(field(r, "max_tokens"@) == Some(ff[1].1));
    assert(field(r, "messages"@) == Some(ff[2].1));
    r
}

/// Whether an HTTP status is a success (2xx).
pub fn is_success_status(status: u16) -> (r: bool)
    ensures
        r == (200 <= status <= 299),
{
    200 <= status && status <= 299
}

} // verus!
