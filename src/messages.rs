//! Translation between the canonical chat-completion schema and the
//! Messages-style schema: requests, responses, and streamed events.
//!
//! The Messages-style schema differs in four ways: system instructions are a
//! top-level field, `max_tokens` is required, the answer is a list of typed
//! content blocks, and stop reasons have other names.

use vstd::prelude::*;
use crate::json::{
    Json, JsonNumber, field, first_field, text_of, unsigned_of, take_field, push_field,
    lemma_first_field_at, lemma_first_field_absent, lemma_unique_lookup, member, first_element,
};
use crate::config::names_unique;
use crate::text::same_text;

verus! {

/// `max_tokens` sent when the caller gives none.
pub const DEFAULT_MAX_TOKENS: u64 = 8192;

/// Why a body could not be translated.
#[derive(Debug, Clone, Copy, PartialEq, Eq, Structural)]
pub enum TranslateError {
    /// The request has no string `model`.
    MissingModel,
    /// The request has no `messages` array.
    MissingMessages,
    /// The response has no `text` block in its `content` array.
    NoTextBlock,
}

impl TranslateError {
    /// A human-readable description.
    pub fn message(&self) -> (r: &'static str)
        ensures
            *self == TranslateError::MissingModel ==> r@ == "`model` field is required"@,
            *self == TranslateError::MissingMessages ==> r@ == "`messages` array is required"@,
            *self == TranslateError::NoTextBlock ==> r@ == "no text block in Messages-style response `content` array"@,
    {
        match self {
            TranslateError::MissingModel => "`model` field is required",
            TranslateError::MissingMessages => "`messages` array is required",
            TranslateError::NoTextBlock => "no text block in Messages-style response `content` array",
        }
    }
}

/// The elements of `v`, when it is an array.
pub open spec fn array_of(v: Option<Json>) -> Option<Seq<Json>> {
    match v {
        Some(Json::Array(items)) => Some(items@),
        _ => None,
    }
}

/// Whether a message has the role `system`.
pub open spec fn is_system(m: Json) -> bool {
    text_of(field(m, "role"@)) == Some("system"@)
}

/// The string contents of the system messages, in order.
pub open spec fn system_texts(msgs: Seq<Json>) -> Seq<Seq<char>>
    decreases msgs.len(),
{
    if msgs.len() == 0 {
        Seq::empty()
    } else {
        let rest = system_texts(msgs.drop_last());
        let m = msgs.last();
        if is_system(m) && text_of(field(m, "content"@)) is Some {
            rest.push(text_of(field(m, "content"@))->0)
        } else {
            rest
        }
    }
}

/// The messages whose role is not `system`, in order.
pub open spec fn non_system(msgs: Seq<Json>) -> Seq<Json>
    decreases msgs.len(),
{
    if msgs.len() == 0 {
        Seq::empty()
    } else {
        let rest = non_system(msgs.drop_last());
        if is_system(msgs.last()) {
            rest
        } else {
            rest.push(msgs.last())
        }
    }
}

/// The parts joined with `sep` between neighbours.
pub open spec fn joined(parts: Seq<Seq<char>>, sep: Seq<char>) -> Seq<char>
    decreases parts.len(),
{
    if parts.len() == 0 {
        Seq::empty()
    } else if parts.len() == 1 {
        parts[0]
    } else {
        joined(parts.drop_last(), sep) + sep + parts.last()
    }
}

/// `max_tokens` of the request, or the default.
pub open spec fn max_tokens_for(request: Json) -> u64 {
    match unsigned_of(field(request, "max_tokens"@)) {
        Some(n) => n,
        None => DEFAULT_MAX_TOKENS,
    }
}

/// The `temperature` of the request when it is a number.
pub open spec fn temperature_of(request: Json) -> Option<Json> {
    match field(request, "temperature"@) {
        Some(Json::Number(n)) => Some(Json::Number(n)),
        _ => None,
    }
}

/// Why a canonical request cannot be translated, if it cannot.
pub open spec fn request_error(request: Json) -> Option<TranslateError> {
    if text_of(field(request, "model"@)) is None {
        Some(TranslateError::MissingModel)
    } else if array_of(field(request, "messages"@)) is None {
        Some(TranslateError::MissingMessages)
    } else {
        None
    }
}

/// `out` is the Messages-style form of the canonical `request`: same model,
/// `max_tokens` given or defaulted, the non-system messages in order, the
/// system contents joined into a top-level `system`, `temperature` kept, and
/// `stop` renamed to `stop_sequences`.
pub open spec fn translated_request(request: Json, out: Json) -> bool {
    let msgs = array_of(field(request, "messages"@))->0;
    let parts = system_texts(msgs);
    &&& text_of(field(out, "model"@)) == text_of(field(request, "model"@))
    &&& unsigned_of(field(out, "max_tokens"@)) == Some(max_tokens_for(request))
    &&& array_of(field(out, "messages"@)) == Some(non_system(msgs))
    &&& (field(out, "system"@) is Some <==> parts.len() > 0)
    &&& parts.len() > 0 ==> text_of(field(out, "system"@)) == Some(joined(parts, "\n\n"@))
    &&& field(out, "temperature"@) == temperature_of(request)
    &&& field(out, "stop_sequences"@) == field(request, "stop"@)
    &&& field(out, "stop"@) is None
}

/// A system message with string content gives at least one system text.
pub proof fn lemma_system_texts_nonempty(msgs: Seq<Json>, i: int)
    requires
        0 <= i < msgs.len(),
        is_system(msgs[i]),
        text_of(field(msgs[i], "content"@)) is Some,
    ensures
        system_texts(msgs).len() > 0,
    decreases msgs.len(),
{
    if i < msgs.len() - 1 {
        assert(msgs.drop_last()[i] == msgs[i]);
        lemma_system_texts_nonempty(msgs.drop_last(), i);
    }
}

/// The kept messages are input messages whose role is not `system`.
pub proof fn lemma_non_system_members(msgs: Seq<Json>)
    ensures
        forall|k: int| 0 <= k < non_system(msgs).len() ==> {
            &&& !is_system(#[trigger] non_system(msgs)[k])
            &&& exists|j: int| 0 <= j < msgs.len() && msgs[j] == non_system(msgs)[k]
        },
    decreases msgs.len(),
{
    if msgs.len() > 0 {
        let rest = msgs.drop_last();
        lemma_non_system_members(rest);
        assert forall|k: int| 0 <= k < non_system(msgs).len() implies {
            &&& !is_system(#[trigger] non_system(msgs)[k])
            &&& exists|j: int| 0 <= j < msgs.len() && msgs[j] == non_system(msgs)[k]
        } by {
            if k < non_system(rest).len() {
                assert(non_system(msgs)[k] == non_system(rest)[k]);
                let j = choose|j: int| 0 <= j < rest.len() && rest[j] == non_system(rest)[k];
                assert(msgs[j] == rest[j]);
            } else {
                assert(non_system(msgs)[k] == msgs.last());
                assert(msgs[msgs.len() - 1] == msgs.last());
            }
        }
    }
}

/// Messages-style round trip: for a translatable request with at least one
/// system message of string content, the translation has a top-level
/// `system` equal to the system contents, in order, joined with a blank
/// line; its messages are the other messages in their order, none of them
/// with the role `system`, each one of the request's messages unchanged.
pub proof fn law_system_messages_lifted(request: Json, out: Json, i: int)
    requires
        request_error(request) is None,
        translated_request(request, out),
        ({
            let msgs = array_of(field(request, "messages"@))->0;
            0 <= i < msgs.len() && is_system(msgs[i]) && text_of(field(msgs[i], "content"@)) is Some
        }),
    ensures
        ({
            let msgs = array_of(field(request, "messages"@))->0;
            &&& system_texts(msgs).len() > 0
            &&& text_of(field(out, "system"@)) == Some(joined(system_texts(msgs), "\n\n"@))
            &&& array_of(field(out, "messages"@)) == Some(non_system(msgs))
            &&& forall|k: int| 0 <= k < non_system(msgs).len() ==> {
                &&& !is_system(#[trigger] non_system(msgs)[k])
                &&& exists|j: int| 0 <= j < msgs.len() && msgs[j] == non_system(msgs)[k]
            }
        }),
{
    let msgs = array_of(field(request, "messages"@))->0;
    lemma_system_texts_nonempty(msgs, i);
    lemma_non_system_members(msgs);
}

/// Translates a canonical request into a Messages-style request.
pub fn to_anthropic(request: Json) -> (r: Result<Json, TranslateError>)
    ensures
        r == Err::<Json, TranslateError>(TranslateError::MissingModel) <==> text_of(field(request, "model"@)) is None,
        r == Err::<Json, TranslateError>(TranslateError::MissingMessages) <==> text_of(field(request, "model"@)) is Some
            && array_of(field(request, "messages"@)) is None,
        r is Ok <==> text_of(field(request, "model"@)) is Some && array_of(field(request, "messages"@)) is Some,
        r is Err ==> request_error(request) == Some(r->Err_0),
        r is Ok ==> request_error(request) is None,
        r is Ok ==> translated_request(request, r->Ok_0),
{
    let model = match request.get("model") {
        Some(v) => match v.as_str() {
            Some(s) => s.to_owned(),
            None => return Err(TranslateError::MissingModel),
        },
        None => return Err(TranslateError::MissingModel),
    };
    let max_tokens = match request.get("max_tokens") {
        Some(v) => match v.as_u64() {
            Some(n) => n,
            None => DEFAULT_MAX_TOKENS,
        },
        None => DEFAULT_MAX_TOKENS,
    };
    let ghost req = request;
    let mut fields = match request {
        Json::Object(f) => f,
        _ => return Err(TranslateError::MissingModel),
    };
    let ghost orig = fields@;
    proof {
        reveal_strlit("messages");
        reveal_strlit("temperature");
        reveal_strlit("stop");
    }
    assert(field(req, "messages"@) == first_field(orig, "messages"@));
    let raw = match take_field(&mut fields, "messages") {
        Some(Json::Array(v)) => v,
        _ => return Err(TranslateError::MissingMessages),
    };
    let ghost after_messages = fields@;
    assert("temperature"@.len() == 11);
    assert("messages"@.len() == 8);
    assert("stop"@.len() == 4);
    assert("temperature"@ != "messages"@);
    assert(first_field(after_messages, "temperature"@) == first_field(orig, "temperature"@));
    assert(first_field(after_messages, "stop"@) == first_field(orig, "stop"@));
    let temperature = match take_field(&mut fields, "temperature") {
        Some(Json::Number(n)) => Some(Json::Number(n)),
        _ => None,
    };
    let ghost after_temperature = fields@;
    assert(first_field(after_temperature, "stop"@) == first_field(after_messages, "stop"@));
    let stop = take_field(&mut fields, "stop");
    assert(stop == field(req, "stop"@));
    assert(temperature == temperature_of(req));
    let ghost msgs = raw@;
    let mut system = String::new();
    let mut has_system = false;
    let mut kept: Vec<Json> = Vec::new();
    for m in it: raw.into_iter()
        invariant
            it.seq() == msgs,
            system@ == joined(system_texts(msgs.subrange(0, it.index() as int)), "\n\n"@),
            has_system == (system_texts(msgs.subrange(0, it.index() as int)).len() > 0),
            kept@ == non_system(msgs.subrange(0, it.index() as int)),
    {
        let ghost i = it.index();
        let ghost prefix = msgs.subrange(0, i as int);
        let ghost next = msgs.subrange(0, i + 1);
        proof {
            assert(next.drop_last() =~= prefix);
            assert(next.last() == m);
        }
        let role_is_system = match m.get("role") {
            Some(role) => match role.as_str() {
                Some(t) => same_text(t, "system"),
                None => false,
            },
            None => false,
        };
        if role_is_system {
            match m.get("content") {
                Some(c) => match c.as_str() {
                    Some(t) => {
                        if has_system {
                            system.append("\n\n");
                        }
                        system.append(t);
                        has_system = true;
                        proof {
                            let ps = system_texts(prefix);
                            assert(system_texts(next) == ps.push(t@));
                            assert(ps.push(t@).drop_last() =~= ps);
                        }
                    },
                    None => {},
                },
                None => {},
            }
        } else {
            kept.push(m);
        }
    }
    proof {
        assert(msgs.subrange(0, msgs.len() as int) =~= msgs);
    }
    let mut out: Vec<(String, Json)> = Vec::new();
    push_field(&mut out, "model", Json::Str(model));
    push_field(&mut out, "max_tokens", Json::Number(JsonNumber::Unsigned(max_tokens)));
    push_field(&mut out, "messages", Json::Array(kept));
    let ghost o3 = out@;
    if has_system {
        push_field(&mut out, "system", Json::Str(system));
    }
    let ghost o4 = out@;
    let has_temperature = temperature.is_some();
    match temperature {
        Some(t) => push_field(&mut out, "temperature", t),
        None => {},
    }
    let ghost o5 = out@;
    let has_stop = stop.is_some();
    match stop {
        Some(s) => push_field(&mut out, "stop_sequences", s),
        None => {},
    }
    proof {
        reveal_strlit("model");
        reveal_strlit("max_tokens");
        reveal_strlit("system");
        reveal_strlit("stop_sequences");
        let o = out@;
        assert("model"@.len() == 5);
        assert("max_tokens"@.len() == 10);
        assert("messages"@.len() == 8);
        assert("system"@.len() == 6);
        assert("temperature"@.len() == 11);
        assert("stop_sequences"@.len() == 14);
        assert(forall|j: int| 0 <= j < o3.len() ==> o[j] == o3[j]);
        assert(forall|j: int| 0 <= j < o4.len() ==> o[j] == o4[j]);
        assert(forall|j: int| 0 <= j < o5.len() ==> o[j] == o5[j]);
        let n: int = 3 + (if has_system { 1int } else { 0 }) + (if has_temperature { 1int } else { 0 });
        assert(o[0].0@ == "model"@);
        assert(o[1].0@ == "max_tokens"@);
        assert(o[2].0@ == "messages"@);
        lemma_first_field_at(o, 0, "model"@);
        lemma_first_field_at(o, 1, "max_tokens"@);
        lemma_first_field_at(o, 2, "messages"@);
        if has_system {
            assert(o[3].0@ == "system"@);
            lemma_first_field_at(o, 3, "system"@);
        } else {
            assert forall|j: int| 0 <= j < o.len() implies o[j].0@ != "system"@ by {}
            lemma_first_field_absent(o, "system"@);
        }
        if has_temperature {
            assert(o[n - 1].0@ == "temperature"@);
            lemma_first_field_at(o, n - 1, "temperature"@);
        } else {
            assert forall|j: int| 0 <= j < o.len() implies o[j].0@ != "temperature"@ by {}
            lemma_first_field_absent(o, "temperature"@);
        }
        assert("stop"@.len() == 4);
        assert forall|j: int| 0 <= j < o.len() implies o[j].0@ != "stop"@ by {}
        lemma_first_field_absent(o, "stop"@);
        if has_stop {
            lemma_first_field_at(o, o.len() - 1, "stop_sequences"@);
        } else {
            assert forall|j: int| 0 <= j < o.len() implies o[j].0@ != "stop_sequences"@ by {}
            lemma_first_field_absent(o, "stop_sequences"@);
        }
    }
    Ok(Json::Object(out))
}

/// The canonical name of a Messages-style stop reason.
pub open spec fn mapped_stop_reason(reason: Seq<char>) -> Seq<char> {
    if reason == "end_turn"@ {
        "stop"@
    } else if reason == "max_tokens"@ {
        "length"@
    } else {
        reason
    }
}

/// Maps `end_turn` to `stop` and `max_tokens` to `length`; any other reason
/// passes through.
pub fn map_stop_reason(reason: &str) -> (r: String)
    ensures
        r@ == mapped_stop_reason(reason@),
{
    if same_text(reason, "end_turn") {
        "stop".to_owned()
    } else if same_text(reason, "max_tokens") {
        "length".to_owned()
    } else {
        reason.to_owned()
    }
}

/// Whether a content block is of type `text`.
pub open spec fn is_text_block(b: Json) -> bool {
    text_of(field(b, "type"@)) == Some("text"@)
}

/// The first block of type `text`.
pub open spec fn first_text_block(blocks: Seq<Json>) -> Option<Json>
    decreases blocks.len(),
{
    if blocks.len() == 0 {
        None
    } else if is_text_block(blocks[0]) {
        Some(blocks[0])
    } else {
        first_text_block(blocks.drop_first())
    }
}

/// The assistant text of a Messages-style response: the `text` of its first
/// block of type `text`.
pub open spec fn answer_text(resp: Json) -> Option<Seq<char>> {
    match array_of(field(resp, "content"@)) {
        Some(blocks) => match first_text_block(blocks) {
            Some(b) => text_of(field(b, "text"@)),
            None => None,
        },
        None => None,
    }
}

/// A token count under `usage`, zero when absent.
pub open spec fn usage_count(resp: Json, key: Seq<char>) -> u64 {
    match unsigned_of(member(field(resp, "usage"@), key)) {
        Some(n) => n,
        None => 0,
    }
}

/// The text of `v`, or `default` when it is not a string.
pub open spec fn text_or(v: Option<Json>, default: Seq<char>) -> Seq<char> {
    match text_of(v) {
        Some(t) => t,
        None => default,
    }
}

/// The token counts of a response fit one unsigned 64-bit total.
pub open spec fn usage_fits(resp: Json) -> bool {
    usage_count(resp, "input_tokens"@) + usage_count(resp, "output_tokens"@) <= u64::MAX
}

/// A token count under `usage`, zero when absent.
pub fn usage_number(resp: &Json, key: &str) -> (r: u64)
    ensures
        r == usage_count(*resp, key@),
{
    match resp.get("usage") {
        Some(u) => match u.get(key) {
            Some(n) => match n.as_u64() {
                Some(k) => k,
                None => 0,
            },
            None => 0,
        },
        None => 0,
    }
}

fn find_text_block(blocks: &Vec<Json>) -> (r: Option<&Json>)
    ensures
        r is Some <==> first_text_block(blocks@) is Some,
        r is Some ==> first_text_block(blocks@) == Some(*r->0),
{
    let mut i: usize = 0;
    assert(blocks@.subrange(0, blocks@.len() as int) =~= blocks@);
    while i < blocks.len()
        invariant
            i <= blocks@.len(),
            first_text_block(blocks@) == first_text_block(blocks@.subrange(i as int, blocks@.len() as int)),
        decreases blocks@.len() - i,
    {
        let rest = Ghost(blocks@.subrange(i as int, blocks@.len() as int));
        assert(rest@.drop_first() =~= blocks@.subrange(i + 1, blocks@.len() as int));
        assert(rest@[0] == blocks@[i as int]);
        let b = &blocks[i];
        let is_text = match b.get("type") {
            Some(t) => match t.as_str() {
                Some(s) => same_text(s, "text"),
                None => false,
            },
            None => false,
        };
        if is_text {
            return Some(b);
        }
        i = i + 1;
    }
    None
}

/// An object built from pairs with distinct names.
pub(crate) fn object_of(fields: Vec<(String, Json)>) -> (r: Json)
    requires
        names_unique(fields@),
    ensures
        r == Json::Object(fields),
        forall|i: int| 0 <= i < fields@.len() ==> field(r, #[trigger] fields@[i].0@) == Some(fields@[i].1),
{
    proof {
        assert forall|i: int| 0 <= i < fields@.len() implies first_field(fields@, #[trigger] fields@[i].0@) == Some(fields@[i].1) by {
            lemma_unique_lookup(fields@, i);
        }
    }
    Json::Object(fields)
}

pub(crate) fn pair(key: &str, v: Json) -> (r: (String, Json))
    ensures
        r.0@ == key@,
        r.1 == v,
{
    (key.to_owned(), v)
}

pub(crate) fn number(n: u64) -> (r: Json)
    ensures
        r == Json::Number(JsonNumber::Unsigned(n)),
{
    Json::Number(JsonNumber::Unsigned(n))
}

/// `out` is the canonical chat completion for the Messages-style `resp`:
/// its id and model, one assistant choice carrying the answer text and the
/// mapped stop reason, and the token usage with its total.
pub open spec fn translated_response(resp: Json, out: Json) -> bool {
    let choice = first_element(field(out, "choices"@));
    let input = usage_count(resp, "input_tokens"@);
    let output = usage_count(resp, "output_tokens"@);
    &&& field(out, "id"@) == Some(match field(resp, "id"@) { Some(v) => v, None => Json::Null })
    &&& text_of(field(out, "object"@)) == Some("chat.completion"@)
    &&& text_of(field(out, "model"@)) == Some(text_or(field(resp, "model"@), "unknown"@))
    &&& (array_of(field(out, "choices"@)) matches Some(cs) && cs.len() == 1)
    &&& unsigned_of(member(choice, "index"@)) == Some(0u64)
    &&& text_of(member(member(choice, "message"@), "role"@)) == Some("assistant"@)
    &&& text_of(member(member(choice, "message"@), "content"@)) == answer_text(resp)
    &&& text_of(member(choice, "finish_reason"@)) == Some(
        mapped_stop_reason(text_or(field(resp, "stop_reason"@), "stop"@)),
    )
    &&& unsigned_of(member(field(out, "usage"@), "prompt_tokens"@)) == Some(input)
    &&& unsigned_of(member(field(out, "usage"@), "completion_tokens"@)) == Some(output)
    &&& unsigned_of(member(field(out, "usage"@), "total_tokens"@)) == Some((input + output) as u64)
}

/// Translates a Messages-style response into a canonical chat completion
/// with one choice.
pub fn from_anthropic(resp: Json) -> (r: Result<Json, TranslateError>)
    requires
        usage_fits(resp),
    ensures
        r is Err <==> answer_text(resp) is None,
        r is Err ==> r == Err::<Json, TranslateError>(TranslateError::NoTextBlock),
        r is Ok ==> translated_response(resp, r->Ok_0),
{
    let text: String = match resp.get("content") {
        Some(Json::Array(blocks)) => match find_text_block(blocks) {
            Some(b) => match b.get("text") {
                Some(t) => match t.as_str() {
                    Some(s) => s.to_owned(),
                    None => return Err(TranslateError::NoTextBlock),
                },
                None => return Err(TranslateError::NoTextBlock),
            },
            None => return Err(TranslateError::NoTextBlock),
        },
        _ => return Err(TranslateError::NoTextBlock),
    };
    let model: String = match resp.get("model") {
        Some(m) => match m.as_str() {
            Some(s) => s.to_owned(),
            None => "unknown".to_owned(),
        },
        None => "unknown".to_owned(),
    };
    let finish: String = match resp.get("stop_reason") {
        Some(m) => match m.as_str() {
            Some(s) => map_stop_reason(s),
            None => map_stop_reason("stop"),
        },
        None => map_stop_reason("stop"),
    };
    let input = usage_number(&resp, "input_tokens");
    let output = usage_number(&resp, "output_tokens");
    let ghost orig = resp;
    let id: Json = match resp {
        Json::Object(mut fields) => match take_field(&mut fields, "id") {
            Some(v) => v,
            None => Json::Null,
        },
        _ => Json::Null,
    };
    proof {
        reveal_strlit("role");
        reveal_strlit("content");
        reveal_strlit("index");
        reveal_strlit("message");
        reveal_strlit("finish_reason");
        reveal_strlit("prompt_tokens");
        reveal_strlit("completion_tokens");
        reveal_strlit("total_tokens");
        reveal_strlit("id");
        reveal_strlit("object");
        reveal_strlit("model");
        reveal_strlit("choices");
        reveal_strlit("usage");
        assert("role"@.len() == 4);
        assert("content"@.len() == 7);
        assert("index"@.len() == 5);
        assert("message"@.len() == 7);
        assert("finish_reason"@.len() == 13);
        assert("prompt_tokens"@.len() == 13);
        assert("completion_tokens"@.len() == 17);
        assert("total_tokens"@.len() == 12);
        assert("id"@.len() == 2);
        assert("object"@.len() == 6);
        assert("model"@.len() == 5);
        assert("choices"@.len() == 7);
        assert("usage"@.len() == 5);
        assert("model"@[0] != "usage"@[0]);
        assert("prompt_tokens"@[0] != "finish_reason"@[0]);
    }
    let mut message_fields: Vec<(String, Json)> = Vec::new();
    message_fields.push(pair("role", Json::Str("assistant".to_owned())));
    message_fields.push(pair("content", Json::Str(text)));
    let ghost mf = message_fields@;
    assert(mf[0].0@ == "role"@ && mf[1].0@ == "content"@);
    let message = object_of(message_fields);
    assert(field(message, "role"@) == Some(mf[0].1));
    assert(field(message, "content"@) == Some(mf[1].1));
    let mut choice_fields: Vec<(String, Json)> = Vec::new();
    choice_fields.push(pair("index", number(0)));
    choice_fields.push(pair("message", message));
    choice_fields.push(pair("finish_reason", Json::Str(finish)));
    let ghost cf = choice_fields@;
    assert(cf[0].0@ == "index"@ && cf[1].0@ == "message"@ && cf[2].0@ == "finish_reason"@);
    let choice = object_of(choice_fields);
    assert(field(choice, "index"@) == Some(cf[0].1));
    assert(field(choice, "message"@) == Some(cf[1].1));
    assert(field(choice, "finish_reason"@) == Some(cf[2].1));
    let mut usage_fields: Vec<(String, Json)> = Vec::new();
    usage_fields.push(pair("prompt_tokens", number(input)));
    usage_fields.push(pair("completion_tokens", number(output)));
    usage_fields.push(pair("total_tokens", number(input + output)));
    let ghost uf = usage_fields@;
    assert(uf[0].0@ == "prompt_tokens"@ && uf[1].0@ == "completion_tokens"@ && uf[2].0@ == "total_tokens"@);
    let usage = object_of(usage_fields);
    assert(field(usage, "prompt_tokens"@) == Some(uf[0].1));
    assert(field(usage, "completion_tokens"@) == Some(uf[1].1));
    assert(field(usage, "total_tokens"@) == Some(uf[2].1));
    let mut choices: Vec<Json> = Vec::new();
    choices.push(choice);
    let mut out_fields: Vec<(String, Json)> = Vec::new();
    out_fields.push(pair("id", id));
    out_fields.push(pair("object", Json::Str("chat.completion".to_owned())));
    out_fields.push(pair("model", Json::Str(model)));
    out_fields.push(pair("choices", Json::Array(choices)));
    out_fields.push(pair("usage", usage));
    let out = object_of(out_fields);
    proof {
        let o = out_fields@;
        assert(o[0].0@ == "id"@);
        assert(o[1].0@ == "object"@);
        assert(o[2].0@ == "model"@);
        assert(o[3].0@ == "choices"@);
        assert(o[4].0@ == "usage"@);
        assert(field(out, "id"@) == Some(id));
        assert(field(out, "id"@) == Some(match field(orig, "id"@) { Some(v) => v, None => Json::Null }));
        assert(text_of(field(out, "object"@)) == Some("chat.completion"@));
        assert(text_of(field(out, "model"@)) == Some(text_or(field(orig, "model"@), "unknown"@)));
        assert(array_of(field(out, "choices"@)) matches Some(cs) && cs.len() == 1);
        let ch = first_element(field(out, "choices"@));
        assert(ch == Some(choice));
        assert(unsigned_of(member(ch, "index"@)) == Some(0u64));
        assert(text_of(member(member(ch, "message"@), "role"@)) == Some("assistant"@));
        assert(text_of(member(member(ch, "message"@), "content"@)) == answer_text(orig));
        assert(text_of(member(ch, "finish_reason"@)) == Some(mapped_stop_reason(text_or(field(orig, "stop_reason"@), "stop"@))));
        assert(unsigned_of(member(field(out, "usage"@), "total_tokens"@)) == Some((input + output) as u64));
    }
    Ok(out)
}

/// The member `key` of the first choice of a chunk.
pub open spec fn choice_member(c: Json, key: Seq<char>) -> Option<Json> {
    member(first_element(field(c, "choices"@)), key)
}

/// The frame envelope shared by every streamed chunk.
pub open spec fn chunk_shape(c: Json, id: Seq<char>, model: Seq<char>) -> bool {
    &&& text_of(field(c, "id"@)) == Some(id)
    &&& text_of(field(c, "object"@)) == Some("chat.completion.chunk"@)
    &&& text_of(field(c, "model"@)) == Some(model)
    &&& array_of(field(c, "choices"@)) matches Some(cs) && cs.len() == 1
    &&& unsigned_of(choice_member(c, "index"@)) == Some(0u64)
}

/// A streamed chunk with one choice carrying `delta` and `finish`.
fn chunk(id: &str, model: &str, delta: Json, finish: Json) -> (r: Json)
    ensures
        chunk_shape(r, id@, model@),
        choice_member(r, "delta"@) == Some(delta),
        choice_member(r, "finish_reason"@) == Some(finish),
{
    proof {
        reveal_strlit("index");
        reveal_strlit("delta");
        reveal_strlit("finish_reason");
        reveal_strlit("id");
        reveal_strlit("object");
        reveal_strlit("model");
        reveal_strlit("choices");
        assert("index"@.len() == 5);
        assert("delta"@.len() == 5);
        assert("finish_reason"@.len() == 13);
        assert("index"@[0] != "delta"@[0]);
        assert("id"@.len() == 2);
        assert("object"@.len() == 6);
        assert("model"@.len() == 5);
        assert("choices"@.len() == 7);
    }
    let mut choice_fields: Vec<(String, Json)> = Vec::new();
    choice_fields.push(pair("index", number(0)));
    choice_fields.push(pair("delta", delta));
    choice_fields.push(pair("finish_reason", finish));
    let ghost cf = choice_fields@;
    assert(cf[0].0@ == "index"@ && cf[1].0@ == "delta"@ && cf[2].0@ == "finish_reason"@);
    let choice = object_of(choice_fields);
    assert(field(choice, "index"@) == Some(cf[0].1));
    assert(field(choice, "delta"@) == Some(cf[1].1));
    assert(field(choice, "finish_reason"@) == Some(cf[2].1));
    let mut choices: Vec<Json> = Vec::new();
    choices.push(choice);
    let mut fields: Vec<(String, Json)> = Vec::new();
    fields.push(pair("id", Json::Str(id.to_owned())));
    fields.push(pair("object", Json::Str("chat.completion.chunk".to_owned())));
    fields.push(pair("model", Json::Str(model.to_owned())));
    fields.push(pair("choices", Json::Array(choices)));
    let ghost f = fields@;
    assert(f[0].0@ == "id"@ && f[1].0@ == "object"@ && f[2].0@ == "model"@ && f[3].0@ == "choices"@);
    let r = object_of(fields);
    assert(field(r, "choices"@) == Some(f[3].1));
    r
}

/// Kinds of upstream events that produce a frame.
pub enum EventKind {
    MessageStart,
    ContentBlockDelta,
    MessageDelta,
    /// `ping`, `content_block_start`, `content_block_stop`, `message_stop`
    /// and anything else: skipped.
    Skipped,
}

pub open spec fn event_kind(name: Seq<char>) -> EventKind {
    if name == "message_start"@ {
        EventKind::MessageStart
    } else if name == "content_block_delta"@ {
        EventKind::ContentBlockDelta
    } else if name == "message_delta"@ {
        EventKind::MessageDelta
    } else {
        EventKind::Skipped
    }
}

fn kind_of(name: &str) -> (r: EventKind)
    ensures
        r == event_kind(name@),
{
    if same_text(name, "message_start") {
        EventKind::MessageStart
    } else if same_text(name, "content_block_delta") {
        EventKind::ContentBlockDelta
    } else if same_text(name, "message_delta") {
        EventKind::MessageDelta
    } else {
        EventKind::Skipped
    }
}

/// The model named by a `message_start` payload.
pub open spec fn started_model(data: Option<Json>) -> Option<Seq<char>> {
    text_of(member(member(data, "message"@), "model"@))
}

/// The text carried by a `content_block_delta` payload.
pub open spec fn delta_text(data: Option<Json>) -> Option<Seq<char>> {
    text_of(member(member(data, "delta"@), "text"@))
}

/// The stop reason carried by a `message_delta` payload.
pub open spec fn delta_stop_reason(data: Option<Json>) -> Option<Seq<char>> {
    text_of(member(member(data, "delta"@), "stop_reason"@))
}

/// The model after an event: a `message_start` naming a model replaces it.
pub open spec fn model_after(name: Seq<char>, data: Option<Json>, model: Seq<char>) -> Seq<char> {
    if event_kind(name) is MessageStart && started_model(data) is Some {
        started_model(data)->0
    } else {
        model
    }
}

/// Whether an event produces a frame.
pub open spec fn emits(name: Seq<char>, data: Option<Json>) -> bool {
    match event_kind(name) {
        EventKind::MessageStart => true,
        EventKind::ContentBlockDelta => delta_text(data) is Some,
        EventKind::MessageDelta => data is Some,
        EventKind::Skipped => false,
    }
}

/// `r` is what one upstream event `name` with payload `data` becomes, in a
/// stream stamped `id` whose model is now `model`: a frame exactly for the
/// events that emit one, every frame in the chunk envelope, carrying the
/// assistant role for `message_start`, the text for `content_block_delta`,
/// and the mapped stop reason for `message_delta`.
pub open spec fn translated_event(name: Seq<char>, data: Option<Json>, id: Seq<char>, model: Seq<char>, r: Option<Json>) -> bool {
    &&& (r is Some <==> emits(name, data))
    &&& r is Some ==> chunk_shape(r->0, id, model)
    &&& r is Some && event_kind(name) is MessageStart ==> {
        &&& text_of(member(choice_member(r->0, "delta"@), "role"@)) == Some("assistant"@)
        &&& text_of(member(choice_member(r->0, "delta"@), "content"@)) == Some(Seq::<char>::empty())
        &&& choice_member(r->0, "finish_reason"@) == Some(Json::Null)
    }
    &&& r is Some && event_kind(name) is ContentBlockDelta ==> {
        &&& text_of(member(choice_member(r->0, "delta"@), "content"@)) == delta_text(data)
        &&& choice_member(r->0, "finish_reason"@) == Some(Json::Null)
    }
    &&& r is Some && event_kind(name) is MessageDelta ==> {
        &&& (choice_member(r->0, "delta"@) matches Some(Json::Object(f)) && f@.len() == 0)
        &&& delta_stop_reason(data) is None ==> choice_member(r->0, "finish_reason"@) == Some(Json::Null)
        &&& delta_stop_reason(data) is Some ==> text_of(choice_member(r->0, "finish_reason"@)) == Some(
            mapped_stop_reason(delta_stop_reason(data)->0),
        )
    }
}

/// Stream state: the only state an event changes is the captured model, and
/// only a `message_start` naming a model changes it; every other event
/// leaves it as it was. With the translation contract, what an event emits
/// is fixed by the event, its payload, the stream id and this state.
pub proof fn law_event_state_update(name: Seq<char>, data: Option<Json>, model: Seq<char>)
    ensures
        !(event_kind(name) is MessageStart) ==> model_after(name, data, model) == model,
        event_kind(name) is MessageStart && started_model(data) is None ==> model_after(name, data, model) == model,
        event_kind(name) is MessageStart && started_model(data) is Some
            ==> model_after(name, data, model) == started_model(data)->0,
        emits(name, data) ==> !(event_kind(name) is Skipped),
{
}

/// Translates one upstream event, whose payload `data` is `None` when it is
/// not valid JSON, into a canonical chunk. `model` holds the model captured
/// from the stream so far and is updated by `message_start`.
pub fn translate_sse_event(event_type: &str, data: Option<Json>, msg_id: &str, model: &mut String) -> (r: Option<Json>)
    ensures
        final(model)@ == model_after(event_type@, data, old(model)@),
        translated_event(event_type@, data, msg_id@, final(model)@, r),
{
    proof {
        reveal_strlit("role");
        reveal_strlit("content");
        assert("role"@.len() == 4);
        assert("content"@.len() == 7);
    }
    match kind_of(event_type) {
        EventKind::MessageStart => {
            let found: Option<String> = match &data {
                Some(v) => match v.get("message") {
                    Some(m) => match m.get("model") {
                        Some(t) => match t.as_str() {
                            Some(s) => Some(s.to_owned()),
                            None => None,
                        },
                        None => None,
                    },
                    None => None,
                },
                None => None,
            };
            match found {
                Some(s) => {
                    *model = s;
                },
                None => {},
            }
            let mut delta_fields: Vec<(String, Json)> = Vec::new();
            delta_fields.push(pair("role", Json::Str("assistant".to_owned())));
            delta_fields.push(pair("content", Json::Str(String::new())));
            let ghost df = delta_fields@;
            assert(df[0].0@ == "role"@ && df[1].0@ == "content"@);
            let delta = object_of(delta_fields);
            assert(field(delta, "role"@) == Some(df[0].1));
            assert(field(delta, "content"@) == Some(df[1].1));
            Some(chunk(msg_id, model.as_str(), delta, Json::Null))
        },
        EventKind::ContentBlockDelta => {
            let text: String = match &data {
                Some(v) => match v.get("delta") {
                    Some(d) => match d.get("text") {
                        Some(t) => match t.as_str() {
                            Some(s) => s.to_owned(),
                            None => return None,
                        },
                        None => return None,
                    },
                    None => return None,
                },
                None => return None,
            };
            let mut delta_fields: Vec<(String, Json)> = Vec::new();
            delta_fields.push(pair("content", Json::Str(text)));
            let ghost df = delta_fields@;
            assert(df[0].0@ == "content"@);
            let delta = object_of(delta_fields);
            assert(field(delta, "content"@) == Some(df[0].1));
            Some(chunk(msg_id, model.as_str(), delta, Json::Null))
        },
        EventKind::MessageDelta => {
            let finish: Json = match &data {
                Some(v) => match v.get("delta") {
                    Some(d) => match d.get("stop_reason") {
                        Some(t) => match t.as_str() {
                            Some(s) => Json::Str(map_stop_reason(s)),
                            None => Json::Null,
                        },
                        None => Json::Null,
                    },
                    None => Json::Null,
                },
                None => return None,
            };
            let delta = Json::Object(Vec::new());
            Some(chunk(msg_id, model.as_str(), delta, finish))
        },
        EventKind::Skipped => None,
    }
}

/// The line feed byte.
pub const LF: u8 = 10;

/// The carriage return byte.
pub const CR: u8 = 13;

/// `event: `
pub open spec fn event_prefix() -> Seq<u8> {
    seq![101u8, 118u8, 101u8, 110u8, 116u8, 58u8, 32u8]
}

/// `data: `
pub open spec fn data_prefix() -> Seq<u8> {
    seq![100u8, 97u8, 116u8, 97u8, 58u8, 32u8]
}

/// Whether `s` holds no line feed.
pub open spec fn no_newline(s: Seq<u8>) -> bool {
    forall|i: int| 0 <= i < s.len() ==> s[i] != LF
}

/// The lines written out, each followed by a line feed.
pub open spec fn lines_text(lines: Seq<Seq<u8>>) -> Seq<u8>
    decreases lines.len(),
{
    if lines.len() == 0 {
        Seq::empty()
    } else {
        lines_text(lines.drop_last()) + lines.last().push(LF)
    }
}

/// A line without its trailing carriage returns.
pub open spec fn trim_cr(s: Seq<u8>) -> Seq<u8>
    decreases s.len(),
{
    if s.len() > 0 && s.last() == CR {
        trim_cr(s.drop_last())
    } else {
        s
    }
}

pub open spec fn starts_with(s: Seq<u8>, p: Seq<u8>) -> bool {
    p.len() <= s.len() && s.subrange(0, p.len() as int) == p
}

/// Decoding of bytes as UTF-8, with each invalid sequence replaced by U+FFFD.
pub uninterp spec fn utf8_lossy(b: Seq<u8>) -> Seq<char>;

/// Relies on `String::from_utf8_lossy`: the text depends on the bytes alone.
#[verifier::external_body]
fn decode_lossy(b: &Vec<u8>) -> (r: String)
    ensures
        r@ == utf8_lossy(b@),
{
    String::from_utf8_lossy(b.as_slice()).into_owned()
}

/// The current event name after reading one line.
pub open spec fn event_step(event: Seq<char>, line: Seq<u8>) -> Seq<char> {
    let t = trim_cr(line);
    if t.len() == 0 {
        Seq::empty()
    } else if starts_with(t, event_prefix()) {
        utf8_lossy(t.subrange(7, t.len() as int))
    } else {
        event
    }
}

/// The payload of a data line.
pub open spec fn line_data(line: Seq<u8>) -> Option<Seq<u8>> {
    let t = trim_cr(line);
    if t.len() > 0 && !starts_with(t, event_prefix()) && starts_with(t, data_prefix()) {
        Some(t.subrange(6, t.len() as int))
    } else {
        None
    }
}

/// The current event name after reading the lines.
pub open spec fn event_after(event: Seq<char>, lines: Seq<Seq<u8>>) -> Seq<char>
    decreases lines.len(),
{
    if lines.len() == 0 {
        event
    } else {
        event_step(event_after(event, lines.drop_last()), lines.last())
    }
}

/// The data lines among the lines, each with the event name current at it.
pub open spec fn data_items(event: Seq<char>, lines: Seq<Seq<u8>>) -> Seq<(Seq<char>, Seq<u8>)>
    decreases lines.len(),
{
    if lines.len() == 0 {
        Seq::empty()
    } else {
        let rest = data_items(event, lines.drop_last());
        match line_data(lines.last()) {
            Some(d) => rest.push((event_after(event, lines.drop_last()), d)),
            None => rest,
        }
    }
}

/// A data line of the upstream stream with the event it belongs to.
#[derive(Debug)]
pub struct SseData {
    pub event: String,
    pub payload: Vec<u8>,
}

/// Incremental translator of a Messages-style event stream. It keeps the
/// bytes of the current partial line, the current event name, the model
/// captured so far and the identifier stamped on every chunk.
pub struct StreamTranslator {
    pending: Vec<u8>,
    event: String,
    model: String,
    id: String,
}

fn byte_prefix(data: bool) -> (r: Vec<u8>)
    ensures
        r@ == if data { data_prefix() } else { event_prefix() },
{
    let mut v: Vec<u8> = Vec::new();
    if data {
        v.push(100);
        v.push(97);
        v.push(116);
        v.push(97);
        v.push(58);
        v.push(32);
    } else {
        v.push(101);
        v.push(118);
        v.push(101);
        v.push(110);
        v.push(116);
        v.push(58);
        v.push(32);
    }
    proof {
        assert(v@ =~= if data { data_prefix() } else { event_prefix() });
    }
    v
}

fn prefixed(s: &Vec<u8>, p: &Vec<u8>) -> (r: bool)
    ensures
        r == starts_with(s@, p@),
{
    if p.len() > s.len() {
        return false;
    }
    let mut i: usize = 0;
    while i < p.len()
        invariant
            p@.len() <= s@.len(),
            i <= p@.len(),
            forall|j: int| 0 <= j < i ==> s@[j] == p@[j],
        decreases p@.len() - i,
    {
        if s[i] != p[i] {
            return false;
        }
        i = i + 1;
    }
    proof {
        assert(s@.subrange(0, p@.len() as int) =~= p@);
    }
    true
}

fn copy_range(s: &Vec<u8>, from: usize, to: usize) -> (r: Vec<u8>)
    requires
        from <= to <= s@.len(),
    ensures
        r@ == s@.subrange(from as int, to as int),
{
    let mut out: Vec<u8> = Vec::new();
    let mut i: usize = from;
    while i < to
        invariant
            from <= i <= to <= s@.len(),
            out@ == s@.subrange(from as int, i as int),
        decreases to - i,
    {
        out.push(s[i]);
        i = i + 1;
        proof {
            assert(out@ =~= s@.subrange(from as int, i as int));
        }
    }
    out
}

fn trimmed(line: &Vec<u8>) -> (r: Vec<u8>)
    ensures
        r@ == trim_cr(line@),
{
    let mut n: usize = line.len();
    assert(line@.subrange(0, n as int) =~= line@);
    while n > 0 && line[n - 1] == CR
        invariant
            n <= line@.len(),
            trim_cr(line@) == trim_cr(line@.subrange(0, n as int)),
        decreases n,
    {
        assert(line@.subrange(0, n as int).drop_last() =~= line@.subrange(0, n - 1));
        n = n - 1;
    }
    copy_range(line, 0, n)
}

impl StreamTranslator {
    pub closed spec fn pending_bytes(&self) -> Seq<u8> {
        self.pending@
    }

    pub closed spec fn current_event(&self) -> Seq<char> {
        self.event@
    }

    pub closed spec fn current_model(&self) -> Seq<char> {
        self.model@
    }

    pub closed spec fn chunk_id(&self) -> Seq<char> {
        self.id@
    }

    /// The partial line never holds a line feed.
    pub open spec fn wf(&self) -> bool {
        no_newline(self.pending_bytes())
    }

    /// A translator for one stream; chunks carry `id`, and the model is
    /// `unknown` until the stream names one.
    pub fn new(id: String) -> (r: Self)
        ensures
            r.wf(),
            r.pending_bytes() == Seq::<u8>::empty(),
            r.current_event() == Seq::<char>::empty(),
            r.current_model() == "unknown"@,
            r.chunk_id() == id@,
    {
        StreamTranslator { pending: Vec::new(), event: String::new(), model: "unknown".to_owned(), id }
    }

    /// The model captured so far.
    pub fn model(&self) -> (r: &str)
        ensures
            r@ == self.current_model(),
    {
        self.model.as_str()
    }

    /// Reads one complete line: updates the event name and returns the
    /// payload when it is a data line.
    fn read_line(&mut self, line: &Vec<u8>) -> (r: Option<Vec<u8>>)
        ensures
            final(self).current_event() == event_step(old(self).current_event(), line@),
            final(self).pending_bytes() == old(self).pending_bytes(),
            final(self).current_model() == old(self).current_model(),
            final(self).chunk_id() == old(self).chunk_id(),
            r is Some <==> line_data(line@) is Some,
            r is Some ==> r->0@ == line_data(line@)->0,
    {
        let t = trimmed(line);
        if t.len() == 0 {
            self.event = String::new();
            return None;
        }
        let ev = byte_prefix(false);
        if prefixed(&t, &ev) {
            let name = copy_range(&t, 7, t.len());
            self.event = decode_lossy(&name);
            return None;
        }
        let dp = byte_prefix(true);
        if prefixed(&t, &dp) {
            return Some(copy_range(&t, 6, t.len()));
        }
        None
    }

    /// Takes the next bytes of the stream and returns the data lines that
    /// they complete, in order, each with its event name. Only the bytes of
    /// the unfinished last line are kept.
    pub fn feed(&mut self, chunk: &[u8]) -> (r: Vec<SseData>)
        requires
            old(self).wf(),
        ensures
            final(self).wf(),
            final(self).current_model() == old(self).current_model(),
            final(self).chunk_id() == old(self).chunk_id(),
            exists|lines: Seq<Seq<u8>>| {
                &&& forall|k: int| 0 <= k < lines.len() ==> no_newline(#[trigger] lines[k])
                &&& lines_text(lines) + final(self).pending_bytes() == old(self).pending_bytes() + chunk@
                &&& final(self).current_event() == event_after(old(self).current_event(), lines)
                &&& r@.len() == data_items(old(self).current_event(), lines).len()
                &&& forall|k: int| 0 <= k < r@.len() ==> {
                    &&& (#[trigger] r@[k]).event@ == data_items(old(self).current_event(), lines)[k].0
                    &&& r@[k].payload@ == data_items(old(self).current_event(), lines)[k].1
                }
            },
    {
        let ghost e0 = self.event@;
        let ghost start = self.pending@;
        let mut line: Vec<u8> = Vec::new();
        std::mem::swap(&mut line, &mut self.pending);
        let mut out: Vec<SseData> = Vec::new();
        let ghost mut lines: Seq<Seq<u8>> = Seq::empty();
        let mut i: usize = 0;
        while i < chunk.len()
            invariant
                i <= chunk@.len(),
                no_newline(line@),
                forall|k: int| 0 <= k < lines.len() ==> no_newline(#[trigger] lines[k]),
                lines_text(lines) + line@ == start + chunk@.subrange(0, i as int),
                self.event@ == event_after(e0, lines),
                self.model@ == old(self).model@,
                self.id@ == old(self).id@,
                self.pending@ == Seq::<u8>::empty(),
                out@.len() == data_items(e0, lines).len(),
                forall|k: int| 0 <= k < out@.len() ==> {
                    &&& (#[trigger] out@[k]).event@ == data_items(e0, lines)[k].0
                    &&& out@[k].payload@ == data_items(e0, lines)[k].1
                },
            decreases chunk@.len() - i,
        {
            let b = chunk[i];
            if b == LF {
                let ghost before = self.event@;
                let ghost old_lines = lines;
                let ghost old_out = out@;
                proof {
                    lines = lines.push(line@);
                    assert(lines.drop_last() =~= old_lines);
                    assert(chunk@.subrange(0, i + 1) =~= chunk@.subrange(0, i as int).push(b));
                    assert(lines_text(lines) == lines_text(old_lines) + line@.push(LF));
                    assert(lines_text(old_lines) + line@.push(LF) =~= (lines_text(old_lines) + line@).push(LF));
                    assert((start + chunk@.subrange(0, i as int)).push(LF) =~= start + chunk@.subrange(0, i as int).push(LF));
                    assert(lines_text(lines) =~= start + chunk@.subrange(0, i + 1));
                    assert(lines_text(lines) + Seq::<u8>::empty() =~= start + chunk@.subrange(0, i + 1));
                }
                let event_now = self.event.clone();
                match self.read_line(&line) {
                    Some(payload) => {
                        out.push(SseData { event: event_now, payload });
                        proof {
                            assert forall|k: int| 0 <= k < out@.len() implies {
                                &&& (#[trigger] out@[k]).event@ == data_items(e0, lines)[k].0
                                &&& out@[k].payload@ == data_items(e0, lines)[k].1
                            } by {
                                if k < old_out.len() {
                                    assert(out@[k] == old_out[k]);
                                }
                            }
                        }
                    },
                    None => {},
                }
                line = Vec::new();
            } else {
                let ghost old_line = line@;
                line.push(b);
                proof {
                    assert(chunk@.subrange(0, i + 1) =~= chunk@.subrange(0, i as int).push(b));
                    assert(line@ == old_line.push(b));
                    assert(lines_text(lines) + line@ =~= (lines_text(lines) + old_line).push(b));
                    assert(lines_text(lines) + line@ =~= start + chunk@.subrange(0, i + 1));
                }
            }
            i = i + 1;
        }
        proof {
            assert(chunk@.subrange(0, chunk@.len() as int) =~= chunk@);
        }
        self.pending = line;
        proof {
            assert(self.pending_bytes() == self.pending@);
            assert(self.current_event() == self.event@);
            assert(old(self).pending_bytes() == start);
            assert(old(self).current_event() == e0);
            assert(lines_text(lines) + self.pending@ == start + chunk@);
            assert(forall|k: int| 0 <= k < lines.len() ==> no_newline(#[trigger] lines[k]));
            assert(self.event@ == event_after(e0, lines));
        }
        out
    }

    /// Translates the data line of an event whose payload parsed to `data`
    /// (`None` when it is not valid JSON), updating the captured model.
    pub fn translate(&mut self, item: &SseData, data: Option<Json>) -> (r: Option<Json>)
        ensures
            final(self).wf() == old(self).wf(),
            final(self).pending_bytes() == old(self).pending_bytes(),
            final(self).current_event() == old(self).current_event(),
            final(self).chunk_id() == old(self).chunk_id(),
            final(self).current_model() == model_after(item.event@, data, old(self).current_model()),
            translated_event(item.event@, data, old(self).chunk_id(), final(self).current_model(), r),
    {
        translate_sse_event(item.event.as_str(), data, self.id.as_str(), &mut self.model)
    }
}

/// Writing out two runs of lines is writing out the joined run.
pub proof fn lemma_lines_text_concat(l1: Seq<Seq<u8>>, l2: Seq<Seq<u8>>)
    ensures
        lines_text(l1 + l2) == lines_text(l1) + lines_text(l2),
    decreases l2.len(),
{
    if l2.len() == 0 {
        assert(l1 + l2 =~= l1);
        assert(lines_text(l1) + lines_text(l2) =~= lines_text(l1));
    } else {
        assert((l1 + l2).drop_last() =~= l1 + l2.drop_last());
        assert((l1 + l2).last() == l2.last());
        lemma_lines_text_concat(l1, l2.drop_last());
        assert(lines_text(l1 + l2) =~= lines_text(l1) + lines_text(l2));
    }
}

/// Written-out lines start with the first line and its line feed.
proof fn lemma_lines_text_first(l: Seq<Seq<u8>>)
    requires
        l.len() > 0,
    ensures
        lines_text(l) == l[0].push(LF) + lines_text(l.drop_first()),
{
    let head = seq![l[0]];
    assert(l =~= head + l.drop_first());
    lemma_lines_text_concat(head, l.drop_first());
    assert(head.drop_last() =~= Seq::<Seq<u8>>::empty());
    assert(head.last() == l[0]);
    assert(lines_text(Seq::<Seq<u8>>::empty()) == Seq::<u8>::empty());
    assert(lines_text(head) == lines_text(head.drop_last()) + head.last().push(LF));
    assert(lines_text(head) =~= l[0].push(LF));
}

/// A byte sequence splits into complete lines and a partial line in one way
/// only.
pub proof fn lemma_split_unique(l: Seq<Seq<u8>>, p: Seq<u8>, m: Seq<Seq<u8>>, q: Seq<u8>)
    requires
        forall|k: int| 0 <= k < l.len() ==> no_newline(#[trigger] l[k]),
        forall|k: int| 0 <= k < m.len() ==> no_newline(#[trigger] m[k]),
        no_newline(p),
        no_newline(q),
        lines_text(l) + p == lines_text(m) + q,
    ensures
        l == m,
        p == q,
    decreases l.len() + m.len(),
{
    let s = lines_text(l) + p;
    if l.len() == 0 && m.len() == 0 {
        assert(lines_text(l) + p =~= p);
        assert(lines_text(m) + q =~= q);
        assert(l =~= m);
    } else if l.len() == 0 {
        lemma_lines_text_first(m);
        assert(lines_text(l) + p =~= p);
        let i = m[0].len() as int;
        assert((lines_text(m) + q)[i] == LF);
        assert(p[i] == LF);
    } else if m.len() == 0 {
        lemma_lines_text_first(l);
        assert(lines_text(m) + q =~= q);
        let i = l[0].len() as int;
        assert((lines_text(l) + p)[i] == LF);
        assert(q[i] == LF);
    } else {
        lemma_lines_text_first(l);
        lemma_lines_text_first(m);
        let a = l[0];
        let b = m[0];
        let lt = a.push(LF) + (lines_text(l.drop_first()) + p);
        let mt = b.push(LF) + (lines_text(m.drop_first()) + q);
        assert(lt =~= lines_text(l) + p);
        assert(mt =~= lines_text(m) + q);
        if a.len() < b.len() {
            assert(lt[a.len() as int] == LF);
            assert(mt[a.len() as int] == b[a.len() as int]);
            assert(false);
        } else if b.len() < a.len() {
            assert(mt[b.len() as int] == LF);
            assert(lt[b.len() as int] == a[b.len() as int]);
            assert(false);
        } else {
            assert forall|j: int| 0 <= j < a.len() implies a[j] == b[j] by {
                assert(lt[j] == a[j]);
                assert(mt[j] == b[j]);
            }
            assert(a =~= b);
            let rest_l = lines_text(l.drop_first()) + p;
            let rest_m = lines_text(m.drop_first()) + q;
            assert(rest_l =~= lt.subrange(a.len() as int + 1, lt.len() as int));
            assert(rest_m =~= mt.subrange(a.len() as int + 1, mt.len() as int));
            assert forall|k: int| 0 <= k < l.drop_first().len() implies no_newline(#[trigger] l.drop_first()[k]) by {
                assert(l.drop_first()[k] == l[k + 1]);
            }
            assert forall|k: int| 0 <= k < m.drop_first().len() implies no_newline(#[trigger] m.drop_first()[k]) by {
                assert(m.drop_first()[k] == m[k + 1]);
            }
            lemma_split_unique(l.drop_first(), p, m.drop_first(), q);
            assert(l.len() == m.len());
            assert forall|k: int| 0 <= k < l.len() implies l[k] == m[k] by {
                if k > 0 {
                    assert(l[k] == l.drop_first()[k - 1]);
                    assert(m[k] == m.drop_first()[k - 1]);
                }
            }
            assert(l =~= m);
        }
    }
}

/// Reading two runs of lines one after the other is reading the joined run.
pub proof fn lemma_items_concat(e: Seq<char>, l1: Seq<Seq<u8>>, l2: Seq<Seq<u8>>)
    ensures
        event_after(e, l1 + l2) == event_after(event_after(e, l1), l2),
        data_items(e, l1 + l2) == data_items(e, l1) + data_items(event_after(e, l1), l2),
    decreases l2.len(),
{
    if l2.len() == 0 {
        assert(l1 + l2 =~= l1);
        assert(data_items(e, l1) + data_items(event_after(e, l1), l2) =~= data_items(e, l1));
    } else {
        assert((l1 + l2).drop_last() =~= l1 + l2.drop_last());
        assert((l1 + l2).last() == l2.last());
        lemma_items_concat(e, l1, l2.drop_last());
        let e1 = event_after(e, l1);
        match line_data(l2.last()) {
            Some(d) => {
                assert(data_items(e, l1 + l2) =~= data_items(e, l1) + data_items(e1, l2));
            },
            None => {},
        }
    }
}

/// Stream purity: the data lines and the event state that the translator
/// reaches depend only on the bytes fed, not on where the chunks break.
/// Feeding `a` and then `b` gives the lines and partial line of feeding
/// `a + b` at once, and the data lines of the two feeds, in order, are those
/// of the single feed.
pub proof fn law_feed_chunking_invariant(
    pending: Seq<u8>,
    a: Seq<u8>,
    b: Seq<u8>,
    e: Seq<char>,
    l1: Seq<Seq<u8>>,
    p1: Seq<u8>,
    l2: Seq<Seq<u8>>,
    p2: Seq<u8>,
    l3: Seq<Seq<u8>>,
    p3: Seq<u8>,
)
    requires
        no_newline(pending),
        no_newline(p1),
        no_newline(p2),
        no_newline(p3),
        forall|k: int| 0 <= k < l1.len() ==> no_newline(#[trigger] l1[k]),
        forall|k: int| 0 <= k < l2.len() ==> no_newline(#[trigger] l2[k]),
        forall|k: int| 0 <= k < l3.len() ==> no_newline(#[trigger] l3[k]),
        lines_text(l1) + p1 == pending + a,
        lines_text(l2) + p2 == p1 + b,
        lines_text(l3) + p3 == pending + (a + b),
    ensures
        l3 == l1 + l2,
        p3 == p2,
        event_after(e, l3) == event_after(event_after(e, l1), l2),
        data_items(e, l3) == data_items(e, l1) + data_items(event_after(e, l1), l2),
{
    lemma_lines_text_concat(l1, l2);
    assert(lines_text(l1 + l2) + p2 =~= pending + (a + b)) by {
        assert(lines_text(l1 + l2) + p2 =~= lines_text(l1) + (lines_text(l2) + p2));
        assert(lines_text(l1) + (p1 + b) =~= (lines_text(l1) + p1) + b);
    }
    assert forall|k: int| 0 <= k < (l1 + l2).len() implies no_newline(#[trigger] (l1 + l2)[k]) by {
        if k < l1.len() {
            assert((l1 + l2)[k] == l1[k]);
        } else {
            assert((l1 + l2)[k] == l2[k - l1.len()]);
        }
    }
    lemma_split_unique(l3, p3, l1 + l2, p2);
    lemma_items_concat(e, l1, l2);
}

/// Wraps a serialized chunk as one server-sent-event frame.
pub fn frame(payload: &str) -> (r: String)
    ensures
        r@ == "data: "@ + payload@ + "\n\n"@,
{
    let mut s = "data: ".to_owned();
    s.append(payload);
    s.append("\n\n");
    s
}

/// The frame that ends every translated stream.
pub fn done_frame() -> (r: String)
    ensures
        r@ == "data: [DONE]\n\n"@,
{
    "data: [DONE]\n\n".to_owned()
}

} // verus!
