//! Routing decisions: the sufficiency heuristic, route planning, body
//! rewriting, the Escalate candidate order, and traffic records.
//!
//! The calls to backends happen outside this module; each step here takes
//! what the previous call returned and decides what comes next.

use vstd::prelude::*;
use crate::config::{
    Config, ProfileConfig, TierConfig, RoutingMode, BackendConfig, lookup, find_tier, tier_name_for,
    profile_for, has_tier, first_tier_at, tier_position, lemma_find_tier_at,
};
use crate::error::{ErrorKind, GatewayError};
use crate::json::{Json, field, first_field, member, first_element, text_of, field_position, lemma_first_field_update, lemma_first_field_push};
use crate::text::{chars_of, same_text};
use crate::traffic::{TrafficEntry, BackendHealth};

verus! {

/// Answers shorter than this many characters are not sufficient.
pub const MIN_ANSWER_CHARS: usize = 20;

/// The lower-case form of a text, as Unicode defines it.
pub uninterp spec fn lower_of(s: Seq<char>) -> Seq<char>;

/// Relies on `str::to_lowercase`: the result depends on the characters alone.
#[verifier::external_body]
fn lowercase(s: &str) -> (r: String)
    ensures
        r@ == lower_of(s@),
{
    s.to_lowercase()
}

/// Phrases by which a model declines to answer, in lower case.
pub open spec fn refusal_phrases() -> Seq<Seq<char>> {
    seq![
        "i don't know"@,
        "i cannot"@,
        "i'm not able to"@,
        "as an ai"@,
        "i don't have enough information"@,
    ]
}

/// Whether `needle` occurs in `hay`.
pub open spec fn contains(hay: Seq<char>, needle: Seq<char>) -> bool {
    exists|i: int| 0 <= i && i + needle.len() <= hay.len() && #[trigger] hay.subrange(i, i + needle.len()) == needle
}

/// An answer `content`, whose lower-case form is `lowered`, is sufficient
/// when it has at least the minimum length and holds no refusal phrase.
pub open spec fn sufficient_text(content: Seq<char>, lowered: Seq<char>) -> bool {
    &&& content.len() >= MIN_ANSWER_CHARS
    &&& forall|k: int| 0 <= k < refusal_phrases().len() ==> !contains(lowered, #[trigger] refusal_phrases()[k])
}

/// The content of the first choice's message, when it is a string.
pub open spec fn response_content(resp: Json) -> Option<Seq<char>> {
    text_of(member(member(first_element(field(resp, "choices"@)), "message"@), "content"@))
}

/// Whether a chat completion closes an Escalate loop.
pub open spec fn sufficient(resp: Json) -> bool {
    match response_content(resp) {
        Some(c) => sufficient_text(c, lower_of(c)),
        None => false,
    }
}

fn occurs(hay: &Vec<char>, needle: &Vec<char>) -> (r: bool)
    ensures
        r == contains(hay@, needle@),
{
    if needle.len() > hay.len() {
        return false;
    }
    let last = hay.len() - needle.len();
    let mut i: usize = 0;
    while i <= last
        invariant
            needle@.len() <= hay@.len(),
            last == hay@.len() - needle@.len(),
            forall|j: int| 0 <= j < i ==> #[trigger] hay@.subrange(j, j + needle@.len()) != needle@,
        decreases last + 1 - i,
    {
        let mut k: usize = 0;
        let mut same = true;
        while k < needle.len()
            invariant
                needle@.len() <= hay@.len(),
                i <= last,
                last == hay@.len() - needle@.len(),
                k <= needle@.len(),
                same == forall|m: int| 0 <= m < k ==> hay@[i + m] == needle@[m],
            decreases needle@.len() - k,
        {
            assert(i + k < hay@.len());
            assert(hay@.len() == hay.len());
            if hay[i + k] != needle[k] {
                same = false;
            }
            k = k + 1;
        }
        if same {
            proof {
                assert(hay@.subrange(i as int, i + needle@.len()) =~= needle@);
            }
            return true;
        }
        proof {
            let m = choose|m: int| 0 <= m < needle@.len() && hay@[i + m] != needle@[m];
            assert(hay@.subrange(i as int, i + needle@.len())[m] != needle@[m]);
        }
        if i == last {
            return false;
        }
        i = i + 1;
    }
    false
}

fn phrase(k: usize) -> (r: &'static str)
    requires
        k < 5,
    ensures
        r@ == refusal_phrases()[k as int],
{
    if k == 0 {
        "i don't know"
    } else if k == 1 {
        "i cannot"
    } else if k == 2 {
        "i'm not able to"
    } else if k == 3 {
        "as an ai"
    } else {
        "i don't have enough information"
    }
}

/// The sufficiency rule on an answer and its lower-case form.
pub fn sufficient_content(content: &str, lowered: &str) -> (r: bool)
    ensures
        r == sufficient_text(content@, lowered@),
{
    if content.unicode_len() < MIN_ANSWER_CHARS {
        return false;
    }
    let hay = chars_of(lowered);
    let mut k: usize = 0;
    while k < 5
        invariant
            k <= 5,
            hay@ == lowered@,
            forall|j: int| 0 <= j < k ==> !contains(lowered@, #[trigger] refusal_phrases()[j]),
        decreases 5 - k,
    {
        let needle = chars_of(phrase(k));
        if occurs(&hay, &needle) {
            return false;
        }
        k = k + 1;
    }
    true
}

/// The content of the first choice's message.
pub fn first_choice_content(resp: &Json) -> (r: Option<&str>)
    ensures
        r is Some <==> response_content(*resp) is Some,
        r is Some ==> r->0@ == response_content(*resp)->0,
{
    match resp.get("choices") {
        Some(Json::Array(choices)) => {
            if choices.len() == 0 {
                return None;
            }
            match choices[0].get("message") {
                Some(m) => match m.get("content") {
                    Some(c) => c.as_str(),
                    None => None,
                },
                None => None,
            }
        },
        _ => None,
    }
}

/// Whether a response is good enough to end an Escalate loop: its first
/// choice has string content of at least the minimum length, and the
/// lower-case content holds none of the refusal phrases.
pub fn is_sufficient(response: &Json) -> (r: bool)
    ensures
        r == sufficient(*response),
{
    match first_choice_content(response) {
        Some(content) => {
            let lowered = lowercase(content);
            sufficient_content(content, lowered.as_str())
        },
        None => false,
    }
}

/// The model string of a request: its `model` when that is a string, else
/// `hint:fast`.
pub open spec fn model_hint_of(body: Json) -> Seq<char> {
    match text_of(field(body, "model"@)) {
        Some(m) => m,
        None => "hint:fast"@,
    }
}

/// The model string of a request body.
pub fn model_hint(body: &Json) -> (r: String)
    ensures
        r@ == model_hint_of(*body),
{
    match body.get("model") {
        Some(m) => match m.as_str() {
            Some(s) => s.to_owned(),
            None => "hint:fast".to_owned(),
        },
        None => "hint:fast".to_owned(),
    }
}

/// The profile name used when the request names none.
pub open spec fn profile_name_of(name: Option<&str>) -> Seq<char> {
    match name {
        Some(n) => n@,
        None => "default"@,
    }
}

/// The tier a request targets: the resolved tier, else the profile's
/// classifier tier.
pub open spec fn target_tier(c: Config, profile: ProfileConfig, hint: Seq<char>) -> Option<TierConfig> {
    match find_tier(c.tiers@, tier_name_for(c.aliases@, hint)) {
        Some(t) => Some(t),
        None => find_tier(c.tiers@, profile.classifier@),
    }
}

/// What the router settled on before any backend is called.
#[derive(Debug)]
pub struct RoutePlan {
    /// Name of the profile asked for (`default` when none was).
    pub profile_name: String,
    pub profile: ProfileConfig,
    /// The request's model string.
    pub model_hint: String,
    /// The tier to call (Dispatch and streaming) or the resolved tier
    /// (Escalate, which starts from the cheapest tier).
    pub tier: TierConfig,
}

/// Resolves the profile and the target tier of a request.
pub fn plan_route(config: &Config, body: &Json, profile_name: Option<&str>) -> (r: Result<RoutePlan, GatewayError>)
    ensures
        r is Err ==> r->Err_0.kind == ErrorKind::Configuration,
        profile_for(config.profiles@, profile_name_of(profile_name)) is None ==> (r is Err
            && r->Err_0.message@ == "no matching profile and no default profile configured"@),
        profile_for(config.profiles@, profile_name_of(profile_name)) is Some && r is Err
            ==> r->Err_0.message@ == "classifier tier not found"@,
        r is Ok <==> ({
            &&& profile_for(config.profiles@, profile_name_of(profile_name)) is Some
            &&& target_tier(*config, profile_for(config.profiles@, profile_name_of(profile_name))->0, model_hint_of(*body)) is Some
        }),
        r is Ok ==> ({
            let plan = r->Ok_0;
            let profile = profile_for(config.profiles@, profile_name_of(profile_name))->0;
            &&& plan.profile_name@ == profile_name_of(profile_name)
            &&& plan.profile == profile
            &&& plan.model_hint@ == model_hint_of(*body)
            &&& Some(plan.tier) == target_tier(*config, profile, model_hint_of(*body))
        }),
{
    let name: &str = match profile_name {
        Some(n) => n,
        None => "default",
    };
    let profile = match config.profile(name) {
        Some(p) => p.clone(),
        None => return Err(GatewayError::configuration("no matching profile and no default profile configured")),
    };
    let hint = model_hint(body);
    let tier = match config.resolve_tier(hint.as_str()) {
        Some(t) => t.clone(),
        None => match tier_position(&config.tiers, profile.classifier.as_str()) {
            Some(i) => {
                proof {
                    lemma_find_tier_at(config.tiers@, profile.classifier@, i as int);
                }
                config.tiers[i].clone()
            },
            None => return Err(GatewayError::configuration("classifier tier not found")),
        },
    };
    Ok(RoutePlan { profile_name: name.to_owned(), profile, model_hint: hint, tier })
}

/// The backend of a tier, or a configuration error when it is absent.
pub fn tier_backend(config: &Config, tier: &TierConfig) -> (r: Result<BackendConfig, GatewayError>)
    ensures
        r is Ok <==> lookup(config.backends@, tier.backend@) is Some,
        r is Ok ==> r->Ok_0 == lookup(config.backends@, tier.backend@)->0,
        r is Err ==> r->Err_0.kind == ErrorKind::Configuration,
{
    match config.backend(tier.backend.as_str()) {
        Some(b) => Ok(b.clone()),
        None => {
            let mut m = "backend `".to_owned();
            m.append(tier.backend.as_str());
            m.append("` not in config");
            Err(GatewayError::new(ErrorKind::Configuration, m))
        },
    }
}

/// Sets the member `key` of an object: the first pair with the key gets the
/// value, or a pair is appended.
pub fn set_field(fields: &mut Vec<(String, Json)>, key: &str, v: Json)
    ensures
        first_field(final(fields)@, key@) == Some(v),
        forall|k: Seq<char>| k != key@ ==> #[trigger] first_field(final(fields)@, k) == first_field(old(fields)@, k),
{
    match field_position(fields, key) {
        Some(i) => {
            let ghost before = fields@;
            let name = fields[i].0.clone();
            fields.set(i, (name, v));
            proof {
                assert(fields@ == before.update(i as int, (before[i as int].0, v)));
                assert(forall|j: int| 0 <= j < i ==> #[trigger] fields@[j] == before[j]);
                crate::json::lemma_first_field_at(fields@, i as int, key@);
                assert forall|k: Seq<char>| k != key@ implies #[trigger] first_field(fields@, k) == first_field(before, k) by {
                    lemma_first_field_update(before, i as int, v, k);
                }
            }
        },
        None => {
            let ghost before = fields@;
            fields.push((key.to_owned(), v));
            proof {
                let last = fields@.last();
                lemma_first_field_push(before, last.0, v, key@);
                assert forall|k: Seq<char>| k != key@ implies #[trigger] first_field(fields@, k) == first_field(before, k) by {
                    lemma_first_field_push(before, last.0, v, k);
                }
            }
        },
    }
}

/// Rewrites the `model` and `stream` members of an object body; any other
/// body is left as it is.
pub fn rewrite_body(body: &mut Json, model: &str, stream: bool)
    ensures
        *old(body) is Object ==> *final(body) is Object,
        *old(body) is Object ==> text_of(field(*final(body), "model"@)) == Some(model@),
        *old(body) is Object ==> field(*final(body), "stream"@) == Some(Json::Bool(stream)),
        *old(body) is Object ==> forall|k: Seq<char>| k != "model"@ && k != "stream"@
            ==> #[trigger] field(*final(body), k) == field(*old(body), k),
        !(*old(body) is Object) ==> *final(body) == *old(body),
{
    match body {
        Json::Object(fields) => {
            proof {
                reveal_strlit("model");
                reveal_strlit("stream");
                assert("model"@.len() == 5);
                assert("stream"@.len() == 6);
            }
            let ghost before = fields@;
            set_field(fields, "model", Json::Str(model.to_owned()));
            let ghost middle = fields@;
            set_field(fields, "stream", Json::Bool(stream));
            assert(first_field(fields@, "model"@) == first_field(middle, "model"@));
        },
        _ => {},
    }
}

/// Whether the backend counts as healthy: absent backends have no samples
/// and are healthy.
pub open spec fn backend_is_healthy(health: Seq<(String, BackendHealth)>, backend: Seq<char>) -> bool {
    match lookup(health, backend) {
        Some(h) => h.healthy,
        None => true,
    }
}

/// Whether Escalate may try the tier at `i`: its backend is configured and,
/// with the health gate on, healthy.
pub open spec fn candidate_ok(c: Config, health: Seq<(String, BackendHealth)>, gate: bool, i: int) -> bool {
    &&& lookup(c.backends@, c.tiers@[i].backend@) is Some
    &&& gate ==> backend_is_healthy(health, c.tiers@[i].backend@)
}

/// The highest tier position Escalate may reach: the position of the
/// profile's `max_auto_tier`, else the last position.
pub open spec fn escalation_ceiling(c: Config, profile: ProfileConfig) -> int {
    if has_tier(c.tiers@, profile.max_auto_tier@) {
        choose|i: int| first_tier_at(c.tiers@, profile.max_auto_tier@, i)
    } else {
        c.tiers@.len() - 1
    }
}

/// The next tier to try in Escalate mode.
pub enum EscalateStep {
    /// Call the tier at this position.
    Try(usize),
    /// No candidate is left.
    Exhausted,
}

/// The state of one Escalate loop: tiers are tried by position, cheapest
/// first, up to and including the ceiling.
#[derive(Debug)]
pub struct Escalation {
    /// Next position to consider.
    pub next: usize,
    /// One past the last position allowed.
    pub end: usize,
    /// Whether the backend health gate is on.
    pub gate: bool,
}

impl Escalation {
    /// Starts a loop for the profile; `gate` turns the health gate on.
    pub fn start(config: &Config, profile: &ProfileConfig, gate: bool) -> (r: Escalation)
        ensures
            r.next == 0,
            r.gate == gate,
            r.end == escalation_ceiling(*config, *profile) + 1,
            r.end <= config.tiers@.len(),
    {
        let end = match tier_position(&config.tiers, profile.max_auto_tier.as_str()) {
            Some(i) => {
                proof {
                    let k = choose|k: int| first_tier_at(config.tiers@, profile.max_auto_tier@, k);
                    crate::config::lemma_first_tier_unique(config.tiers@, profile.max_auto_tier@, i as int, k);
                    assert(i < config.tiers@.len());
                }
                assert(i < config.tiers.len());
                i + 1
            },
            None => config.tiers.len(),
        };
        Escalation { next: 0, end, gate }
    }

    /// Moves to the next tier that may be tried: one whose backend is
    /// configured and, when the health gate is set, marked healthy in `health`.
    pub fn next_step(&mut self, config: &Config, health: &Vec<(String, BackendHealth)>) -> (r: EscalateStep)
        requires
            old(self).end <= config.tiers@.len(),
        ensures
            final(self).end == old(self).end,
            final(self).gate == old(self).gate,
            r matches EscalateStep::Try(i) ==> {
                &&& old(self).next <= i < old(self).end
                &&& candidate_ok(*config, health@, old(self).gate, i as int)
                &&& forall|j: int| old(self).next <= j < i ==> !candidate_ok(*config, health@, old(self).gate, j)
                &&& final(self).next == i + 1
            },
            r is Exhausted ==> forall|j: int| old(self).next <= j < old(self).end
                ==> !candidate_ok(*config, health@, old(self).gate, j),
            r is Exhausted ==> final(self).next == old(self).next,
    {
        let start = self.next;
        let mut i: usize = self.next;
        while i < self.end
            invariant
                start <= i,
                start == old(self).next,
                self.next == start,
                self.end == old(self).end,
                self.gate == old(self).gate,
                self.end <= config.tiers@.len(),
                forall|j: int| start <= j < i ==> !candidate_ok(*config, health@, self.gate, j),
            decreases self.end - i,
        {
            let tier = &config.tiers[i];
            if config.backend(tier.backend.as_str()).is_some() {
                let healthy = if self.gate {
                    match crate::config::position_of(health, tier.backend.as_str()) {
                        Some(k) => health[k].1.healthy,
                        None => true,
                    }
                } else {
                    true
                };
                if healthy {
                    self.next = i + 1;
                    return EscalateStep::Try(i);
                }
            }
            i = i + 1;
        }
        EscalateStep::Exhausted
    }

    /// Decides on the answer of the tier at `position` (`None` when the call
    /// failed): a sufficient answer is accepted, and the result then tells
    /// whether it came from above the cheapest tier; anything else moves on.
    pub fn accept(&self, position: usize, response: Option<&Json>) -> (r: Option<bool>)
        ensures
            r is Some <==> (response is Some && sufficient(*response->0)),
            r is Some ==> r->0 == (position > 0),
    {
        match response {
            Some(resp) => {
                if is_sufficient(resp) {
                    Some(position > 0)
                } else {
                    None
                }
            },
            None => None,
        }
    }
}

/// The record of a successful call to `tier`; `position` is the tier's
/// position, and a record above the cheapest tier is marked escalated.
pub fn served_entry(tier: &TierConfig, latency_ms: u64, position: usize, escalate: bool) -> (r: TrafficEntry)
    ensures
        r.tier == tier.name,
        r.backend == tier.backend,
        r.latency_ms == latency_ms,
        r.success,
        r.escalated == (escalate && position > 0),
        r.error is None,
{
    let e = TrafficEntry::new(tier.name.clone(), tier.backend.clone(), latency_ms, true);
    if escalate && position > 0 {
        e.mark_escalated()
    } else {
        e
    }
}

/// The record of a failed call to `tier`, carrying the error text.
pub fn failed_entry(tier: &TierConfig, latency_ms: u64, error: &str) -> (r: TrafficEntry)
    ensures
        r.tier == tier.name,
        r.backend == tier.backend,
        r.latency_ms == latency_ms,
        !r.success,
        !r.escalated,
        r.error matches Some(e) && e@ == error@,
{
    TrafficEntry::new(tier.name.clone(), tier.backend.clone(), latency_ms, false).with_error(error)
}

/// Adds the request context to a record: profile, requested model, routing
/// mode label and, when given, the request's correlation identifier.
pub fn finish_entry(entry: TrafficEntry, plan: &RoutePlan, mode: &str, request_id: Option<&str>) -> (r: TrafficEntry)
    ensures
        r.profile matches Some(p) && p@ == plan.profile_name@,
        r.requested_model matches Some(m) && m@ == plan.model_hint@,
        r.routing_mode matches Some(m) && m@ == mode@,
        request_id is Some ==> r.id@ == request_id->0@,
        request_id is None ==> r.id == entry.id,
        r.tier == entry.tier,
        r.backend == entry.backend,
        r.escalated == entry.escalated,
        r.success == entry.success,
        r.latency_ms == entry.latency_ms,
        r.error == entry.error,
        r.timestamp_ms == entry.timestamp_ms,
{
    let e = entry.with_profile(plan.profile_name.as_str())
        .with_requested_model(plan.model_hint.as_str())
        .with_routing_mode(mode);
    match request_id {
        Some(id) => e.with_id(id),
        None => e,
    }
}

} // verus!
