//! The configuration snapshot: backends, tiers, aliases, profiles and client
//! bindings, with the validation rules and the two lookups the router uses.
//!
//! Keyed sections are held as ordered lists of `(name, value)` pairs; a lookup
//! returns the first pair with the name.

use vstd::prelude::*;
use crate::text::{copy_opt_text, same_text};

verus! {

/// Which wire protocol a backend speaks.
#[derive(Clone, Copy, Debug, PartialEq, Eq, Structural)]
pub enum Provider {
    /// The canonical chat-completion protocol.
    OpenAI,
    /// The canonical protocol, sent with the referrer headers that the
    /// provider recommends.
    OpenRouter,
    /// A local inference server speaking the canonical protocol.
    Ollama,
    /// The Messages-style protocol, translated to and from the canonical one.
    Anthropic,
}

impl Provider {
    /// The provider's name as written in configuration files.
    pub fn name(&self) -> (r: &'static str)
        ensures
            r@ == provider_name(*self),
    {
        match self {
            Provider::OpenAI => "openai",
            Provider::OpenRouter => "openrouter",
            Provider::Ollama => "ollama",
            Provider::Anthropic => "anthropic",
        }
    }
}

pub open spec fn provider_name(p: Provider) -> Seq<char> {
    match p {
        Provider::OpenAI => "openai"@,
        Provider::OpenRouter => "openrouter"@,
        Provider::Ollama => "ollama"@,
        Provider::Anthropic => "anthropic"@,
    }
}

impl Default for Provider {
    fn default() -> (r: Self)
        ensures
            r == Provider::OpenAI,
    {
        Provider::OpenAI
    }
}

/// How a profile routes a request.
#[derive(Clone, Copy, Debug, PartialEq, Eq, Structural)]
pub enum RoutingMode {
    /// Resolve the tier up front and forward once.
    Dispatch,
    /// Try tiers cheapest first and accept the first sufficient answer.
    Escalate,
}

impl RoutingMode {
    /// The mode's label, as written in configuration files and traffic records.
    pub fn label(&self) -> (r: &'static str)
        ensures
            r@ == mode_label(*self),
    {
        match self {
            RoutingMode::Dispatch => "dispatch",
            RoutingMode::Escalate => "escalate",
        }
    }
}

pub open spec fn mode_label(m: RoutingMode) -> Seq<char> {
    match m {
        RoutingMode::Dispatch => "dispatch"@,
        RoutingMode::Escalate => "escalate"@,
    }
}

impl Default for RoutingMode {
    fn default() -> (r: Self)
        ensures
            r == RoutingMode::Dispatch,
    {
        RoutingMode::Dispatch
    }
}

/// Binds the key held in the environment variable `key_env` to a profile.
#[derive(Debug)]
pub struct ClientConfig {
    pub key_env: String,
    pub profile: String,
}

/// One upstream endpoint.
#[derive(Debug)]
pub struct BackendConfig {
    /// Base URL, without the `/v1` suffix.
    pub base_url: String,
    /// Name of the environment variable that holds the API key, if any.
    pub api_key_env: Option<String>,
    /// Per-request timeout in milliseconds.
    pub timeout_ms: u64,
    pub provider: Provider,
}

impl Clone for BackendConfig {
    fn clone(&self) -> (r: Self)
        ensures
            r == *self,
    {
        BackendConfig {
            base_url: self.base_url.clone(),
            api_key_env: copy_opt_text(&self.api_key_env),
            timeout_ms: self.timeout_ms,
            provider: self.provider,
        }
    }
}

/// A named pair of backend and model.
#[derive(Debug)]
pub struct TierConfig {
    pub name: String,
    pub backend: String,
    pub model: String,
}

impl Clone for TierConfig {
    fn clone(&self) -> (r: Self)
        ensures
            r == *self,
    {
        TierConfig { name: self.name.clone(), backend: self.backend.clone(), model: self.model.clone() }
    }
}

/// A routing policy.
#[derive(Debug)]
pub struct ProfileConfig {
    pub mode: RoutingMode,
    /// Tier used when the requested model is unknown.
    pub classifier: String,
    /// Highest tier that Escalate may reach.
    pub max_auto_tier: String,
    /// Reserved: gates the most expensive tier behind an explicit opt-in.
    pub expert_requires_flag: bool,
}

impl Clone for ProfileConfig {
    fn clone(&self) -> (r: Self)
        ensures
            r == *self,
    {
        ProfileConfig {
            mode: self.mode,
            classifier: self.classifier.clone(),
            max_auto_tier: self.max_auto_tier.clone(),
            expert_requires_flag: self.expert_requires_flag,
        }
    }
}

/// Gateway-wide settings.
#[derive(Debug)]
pub struct GatewayConfig {
    pub client_port: u16,
    pub admin_port: u16,
    pub traffic_log_capacity: usize,
    pub log_level: Option<String>,
    /// Requests per minute per client address; absent or zero disables limiting.
    pub rate_limit_rpm: Option<u32>,
    pub admin_token_env: Option<String>,
    pub max_retries: Option<u32>,
    pub retry_delay_ms: Option<u64>,
    /// Number of recent records the backend health gate looks at.
    pub health_window: Option<usize>,
    /// Error rate, in thousandths, above which a backend counts as unhealthy.
    pub health_error_threshold_permille: Option<u32>,
}

/// Default port of the client API.
pub fn client_port() -> (r: u16)
    ensures
        r == 8080,
{
    8080
}

/// Default port of the admin API.
pub fn admin_port() -> (r: u16)
    ensures
        r == 8081,
{
    8081
}

/// Default capacity of the traffic ring.
pub fn traffic_log_capacity() -> (r: usize)
    ensures
        r == 500,
{
    500
}

/// Default per-request timeout of a backend, in milliseconds.
pub fn timeout_ms() -> (r: u64)
    ensures
        r == 30_000,
{
    30_000
}

impl Default for GatewayConfig {
    fn default() -> (r: Self)
        ensures
            r.client_port == 8080,
            r.admin_port == 8081,
            r.traffic_log_capacity == 500,
            r.log_level is None,
            r.rate_limit_rpm is None,
            r.admin_token_env is None,
            r.max_retries is None,
            r.retry_delay_ms is None,
            r.health_window is None,
            r.health_error_threshold_permille is None,
    {
        GatewayConfig {
            client_port: client_port(),
            admin_port: admin_port(),
            traffic_log_capacity: traffic_log_capacity(),
            log_level: None,
            rate_limit_rpm: None,
            admin_token_env: None,
            max_retries: None,
            retry_delay_ms: None,
            health_window: None,
            health_error_threshold_permille: None,
        }
    }
}

/// The whole configuration snapshot.
#[derive(Debug)]
pub struct Config {
    pub gateway: GatewayConfig,
    /// Named backends.
    pub backends: Vec<(String, BackendConfig)>,
    /// Tiers, cheapest first.
    pub tiers: Vec<TierConfig>,
    /// Request-model strings that stand for a tier name.
    pub aliases: Vec<(String, String)>,
    /// Named routing profiles.
    pub profiles: Vec<(String, ProfileConfig)>,
    pub clients: Vec<ClientConfig>,
}

/// The value of the first entry named `key`.
pub open spec fn lookup<V>(entries: Seq<(String, V)>, key: Seq<char>) -> Option<V>
    decreases entries.len(),
{
    if entries.len() == 0 {
        None
    } else if entries[0].0@ == key {
        Some(entries[0].1)
    } else {
        lookup(entries.drop_first(), key)
    }
}

/// Names are pairwise distinct.
pub open spec fn names_unique<V>(entries: Seq<(String, V)>) -> bool {
    forall|a: int, b: int| 0 <= a < b < entries.len() ==> entries[a].0@ != entries[b].0@
}

/// Whether some tier is named `name`.
pub open spec fn has_tier(tiers: Seq<TierConfig>, name: Seq<char>) -> bool {
    exists|i: int| 0 <= i < tiers.len() && #[trigger] tiers[i].name@ == name
}

/// Whether `i` is the position of the first tier named `name`.
pub open spec fn first_tier_at(tiers: Seq<TierConfig>, name: Seq<char>, i: int) -> bool {
    &&& 0 <= i < tiers.len()
    &&& tiers[i].name@ == name
    &&& forall|j: int| 0 <= j < i ==> #[trigger] tiers[j].name@ != name
}

/// The first tier named `name`.
pub open spec fn find_tier(tiers: Seq<TierConfig>, name: Seq<char>) -> Option<TierConfig> {
    if has_tier(tiers, name) {
        Some(tiers[choose|i: int| first_tier_at(tiers, name, i)])
    } else {
        None
    }
}

/// The tier name a request-model string stands for: its alias target, or
/// the string itself.
pub open spec fn tier_name_for(aliases: Seq<(String, String)>, model: Seq<char>) -> Seq<char> {
    match lookup(aliases, model) {
        Some(target) => target@,
        None => model,
    }
}

/// The four validation rules.
pub open spec fn tiers_valid(c: Config) -> bool {
    forall|i: int| 0 <= i < c.tiers@.len() ==> lookup(c.backends@, #[trigger] c.tiers@[i].backend@) is Some
}

pub open spec fn aliases_valid(c: Config) -> bool {
    forall|i: int| 0 <= i < c.aliases@.len() ==> has_tier(c.tiers@, #[trigger] c.aliases@[i].1@)
}

pub open spec fn profiles_valid(c: Config) -> bool {
    forall|i: int| 0 <= i < c.profiles@.len() ==> has_tier(c.tiers@, #[trigger] c.profiles@[i].1.classifier@)
}

pub open spec fn clients_valid(c: Config) -> bool {
    forall|i: int| 0 <= i < c.clients@.len() ==> lookup(c.profiles@, #[trigger] c.clients@[i].profile@) is Some
}

pub open spec fn config_valid(c: Config) -> bool {
    tiers_valid(c) && aliases_valid(c) && profiles_valid(c) && clients_valid(c)
}

/// Position of the first entry named `key`, if any.
pub fn position_of<V>(entries: &Vec<(String, V)>, key: &str) -> (r: Option<usize>)
    ensures
        r is None <==> lookup(entries@, key@) is None,
        r is Some ==> r->0 < entries@.len() && lookup(entries@, key@) == Some(entries@[r->0 as int].1)
            && entries@[r->0 as int].0@ == key@,
{
    let mut i: usize = 0;
    assert(entries@.subrange(0, entries@.len() as int) =~= entries@);
    while i < entries.len()
        invariant
            i <= entries@.len(),
            lookup(entries@, key@) == lookup(entries@.subrange(i as int, entries@.len() as int), key@),
        decreases entries@.len() - i,
    {
        let rest = Ghost(entries@.subrange(i as int, entries@.len() as int));
        assert(rest@.drop_first() =~= entries@.subrange(i + 1, entries@.len() as int));
        assert(rest@[0] == entries@[i as int]);
        let name: &str = entries[i].0.as_str();
        if same_text(name, key) {
            return Some(i);
        }
        i = i + 1;
    }
    None
}

/// Position of the first tier named `name`, if any.
pub fn tier_position(tiers: &Vec<TierConfig>, name: &str) -> (r: Option<usize>)
    ensures
        r is None <==> !has_tier(tiers@, name@),
        r is Some ==> first_tier_at(tiers@, name@, r->0 as int),
{
    let mut i: usize = 0;
    while i < tiers.len()
        invariant
            i <= tiers@.len(),
            forall|j: int| 0 <= j < i ==> #[trigger] tiers@[j].name@ != name@,
        decreases tiers@.len() - i,
    {
        let tier_name: &str = tiers[i].name.as_str();
        if same_text(tier_name, name) {
            return Some(i);
        }
        i = i + 1;
    }
    None
}

/// A first position is unique.
pub proof fn lemma_first_tier_unique(tiers: Seq<TierConfig>, name: Seq<char>, i: int, j: int)
    requires
        first_tier_at(tiers, name, i),
        first_tier_at(tiers, name, j),
    ensures
        i == j,
{
    if i < j {
        assert(tiers[i].name@ != name);
    } else if j < i {
        assert(tiers[j].name@ != name);
    }
}

/// What the first position gives is the tier that `find_tier` names.
pub proof fn lemma_find_tier_at(tiers: Seq<TierConfig>, name: Seq<char>, i: int)
    requires
        first_tier_at(tiers, name, i),
    ensures
        find_tier(tiers, name) == Some(tiers[i]),
{
    assert(has_tier(tiers, name));
    let k = choose|k: int| first_tier_at(tiers, name, k);
    lemma_first_tier_unique(tiers, name, i, k);
}

impl Config {
    /// The tier a request-model string resolves to: an alias is followed to
    /// its target, any other string is taken as a tier name.
    pub fn resolve_tier(&self, model: &str) -> (r: Option<&TierConfig>)
        ensures
            r is Some <==> find_tier(self.tiers@, tier_name_for(self.aliases@, model@)) is Some,
            r is Some ==> find_tier(self.tiers@, tier_name_for(self.aliases@, model@)) == Some(*r->0),
    {
        let name: &str = match position_of(&self.aliases, model) {
            Some(i) => self.aliases[i].1.as_str(),
            None => model,
        };
        match tier_position(&self.tiers, name) {
            Some(i) => {
                proof {
                    lemma_find_tier_at(self.tiers@, name@, i as int);
                }
                Some(&self.tiers[i])
            },
            None => None,
        }
    }

    /// The named profile, else the `default` profile, else none.
    pub fn profile(&self, name: &str) -> (r: Option<&ProfileConfig>)
        ensures
            r is Some <==> profile_for(self.profiles@, name@) is Some,
            r is Some ==> profile_for(self.profiles@, name@) == Some(*r->0),
    {
        match position_of(&self.profiles, name) {
            Some(i) => Some(&self.profiles[i].1),
            None => match position_of(&self.profiles, "default") {
                Some(i) => Some(&self.profiles[i].1),
                None => None,
            },
        }
    }

    /// The backend named `name`.
    pub fn backend(&self, name: &str) -> (r: Option<&BackendConfig>)
        ensures
            r is Some <==> lookup(self.backends@, name@) is Some,
            r is Some ==> lookup(self.backends@, name@) == Some(*r->0),
    {
        match position_of(&self.backends, name) {
            Some(i) => Some(&self.backends[i].1),
            None => None,
        }
    }
}

/// The profile chosen for `name`: the named one, else `default`.
pub open spec fn profile_for(profiles: Seq<(String, ProfileConfig)>, name: Seq<char>) -> Option<ProfileConfig> {
    match lookup(profiles, name) {
        Some(p) => Some(p),
        None => lookup(profiles, "default"@),
    }
}

/// What `lookup` finds is the value of an entry with that name.
pub proof fn lemma_lookup_entry<V>(entries: Seq<(String, V)>, key: Seq<char>)
    requires
        lookup(entries, key) is Some,
    ensures
        exists|i: int| 0 <= i < entries.len() && entries[i].0@ == key && entries[i].1 == lookup(entries, key)->0,
    decreases entries.len(),
{
    if entries[0].0@ == key {
        assert(entries[0].0@ == key && entries[0].1 == lookup(entries, key)->0);
    } else {
        lemma_lookup_entry(entries.drop_first(), key);
        let i = choose|i: int| 0 <= i < entries.drop_first().len() && entries.drop_first()[i].0@ == key
            && entries.drop_first()[i].1 == lookup(entries.drop_first(), key)->0;
        assert(entries[i + 1] == entries.drop_first()[i]);
    }
}

/// The tier named by `find_tier` carries that name.
pub proof fn lemma_find_tier_name(tiers: Seq<TierConfig>, name: Seq<char>)
    requires
        has_tier(tiers, name),
    ensures
        find_tier(tiers, name) is Some,
        find_tier(tiers, name)->0.name@ == name,
{
    let k = choose|k: int| 0 <= k < tiers.len() && #[trigger] tiers[k].name@ == name;
    lemma_first_tier_exists(tiers, name, k);
    let i = choose|i: int| first_tier_at(tiers, name, i);
    lemma_find_tier_at(tiers, name, i);
}

/// A tier with the name at `k` means some first position exists.
pub proof fn lemma_first_tier_exists(tiers: Seq<TierConfig>, name: Seq<char>, k: int)
    requires
        0 <= k < tiers.len(),
        tiers[k].name@ == name,
    ensures
        exists|i: int| first_tier_at(tiers, name, i),
    decreases k,
{
    if exists|j: int| 0 <= j < k && #[trigger] tiers[j].name@ == name {
        let j = choose|j: int| 0 <= j < k && #[trigger] tiers[j].name@ == name;
        lemma_first_tier_exists(tiers, name, j);
    } else {
        assert(first_tier_at(tiers, name, k));
    }
}

/// Alias idempotence: in a valid configuration, an alias and its target
/// resolve to the same tier, the one named by the target, provided the
/// target is not itself an alias of some other tier.
pub proof fn law_alias_resolves_to_target(c: Config, alias: Seq<char>)
    requires
        config_valid(c),
        lookup(c.aliases@, alias) is Some,
        ({
            let target = lookup(c.aliases@, alias)->0@;
            lookup(c.aliases@, target) is None || lookup(c.aliases@, target)->0@ == target
        }),
    ensures
        ({
            let target = lookup(c.aliases@, alias)->0@;
            &&& find_tier(c.tiers@, tier_name_for(c.aliases@, alias)) is Some
            &&& find_tier(c.tiers@, tier_name_for(c.aliases@, alias))->0.name@ == target
            &&& find_tier(c.tiers@, tier_name_for(c.aliases@, target)) is Some
            &&& find_tier(c.tiers@, tier_name_for(c.aliases@, target))->0.name@ == target
        }),
{
    let target = lookup(c.aliases@, alias)->0@;
    lemma_lookup_entry(c.aliases@, alias);
    let i = choose|i: int| 0 <= i < c.aliases@.len() && c.aliases@[i].0@ == alias
        && c.aliases@[i].1 == lookup(c.aliases@, alias)->0;
    assert(has_tier(c.tiers@, c.aliases@[i].1@));
    lemma_find_tier_name(c.tiers@, target);
}

/// Profile fallback: with a `default` profile present, any name that is not
/// a profile selects the `default` profile.
pub proof fn law_profile_fallback(c: Config, name: Seq<char>)
    requires
        lookup(c.profiles@, "default"@) is Some,
        lookup(c.profiles@, name) is None,
    ensures
        profile_for(c.profiles@, name) == profile_for(c.profiles@, "default"@),
        profile_for(c.profiles@, name) is Some,
{
}

/// A broken reference found by [`Config::validate`].
#[derive(Debug)]
pub enum ConfigError {
    /// A tier names a backend that is not configured.
    UnknownBackend { tier: String, backend: String },
    /// An alias points at a tier that does not exist.
    UnknownAliasTarget { alias: String, tier: String },
    /// A profile's classifier is not a tier.
    UnknownClassifier { profile: String, tier: String },
    /// A client binding names a profile that does not exist.
    UnknownClientProfile { key_env: String, profile: String },
}

/// The description of a broken reference.
pub open spec fn config_error_text(e: ConfigError) -> Seq<char> {
    match e {
        ConfigError::UnknownBackend { tier, backend } =>
            "tier `"@ + tier@ + "` references unknown backend `"@ + backend@ + "`"@,
        ConfigError::UnknownAliasTarget { alias, tier } =>
            "alias `"@ + alias@ + "` maps to unknown tier `"@ + tier@ + "`"@,
        ConfigError::UnknownClassifier { profile, tier } =>
            "profile `"@ + profile@ + "` classifier references unknown tier `"@ + tier@ + "`"@,
        ConfigError::UnknownClientProfile { key_env, profile } =>
            "[[clients]] entry with key_env `"@ + key_env@ + "` references unknown profile `"@ + profile@ + "`"@,
    }
}

impl ConfigError {
    /// A human-readable description.
    pub fn message(&self) -> (r: String)
        ensures
            r@ == config_error_text(*self),
    {
        let mut m = String::new();
        match self {
            ConfigError::UnknownBackend { tier, backend } => {
                m.append("tier `");
                m.append(tier.as_str());
                m.append("` references unknown backend `");
                m.append(backend.as_str());
            },
            ConfigError::UnknownAliasTarget { alias, tier } => {
                m.append("alias `");
                m.append(alias.as_str());
                m.append("` maps to unknown tier `");
                m.append(tier.as_str());
            },
            ConfigError::UnknownClassifier { profile, tier } => {
                m.append("profile `");
                m.append(profile.as_str());
                m.append("` classifier references unknown tier `");
                m.append(tier.as_str());
            },
            ConfigError::UnknownClientProfile { key_env, profile } => {
                m.append("[[clients]] entry with key_env `");
                m.append(key_env.as_str());
                m.append("` references unknown profile `");
                m.append(profile.as_str());
            },
        }
        m.append("`");
        m
    }
}

impl Config {
    /// Checks the four reference rules, in order: every tier's backend exists,
    /// every alias target is a tier, every profile's classifier is a tier, and
    /// every client binding names a profile.
    pub fn validate(&self) -> (r: Result<(), ConfigError>)
        ensures
            r is Ok <==> config_valid(*self),
            r matches Err(ConfigError::UnknownBackend { tier, backend }) ==> !tiers_valid(*self)
                && exists|i: int| 0 <= i < self.tiers@.len() && self.tiers@[i].name@ == tier@
                    && self.tiers@[i].backend@ == backend@ && lookup(self.backends@, backend@) is None,
            r matches Err(ConfigError::UnknownAliasTarget { alias, tier }) ==> tiers_valid(*self)
                && !aliases_valid(*self)
                && exists|i: int| 0 <= i < self.aliases@.len() && self.aliases@[i].0@ == alias@
                    && self.aliases@[i].1@ == tier@ && !has_tier(self.tiers@, tier@),
            r matches Err(ConfigError::UnknownClassifier { profile, tier }) ==> tiers_valid(*self)
                && aliases_valid(*self) && !profiles_valid(*self)
                && exists|i: int| 0 <= i < self.profiles@.len() && self.profiles@[i].0@ == profile@
                    && self.profiles@[i].1.classifier@ == tier@ && !has_tier(self.tiers@, tier@),
            r matches Err(ConfigError::UnknownClientProfile { key_env, profile }) ==> tiers_valid(*self)
                && aliases_valid(*self) && profiles_valid(*self) && !clients_valid(*self)
                && exists|i: int| 0 <= i < self.clients@.len() && self.clients@[i].key_env@ == key_env@
                    && self.clients@[i].profile@ == profile@ && lookup(self.profiles@, profile@) is None,
    {
        let mut i: usize = 0;
        while i < self.tiers.len()
            invariant
                i <= self.tiers@.len(),
                forall|j: int| 0 <= j < i ==> lookup(self.backends@, #[trigger] self.tiers@[j].backend@) is Some,
            decreases self.tiers@.len() - i,
        {
            let tier = &self.tiers[i];
            if position_of(&self.backends, tier.backend.as_str()).is_none() {
                return Err(ConfigError::UnknownBackend { tier: tier.name.clone(), backend: tier.backend.clone() });
            }
            i = i + 1;
        }
        let mut i: usize = 0;
        while i < self.aliases.len()
            invariant
                i <= self.aliases@.len(),
                tiers_valid(*self),
                forall|j: int| 0 <= j < i ==> has_tier(self.tiers@, #[trigger] self.aliases@[j].1@),
            decreases self.aliases@.len() - i,
        {
            let entry = &self.aliases[i];
            if tier_position(&self.tiers, entry.1.as_str()).is_none() {
                return Err(ConfigError::UnknownAliasTarget { alias: entry.0.clone(), tier: entry.1.clone() });
            }
            i = i + 1;
        }
        let mut i: usize = 0;
        while i < self.profiles.len()
            invariant
                i <= self.profiles@.len(),
                tiers_valid(*self),
                aliases_valid(*self),
                forall|j: int| 0 <= j < i ==> has_tier(self.tiers@, #[trigger] self.profiles@[j].1.classifier@),
            decreases self.profiles@.len() - i,
        {
            let entry = &self.profiles[i];
            if tier_position(&self.tiers, entry.1.classifier.as_str()).is_none() {
                return Err(ConfigError::UnknownClassifier { profile: entry.0.clone(), tier: entry.1.classifier.clone() });
            }
            i = i + 1;
        }
        let mut i: usize = 0;
        while i < self.clients.len()
            invariant
                i <= self.clients@.len(),
                tiers_valid(*self),
                aliases_valid(*self),
                profiles_valid(*self),
                forall|j: int| 0 <= j < i ==> lookup(self.profiles@, #[trigger] self.clients@[j].profile@) is Some,
            decreases self.clients@.len() - i,
        {
            let client = &self.clients[i];
            if position_of(&self.profiles, client.profile.as_str()).is_none() {
                return Err(ConfigError::UnknownClientProfile { key_env: client.key_env.clone(), profile: client.profile.clone() });
            }
            i = i + 1;
        }
        Ok(())
    }
}

} // verus!
