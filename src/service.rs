//! Rules of the client-facing surface: client-key bindings and their check,
//! the model listing, and the readiness flag of the public status.

use vstd::prelude::*;
use crate::config::{Config, ClientConfig, lookup, names_unique, position_of, lemma_lookup_entry};
use crate::traffic::{lemma_lookup_none, lemma_present_key};
use crate::text::same_text;
use crate::backends::usable_key;

verus! {

/// Builds the key-to-profile table from the bindings and the values of
/// their key variables (`keys[i]` belongs to `clients[i]`). Bindings whose
/// key is unset or empty are left out; when two bindings share a key, the
/// later one wins.
pub fn build_client_map(clients: &Vec<ClientConfig>, keys: &Vec<Option<String>>) -> (r: Vec<(String, String)>)
    requires
        clients@.len() == keys@.len(),
    ensures
        names_unique(r@),
        forall|i: int| 0 <= i < keys@.len() && usable_key(#[trigger] keys@[i]) ==> lookup(r@, keys@[i]->0@) is Some,
        forall|k: int| 0 <= k < r@.len() ==> exists|i: int| {
            &&& 0 <= i < keys@.len()
            &&& usable_key(keys@[i])
            &&& #[trigger] r@[k].0@ == keys@[i]->0@
            &&& r@[k].1@ == clients@[i].profile@
            &&& forall|j: int| i < j < keys@.len() && usable_key(keys@[j]) ==> keys@[j]->0@ != r@[k].0@
        },
{
    let mut out: Vec<(String, String)> = Vec::new();
    let mut i: usize = 0;
    while i < clients.len()
        invariant
            i <= clients@.len(),
            clients@.len() == keys@.len(),
            names_unique(out@),
            forall|m: int| 0 <= m < i && usable_key(#[trigger] keys@[m]) ==> lookup(out@, keys@[m]->0@) is Some,
            forall|k: int| 0 <= k < out@.len() ==> exists|n: int| {
                &&& 0 <= n < i
                &&& usable_key(keys@[n])
                &&& #[trigger] out@[k].0@ == keys@[n]->0@
                &&& out@[k].1@ == clients@[n].profile@
                &&& forall|j: int| n < j < i && usable_key(keys@[j]) ==> keys@[j]->0@ != out@[k].0@
            },
        decreases clients@.len() - i,
    {
        let ghost before = out@;
        match &keys[i] {
            Some(key) => {
                if key.unicode_len() > 0 {
                    let profile = clients[i].profile.clone();
                    match position_of(&out, key.as_str()) {
                        Some(p) => {
                            out.set(p, (key.clone(), profile));
                            proof {
                                assert forall|a: int, b: int| 0 <= a < b < out@.len() implies out@[a].0@ != out@[b].0@ by {
                                    assert(before[a].0@ != before[b].0@);
                                }
                                assert forall|m: int| 0 <= m < i + 1 && usable_key(#[trigger] keys@[m]) implies lookup(out@, keys@[m]->0@) is Some by {
                                    let t = keys@[m]->0@;
                                    if m < i {
                                        lemma_lookup_entry(before, t);
                                        let kk = choose|kk: int| 0 <= kk < before.len() && before[kk].0@ == t && before[kk].1 == lookup(before, t)->0;
                                        lemma_present_key(out@, t, kk);
                                    } else {
                                        lemma_present_key(out@, t, p as int);
                                    }
                                }
                                assert forall|k: int| 0 <= k < out@.len() implies exists|n: int| {
                                    &&& 0 <= n < i + 1
                                    &&& usable_key(keys@[n])
                                    &&& #[trigger] out@[k].0@ == keys@[n]->0@
                                    &&& out@[k].1@ == clients@[n].profile@
                                    &&& forall|j: int| n < j < i + 1 && usable_key(keys@[j]) ==> keys@[j]->0@ != out@[k].0@
                                } by {
                                    if k == p {
                                        assert(out@[k].0@ == keys@[i as int]->0@);
                                    } else {
                                        assert(before[k].0@ != before[p as int].0@);
                                        let n = choose|n: int| {
                                            &&& 0 <= n < i
                                            &&& usable_key(keys@[n])
                                            &&& #[trigger] before[k].0@ == keys@[n]->0@
                                            &&& before[k].1@ == clients@[n].profile@
                                            &&& forall|j: int| n < j < i && usable_key(keys@[j]) ==> keys@[j]->0@ != before[k].0@
                                        };
                                        assert(out@[k] == before[k]);
                                        assert(out@[k].0@ == keys@[n]->0@);
                                    }
                                }
                            }
                        },
                        None => {
                            out.push((key.clone(), profile));
                            proof {
                                lemma_lookup_none(before, key@);
                                assert forall|a: int, b: int| 0 <= a < b < out@.len() implies out@[a].0@ != out@[b].0@ by {
                                    if b < before.len() {
                                        assert(before[a].0@ != before[b].0@);
                                    }
                                }
                                assert forall|m: int| 0 <= m < i + 1 && usable_key(#[trigger] keys@[m]) implies lookup(out@, keys@[m]->0@) is Some by {
                                    let t = keys@[m]->0@;
                                    if m < i {
                                        lemma_lookup_entry(before, t);
                                        let kk = choose|kk: int| 0 <= kk < before.len() && before[kk].0@ == t && before[kk].1 == lookup(before, t)->0;
                                        assert(out@[kk] == before[kk]);
                                        lemma_present_key(out@, t, kk);
                                    } else {
                                        lemma_present_key(out@, t, before.len() as int);
                                    }
                                }
                                assert forall|k: int| 0 <= k < out@.len() implies exists|n: int| {
                                    &&& 0 <= n < i + 1
                                    &&& usable_key(keys@[n])
                                    &&& #[trigger] out@[k].0@ == keys@[n]->0@
                                    &&& out@[k].1@ == clients@[n].profile@
                                    &&& forall|j: int| n < j < i + 1 && usable_key(keys@[j]) ==> keys@[j]->0@ != out@[k].0@
                                } by {
                                    if k == before.len() {
                                        assert(out@[k].0@ == keys@[i as int]->0@);
                                    } else {
                                        assert(out@[k] == before[k]);
                                        assert(before[k].0@ != key@);
                                        let n = choose|n: int| {
                                            &&& 0 <= n < i
                                            &&& usable_key(keys@[n])
                                            &&& #[trigger] before[k].0@ == keys@[n]->0@
                                            &&& before[k].1@ == clients@[n].profile@
                                            &&& forall|j: int| n < j < i && usable_key(keys@[j]) ==> keys@[j]->0@ != before[k].0@
                                        };
                                        assert(out@[k].0@ == keys@[n]->0@);
                                    }
                                }
                            }
                        },
                    }
                }
            },
            None => {},
        }
        i = i + 1;
    }
    proof {
        assert forall|k: int| 0 <= k < out@.len() implies exists|n: int| {
            &&& 0 <= n < keys@.len()
            &&& usable_key(keys@[n])
            &&& #[trigger] out@[k].0@ == keys@[n]->0@
            &&& out@[k].1@ == clients@[n].profile@
            &&& forall|j: int| n < j < keys@.len() && usable_key(keys@[j]) ==> keys@[j]->0@ != out@[k].0@
        } by {
            let n = choose|n: int| {
                &&& 0 <= n < i
                &&& usable_key(keys@[n])
                &&& #[trigger] out@[k].0@ == keys@[n]->0@
                &&& out@[k].1@ == clients@[n].profile@
                &&& forall|j: int| n < j < i && usable_key(keys@[j]) ==> keys@[j]->0@ != out@[k].0@
            };
            assert(out@[k].0@ == keys@[n]->0@);
        }
    }
    out
}

/// The profile selected for a request by its client key.
#[derive(Clone, Debug)]
pub struct ClientProfile(pub String);

/// The correlation identifier of a request.
#[derive(Clone, Debug)]
pub struct RequestId(pub String);

/// Query of the traffic listing: how many recent records to return.
#[derive(Debug)]
pub struct TrafficQuery {
    pub limit: usize,
}

/// Number of records listed when the query gives no limit.
pub fn default_limit() -> (r: usize)
    ensures
        r == 100,
{
    100
}

impl Default for TrafficQuery {
    fn default() -> (r: Self)
        ensures
            r.limit == 100,
    {
        TrafficQuery { limit: default_limit() }
    }
}

/// Outcome of checking a request's credentials.
#[derive(Debug)]
pub enum ClientAuth {
    /// No bindings are configured: every request passes with no profile.
    Disabled,
    /// The key matched; the request uses this profile.
    Profile(String),
    /// Bindings are configured and the key is missing or unknown.
    Unauthorized,
}

/// The key in an `Authorization` header value of the form `Bearer <key>`.
pub open spec fn bearer_key(header: Seq<char>) -> Option<Seq<char>> {
    if header.len() >= 7 && header.subrange(0, 7) == "Bearer "@ {
        Some(header.subrange(7, header.len() as int))
    } else {
        None
    }
}

/// Checks the `Authorization` header against the key table.
pub fn client_auth(client_map: &Vec<(String, String)>, authorization: Option<&str>) -> (r: ClientAuth)
    ensures
        client_map@.len() == 0 ==> r is Disabled,
        client_map@.len() > 0 ==> match authorization {
            Some(h) => match bearer_key(h@) {
                Some(k) => match lookup(client_map@, k) {
                    Some(p) => r matches ClientAuth::Profile(q) && q@ == p@,
                    None => r is Unauthorized,
                },
                None => r is Unauthorized,
            },
            None => r is Unauthorized,
        },
{
    if client_map.len() == 0 {
        return ClientAuth::Disabled;
    }
    let header: &str = match authorization {
        Some(h) => h,
        None => return ClientAuth::Unauthorized,
    };
    let n = header.unicode_len();
    if n < 7 {
        return ClientAuth::Unauthorized;
    }
    let head = header.substring_char(0, 7);
    if !same_text(head, "Bearer ") {
        return ClientAuth::Unauthorized;
    }
    let key = header.substring_char(7, n);
    match position_of(client_map, key) {
        Some(i) => ClientAuth::Profile(client_map[i].1.clone()),
        None => ClientAuth::Unauthorized,
    }
}

/// Whether every backend that names a key variable has a usable key;
/// `key_present[i]` tells whether the variable of backend `i` is set to a
/// non-empty value.
pub fn ready(config: &Config, key_present: &Vec<bool>) -> (r: bool)
    requires
        key_present@.len() == config.backends@.len(),
    ensures
        r == forall|i: int| 0 <= i < key_present@.len() ==> (config.backends@[i].1.api_key_env is Some ==> #[trigger] key_present@[i]),
{
    let mut i: usize = 0;
    while i < key_present.len()
        invariant
            i <= key_present@.len(),
            key_present@.len() == config.backends@.len(),
            forall|j: int| 0 <= j < i ==> (config.backends@[j].1.api_key_env is Some ==> #[trigger] key_present@[j]),
        decreases key_present@.len() - i,
    {
        if config.backends[i].1.api_key_env.is_some() && !key_present[i] {
            return false;
        }
        i = i + 1;
    }
    true
}

/// One entry of the model listing.
#[derive(Debug)]
pub struct ModelEntry {
    pub id: String,
    /// The tier's backend, or `alias`.
    pub owned_by: String,
    /// For an alias, the tier it resolves to.
    pub resolves_to: Option<String>,
}

/// The routable names: one entry per tier (owned by its backend), then one
/// per alias (owned by `alias`, with its target).
pub fn model_list(config: &Config) -> (r: Vec<ModelEntry>)
    ensures
        r@.len() == config.tiers@.len() + config.aliases@.len(),
        forall|i: int| 0 <= i < config.tiers@.len() ==> {
            &&& (#[trigger] r@[i]).id@ == config.tiers@[i].name@
            &&& r@[i].owned_by@ == config.tiers@[i].backend@
            &&& r@[i].resolves_to is None
        },
        forall|i: int| 0 <= i < config.aliases@.len() ==> {
            let e = #[trigger] r@[config.tiers@.len() + i];
            &&& e.id@ == config.aliases@[i].0@
            &&& e.owned_by@ == "alias"@
            &&& e.resolves_to matches Some(t) && t@ == config.aliases@[i].1@
        },
{
    let mut out: Vec<ModelEntry> = Vec::new();
    let mut i: usize = 0;
    while i < config.tiers.len()
        invariant
            i <= config.tiers@.len(),
            out@.len() == i,
            forall|j: int| 0 <= j < i ==> {
                &&& (#[trigger] out@[j]).id@ == config.tiers@[j].name@
                &&& out@[j].owned_by@ == config.tiers@[j].backend@
                &&& out@[j].resolves_to is None
            },
        decreases config.tiers@.len() - i,
    {
        let t = &config.tiers[i];
        out.push(ModelEntry { id: t.name.clone(), owned_by: t.backend.clone(), resolves_to: None });
        i = i + 1;
    }
    let n = config.tiers.len();
    let mut i: usize = 0;
    while i < config.aliases.len()
        invariant
            n == config.tiers@.len(),
            i <= config.aliases@.len(),
            out@.len() == n + i,
            forall|j: int| 0 <= j < n ==> {
                &&& (#[trigger] out@[j]).id@ == config.tiers@[j].name@
                &&& out@[j].owned_by@ == config.tiers@[j].backend@
                &&& out@[j].resolves_to is None
            },
            forall|j: int| 0 <= j < i ==> {
                let e = #[trigger] out@[n + j];
                &&& e.id@ == config.aliases@[j].0@
                &&& e.owned_by@ == "alias"@
                &&& e.resolves_to matches Some(t) && t@ == config.aliases@[j].1@
            },
        decreases config.aliases@.len() - i,
    {
        let a = &config.aliases[i];
        out.push(ModelEntry { id: a.0.clone(), owned_by: "alias".to_owned(), resolves_to: Some(a.1.clone()) });
        proof {
            assert(out@[n + i as int].id@ == config.aliases@[i as int].0@);
        }
        i = i + 1;
    }
    out
}

} // verus!
