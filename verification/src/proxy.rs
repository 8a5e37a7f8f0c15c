//! The loopback proxy variant: one fixed VS Code model whose requests are
//! forwarded to the currently selected upstream provider. This module holds
//! the proxy's own store, its provider records, the projection into
//! `chatLanguageModels.json`, the target bookkeeping and the request
//! decisions; the HTTP server and the file writes stay with the caller.

use vstd::prelude::*;
use vstd::string::StrSliceExecFns;
use vstd::string::StringExecFns;
use crate::bridge::{absolute_shape, parse_json5, json5_parse, opt_str, new_uuid, path_file_name, path_is_absolute, path_eq, url_parse, parse_url, header_name_valid, header_value_valid, check_header_name, check_header_value};
use crate::error::{AppError, ErrView};
use crate::kv::{pairs_view, sorted_keys, sort_dedup, entries_insert, entries_get, lemma_get_after_insert, keys_sorted};
use crate::json::{JsonValue, JsonView, items_view, lemma_items_view, entries_view, entries_insert_exec, items_equal, json_clone, get_str};
use crate::text::{decimal, u64_to_string, starts_with_spec, starts_with, contains_sub};
use crate::targets::{effective_selection, available_ids, keep_ids, path_pairs, resolve_spec, effective_ids, available, retain_ids, target_paths, resolve, sort_states, state_order, states_view, TargetStateView, Inspection, detected_state_view, custom_state_view, detected_target_state, custom_target_state, contains_id as ids_contain};
pub use crate::targets::CopilotByokTargetState;
use crate::order::sort_by;
use crate::vscode::{VsCodeProfileTarget, TargetView, targets_view};
use crate::model::strs;
use crate::model::{lemma_norm_headers_sorted, norm_headers, normalize_headers, http_like, http_like_exec, normalized_id, default_true};
use crate::text::{ascii_lower, to_ascii_lowercase, str_eq, trim, trim_spec};

verus! {

/// File name of the proxy store in the application's configuration directory.
pub const PROXY_STORE_FILE: &'static str = "copilot-byok-proxy.json";
/// Current proxy store format version.
pub const PROXY_STORE_VERSION: u32 = 1;
/// Name of the one provider group the proxy manages in VS Code.
pub const GROUP_NAME: &'static str = "CC Switch Proxy";
/// Id of the fixed VS Code model.
pub const MODEL_ID: &'static str = "cc-switch-current";
/// Default loopback port.
pub const DEFAULT_LISTEN_PORT: u16 = 15735;
/// Context window used when a provider gives none.
pub const DEFAULT_CONTEXT_WINDOW: u64 = 262144;
/// Output limit used when a provider gives none.
pub const DEFAULT_MAX_OUTPUT_TOKENS: u64 = 32768;
/// Largest `chatLanguageModels.json` the proxy edits.
pub const MAX_CONFIG_BYTES: u64 = 8388608;
/// Largest request body the proxy accepts.
pub const MAX_REQUEST_BYTES: usize = 33554432;

/// Serde default of a provider's context window.
pub fn default_context_window() -> (r: u64)
    ensures
        r == DEFAULT_CONTEXT_WINDOW,
{
    DEFAULT_CONTEXT_WINDOW
}

/// Serde default of a provider's output limit.
pub fn default_max_output_tokens() -> (r: u64)
    ensures
        r == DEFAULT_MAX_OUTPUT_TOKENS,
{
    DEFAULT_MAX_OUTPUT_TOKENS
}

/// Serde default of the listen port.
pub fn default_listen_port() -> (r: u16)
    ensures
        r == DEFAULT_LISTEN_PORT,
{
    DEFAULT_LISTEN_PORT
}

/// Serde default of the store version.
pub fn store_version() -> (r: u32)
    ensures
        r == PROXY_STORE_VERSION,
{
    PROXY_STORE_VERSION
}

/// An upstream provider the proxy can forward to: a full Chat Completions
/// endpoint, its key, the upstream model id, extra headers and the
/// capabilities shown on the fixed VS Code model.
#[derive(Debug)]
pub struct CopilotByokModel {
    pub id: String,
    pub name: String,
    pub endpoint: String,
    pub api_key: String,
    pub model_id: String,
    pub enabled: bool,
    pub request_headers: Vec<(String, String)>,
    pub context_window: u64,
    pub max_output_tokens: u64,
    pub tool_calling: bool,
    pub vision: bool,
    pub thinking: bool,
    pub streaming: bool,
}

/// `n` is what [`CopilotByokModel::normalize`] makes of `o`: text trimmed, a
/// blank id replaced by a fresh 36-character id, headers trimmed with blank
/// names dropped (a later repeat wins), zero limits replaced by the defaults.
pub open spec fn provider_normalized(o: CopilotByokModel, n: CopilotByokModel) -> bool {
    &&& trim_spec(o.id@).len() > 0 ==> n.id@ == trim_spec(o.id@)
    &&& trim_spec(o.id@).len() == 0 ==> n.id@.len() == 36
    &&& n.name@ == trim_spec(o.name@)
    &&& n.endpoint@ == trim_spec(o.endpoint@)
    &&& n.api_key@ == trim_spec(o.api_key@)
    &&& n.model_id@ == trim_spec(o.model_id@)
    &&& n.enabled == o.enabled
    &&& pairs_view(n.request_headers@) == norm_headers(pairs_view(o.request_headers@))
    &&& n.context_window == if o.context_window == 0 { DEFAULT_CONTEXT_WINDOW } else { o.context_window }
    &&& n.max_output_tokens == if o.max_output_tokens == 0 {
        DEFAULT_MAX_OUTPUT_TOKENS
    } else {
        o.max_output_tokens
    }
    &&& n.tool_calling == o.tool_calling
    &&& n.vision == o.vision
    &&& n.thinking == o.thinking
    &&& n.streaming == o.streaming
}

/// Header names the proxy sets itself (compared in ASCII lowercase).
pub open spec fn reserved_header(lower: Seq<char>) -> bool {
    lower == "authorization"@ || lower == "host"@ || lower == "content-length"@
        || lower == "transfer-encoding"@ || lower == "connection"@ || lower
        == "proxy-authorization"@
}

/// The first problem with a provider's headers, in key order.
pub open spec fn provider_headers_problem(h: Seq<(Seq<char>, Seq<char>)>) -> Option<Seq<char>>
    decreases h.len(),
{
    if h.len() == 0 {
        None
    } else {
        let (name, value) = h[0];
        if !header_name_valid(name) {
            Some("Invalid request header name "@ + name + ": "@ + "invalid HTTP header name"@)
        } else if !header_value_valid(value) {
            Some("Invalid request header value for "@ + name + ": "@ + "failed to parse header value"@)
        } else if reserved_header(ascii_lower(name)) {
            Some("Request header "@ + name + " is managed by CC Switch and cannot be overridden"@)
        } else {
            provider_headers_problem(h.skip(1))
        }
    }
}

/// The first reason a provider fails validation, in the order the checks
/// run: name, key, upstream model id, endpoint, headers.
pub open spec fn provider_problem(p: CopilotByokModel) -> Option<Seq<char>> {
    if p.name@.len() == 0 {
        Some("Copilot proxy provider name is required"@)
    } else if p.api_key@.len() == 0 {
        Some("Copilot proxy provider API key is required"@)
    } else if p.model_id@.len() == 0 {
        Some("Copilot proxy upstream model id is required"@)
    } else {
        match url_parse(p.endpoint@) {
            Err(e) => Some("Invalid Copilot proxy endpoint: "@ + e),
            Ok(u) => if !http_like(u) {
                Some("Copilot proxy endpoint must be an absolute HTTP or HTTPS URL"@)
            } else {
                provider_headers_problem(pairs_view(p.request_headers@))
            },
        }
    }
}

fn is_reserved_header(name: &str) -> (r: bool)
    ensures
        r == reserved_header(ascii_lower(name@)),
{
    let lower = to_ascii_lowercase(name);
    let l = lower.as_str();
    str_eq(l, "authorization") || str_eq(l, "host") || str_eq(l, "content-length") || str_eq(
        l,
        "transfer-encoding",
    ) || str_eq(l, "connection") || str_eq(l, "proxy-authorization")
}

fn provider_headers_check(h: &Vec<(String, String)>) -> (r: Result<(), AppError>)
    ensures
        match r {
            Ok(()) => provider_headers_problem(pairs_view(h@)) is None,
            Err(e) => provider_headers_problem(pairs_view(h@)) matches Some(m) && e@ == ErrView::InvalidInput(m),
        },
{
    let n = h.len();
    let mut i: usize = 0;
    assert(pairs_view(h@).skip(0) =~= pairs_view(h@));
    while i < n
        invariant
            n == h@.len(),
            i <= n,
            provider_headers_problem(pairs_view(h@)) == provider_headers_problem(pairs_view(h@).skip(i as int)),
        decreases n - i,
    {
        let ghost rest = pairs_view(h@).skip(i as int);
        assert(rest[0] == (h@[i as int].0@, h@[i as int].1@));
        let name = h[i].0.as_str();
        let value = h[i].1.as_str();
        match check_header_name(name) {
            Ok(()) => {},
            Err(msg) => {
                let m = "Invalid request header name ".to_string().concat(name).concat(": ").concat(msg.as_str());
                return Err(AppError::InvalidInput(m));
            },
        }
        match check_header_value(value) {
            Ok(()) => {},
            Err(msg) => {
                let m = "Invalid request header value for ".to_string().concat(name).concat(": ").concat(msg.as_str());
                return Err(AppError::InvalidInput(m));
            },
        }
        if is_reserved_header(name) {
            let m = "Request header ".to_string().concat(name).concat(" is managed by CC Switch and cannot be overridden");
            return Err(AppError::InvalidInput(m));
        }
        assert(rest.skip(1) =~= pairs_view(h@).skip(i + 1));
        i = i + 1;
    }
    Ok(())
}

impl CopilotByokModel {
    /// Trims text fields and headers, assigns a fresh id when the id is
    /// blank and replaces zero limits by the defaults.
    pub fn normalize(&mut self)
        ensures
            provider_normalized(*old(self), *final(self)),
            keys_sorted(pairs_view(final(self).request_headers@)),
    {
        proof {
            lemma_norm_headers_sorted(pairs_view(self.request_headers@));
        }
        self.id = normalized_id(self.id.as_str());
        self.name = trim(self.name.as_str());
        self.endpoint = trim(self.endpoint.as_str());
        self.api_key = trim(self.api_key.as_str());
        self.model_id = trim(self.model_id.as_str());
        self.request_headers = normalize_headers(&self.request_headers);
        if self.context_window == 0 {
            self.context_window = DEFAULT_CONTEXT_WINDOW;
        }
        if self.max_output_tokens == 0 {
            self.max_output_tokens = DEFAULT_MAX_OUTPUT_TOKENS;
        }
    }

    /// Checks the name, key, upstream model id, that the endpoint is an
    /// absolute HTTP(S) URL, and that every header is valid and not one the
    /// proxy sets itself.
    pub fn validate(&self) -> (r: Result<(), AppError>)
        ensures
            r is Ok <==> provider_problem(*self) is None,
            r matches Err(e) ==> e@ == ErrView::InvalidInput(provider_problem(*self)->0),
    {
        if self.name.unicode_len() == 0 {
            return Err(AppError::InvalidInput("Copilot proxy provider name is required".to_string()));
        }
        if self.api_key.unicode_len() == 0 {
            return Err(AppError::InvalidInput("Copilot proxy provider API key is required".to_string()));
        }
        if self.model_id.unicode_len() == 0 {
            return Err(AppError::InvalidInput("Copilot proxy upstream model id is required".to_string()));
        }
        match parse_url(self.endpoint.as_str()) {
            Err(e) => {
                let m = "Invalid Copilot proxy endpoint: ".to_string().concat(e.as_str());
                return Err(AppError::InvalidInput(m));
            },
            Ok(u) => {
                if !http_like_exec(&u) {
                    return Err(
                        AppError::InvalidInput(
                            "Copilot proxy endpoint must be an absolute HTTP or HTTPS URL".to_string(),
                        ),
                    );
                }
            },
        }
        provider_headers_check(&self.request_headers)
    }
}

/// A `chatLanguageModels.json` path the user added by hand.
#[derive(Debug)]
pub struct CustomTarget {
    pub id: String,
    pub name: String,
    pub language_models_path: String,
}

/// The proxy's store: the local gateway token VS Code authenticates with,
/// the listen port, whether the integration is on, the current provider, the
/// providers and the VS Code targets.
#[derive(Debug)]
pub struct Store {
    pub version: u32,
    pub gateway_token: String,
    pub listen_port: u16,
    pub integration_enabled: bool,
    pub current_provider_id: Option<String>,
    pub providers: Vec<CopilotByokModel>,
    pub selected_target_ids: Vec<String>,
    pub targets_initialized: bool,
    pub custom_targets: Vec<CustomTarget>,
}

/// Index of the first enabled provider with the id.
pub open spec fn enabled_index(ps: Seq<CopilotByokModel>, id: Seq<char>) -> Option<int>
    decreases ps.len(),
{
    if ps.len() == 0 {
        None
    } else if ps[0].id@ == id && ps[0].enabled {
        Some(0)
    } else {
        match enabled_index(ps.skip(1), id) {
            Some(i) => Some(i + 1),
            None => None,
        }
    }
}

/// Index of the first enabled provider.
pub open spec fn first_enabled(ps: Seq<CopilotByokModel>) -> Option<int>
    decreases ps.len(),
{
    if ps.len() == 0 {
        None
    } else if ps[0].enabled {
        Some(0)
    } else {
        match first_enabled(ps.skip(1)) {
            Some(i) => Some(i + 1),
            None => None,
        }
    }
}

/// The provider the proxy forwards to: the current one when it exists and
/// is enabled.
pub open spec fn current_index(store: Store) -> Option<int> {
    match store.current_provider_id {
        Some(id) => enabled_index(store.providers@, id@),
        None => None,
    }
}

/// The first provider that is invalid or repeats an earlier id.
pub open spec fn providers_problem(ps: Seq<CopilotByokModel>, seen: Set<Seq<char>>) -> Option<ErrView>
    decreases ps.len(),
{
    if ps.len() == 0 {
        None
    } else if provider_problem(ps[0]) is Some {
        Some(ErrView::InvalidInput(provider_problem(ps[0])->0))
    } else if seen.contains(ps[0].id@) {
        Some(ErrView::Config("Duplicate Copilot proxy provider id: "@ + ps[0].id@))
    } else {
        providers_problem(ps.skip(1), seen.insert(ps[0].id@))
    }
}

/// `n` is what [`Store::normalize`] makes of `o` when it succeeds: version
/// set, a blank gateway token replaced by a fresh one, port 0 replaced by the
/// default, every provider normalized, the current provider kept when it is
/// an enabled provider and otherwise the first enabled one, the integration
/// off when there is none, and the selected targets sorted without repeats.
pub open spec fn store_normalized(o: Store, n: Store) -> bool {
    normalized_from(o, o.providers@, n)
}

/// [`store_normalized`] of `o` with its providers replaced by `ops`.
pub open spec fn normalized_from(o: Store, ops: Seq<CopilotByokModel>, n: Store) -> bool {
    &&& n.version == PROXY_STORE_VERSION
    &&& trim_spec(o.gateway_token@).len() > 0 ==> n.gateway_token == o.gateway_token
    &&& trim_spec(o.gateway_token@).len() == 0 ==> n.gateway_token@.len() == 36
    &&& n.listen_port == if o.listen_port == 0 { DEFAULT_LISTEN_PORT } else { o.listen_port }
    &&& n.providers@.len() == ops.len()
    &&& forall|i: int| 0 <= i < ops.len() ==> provider_normalized(#[trigger] ops[i], n.providers@[i])
    &&& opt_str(n.current_provider_id) == if (match o.current_provider_id {
        Some(id) => enabled_index(n.providers@, id@) is Some,
        None => false,
    }) {
        opt_str(o.current_provider_id)
    } else {
        match first_enabled(n.providers@) {
            Some(i) => Some(n.providers@[i].id@),
            None => None,
        }
    }
    &&& n.integration_enabled == (o.integration_enabled && n.current_provider_id is Some)
    &&& strs(n.selected_target_ids@) == sorted_keys(strs(o.selected_target_ids@))
    &&& n.targets_initialized == o.targets_initialized
    &&& n.custom_targets == o.custom_targets
}

fn enabled_index_exec(ps: &Vec<CopilotByokModel>, id: &str) -> (r: Option<usize>)
    ensures
        match r {
            Some(i) => enabled_index(ps@, id@) == Some(i as int) && i < ps@.len(),
            None => enabled_index(ps@, id@) is None,
        },
{
    let n = ps.len();
    let mut i: usize = 0;
    assert(ps@.skip(0) =~= ps@);
    while i < n
        invariant
            n == ps@.len(),
            i <= n,
            enabled_index(ps@, id@) == match enabled_index(ps@.skip(i as int), id@) {
                Some(k) => Some(k + i),
                None => None::<int>,
            },
        decreases n - i,
    {
        assert(ps@.skip(i as int)[0] == ps@[i as int]);
        assert(ps@.skip(i as int).skip(1) =~= ps@.skip(i + 1));
        if ps[i].enabled && str_eq(ps[i].id.as_str(), id) {
            return Some(i);
        }
        i = i + 1;
    }
    None
}

fn first_enabled_exec(ps: &Vec<CopilotByokModel>) -> (r: Option<usize>)
    ensures
        match r {
            Some(i) => first_enabled(ps@) == Some(i as int) && i < ps@.len(),
            None => first_enabled(ps@) is None,
        },
{
    let n = ps.len();
    let mut i: usize = 0;
    assert(ps@.skip(0) =~= ps@);
    while i < n
        invariant
            n == ps@.len(),
            i <= n,
            first_enabled(ps@) == match first_enabled(ps@.skip(i as int)) {
                Some(k) => Some(k + i),
                None => None::<int>,
            },
        decreases n - i,
    {
        assert(ps@.skip(i as int)[0] == ps@[i as int]);
        assert(ps@.skip(i as int).skip(1) =~= ps@.skip(i + 1));
        if ps[i].enabled {
            return Some(i);
        }
        i = i + 1;
    }
    None
}

fn contains_id(ids: &Vec<String>, id: &str) -> (r: bool)
    ensures
        r == strs(ids@).contains(id@),
{
    let n = ids.len();
    let mut i: usize = 0;
    while i < n
        invariant
            n == ids@.len(),
            i <= n,
            forall|j: int| 0 <= j < i ==> strs(ids@)[j] != id@,
        decreases n - i,
    {
        if str_eq(ids[i].as_str(), id) {
            assert(strs(ids@)[i as int] == id@);
            return true;
        }
        i = i + 1;
    }
    false
}

fn providers_check(ps: &Vec<CopilotByokModel>) -> (r: Result<(), AppError>)
    ensures
        match r {
            Ok(()) => providers_problem(ps@, Set::empty()) is None,
            Err(e) => providers_problem(ps@, Set::empty()) == Some(e@),
        },
{
    let mut seen: Vec<String> = Vec::new();
    let n = ps.len();
    let mut i: usize = 0;
    assert(ps@.skip(0) =~= ps@);
    assert(strs(seen@).to_set() =~= Set::<Seq<char>>::empty());
    while i < n
        invariant
            n == ps@.len(),
            i <= n,
            providers_problem(ps@, Set::empty()) == providers_problem(ps@.skip(i as int), strs(seen@).to_set()),
        decreases n - i,
    {
        let ghost rest = ps@.skip(i as int);
        assert(rest[0] == ps@[i as int]);
        match ps[i].validate() {
            Ok(()) => {},
            Err(e) => {
                return Err(e);
            },
        }
        if contains_id(&seen, ps[i].id.as_str()) {
            let m = "Duplicate Copilot proxy provider id: ".to_string().concat(ps[i].id.as_str());
            return Err(AppError::Config(m));
        }
        let ghost before = strs(seen@);
        seen.push(ps[i].id.clone());
        proof {
            assert(strs(seen@) =~= before.push(ps@[i as int].id@));
            before.lemma_push_to_set_commute(ps@[i as int].id@);
            assert(rest.skip(1) =~= ps@.skip(i + 1));
        }
        i = i + 1;
    }
    Ok(())
}

impl Store {
    /// A new store: current version, a fresh gateway token, the default port,
    /// nothing else.
    pub fn default() -> (r: Store)
        ensures
            r.version == PROXY_STORE_VERSION,
            r.gateway_token@.len() == 36,
            r.listen_port == DEFAULT_LISTEN_PORT,
            !r.integration_enabled,
            r.current_provider_id is None,
            r.providers@.len() == 0,
            r.selected_target_ids@.len() == 0,
            !r.targets_initialized,
            r.custom_targets@.len() == 0,
    {
        Store {
            version: PROXY_STORE_VERSION,
            gateway_token: new_uuid(),
            listen_port: DEFAULT_LISTEN_PORT,
            integration_enabled: false,
            current_provider_id: None,
            providers: Vec::new(),
            selected_target_ids: Vec::new(),
            targets_initialized: false,
            custom_targets: Vec::new(),
        }
    }

    /// Normalizes every provider and checks it (a duplicate id is a
    /// configuration error), repairs the gateway token, port and current
    /// provider, and sorts the selected targets without repeats.
    pub fn normalize(&mut self) -> (r: Result<(), AppError>)
        ensures
            final(self).providers@.len() == old(self).providers@.len(),
            forall|i: int| 0 <= i < old(self).providers@.len() ==> provider_normalized(#[trigger] old(self).providers@[i], final(self).providers@[i]),
            r is Ok <==> providers_problem(final(self).providers@, Set::empty()) is None,
            r matches Err(e) ==> providers_problem(final(self).providers@, Set::empty()) == Some(e@),
            r is Ok ==> store_normalized(*old(self), *final(self)),
    {
        self.version = PROXY_STORE_VERSION;
        if trim(self.gateway_token.as_str()).unicode_len() == 0 {
            self.gateway_token = new_uuid();
        }
        if self.listen_port == 0 {
            self.listen_port = DEFAULT_LISTEN_PORT;
        }
        let mut old_providers: Vec<CopilotByokModel> = Vec::new();
        std::mem::swap(&mut old_providers, &mut self.providers);
        let ghost orig = old_providers@;
        let mut out: Vec<CopilotByokModel> = Vec::new();
        let n = old_providers.len();
        let mut i: usize = 0;
        while i < n
            invariant
                n == orig.len(),
                i <= n,
                old_providers@ == orig.skip(i as int),
                out@.len() == i,
                forall|j: int| 0 <= j < i ==> provider_normalized(#[trigger] orig[j], out@[j]),
            decreases n - i,
        {
            let mut p = old_providers.remove(0);
            assert(p == orig[i as int]);
            p.normalize();
            out.push(p);
            assert(old_providers@ =~= orig.skip(i + 1));
            i = i + 1;
        }
        self.providers = out;
        providers_check(&self.providers)?;
        let available = match &self.current_provider_id {
            Some(id) => enabled_index_exec(&self.providers, id.as_str()).is_some(),
            None => false,
        };
        if !available {
            self.current_provider_id = match first_enabled_exec(&self.providers) {
                Some(k) => Some(self.providers[k].id.clone()),
                None => None,
            };
        }
        if self.current_provider_id.is_none() {
            self.integration_enabled = false;
        }
        self.selected_target_ids = sort_dedup(&self.selected_target_ids);
        Ok(())
    }
}

/// The provider the proxy forwards to, if any.
pub fn current_provider(store: &Store) -> (r: Option<usize>)
    ensures
        match r {
            Some(i) => current_index(*store) == Some(i as int) && i < store.providers@.len(),
            None => current_index(*store) is None,
        },
{
    match &store.current_provider_id {
        Some(id) => enabled_index_exec(&store.providers, id.as_str()),
        None => None,
    }
}

/// The fixed model's endpoint on the loopback interface.
pub open spec fn endpoint_spec(port: u16) -> Seq<char> {
    "http://127.0.0.1:"@ + decimal(port as nat) + "/copilot/v1/chat/completions"@
}

/// The proxy's loopback URL for a port.
pub fn endpoint(port: u16) -> (r: String)
    ensures
        r@ == endpoint_spec(port),
{
    "http://127.0.0.1:".to_string().concat(u64_to_string(port as u64).as_str()).concat("/copilot/v1/chat/completions")
}

/// The one model of the managed group: the fixed id and name, the loopback
/// URL, and the current provider's limits and capabilities (defaults when
/// no provider is current: 262144 / 32768 tokens, tools, thinking and
/// streaming on, vision off).
pub open spec fn fixed_model_json(store: Store) -> JsonView {
    let p = current_index(store);
    let cw = match p { Some(i) => store.providers@[i].context_window, None => DEFAULT_CONTEXT_WINDOW };
    let mo = match p { Some(i) => store.providers@[i].max_output_tokens, None => DEFAULT_MAX_OUTPUT_TOKENS };
    let tc = match p { Some(i) => store.providers@[i].tool_calling, None => true };
    let vi = match p { Some(i) => store.providers@[i].vision, None => false };
    let th = match p { Some(i) => store.providers@[i].thinking, None => true };
    let st = match p { Some(i) => store.providers@[i].streaming, None => true };
    let e1 = entries_insert(Seq::empty(), "id"@, JsonView::Str("cc-switch-current"@));
    let e2 = entries_insert(e1, "name"@, JsonView::Str("CC Switch Current"@));
    let e3 = entries_insert(e2, "url"@, JsonView::Str(endpoint_spec(store.listen_port)));
    let e4 = entries_insert(e3, "contextWindow"@, JsonView::Number(decimal(cw as nat)));
    let e5 = entries_insert(e4, "maxOutputTokens"@, JsonView::Number(decimal(mo as nat)));
    let e6 = entries_insert(e5, "toolCalling"@, JsonView::Bool(tc));
    let e7 = entries_insert(e6, "vision"@, JsonView::Bool(vi));
    let e8 = entries_insert(e7, "thinking"@, JsonView::Bool(th));
    let e9 = entries_insert(e8, "streaming"@, JsonView::Bool(st));
    JsonView::Object(e9)
}

/// The managed `chatLanguageModels.json` group: `CC Switch Proxy`, vendor
/// `customendpoint`, the gateway token as its key, the Chat Completions API
/// and the fixed model.
pub open spec fn managed_group_json(store: Store) -> JsonView {
    let e1 = entries_insert(Seq::empty(), "name"@, JsonView::Str("CC Switch Proxy"@));
    let e2 = entries_insert(e1, "vendor"@, JsonView::Str("customendpoint"@));
    let e3 = entries_insert(e2, "apiKey"@, JsonView::Str(store.gateway_token@));
    let e4 = entries_insert(e3, "apiType"@, JsonView::Str("chat-completions"@));
    let e5 = entries_insert(e4, "models"@, JsonView::Array(seq![fixed_model_json(store)]));
    JsonView::Object(e5)
}

/// The group the proxy writes into every selected target.
pub fn managed_group(store: &Store) -> (r: JsonValue)
    ensures
        r@ == managed_group_json(*store),
{
    let p = current_provider(store);
    let (cw, mo, tc, vi, th, st) = match p {
        Some(i) => {
            let pr = &store.providers[i];
            (pr.context_window, pr.max_output_tokens, pr.tool_calling, pr.vision, pr.thinking, pr.streaming)
        },
        None => (DEFAULT_CONTEXT_WINDOW, DEFAULT_MAX_OUTPUT_TOKENS, true, false, true, true),
    };
    let mut m: Vec<(String, JsonValue)> = Vec::new();
    assert(entries_view(m@) =~= Seq::<(Seq<char>, JsonView)>::empty());
    entries_insert_exec(&mut m, "id".to_string(), JsonValue::from_str(MODEL_ID));
    entries_insert_exec(&mut m, "name".to_string(), JsonValue::from_str("CC Switch Current"));
    entries_insert_exec(&mut m, "url".to_string(), JsonValue::Str(endpoint(store.listen_port)));
    entries_insert_exec(&mut m, "contextWindow".to_string(), JsonValue::from_u64(cw));
    entries_insert_exec(&mut m, "maxOutputTokens".to_string(), JsonValue::from_u64(mo));
    entries_insert_exec(&mut m, "toolCalling".to_string(), JsonValue::Bool(tc));
    entries_insert_exec(&mut m, "vision".to_string(), JsonValue::Bool(vi));
    entries_insert_exec(&mut m, "thinking".to_string(), JsonValue::Bool(th));
    entries_insert_exec(&mut m, "streaming".to_string(), JsonValue::Bool(st));
    let model = JsonValue::Object(m);
    let ghost mv = model@;
    let mut models: Vec<JsonValue> = Vec::new();
    models.push(model);
    proof {
        lemma_items_view(models@);
        assert(items_view(models@) =~= seq![mv]);
    }
    let mut g: Vec<(String, JsonValue)> = Vec::new();
    assert(entries_view(g@) =~= Seq::<(Seq<char>, JsonView)>::empty());
    entries_insert_exec(&mut g, "name".to_string(), JsonValue::from_str(GROUP_NAME));
    entries_insert_exec(&mut g, "vendor".to_string(), JsonValue::from_str("customendpoint"));
    entries_insert_exec(&mut g, "apiKey".to_string(), JsonValue::Str(store.gateway_token.clone()));
    entries_insert_exec(&mut g, "apiType".to_string(), JsonValue::from_str("chat-completions"));
    entries_insert_exec(&mut g, "models".to_string(), JsonValue::Array(models));
    JsonValue::Object(g)
}

/// A group this proxy manages: vendor `customendpoint` and name
/// `CC Switch Proxy`.
pub open spec fn is_proxy_group(v: JsonView) -> bool {
    &&& get_str(v.get("vendor"@)) == Some("customendpoint"@)
    &&& get_str(v.get("name"@)) == Some("CC Switch Proxy"@)
}

/// Whether a `chatLanguageModels.json` group is the proxy's.
pub fn is_managed_group(value: &JsonValue) -> (r: bool)
    ensures
        r == is_proxy_group(value@),
{
    let vendor_ok = match value.get("vendor") {
        Some(v) => match v.as_str() {
            Some(s) => str_eq(s.as_str(), "customendpoint"),
            None => false,
        },
        None => false,
    };
    let name_ok = match value.get("name") {
        Some(v) => match v.as_str() {
            Some(s) => str_eq(s.as_str(), GROUP_NAME),
            None => false,
        },
        None => false,
    };
    vendor_ok && name_ok
}

/// The groups that are not the proxy's, in order.
pub open spec fn unmanaged_spec(gs: Seq<JsonView>) -> Seq<JsonView>
    decreases gs.len(),
{
    if gs.len() == 0 {
        Seq::empty()
    } else {
        let p = unmanaged_spec(gs.drop_last());
        if is_proxy_group(gs.last()) {
            p
        } else {
            p.push(gs.last())
        }
    }
}

/// The groups of a file without the proxy's.
pub fn unmanaged_groups(existing: &Vec<JsonValue>) -> (r: Vec<JsonValue>)
    ensures
        items_view(r@) == unmanaged_spec(items_view(existing@)),
{
    proof {
        lemma_items_view(existing@);
    }
    let mut out: Vec<JsonValue> = Vec::new();
    let n = existing.len();
    let mut i: usize = 0;
    assert(items_view(out@) =~= unmanaged_spec(items_view(existing@).take(0)));
    while i < n
        invariant
            n == existing@.len(),
            i <= n,
            items_view(existing@).len() == n,
            forall|j: int| 0 <= j < n ==> #[trigger] items_view(existing@)[j] == existing@[j]@,
            items_view(out@) == unmanaged_spec(items_view(existing@).take(i as int)),
        decreases n - i,
    {
        assert(items_view(existing@).take(i + 1).drop_last() =~= items_view(existing@).take(i as int));
        assert(items_view(existing@).take(i + 1).last() == existing@[i as int]@);
        if !is_managed_group(&existing[i]) {
            let ghost before = out@;
            out.push(json_clone(&existing[i]));
            proof {
                lemma_items_view(out@);
                lemma_items_view(before);
                assert(items_view(out@) =~= items_view(before).push(existing@[i as int]@));
            }
        }
        i = i + 1;
    }
    assert(items_view(existing@).take(n as int) =~= items_view(existing@));
    out
}

/// A target's groups with the proxy's replaced by the desired one, placed
/// last.
pub open spec fn proxy_merged(existing: Seq<JsonView>, desired: JsonView) -> Seq<JsonView> {
    unmanaged_spec(existing).push(desired)
}

/// The new content of a target: `Some` when the merge changes the file.
pub fn target_update(existing: &Vec<JsonValue>, desired: &JsonValue) -> (r: Option<Vec<JsonValue>>)
    ensures
        match r {
            Some(m) => items_view(m@) == proxy_merged(items_view(existing@), desired@) && items_view(m@) != items_view(existing@),
            None => proxy_merged(items_view(existing@), desired@) == items_view(existing@),
        },
{
    let mut merged = unmanaged_groups(existing);
    let ghost before = merged@;
    merged.push(json_clone(desired));
    proof {
        lemma_items_view(merged@);
        lemma_items_view(before);
        assert(items_view(merged@) =~= items_view(before).push(desired@));
    }
    if items_equal(&merged, existing) {
        None
    } else {
        Some(merged)
    }
}

/// What removing the proxy's group does to one existing target file.
pub enum RemovalAction {
    /// The file holds no proxy group.
    Unchanged,
    /// Nothing else is left and no backup exists: delete the file.
    RemoveFile,
    /// Write the remaining groups.
    Write(Vec<JsonValue>),
}

/// Removing the proxy's group from an existing file: unchanged when it has
/// none; the file is deleted when nothing remains and no backup exists;
/// otherwise the remaining groups are written.
pub fn removal_action(existing: &Vec<JsonValue>, backup_exists: bool) -> (r: RemovalAction)
    ensures
        match r {
            RemovalAction::Unchanged => unmanaged_spec(items_view(existing@)) == items_view(existing@),
            RemovalAction::RemoveFile => unmanaged_spec(items_view(existing@)) != items_view(existing@)
                && unmanaged_spec(items_view(existing@)).len() == 0 && !backup_exists,
            RemovalAction::Write(v) => unmanaged_spec(items_view(existing@)) != items_view(existing@)
                && items_view(v@) == unmanaged_spec(items_view(existing@))
                && (unmanaged_spec(items_view(existing@)).len() > 0 || backup_exists),
        },
{
    let unmanaged = unmanaged_groups(existing);
    if items_equal(&unmanaged, existing) {
        return RemovalAction::Unchanged;
    }
    proof {
        lemma_items_view(unmanaged@);
    }
    if unmanaged.len() == 0 && !backup_exists {
        return RemovalAction::RemoveFile;
    }
    RemovalAction::Write(unmanaged)
}

/// `(id, path)` of the store's custom targets.
pub open spec fn custom_pairs(ts: Seq<CustomTarget>) -> Seq<(Seq<char>, Seq<char>)> {
    ts.map_values(|t: CustomTarget| (t.id@, t.language_models_path@))
}

fn custom_target_pairs(ts: &Vec<CustomTarget>) -> (r: Vec<(String, String)>)
    ensures
        pairs_view(r@) == custom_pairs(ts@),
{
    let mut out: Vec<(String, String)> = Vec::new();
    let n = ts.len();
    let mut i: usize = 0;
    while i < n
        invariant
            n == ts@.len(),
            i <= n,
            out@.len() == i,
            forall|j: int| 0 <= j < i ==> (#[trigger] out@[j].0@, out@[j].1@) == (ts@[j].id@, ts@[j].language_models_path@),
        decreases n - i,
    {
        let a = ts[i].id.clone();
        let b = ts[i].language_models_path.clone();
        let ghost before = out@;
        out.push((a, b));
        assert forall|j: int| 0 <= j < i + 1 implies (#[trigger] out@[j].0@, out@[j].1@) == (ts@[j].id@, ts@[j].language_models_path@) by {
            if j < i {
                assert(out@[j] == before[j]);
            }
        }
        i = i + 1;
    }
    assert(pairs_view(out@) =~= custom_pairs(ts@));
    out
}

/// The selected targets that exist on this device.
pub open spec fn available_selection(store: Store, detected: Seq<TargetView>) -> Seq<Seq<char>> {
    keep_ids(
        effective_selection(store.targets_initialized, strs(store.selected_target_ids@), detected),
        available_ids(detected, custom_pairs(store.custom_targets@)),
    )
}

/// The selection in effect, restricted to available targets.
pub fn available_selected_target_ids(store: &Store, detected: &Vec<VsCodeProfileTarget>) -> (r: Vec<String>)
    ensures
        strs(r@) == available_selection(*store, targets_view(detected@)),
{
    let custom = custom_target_pairs(&store.custom_targets);
    let avail = available(detected, &custom);
    let eff = effective_ids(store.targets_initialized, &store.selected_target_ids, detected);
    retain_ids(&eff, &avail)
}

/// The selection in effect.
pub fn effective_selected_target_ids(store: &Store, detected: &Vec<VsCodeProfileTarget>) -> (r: Vec<String>)
    ensures
        strs(r@) == effective_selection(store.targets_initialized, strs(store.selected_target_ids@), targets_view(detected@)),
{
    effective_ids(store.targets_initialized, &store.selected_target_ids, detected)
}

/// Resolving ids to paths; an unknown id is refused.
pub open spec fn proxy_resolve_spec(store: Store, detected: Seq<TargetView>, ids: Seq<Seq<char>>) -> Result<Seq<(Seq<char>, Seq<char>)>, ErrView> {
    match resolve_spec(path_pairs(detected, custom_pairs(store.custom_targets@)), ids) {
        Ok(v) => Ok(v),
        Err(id) => Err(ErrView::InvalidInput("Unknown or unavailable VS Code target: "@ + id)),
    }
}

/// Paths of the requested targets, each id once.
pub fn resolve_target_paths(store: &Store, detected: &Vec<VsCodeProfileTarget>, ids: &Vec<String>) -> (r: Result<Vec<(String, String)>, AppError>)
    ensures
        match r {
            Ok(v) => proxy_resolve_spec(*store, targets_view(detected@), strs(ids@)) == Ok::<Seq<(Seq<char>, Seq<char>)>, ErrView>(pairs_view(v@)),
            Err(e) => proxy_resolve_spec(*store, targets_view(detected@), strs(ids@)) == Err::<Seq<(Seq<char>, Seq<char>)>, ErrView>(e@),
        },
{
    let custom = custom_target_pairs(&store.custom_targets);
    let pairs = target_paths(detected, &custom);
    match resolve(&pairs, ids) {
        Ok(v) => Ok(v),
        Err(id) => Err(AppError::InvalidInput("Unknown or unavailable VS Code target: ".to_string().concat(id.as_str()))),
    }
}

/// Number of proxy groups.
pub open spec fn count_proxy(gs: Seq<JsonView>) -> nat
    decreases gs.len(),
{
    if gs.len() == 0 {
        0
    } else {
        count_proxy(gs.drop_last()) + if is_proxy_group(gs.last()) { 1nat } else { 0nat }
    }
}

/// What a target's inspection shows: the number of proxy groups, or none
/// and the read error.
pub open spec fn inspected(groups: Result<Seq<JsonView>, Seq<char>>) -> (nat, Option<Seq<char>>) {
    match groups {
        Ok(gs) => (count_proxy(gs), None),
        Err(e) => (0, Some(e)),
    }
}

pub open spec fn groups_result_view(r: Result<Vec<JsonValue>, String>) -> Result<Seq<JsonView>, Seq<char>> {
    match r {
        Ok(v) => Ok(items_view(v@)),
        Err(e) => Err(e@),
    }
}

fn inspect(groups: &Result<Vec<JsonValue>, String>) -> (r: (usize, Option<String>))
    ensures
        (r.0 as nat, opt_str(r.1)) == inspected(groups_result_view(*groups)),
{
    match groups {
        Err(e) => (0, Some(e.clone())),
        Ok(gs) => {
            proof {
                lemma_items_view(gs@);
            }
            let mut count: usize = 0;
            let n = gs.len();
            let mut i: usize = 0;
            while i < n
                invariant
                    n == gs@.len(),
                    i <= n,
                    items_view(gs@).len() == n,
                    forall|j: int| 0 <= j < n ==> #[trigger] items_view(gs@)[j] == gs@[j]@,
                    count == count_proxy(items_view(gs@).take(i as int)),
                    count <= i,
                decreases n - i,
            {
                assert(items_view(gs@).take(i + 1).drop_last() =~= items_view(gs@).take(i as int));
                assert(items_view(gs@).take(i + 1).last() == gs@[i as int]@);
                if is_managed_group(&gs[i]) {
                    count = count + 1;
                }
                i = i + 1;
            }
            assert(items_view(gs@).take(n as int) =~= items_view(gs@));
            (count, None)
        },
    }
}

/// The settings page's view of the proxy.
#[derive(Debug)]
pub struct CopilotByokState {
    pub models: Vec<CopilotByokModel>,
    pub targets: Vec<CopilotByokTargetState>,
    pub selected_target_ids: Vec<String>,
    pub current_provider_id: Option<String>,
    pub integration_enabled: bool,
    pub server_running: bool,
    pub listen_port: u16,
    pub proxy_url: String,
    pub fixed_model_id: String,
}

/// What a sync or removal did.
#[derive(Debug)]
pub struct CopilotByokSyncResult {
    pub target_ids: Vec<String>,
    pub managed_model_count: usize,
    pub changed_target_count: usize,
    pub integration_enabled: bool,
    pub server_running: bool,
}

/// Target states, detected targets first (each with its inspection), then
/// the custom ones, before sorting.
pub open spec fn unsorted_states(
    store: Store,
    detected: Seq<TargetView>,
    di: Seq<Inspection>,
    ci: Seq<Inspection>,
) -> Seq<TargetStateView> {
    let sel = available_selection(store, detected);
    Seq::new(detected.len(), |i: int| {
        let (c, e) = inspected(groups_result_view(di[i].groups));
        detected_state_view(detected[i], di[i].config_exists, di[i].backup_exists, sel.contains(detected[i].id), c, e)
    }) + Seq::new(store.custom_targets@.len(), |i: int| {
        let t = store.custom_targets@[i];
        let (c, e) = inspected(groups_result_view(ci[i].groups));
        custom_state_view(t.id@, t.name@, t.language_models_path@, ci[i].config_exists, ci[i].backup_exists, sel.contains(t.id@), c, e)
    })
}

/// The settings page's view: the providers, every target with its state in
/// page order, the available selection, the current provider, whether the
/// integration is on and the server runs, the port, the loopback URL and
/// the fixed model id.
pub fn build_state(store: Store, detected: &Vec<VsCodeProfileTarget>, detected_inspections: &Vec<Inspection>, custom_inspections: &Vec<Inspection>, server_running: bool) -> (r: CopilotByokState)
    requires
        detected_inspections@.len() == detected@.len(),
        custom_inspections@.len() == store.custom_targets@.len(),
    ensures
        states_view(r.targets@) == sort_by(unsorted_states(store, targets_view(detected@), detected_inspections@, custom_inspections@), state_order()),
        strs(r.selected_target_ids@) == available_selection(store, targets_view(detected@)),
        r.models@ == store.providers@,
        r.current_provider_id == store.current_provider_id,
        r.integration_enabled == store.integration_enabled,
        r.server_running == server_running,
        r.listen_port == store.listen_port,
        r.proxy_url@ == endpoint_spec(store.listen_port),
        r.fixed_model_id@ == "cc-switch-current"@,
{
    let ghost st = store;
    let selected = available_selected_target_ids(&store, detected);
    let ghost sel = available_selection(st, targets_view(detected@));
    let ghost expected = unsorted_states(st, targets_view(detected@), detected_inspections@, custom_inspections@);
    let mut targets: Vec<CopilotByokTargetState> = Vec::new();
    let n = detected.len();
    let mut i: usize = 0;
    while i < n
        invariant
            n == detected@.len(),
            n == detected_inspections@.len(),
            i <= n,
            strs(selected@) == sel,
            sel == available_selection(st, targets_view(detected@)),
            expected == unsorted_states(st, targets_view(detected@), detected_inspections@, custom_inspections@),
            targets@.len() == i,
            forall|j: int| 0 <= j < i ==> #[trigger] targets@[j]@ == expected[j],
        decreases n - i,
    {
        let t = &detected[i];
        let insp = &detected_inspections[i];
        let (count, err) = inspect(&insp.groups);
        let sel_here = ids_contain(&selected, t.id.as_str());
        let state = detected_target_state(t, insp.config_exists, insp.backup_exists, sel_here, count, err);
        targets.push(state);
        i = i + 1;
    }
    let m = store.custom_targets.len();
    let mut k: usize = 0;
    while k < m
        invariant
            n == detected@.len(),
            m == st.custom_targets@.len(),
            m == custom_inspections@.len(),
            store == st,
            k <= m,
            strs(selected@) == sel,
            sel == available_selection(st, targets_view(detected@)),
            expected == unsorted_states(st, targets_view(detected@), detected_inspections@, custom_inspections@),
            targets@.len() == n + k,
            forall|j: int| 0 <= j < n + k ==> #[trigger] targets@[j]@ == expected[j],
        decreases m - k,
    {
        let t = &store.custom_targets[k];
        let insp = &custom_inspections[k];
        let (count, err) = inspect(&insp.groups);
        let sel_here = ids_contain(&selected, t.id.as_str());
        let state = custom_target_state(&t.id, &t.name, &t.language_models_path, insp.config_exists, insp.backup_exists, sel_here, count, err);
        targets.push(state);
        k = k + 1;
    }
    assert(states_view(targets@) =~= expected);
    let sorted = sort_states(targets);
    let port = store.listen_port;
    CopilotByokState {
        models: store.providers,
        targets: sorted,
        selected_target_ids: selected,
        current_provider_id: store.current_provider_id,
        integration_enabled: store.integration_enabled,
        server_running,
        listen_port: port,
        proxy_url: endpoint(port),
        fixed_model_id: MODEL_ID.to_string(),
    }
}

/// The token of an `Authorization` value: what follows `Bearer ` or
/// `bearer `.
pub open spec fn bearer_spec(value: Option<Seq<char>>) -> Option<Seq<char>> {
    match value {
        None => None,
        Some(v) => if starts_with_spec(v, "Bearer "@) {
            Some(v.skip(7))
        } else if starts_with_spec(v, "bearer "@) {
            Some(v.skip(7))
        } else {
            None
        },
    }
}

/// The bearer token of the `Authorization` header (given as text, or
/// `None` when it is missing or not visible ASCII).
pub fn bearer_token(authorization: Option<&str>) -> (r: Option<String>)
    ensures
        opt_str(r) == bearer_spec(match authorization { Some(a) => Some(a@), None => None }),
{
    proof {
        reveal_strlit("Bearer ");
        reveal_strlit("bearer ");
    }
    match authorization {
        None => None,
        Some(v) => {
            if starts_with(v, "Bearer ") || starts_with(v, "bearer ") {
                let n = v.unicode_len();
                Some(v.substring_char(7, n).to_string())
            } else {
                None
            }
        },
    }
}

/// Headers that describe one connection and are not forwarded.
pub open spec fn hop_by_hop_spec(name: Seq<char>) -> bool {
    name == "connection"@ || name == "keep-alive"@ || name == "proxy-authenticate"@ || name
        == "proxy-authorization"@ || name == "te"@ || name == "trailer"@ || name == "transfer-encoding"@
        || name == "upgrade"@ || name == "content-length"@
}

/// Whether an upstream response header (by its lowercase name) is dropped.
pub fn is_hop_by_hop(name: &str) -> (r: bool)
    ensures
        r == hop_by_hop_spec(name@),
{
    str_eq(name, "connection") || str_eq(name, "keep-alive") || str_eq(name, "proxy-authenticate")
        || str_eq(name, "proxy-authorization") || str_eq(name, "te") || str_eq(name, "trailer")
        || str_eq(name, "transfer-encoding") || str_eq(name, "upgrade") || str_eq(name, "content-length")
}

/// The JSON body of an error the proxy answers with.
pub open spec fn error_body_json(message: Seq<char>) -> JsonView {
    let inner = entries_insert(
        entries_insert(Seq::empty(), "message"@, JsonView::Str(message)),
        "type"@,
        JsonView::Str("cc_switch_copilot_proxy_error"@),
    );
    JsonView::Object(entries_insert(Seq::empty(), "error"@, JsonView::Object(inner)))
}

/// `{"error": {"message": .., "type": "cc_switch_copilot_proxy_error"}}`.
pub fn error_body(message: &str) -> (r: JsonValue)
    ensures
        r@ == error_body_json(message@),
{
    let mut inner: Vec<(String, JsonValue)> = Vec::new();
    assert(entries_view(inner@) =~= Seq::<(Seq<char>, JsonView)>::empty());
    entries_insert_exec(&mut inner, "message".to_string(), JsonValue::from_str(message));
    entries_insert_exec(&mut inner, "type".to_string(), JsonValue::from_str("cc_switch_copilot_proxy_error"));
    let mut outer: Vec<(String, JsonValue)> = Vec::new();
    assert(entries_view(outer@) =~= Seq::<(Seq<char>, JsonView)>::empty());
    entries_insert_exec(&mut outer, "error".to_string(), JsonValue::Object(inner));
    JsonValue::Object(outer)
}

/// The request to send upstream.
#[derive(Debug)]
pub struct UpstreamRequest {
    pub endpoint: String,
    /// Sent as the bearer token.
    pub api_key: String,
    /// The client's body with `model` set to the upstream model id.
    pub body: JsonValue,
    /// The provider's extra headers.
    pub headers: Vec<(String, String)>,
}

/// What the proxy does with a request.
#[derive(Debug)]
pub enum ProxyOutcome {
    Forward(UpstreamRequest),
    /// Answer with this HTTP status and an [`error_body`] message.
    Reject(u16, String),
}

/// The decision for a request: a wrong or missing gateway token is 401, no
/// enabled current provider 503, a body that is not an object 400;
/// otherwise the body, with `model` set to the provider's upstream model,
/// goes to the provider's endpoint with its key and headers.
pub open spec fn handler_spec(store: Store, authorization: Option<Seq<char>>, body: JsonView) -> Result<(int, Seq<char>, JsonView), (int, Seq<char>)> {
    if bearer_spec(authorization) != Some(store.gateway_token@) {
        Err((401, "Invalid CC Switch gateway token"@))
    } else {
        match current_index(store) {
            None => Err((503, "No enabled Copilot proxy provider is selected"@)),
            Some(i) => match body {
                JsonView::Object(e) => Ok((i, store.providers@[i].endpoint@, JsonView::Object(entries_insert(e, "model"@, JsonView::Str(store.providers@[i].model_id@))))),
                _ => Err((400, "Request body must be a JSON object"@)),
            },
        }
    }
}

pub open spec fn outcome_matches(o: ProxyOutcome, spec: Result<(int, Seq<char>, JsonView), (int, Seq<char>)>, store: Store) -> bool {
    match o {
        ProxyOutcome::Forward(req) => spec matches Ok((i, ep, b)) && req.endpoint@ == ep && req.body@ == b
            && req.api_key@ == store.providers@[i].api_key@
            && pairs_view(req.headers@) == pairs_view(store.providers@[i].request_headers@),
        ProxyOutcome::Reject(status, msg) => spec == Err::<(int, Seq<char>, JsonView), (int, Seq<char>)>((status as int, msg@)),
    }
}

fn clone_pairs(v: &Vec<(String, String)>) -> (r: Vec<(String, String)>)
    ensures
        pairs_view(r@) == pairs_view(v@),
{
    let mut out: Vec<(String, String)> = Vec::new();
    let n = v.len();
    let mut i: usize = 0;
    while i < n
        invariant
            n == v@.len(),
            i <= n,
            out@.len() == i,
            forall|j: int| 0 <= j < i ==> (#[trigger] out@[j].0@, out@[j].1@) == (v@[j].0@, v@[j].1@),
        decreases n - i,
    {
        let a = v[i].0.clone();
        let b = v[i].1.clone();
        let ghost before = out@;
        out.push((a, b));
        assert forall|j: int| 0 <= j < i + 1 implies (#[trigger] out@[j].0@, out@[j].1@) == (v@[j].0@, v@[j].1@) by {
            if j < i {
                assert(out@[j] == before[j]);
            }
        }
        i = i + 1;
    }
    assert(pairs_view(out@) =~= pairs_view(v@));
    out
}

/// Decides a request to the loopback endpoint, see [`handler_spec`].
pub fn proxy_handler(store: &Store, authorization: Option<&str>, body: JsonValue) -> (r: ProxyOutcome)
    ensures
        outcome_matches(r, handler_spec(*store, match authorization { Some(a) => Some(a@), None => None }, body@), *store),
{
    let token = bearer_token(authorization);
    let authorized = match &token {
        Some(t) => str_eq(t.as_str(), store.gateway_token.as_str()),
        None => false,
    };
    if !authorized {
        return ProxyOutcome::Reject(401, "Invalid CC Switch gateway token".to_string());
    }
    let i = match current_provider(store) {
        Some(i) => i,
        None => {
            return ProxyOutcome::Reject(503, "No enabled Copilot proxy provider is selected".to_string());
        },
    };
    let provider = &store.providers[i];
    match body {
        JsonValue::Object(mut e) => {
            entries_insert_exec(&mut e, "model".to_string(), JsonValue::Str(provider.model_id.clone()));
            ProxyOutcome::Forward(UpstreamRequest {
                endpoint: provider.endpoint.clone(),
                api_key: provider.api_key.clone(),
                body: JsonValue::Object(e),
                headers: clone_pairs(&provider.request_headers),
            })
        },
        _ => ProxyOutcome::Reject(400, "Request body must be a JSON object".to_string()),
    }
}

/// The server's route handler: the same decision as [`proxy_handler`].
pub fn handle(store: &Store, authorization: Option<&str>, body: JsonValue) -> (r: ProxyOutcome)
    ensures
        outcome_matches(r, handler_spec(*store, match authorization { Some(a) => Some(a@), None => None }, body@), *store),
{
    proxy_handler(store, authorization, body)
}

/// The message of a failed upstream request (answered with 502).
pub fn upstream_failure(error: &str) -> (r: String)
    ensures
        r@ == "Upstream request failed: "@ + error@,
{
    "Upstream request failed: ".to_string().concat(error)
}

/// Activation needs an enabled current provider.
pub fn activation_check(store: &Store) -> (r: Result<(), AppError>)
    ensures
        r is Ok <==> current_index(*store) is Some,
        r matches Err(e) ==> e@ == ErrView::InvalidInput("Select an enabled Copilot proxy provider first"@),
{
    if current_provider(store).is_none() {
        return Err(AppError::InvalidInput("Select an enabled Copilot proxy provider first".to_string()));
    }
    Ok(())
}

/// What syncing writes: the targets (available selection, resolved) and
/// the group each of them gets.
#[derive(Debug)]
pub struct SyncPlan {
    pub target_ids: Vec<String>,
    pub targets: Vec<(String, String)>,
    pub desired: JsonValue,
}

/// Plans writing the managed group into every available selected target;
/// refused when none is selected or a selected id names no target. For each
/// target the caller reads the file and writes [`target_update`]'s result.
pub fn sync_vscode(store: &Store, detected: &Vec<VsCodeProfileTarget>) -> (r: Result<SyncPlan, AppError>)
    ensures
        match r {
            Ok(plan) => {
                &&& strs(plan.target_ids@) == available_selection(*store, targets_view(detected@))
                &&& available_selection(*store, targets_view(detected@)).len() > 0
                &&& proxy_resolve_spec(*store, targets_view(detected@), strs(plan.target_ids@)) == Ok::<Seq<(Seq<char>, Seq<char>)>, ErrView>(pairs_view(plan.targets@))
                &&& plan.desired@ == managed_group_json(*store)
            },
            Err(e) => {
                ||| (available_selection(*store, targets_view(detected@)).len() == 0
                    && e@ == ErrView::InvalidInput("No VS Code profile is selected for Copilot proxy integration"@))
                ||| (available_selection(*store, targets_view(detected@)).len() > 0
                    && proxy_resolve_spec(*store, targets_view(detected@), available_selection(*store, targets_view(detected@))) == Err::<Seq<(Seq<char>, Seq<char>)>, ErrView>(e@))
            },
        },
{
    let target_ids = available_selected_target_ids(store, detected);
    if target_ids.len() == 0 {
        return Err(AppError::InvalidInput("No VS Code profile is selected for Copilot proxy integration".to_string()));
    }
    let targets = resolve_target_paths(store, detected, &target_ids)?;
    let desired = managed_group(store);
    Ok(SyncPlan { target_ids, targets, desired })
}

/// The report of a sync: one managed model when a provider is current.
pub fn sync_result(store: &Store, target_ids: Vec<String>, changed_target_count: usize, server_running: bool) -> (r: CopilotByokSyncResult)
    ensures
        r.target_ids == target_ids,
        r.managed_model_count == if store.current_provider_id is Some { 1usize } else { 0usize },
        r.changed_target_count == changed_target_count,
        r.integration_enabled == store.integration_enabled,
        r.server_running == server_running,
{
    CopilotByokSyncResult {
        target_ids,
        managed_model_count: if store.current_provider_id.is_some() { 1 } else { 0 },
        changed_target_count,
        integration_enabled: store.integration_enabled,
        server_running,
    }
}

/// The ids of `ids` that are not in `drop`, in order.
pub open spec fn omit_ids(ids: Seq<Seq<char>>, drop: Seq<Seq<char>>) -> Seq<Seq<char>>
    decreases ids.len(),
{
    if ids.len() == 0 {
        Seq::empty()
    } else {
        let p = omit_ids(ids.drop_last(), drop);
        if drop.contains(ids.last()) {
            p
        } else {
            p.push(ids.last())
        }
    }
}

fn omit(ids: &Vec<String>, drop: &Vec<String>) -> (r: Vec<String>)
    ensures
        strs(r@) == omit_ids(strs(ids@), strs(drop@)),
{
    let mut out: Vec<String> = Vec::new();
    let n = ids.len();
    let mut i: usize = 0;
    while i < n
        invariant
            n == ids@.len(),
            i <= n,
            strs(out@) == omit_ids(strs(ids@).take(i as int), strs(drop@)),
        decreases n - i,
    {
        assert(strs(ids@).take(i + 1).drop_last() =~= strs(ids@).take(i as int));
        assert(strs(ids@).take(i + 1).last() == ids@[i as int]@);
        if !ids_contain(drop, ids[i].as_str()) {
            let ghost before = strs(out@);
            out.push(ids[i].clone());
            assert(strs(out@) =~= before.push(ids@[i as int]@));
        }
        i = i + 1;
    }
    assert(strs(ids@).take(n as int) =~= strs(ids@));
    out
}

/// The ids of `ids` that are not in `drop`.
pub fn omit_public(ids: &Vec<String>, drop: &Vec<String>) -> (r: Vec<String>)
    ensures
        strs(r@) == omit_ids(strs(ids@), strs(drop@)),
{
    omit(ids, drop)
}

/// The first requested id that names no available target.
pub open spec fn first_unknown(ids: Seq<Seq<char>>, valid: Seq<Seq<char>>) -> Option<Seq<char>>
    decreases ids.len(),
{
    if ids.len() == 0 {
        None
    } else if !valid.contains(ids[0]) {
        Some(ids[0])
    } else {
        first_unknown(ids.skip(1), valid)
    }
}

fn first_unknown_exec(ids: &Vec<String>, valid: &Vec<String>) -> (r: Option<usize>)
    ensures
        match r {
            Some(i) => i < ids@.len() && first_unknown(strs(ids@), strs(valid@)) == Some(ids@[i as int]@),
            None => first_unknown(strs(ids@), strs(valid@)) is None,
        },
{
    let n = ids.len();
    let mut i: usize = 0;
    assert(strs(ids@).skip(0) =~= strs(ids@));
    while i < n
        invariant
            n == ids@.len(),
            i <= n,
            first_unknown(strs(ids@), strs(valid@)) == first_unknown(strs(ids@).skip(i as int), strs(valid@)),
        decreases n - i,
    {
        assert(strs(ids@).skip(i as int)[0] == ids@[i as int]@);
        assert(strs(ids@).skip(i as int).skip(1) =~= strs(ids@).skip(i + 1));
        if !ids_contain(valid, ids[i].as_str()) {
            return Some(i);
        }
        i = i + 1;
    }
    None
}

/// Choosing the selected targets: every id must name an available target.
/// The targets that leave the selection lose the managed group (the caller
/// removes it from the returned ids, first), the selection becomes the given
/// ids sorted without repeats, and an empty selection turns the integration
/// off.
pub fn set_targets(store: Store, detected: &Vec<VsCodeProfileTarget>, target_ids: &Vec<String>) -> (r: Result<(Store, Vec<String>), AppError>)
    ensures
        match r {
            Ok((n, removed)) => {
                &&& first_unknown(strs(target_ids@), available_ids(targets_view(detected@), custom_pairs(store.custom_targets@))) is None
                &&& strs(removed@) == omit_ids(sorted_keys(available_selection(store, targets_view(detected@))), strs(target_ids@))
                &&& n.targets_initialized
                &&& strs(n.selected_target_ids@) == sorted_keys(strs(target_ids@))
                &&& n.integration_enabled == (store.integration_enabled && target_ids@.len() > 0)
                &&& n == (Store { targets_initialized: true, selected_target_ids: n.selected_target_ids, integration_enabled: n.integration_enabled, ..store })
            },
            Err(e) => first_unknown(strs(target_ids@), available_ids(targets_view(detected@), custom_pairs(store.custom_targets@))) matches Some(id)
                && e@ == ErrView::InvalidInput("Unknown or unavailable VS Code target: "@ + id),
        },
{
    let mut store = store;
    let custom = custom_target_pairs(&store.custom_targets);
    let valid = available(detected, &custom);
    match first_unknown_exec(target_ids, &valid) {
        Some(i) => {
            return Err(AppError::InvalidInput("Unknown or unavailable VS Code target: ".to_string().concat(target_ids[i].as_str())));
        },
        None => {},
    }
    let previous = available_selected_target_ids(&store, detected);
    let previous_set = sort_dedup(&previous);
    let removed = omit(&previous_set, target_ids);
    let next = sort_dedup(target_ids);
    proof {
        crate::kv::lemma_sorted_keys(strs(target_ids@));
        if target_ids@.len() > 0 {
            assert(strs(target_ids@).to_set().contains(target_ids@[0]@));
        } else {
            assert(strs(target_ids@).to_set() =~= Set::<Seq<char>>::empty());
        }
        if next@.len() == 0 {
            assert(strs(next@).to_set() =~= Set::<Seq<char>>::empty());
        } else {
            assert(strs(next@)[0] == next@[0]@);
            assert(strs(next@).contains(next@[0]@));
            assert(strs(next@).to_set().contains(next@[0]@));
        }
    }
    store.targets_initialized = true;
    let empty = next.len() == 0;
    store.selected_target_ids = next;
    if empty {
        store.integration_enabled = false;
    }
    Ok((store, removed))
}

/// Refusal of a custom path from whether it is absolute and its final
/// component: absoluteness is checked first.
pub open spec fn custom_path_problem(absolute: bool, file_name: Option<Seq<char>>) -> Option<Seq<char>> {
    if !absolute {
        Some("Custom VS Code target path must be absolute"@)
    } else if file_name != Some("chatLanguageModels.json"@) {
        Some("Custom target must point to chatLanguageModels.json"@)
    } else {
        None
    }
}

/// Decides a custom path from its absoluteness and final component.
pub fn check_custom_path_parts(absolute: bool, file_name: &Option<String>) -> (r: Result<(), AppError>)
    ensures
        r is Ok <==> custom_path_problem(absolute, opt_str(*file_name)) is None,
        r matches Err(e) ==> e@ == ErrView::InvalidInput(custom_path_problem(absolute, opt_str(*file_name))->0),
{
    if !absolute {
        return Err(AppError::InvalidInput("Custom VS Code target path must be absolute".to_string()));
    }
    let named = match file_name {
        Some(n) => str_eq(n.as_str(), "chatLanguageModels.json"),
        None => false,
    };
    if !named {
        return Err(AppError::InvalidInput("Custom target must point to chatLanguageModels.json".to_string()));
    }
    Ok(())
}

/// The trimmed custom path, when it is absolute and names a
/// `chatLanguageModels.json` (see [`custom_path_problem`]). Absoluteness and
/// the final component follow the platform's path rules; a path without
/// the shape of an absolute path, or without `chatLanguageModels.json` in
/// it, is refused everywhere.
pub fn check_custom_target_path(path: &str) -> (r: Result<String, AppError>)
    ensures
        r matches Ok(p) ==> p@ == trim_spec(path@) && absolute_shape(p@) && contains_sub(p@, "chatLanguageModels.json"@),
        r matches Err(e) ==> e@ == ErrView::InvalidInput("Custom VS Code target path must be absolute"@)
            || e@ == ErrView::InvalidInput("Custom target must point to chatLanguageModels.json"@),
        !absolute_shape(trim_spec(path@)) ==> (r matches Err(e)
            && e@ == ErrView::InvalidInput("Custom VS Code target path must be absolute"@)),
        !contains_sub(trim_spec(path@), "chatLanguageModels.json"@) ==> r is Err,
{
    let p = trim(path);
    let absolute = path_is_absolute(p.as_str());
    let file_name = path_file_name(p.as_str());
    check_custom_path_parts(absolute, &file_name)?;
    Ok(p)
}

/// `ns` is the providers `ps` normalized one by one.
pub open spec fn providers_normalized(ps: Seq<CopilotByokModel>, ns: Seq<CopilotByokModel>) -> bool {
    &&& ns.len() == ps.len()
    &&& forall|i: int| 0 <= i < ps.len() ==> provider_normalized(#[trigger] ps[i], ns[i])
}

/// The label of a custom target: the trimmed name, or the default label.
pub open spec fn proxy_target_label(name: Option<Seq<char>>) -> Seq<char> {
    match name {
        Some(n) => if trim_spec(n).len() > 0 { trim_spec(n) } else { "Custom VS Code Profile"@ },
        None => "Custom VS Code Profile"@,
    }
}

/// Adds a custom target at a checked path (see
/// [`check_custom_target_path`]) under a fresh `custom:<uuid>` id, selects
/// it and normalizes the store; a path equal (as a platform path) to an
/// existing custom target's is refused.
pub fn add_custom_target(store: Store, path: String, name: Option<String>) -> (r: Result<Store, AppError>)
    ensures
        match r {
            Ok(n) => {
                &&& n.custom_targets@.len() == store.custom_targets@.len() + 1
                &&& n.custom_targets@.take(store.custom_targets@.len() as int) == store.custom_targets@
                &&& ({
                    let t = n.custom_targets@.last();
                    &&& t.name@ == proxy_target_label(opt_str(name))
                    &&& t.language_models_path@ == path@
                    &&& t.id@.len() == 43
                    &&& starts_with_spec(t.id@, "custom:"@)
                    &&& strs(n.selected_target_ids@) == sorted_keys(strs(store.selected_target_ids@).push(t.id@))
                })
                &&& n.targets_initialized
                &&& n.providers@.len() == store.providers@.len()
                &&& forall|i: int| 0 <= i < store.providers@.len() ==> provider_normalized(#[trigger] store.providers@[i], n.providers@[i])
                &&& providers_problem(n.providers@, Set::empty()) is None
            },
            Err(e) => e@ == ErrView::InvalidInput("This custom VS Code target already exists"@)
                || exists|ns: Seq<CopilotByokModel>| #[trigger] providers_normalized(store.providers@, ns)
                    && providers_problem(ns, Set::empty()) == Some(e@),
        },
        store.custom_targets@.len() == 0 && (forall|ns: Seq<CopilotByokModel>| #[trigger] providers_normalized(store.providers@, ns)
            ==> providers_problem(ns, Set::empty()) is None) ==> r is Ok,
        (exists|q: int| 0 <= q < store.custom_targets@.len() && (#[trigger] store.custom_targets@[q]).language_models_path@ == path@) ==> r is Err,
{
    let n = store.custom_targets.len();
    let mut i: usize = 0;
    while i < n
        invariant
            n == store.custom_targets@.len(),
            i <= n,
            forall|q: int| 0 <= q < i ==> (#[trigger] store.custom_targets@[q]).language_models_path@ != path@,
        decreases n - i,
    {
        if path_eq(store.custom_targets[i].language_models_path.as_str(), path.as_str()) {
            return Err(AppError::InvalidInput("This custom VS Code target already exists".to_string()));
        }
        i = i + 1;
    }
    let mut store = store;
    let ghost o = store;
    let fresh = new_uuid();
    let ghost new_id_view = fresh@;
    let id = "custom:".to_string().concat(fresh.as_str());
    let label = match &name {
        Some(v) => {
            let t = trim(v.as_str());
            if t.unicode_len() > 0 {
                t
            } else {
                "Custom VS Code Profile".to_string()
            }
        },
        None => "Custom VS Code Profile".to_string(),
    };
    let ghost id_view = id@;
    store.custom_targets.push(CustomTarget { id: id.clone(), name: label, language_models_path: path });
    store.targets_initialized = true;
    let ghost before_sel = strs(store.selected_target_ids@);
    store.selected_target_ids.push(id);
    assert(strs(store.selected_target_ids@) =~= before_sel.push(id_view));
    let ghost pre = store;
    assert(pre.providers == o.providers);
    match store.normalize() {
        Ok(()) => {},
        Err(e) => {
            assert(providers_normalized(o.providers@, store.providers@));
            return Err(e);
        },
    }
    assert(providers_normalized(o.providers@, store.providers@));
    proof {
        reveal_strlit("custom:");
        assert(store.custom_targets == pre.custom_targets);
        assert(store.custom_targets@.take(o.custom_targets@.len() as int) =~= o.custom_targets@);
        assert(store.custom_targets@.last().id@ == id_view);
        assert(id_view == "custom:"@ + new_id_view);
        assert(id_view.subrange(0, 7) =~= "custom:"@);
    }
    Ok(store)
}

/// The custom targets without the id.
pub open spec fn customs_without(ts: Seq<CustomTarget>, id: Seq<char>) -> Seq<CustomTarget>
    decreases ts.len(),
{
    if ts.len() == 0 {
        Seq::empty()
    } else {
        let p = customs_without(ts.drop_last(), id);
        if ts.last().id@ == id {
            p
        } else {
            p.push(ts.last())
        }
    }
}

/// Whether some custom target has the id.
pub open spec fn has_custom(ts: Seq<CustomTarget>, id: Seq<char>) -> bool {
    exists|i: int| 0 <= i < ts.len() && #[trigger] ts[i].id@ == id
}

/// Removing a custom target: `true` when it existed (the caller then first
/// removes the managed group from it). The target leaves the custom targets
/// and the selection; an empty selection turns the integration off.
pub fn remove_custom_target(store: Store, target_id: &str) -> (r: (Store, bool))
    ensures
        r.1 == has_custom(store.custom_targets@, target_id@),
        r.0.custom_targets@ == customs_without(store.custom_targets@, target_id@),
        strs(r.0.selected_target_ids@) == omit_ids(strs(store.selected_target_ids@), seq![target_id@]),
        r.0.integration_enabled == (store.integration_enabled && r.0.selected_target_ids@.len() > 0),
        r.0 == (Store { custom_targets: r.0.custom_targets, selected_target_ids: r.0.selected_target_ids, integration_enabled: r.0.integration_enabled, ..store }),
{
    let mut store = store;
    let mut old_targets: Vec<CustomTarget> = Vec::new();
    std::mem::swap(&mut old_targets, &mut store.custom_targets);
    let ghost orig = old_targets@;
    let mut kept: Vec<CustomTarget> = Vec::new();
    let mut found = false;
    let n = old_targets.len();
    let mut i: usize = 0;
    while i < n
        invariant
            n == orig.len(),
            i <= n,
            old_targets@ == orig.skip(i as int),
            kept@ == customs_without(orig.take(i as int), target_id@),
            found == has_custom(orig.take(i as int), target_id@),
        decreases n - i,
    {
        let t = old_targets.remove(0);
        assert(t == orig[i as int]);
        assert(old_targets@ =~= orig.skip(i + 1));
        assert(orig.take(i + 1).drop_last() =~= orig.take(i as int));
        assert(orig.take(i + 1).last() == t);
        proof {
            if has_custom(orig.take(i + 1), target_id@) && !(t.id@ == target_id@) {
                let k = choose|k: int| 0 <= k < orig.take(i + 1).len() && #[trigger] orig.take(i + 1)[k].id@ == target_id@;
                assert(orig.take(i as int)[k].id@ == target_id@);
            }
            if has_custom(orig.take(i as int), target_id@) {
                let k = choose|k: int| 0 <= k < orig.take(i as int).len() && #[trigger] orig.take(i as int)[k].id@ == target_id@;
                assert(orig.take(i + 1)[k].id@ == target_id@);
            }
            if t.id@ == target_id@ {
                assert(orig.take(i + 1)[i as int].id@ == target_id@);
            }
        }
        if str_eq(t.id.as_str(), target_id) {
            found = true;
        } else {
            kept.push(t);
        }
        i = i + 1;
    }
    assert(orig.take(n as int) =~= orig);
    store.custom_targets = kept;
    let mut drop: Vec<String> = Vec::new();
    drop.push(target_id.to_string());
    assert(strs(drop@) =~= seq![target_id@]);
    store.selected_target_ids = omit(&store.selected_target_ids, &drop);
    if store.selected_target_ids.len() == 0 {
        store.integration_enabled = false;
    }
    (store, found)
}

/// Index of the first provider with the id.
pub open spec fn provider_position(ps: Seq<CopilotByokModel>, id: Seq<char>) -> Option<int>
    decreases ps.len(),
{
    if ps.len() == 0 {
        None
    } else if ps[0].id@ == id {
        Some(0)
    } else {
        match provider_position(ps.skip(1), id) {
            Some(i) => Some(i + 1),
            None => None,
        }
    }
}

fn provider_position_exec(ps: &Vec<CopilotByokModel>, id: &str) -> (r: Option<usize>)
    ensures
        match r {
            Some(i) => provider_position(ps@, id@) == Some(i as int) && i < ps@.len(),
            None => provider_position(ps@, id@) is None,
        },
{
    let n = ps.len();
    let mut i: usize = 0;
    assert(ps@.skip(0) =~= ps@);
    while i < n
        invariant
            n == ps@.len(),
            i <= n,
            provider_position(ps@, id@) == match provider_position(ps@.skip(i as int), id@) {
                Some(k) => Some(k + i),
                None => None::<int>,
            },
        decreases n - i,
    {
        assert(ps@.skip(i as int)[0] == ps@[i as int]);
        assert(ps@.skip(i as int).skip(1) =~= ps@.skip(i + 1));
        if str_eq(ps[i].id.as_str(), id) {
            return Some(i);
        }
        i = i + 1;
    }
    None
}

/// The providers with `p` in place of the first provider with its id, or
/// appended when there is none.
pub open spec fn upserted(ps: Seq<CopilotByokModel>, p: CopilotByokModel) -> Seq<CopilotByokModel> {
    match provider_position(ps, p.id@) {
        Some(i) => ps.update(i, p),
        None => ps.push(p),
    }
}

/// The providers without those with the id.
pub open spec fn providers_without(ps: Seq<CopilotByokModel>, id: Seq<char>) -> Seq<CopilotByokModel>
    decreases ps.len(),
{
    if ps.len() == 0 {
        Seq::empty()
    } else {
        let p = providers_without(ps.drop_last(), id);
        if ps.last().id@ == id {
            p
        } else {
            p.push(ps.last())
        }
    }
}

/// Saving a provider: it is normalized and checked, replaces the provider
/// with its id (or is added), and the store is normalized. The flag is
/// `true` when no provider is current afterwards, in which case the caller
/// removes the managed group from the selected targets.
pub fn upsert_model(store: Store, model: CopilotByokModel) -> (r: Result<(Store, bool), AppError>)
    ensures
        match r {
            Ok((n, cleared)) => exists|m: CopilotByokModel| {
                &&& provider_normalized(model, m)
                &&& provider_problem(m) is None
                &&& n.providers@.len() == upserted(store.providers@, m).len()
                &&& forall|i: int| 0 <= i < n.providers@.len() ==> provider_normalized(#[trigger] upserted(store.providers@, m)[i], n.providers@[i])
                &&& providers_problem(n.providers@, Set::empty()) is None
                &&& cleared == (n.current_provider_id is None)
                &&& normalized_from(store, upserted(store.providers@, m), n)
            },
            Err(e) => exists|m: CopilotByokModel| {
                &&& #[trigger] provider_normalized(model, m)
                &&& match provider_problem(m) {
                    Some(msg) => e@ == ErrView::InvalidInput(msg),
                    None => exists|ns: Seq<CopilotByokModel>| {
                        &&& ns.len() == upserted(store.providers@, m).len()
                        &&& (forall|i: int| 0 <= i < ns.len() ==> provider_normalized(#[trigger] upserted(store.providers@, m)[i], ns[i]))
                        &&& providers_problem(ns, Set::empty()) == Some(e@)
                    },
                }
            },
        },
{
    let mut model = model;
    model.normalize();
    let ghost m = model;
    match model.validate() {
        Ok(()) => {},
        Err(e) => {
            return Err(e);
        },
    }
    let mut store = store;
    let ghost o = store;
    match provider_position_exec(&store.providers, model.id.as_str()) {
        Some(i) => {
            store.providers.set(i, model);
        },
        None => {
            store.providers.push(model);
        },
    }
    assert(store.providers@ == upserted(o.providers@, m));
    match store.normalize() {
        Ok(()) => {},
        Err(e) => {
            assert(store.providers@.len() == upserted(o.providers@, m).len());
            return Err(e);
        },
    }
    let cleared = store.current_provider_id.is_none();
    Ok((store, cleared))
}

fn remove_providers(ps: Vec<CopilotByokModel>, id: &str) -> (r: Vec<CopilotByokModel>)
    ensures
        r@ == providers_without(ps@, id@),
{
    let ghost orig = ps@;
    let mut rest = ps;
    let mut out: Vec<CopilotByokModel> = Vec::new();
    let n = rest.len();
    let mut i: usize = 0;
    while i < n
        invariant
            n == orig.len(),
            i <= n,
            rest@ == orig.skip(i as int),
            out@ == providers_without(orig.take(i as int), id@),
        decreases n - i,
    {
        let p = rest.remove(0);
        assert(p == orig[i as int]);
        assert(rest@ =~= orig.skip(i + 1));
        assert(orig.take(i + 1).drop_last() =~= orig.take(i as int));
        assert(orig.take(i + 1).last() == p);
        if !str_eq(p.id.as_str(), id) {
            out.push(p);
        }
        i = i + 1;
    }
    assert(orig.take(n as int) =~= orig);
    out
}

/// Deleting a provider and normalizing the store; the flag is `true` when
/// no provider is current afterwards.
pub fn delete_model(store: Store, model_id: &str) -> (r: Result<(Store, bool), AppError>)
    ensures
        match r {
            Ok((n, cleared)) => {
                &&& normalized_from(store, providers_without(store.providers@, model_id@), n)
                &&& providers_problem(n.providers@, Set::empty()) is None
                &&& cleared == (n.current_provider_id is None)
            },
            Err(e) => {
                let ps = providers_without(store.providers@, model_id@);
                exists|ns: Seq<CopilotByokModel>| {
                    &&& ns.len() == ps.len()
                    &&& (forall|i: int| 0 <= i < ps.len() ==> provider_normalized(#[trigger] ps[i], ns[i]))
                    &&& providers_problem(ns, Set::empty()) == Some(e@)
                }
            },
        },
{
    let mut store = store;
    let mut ps: Vec<CopilotByokModel> = Vec::new();
    std::mem::swap(&mut ps, &mut store.providers);
    store.providers = remove_providers(ps, model_id);
    let ghost pre = store;
    match store.normalize() {
        Ok(()) => {},
        Err(e) => {
            assert(store.providers@.len() == pre.providers@.len());
            return Err(e);
        },
    }
    let cleared = store.current_provider_id.is_none();
    Ok((store, cleared))
}

/// Switching the proxy on, optionally to another provider: the provider must
/// exist and be enabled, some provider must be current, and some available
/// target must be selected.
pub open spec fn sync_spec(store: Store, detected: Seq<TargetView>, provider_id: Option<Seq<char>>) -> Result<Option<Seq<char>>, ErrView> {
    let cur = match provider_id {
        Some(p) => Some(p),
        None => opt_str(store.current_provider_id),
    };
    if provider_id matches Some(p) && enabled_index(store.providers@, p) is None {
        Err(ErrView::InvalidInput("Unknown or disabled Copilot proxy provider: "@ + provider_id->0))
    } else if (match cur { Some(c) => enabled_index(store.providers@, c) is None, None => true }) {
        Err(ErrView::InvalidInput("Select an enabled Copilot proxy provider first"@))
    } else if available_selection(store, detected).len() == 0 {
        Err(ErrView::InvalidInput("Select at least one VS Code profile first"@))
    } else {
        Ok(cur)
    }
}

/// Turns the integration on (see [`sync_spec`]); the store to save and
/// activate.
pub fn sync(store: Store, detected: &Vec<VsCodeProfileTarget>, provider_id: Option<String>) -> (r: Result<Store, AppError>)
    ensures
        match r {
            Ok(n) => sync_spec(store, targets_view(detected@), opt_str(provider_id)) == Ok::<Option<Seq<char>>, ErrView>(opt_str(n.current_provider_id))
                && n.integration_enabled
                && n == (Store { current_provider_id: n.current_provider_id, integration_enabled: true, ..store }),
            Err(e) => sync_spec(store, targets_view(detected@), opt_str(provider_id)) == Err::<Option<Seq<char>>, ErrView>(e@),
        },
{
    let mut store = store;
    let ghost o = store;
    match provider_id {
        Some(pid) => {
            if enabled_index_exec(&store.providers, pid.as_str()).is_none() {
                return Err(AppError::InvalidInput("Unknown or disabled Copilot proxy provider: ".to_string().concat(pid.as_str())));
            }
            store.current_provider_id = Some(pid);
        },
        None => {},
    }
    assert(available_selection(store, targets_view(detected@)) == available_selection(o, targets_view(detected@)));
    if current_provider(&store).is_none() {
        return Err(AppError::InvalidInput("Select an enabled Copilot proxy provider first".to_string()));
    }
    let selected = available_selected_target_ids(&store, detected);
    if selected.len() == 0 {
        return Err(AppError::InvalidInput("Select at least one VS Code profile first".to_string()));
    }
    store.integration_enabled = true;
    Ok(store)
}

/// Removing the managed group from the requested targets (the selection in
/// effect when none are requested) and turning the integration off; the
/// store to save and the target ids.
pub fn remove_managed_models(store: Store, detected: &Vec<VsCodeProfileTarget>, requested_ids: Option<Vec<String>>) -> (r: (Store, Vec<String>))
    ensures
        r.0 == (Store { integration_enabled: false, ..store }),
        strs(r.1@) == match requested_ids {
            Some(ids) => if ids@.len() > 0 { strs(ids@) } else { available_selection(store, targets_view(detected@)) },
            None => available_selection(store, targets_view(detected@)),
        },
{
    let mut store = store;
    let ids = match requested_ids {
        Some(ids) => {
            if ids.len() > 0 {
                ids
            } else {
                available_selected_target_ids(&store, detected)
            }
        },
        None => available_selected_target_ids(&store, detected),
    };
    store.integration_enabled = false;
    (store, ids)
}

/// The report of a removal: the integration is off and the server stopped.
pub fn removal_result(store: &Store, target_ids: Vec<String>, changed_target_count: usize) -> (r: CopilotByokSyncResult)
    ensures
        r.target_ids == target_ids,
        r.managed_model_count == if store.current_provider_id is Some { 1usize } else { 0usize },
        r.changed_target_count == changed_target_count,
        !r.integration_enabled,
        !r.server_running,
{
    CopilotByokSyncResult {
        target_ids,
        managed_model_count: if store.current_provider_id.is_some() { 1 } else { 0 },
        changed_target_count,
        integration_enabled: false,
        server_running: false,
    }
}

/// Restoring a target's backup takes the target out of proxy management:
/// its path (the caller restores the backup there, or removes the managed
/// group when there is none) and the store to save, where the target is no
/// longer selected and an empty selection turns the integration off.
pub fn restore_backup(store: Store, detected: &Vec<VsCodeProfileTarget>, target_id: &str) -> (r: Result<(Store, String), AppError>)
    ensures
        match r {
            Ok((n, path)) => {
                let ids = seq![target_id@];
                &&& proxy_resolve_spec(store, targets_view(detected@), ids) matches Ok(v) && v.len() > 0 && v[0].1 == path@
                &&& n.targets_initialized
                &&& strs(n.selected_target_ids@) == omit_ids(strs(store.selected_target_ids@), ids)
                &&& !strs(n.selected_target_ids@).contains(target_id@)
                &&& n.integration_enabled == (store.integration_enabled && n.selected_target_ids@.len() > 0)
                &&& n == (Store { targets_initialized: true, selected_target_ids: n.selected_target_ids, integration_enabled: n.integration_enabled, ..store })
            },
            Err(e) => proxy_resolve_spec(store, targets_view(detected@), seq![target_id@]) == Err::<Seq<(Seq<char>, Seq<char>)>, ErrView>(e@),
        },
{
    let mut store = store;
    let mut requested: Vec<String> = Vec::new();
    requested.push(target_id.to_string());
    assert(strs(requested@) =~= seq![target_id@]);
    let targets = resolve_target_paths(&store, detected, &requested)?;
    if targets.len() == 0 {
        proof {
            let ids = seq![target_id@];
            assert(ids[0] == target_id@);
            assert(!Set::<Seq<char>>::empty().contains(ids[0]));
            assert(pairs_view(targets@).len() == 0);
        }
        return Err(AppError::InvalidInput("VS Code target is required".to_string()));
    }
    let path = targets[0].1.clone();
    assert(pairs_view(targets@)[0] == (targets@[0].0@, targets@[0].1@));
    store.targets_initialized = true;
    let ghost old_selected = strs(store.selected_target_ids@);
    store.selected_target_ids = omit(&store.selected_target_ids, &requested);
    proof {
        assert(strs(requested@).contains(target_id@)) by {
            assert(strs(requested@)[0] == target_id@);
        }
        lemma_omit_excludes(old_selected, strs(requested@), target_id@);
    }
    if store.selected_target_ids.len() == 0 {
        store.integration_enabled = false;
    }
    Ok((store, path))
}

/// Refusal of an existing target file: a symbolic link, not a regular
/// file, or over [`MAX_CONFIG_BYTES`].
pub open spec fn target_file_problem(is_symlink: bool, is_file: bool, len: u64, path: Seq<char>) -> Option<Seq<char>> {
    if is_symlink {
        Some("Refusing to modify symlinked VS Code BYOK config: "@ + path)
    } else if !is_file {
        Some("VS Code BYOK target is not a regular file: "@ + path)
    } else if len > MAX_CONFIG_BYTES {
        Some("VS Code BYOK config exceeds 8 MiB: "@ + path)
    } else {
        None
    }
}

/// Checks a target file before it is read or written (a missing file
/// passes).
pub fn ensure_regular_file(present: bool, is_symlink: bool, is_file: bool, len: u64, path: &str) -> (r: Result<(), AppError>)
    ensures
        r is Ok <==> (!present || target_file_problem(is_symlink, is_file, len, path@) is None),
        r matches Err(e) ==> e@ == ErrView::InvalidInput(target_file_problem(is_symlink, is_file, len, path@)->0),
{
    if !present {
        return Ok(());
    }
    if is_symlink {
        return Err(AppError::InvalidInput("Refusing to modify symlinked VS Code BYOK config: ".to_string().concat(path)));
    }
    if !is_file {
        return Err(AppError::InvalidInput("VS Code BYOK target is not a regular file: ".to_string().concat(path)));
    }
    if len > MAX_CONFIG_BYTES {
        return Err(AppError::InvalidInput("VS Code BYOK config exceeds 8 MiB: ".to_string().concat(path)));
    }
    Ok(())
}

/// The groups of a target's text: none for a blank file; otherwise the text
/// must parse (as JSON5) to an array.
pub open spec fn groups_of_text(path: Seq<char>, text: Seq<char>) -> Result<Seq<JsonView>, ErrView> {
    if trim_spec(text).len() == 0 {
        Ok(Seq::empty())
    } else {
        match json5_parse(text) {
            Err(e) => Err(ErrView::Config("Failed to parse VS Code BYOK config "@ + path + ": "@ + e)),
            Ok(JsonView::Array(items)) => Ok(items),
            Ok(_) => Err(ErrView::Config("VS Code BYOK config must be a JSON array: "@ + path)),
        }
    }
}

/// Parses a target's text, see [`groups_of_text`].
pub fn read_groups(path: &str, text: &str) -> (r: Result<Vec<JsonValue>, AppError>)
    ensures
        match r {
            Ok(v) => groups_of_text(path@, text@) == Ok::<Seq<JsonView>, ErrView>(items_view(v@)),
            Err(e) => groups_of_text(path@, text@) == Err::<Seq<JsonView>, ErrView>(e@),
        },
{
    if trim(text).unicode_len() == 0 {
        return Ok(Vec::new());
    }
    match parse_json5(text) {
        Err(e) => Err(AppError::Config("Failed to parse VS Code BYOK config ".to_string().concat(path).concat(": ").concat(e.as_str()))),
        Ok(JsonValue::Array(items)) => Ok(items),
        Ok(_) => Err(AppError::Config("VS Code BYOK config must be a JSON array: ".to_string().concat(path))),
    }
}

/// Whether the loopback server must be (re)started to serve `port`: unless
/// a server is running on that port already.
pub fn server_needs_start(running_port: Option<u16>, running: bool, port: u16) -> (r: bool)
    ensures
        r == !(running_port == Some(port) && running),
{
    match running_port {
        Some(p) => !(p == port && running),
        None => true,
    }
}

/// The error of a port that could not be bound.
pub fn bind_failure(port: u16, error: &str) -> (r: AppError)
    ensures
        r@ == ErrView::Config("Failed to bind Copilot proxy on 127.0.0.1:"@ + decimal(port as nat) + ": "@ + error@),
{
    AppError::Config("Failed to bind Copilot proxy on 127.0.0.1:".to_string().concat(u64_to_string(port as u64).as_str()).concat(": ").concat(error))
}

/// Whether reading the store should bring the integration back up: it is
/// on and a provider is current.
pub fn should_activate(store: &Store) -> (r: bool)
    ensures
        r == (store.integration_enabled && current_index(*store) is Some),
{
    store.integration_enabled && current_provider(store).is_some()
}

/// The group written into VS Code is the one the proxy recognizes as its
/// own, so the next sync replaces it and removal finds it.
pub proof fn lemma_managed_group_is_proxy_group(store: Store)
    ensures
        is_proxy_group(managed_group_json(store)),
{
    reveal_strlit("name");
    reveal_strlit("vendor");
    reveal_strlit("apiKey");
    reveal_strlit("apiType");
    reveal_strlit("models");
    let e1 = entries_insert(Seq::empty(), "name"@, JsonView::Str("CC Switch Proxy"@));
    let e2 = entries_insert(e1, "vendor"@, JsonView::Str("customendpoint"@));
    let e3 = entries_insert(e2, "apiKey"@, JsonView::Str(store.gateway_token@));
    let e4 = entries_insert(e3, "apiType"@, JsonView::Str("chat-completions"@));
    let m = JsonView::Array(seq![fixed_model_json(store)]);
    assert("name"@[0] != "vendor"@[0] && "name"@[0] != "apiKey"@[0] && "name"@[0] != "apiType"@[0] && "name"@[0] != "models"@[0]);
    assert("vendor"@[0] != "apiKey"@[0] && "vendor"@[0] != "apiType"@[0] && "vendor"@[0] != "models"@[0]);
    lemma_get_after_insert(Seq::<(Seq<char>, JsonView)>::empty(), "name"@, JsonView::Str("CC Switch Proxy"@), "name"@);
    lemma_get_after_insert(e1, "vendor"@, JsonView::Str("customendpoint"@), "name"@);
    lemma_get_after_insert(e1, "vendor"@, JsonView::Str("customendpoint"@), "vendor"@);
    lemma_get_after_insert(e2, "apiKey"@, JsonView::Str(store.gateway_token@), "name"@);
    lemma_get_after_insert(e2, "apiKey"@, JsonView::Str(store.gateway_token@), "vendor"@);
    lemma_get_after_insert(e3, "apiType"@, JsonView::Str("chat-completions"@), "name"@);
    lemma_get_after_insert(e3, "apiType"@, JsonView::Str("chat-completions"@), "vendor"@);
    lemma_get_after_insert(e4, "models"@, m, "name"@);
    lemma_get_after_insert(e4, "models"@, m, "vendor"@);
}

/// VS Code sees one fixed model whatever provider is current: the managed
/// group's only model has the id `cc-switch-current`, the name
/// `CC Switch Current` and the loopback URL of the configured port.
pub proof fn lemma_managed_group_fixed_model(store: Store)
    ensures
        managed_group_json(store).get("models"@) == Some(JsonView::Array(seq![fixed_model_json(store)])),
        fixed_model_json(store).get("id"@) == Some(JsonView::Str("cc-switch-current"@)),
        fixed_model_json(store).get("name"@) == Some(JsonView::Str("CC Switch Current"@)),
        fixed_model_json(store).get("url"@) == Some(JsonView::Str(endpoint_spec(store.listen_port))),
{
    reveal_strlit("id");
    reveal_strlit("name");
    reveal_strlit("url");
    reveal_strlit("contextWindow");
    reveal_strlit("maxOutputTokens");
    reveal_strlit("toolCalling");
    reveal_strlit("vision");
    reveal_strlit("thinking");
    reveal_strlit("streaming");
    reveal_strlit("models");
    let p = current_index(store);
    let cw = match p { Some(i) => store.providers@[i].context_window, None => DEFAULT_CONTEXT_WINDOW };
    let mo = match p { Some(i) => store.providers@[i].max_output_tokens, None => DEFAULT_MAX_OUTPUT_TOKENS };
    let tc = match p { Some(i) => store.providers@[i].tool_calling, None => true };
    let vi = match p { Some(i) => store.providers@[i].vision, None => false };
    let th = match p { Some(i) => store.providers@[i].thinking, None => true };
    let e1 = entries_insert(Seq::empty(), "id"@, JsonView::Str("cc-switch-current"@));
    let e2 = entries_insert(e1, "name"@, JsonView::Str("CC Switch Current"@));
    let e3 = entries_insert(e2, "url"@, JsonView::Str(endpoint_spec(store.listen_port)));
    let e4 = entries_insert(e3, "contextWindow"@, JsonView::Number(decimal(cw as nat)));
    let e5 = entries_insert(e4, "maxOutputTokens"@, JsonView::Number(decimal(mo as nat)));
    let e6 = entries_insert(e5, "toolCalling"@, JsonView::Bool(tc));
    let e7 = entries_insert(e6, "vision"@, JsonView::Bool(vi));
    let e8 = entries_insert(e7, "thinking"@, JsonView::Bool(th));
    let ks = seq!["contextWindow"@, "maxOutputTokens"@, "toolCalling"@, "vision"@, "thinking"@, "streaming"@];
    assert(forall|j: int| 0 <= j < 6 ==> ks[j][0] != 'i' && ks[j][0] != 'n' && ks[j][0] != 'u');
    assert("name"@[0] != "id"@[0] && "url"@[0] != "id"@[0] && "url"@[0] != "name"@[0]);
    let keys = seq!["id"@, "name"@, "url"@];
    assert forall|q: int, j: int| 0 <= q < 3 && 0 <= j < 6 implies #[trigger] keys[q] != #[trigger] ks[j] by {
        assert(keys[q][0] != ks[j][0]);
    }
    lemma_get_after_insert(Seq::<(Seq<char>, JsonView)>::empty(), "id"@, JsonView::Str("cc-switch-current"@), "id"@);
    lemma_get_after_insert(e1, "name"@, JsonView::Str("CC Switch Current"@), "id"@);
    lemma_get_after_insert(e1, "name"@, JsonView::Str("CC Switch Current"@), "name"@);
    lemma_get_after_insert(e2, "url"@, JsonView::Str(endpoint_spec(store.listen_port)), "id"@);
    lemma_get_after_insert(e2, "url"@, JsonView::Str(endpoint_spec(store.listen_port)), "name"@);
    lemma_get_after_insert(e2, "url"@, JsonView::Str(endpoint_spec(store.listen_port)), "url"@);
    assert(keys[0] == "id"@ && keys[1] == "name"@ && keys[2] == "url"@);
    assert(ks[0] == "contextWindow"@ && ks[1] == "maxOutputTokens"@ && ks[2] == "toolCalling"@);
    assert(ks[3] == "vision"@ && ks[4] == "thinking"@ && ks[5] == "streaming"@);
    assert forall|q: int| 0 <= q < 3 implies fixed_model_json(store).get(#[trigger] keys[q]) == entries_get(e3, keys[q]) by {
        let k = keys[q];
        lemma_get_after_insert(e3, "contextWindow"@, JsonView::Number(decimal(cw as nat)), k);
        lemma_get_after_insert(e4, "maxOutputTokens"@, JsonView::Number(decimal(mo as nat)), k);
        lemma_get_after_insert(e5, "toolCalling"@, JsonView::Bool(tc), k);
        lemma_get_after_insert(e6, "vision"@, JsonView::Bool(vi), k);
        lemma_get_after_insert(e7, "thinking"@, JsonView::Bool(th), k);
        lemma_get_after_insert(e8, "streaming"@, JsonView::Bool(match p { Some(i) => store.providers@[i].streaming, None => true }), k);
    }
    let g1 = entries_insert(Seq::empty(), "name"@, JsonView::Str("CC Switch Proxy"@));
    let g2 = entries_insert(g1, "vendor"@, JsonView::Str("customendpoint"@));
    let g3 = entries_insert(g2, "apiKey"@, JsonView::Str(store.gateway_token@));
    let g4 = entries_insert(g3, "apiType"@, JsonView::Str("chat-completions"@));
    lemma_get_after_insert(g4, "models"@, JsonView::Array(seq![fixed_model_json(store)]), "models"@);
}

/// Switching providers does not change what VS Code has selected: with the
/// same port and gateway token, the managed groups of any two stores have
/// the same name, vendor, key and fixed model id and URL.
pub proof fn lemma_switch_keeps_vscode_model(a: Store, b: Store)
    requires
        a.listen_port == b.listen_port,
        a.gateway_token@ == b.gateway_token@,
    ensures
        managed_group_json(a).get("name"@) == managed_group_json(b).get("name"@),
        managed_group_json(a).get("vendor"@) == managed_group_json(b).get("vendor"@),
        managed_group_json(a).get("apiKey"@) == managed_group_json(b).get("apiKey"@),
        fixed_model_json(a).get("id"@) == fixed_model_json(b).get("id"@),
        fixed_model_json(a).get("url"@) == fixed_model_json(b).get("url"@),
{
    lemma_managed_group_fixed_model(a);
    lemma_managed_group_fixed_model(b);
    lemma_managed_group_is_proxy_group(a);
    lemma_managed_group_is_proxy_group(b);
    reveal_strlit("name");
    reveal_strlit("vendor");
    reveal_strlit("apiKey");
    reveal_strlit("apiType");
    reveal_strlit("models");
    assert("apiKey"@[3] != "apiType"@[3] && "apiKey"@[0] != "models"@[0]);
    let ga = entries_insert(entries_insert(entries_insert(Seq::empty(), "name"@, JsonView::Str("CC Switch Proxy"@)), "vendor"@, JsonView::Str("customendpoint"@)), "apiKey"@, JsonView::Str(a.gateway_token@));
    let gb = entries_insert(entries_insert(entries_insert(Seq::empty(), "name"@, JsonView::Str("CC Switch Proxy"@)), "vendor"@, JsonView::Str("customendpoint"@)), "apiKey"@, JsonView::Str(b.gateway_token@));
    assert(ga == gb);
    lemma_get_after_insert(ga, "apiType"@, JsonView::Str("chat-completions"@), "apiKey"@);
    lemma_get_after_insert(gb, "apiType"@, JsonView::Str("chat-completions"@), "apiKey"@);
    let ha = entries_insert(ga, "apiType"@, JsonView::Str("chat-completions"@));
    lemma_get_after_insert(ha, "models"@, JsonView::Array(seq![fixed_model_json(a)]), "apiKey"@);
    lemma_get_after_insert(ha, "models"@, JsonView::Array(seq![fixed_model_json(b)]), "apiKey"@);
}

/// A request without the right gateway bearer token is refused with 401,
/// whatever the provider and body.
pub proof fn lemma_unauthorized_rejected(store: Store, authorization: Option<Seq<char>>, body: JsonView)
    requires
        bearer_spec(authorization) != Some(store.gateway_token@),
    ensures
        handler_spec(store, authorization, body) == Err::<(int, Seq<char>, JsonView), (int, Seq<char>)>((401, "Invalid CC Switch gateway token"@)),
{
}

/// A forwarded request goes to the current provider's endpoint with the
/// client's body, where only `model` is replaced by the provider's upstream
/// model id.
pub proof fn lemma_forward_rewrites_model(store: Store, authorization: Option<Seq<char>>, body: JsonView, k: Seq<char>)
    requires
        handler_spec(store, authorization, body) is Ok,
    ensures
        ({
            let (i, ep, b) = handler_spec(store, authorization, body)->Ok_0;
            &&& current_index(store) == Some(i)
            &&& bearer_spec(authorization) == Some(store.gateway_token@)
            &&& ep == store.providers@[i].endpoint@
            &&& b.get("model"@) == Some(JsonView::Str(store.providers@[i].model_id@))
            &&& (k != "model"@ ==> b.get(k) == body.get(k))
        }),
{
    let i = current_index(store)->Some_0;
    let e = body->Object_0;
    lemma_get_after_insert(e, "model"@, JsonView::Str(store.providers@[i].model_id@), "model"@);
    lemma_get_after_insert(e, "model"@, JsonView::Str(store.providers@[i].model_id@), k);
}

proof fn lemma_unmanaged_push(gs: Seq<JsonView>, d: JsonView)
    requires
        is_proxy_group(d),
    ensures
        unmanaged_spec(gs.push(d)) == unmanaged_spec(gs),
{
    assert(gs.push(d).drop_last() =~= gs);
}

proof fn lemma_unmanaged_stable(gs: Seq<JsonView>)
    ensures
        unmanaged_spec(unmanaged_spec(gs)) == unmanaged_spec(gs),
    decreases gs.len(),
{
    if gs.len() > 0 {
        lemma_unmanaged_stable(gs.drop_last());
        let p = unmanaged_spec(gs.drop_last());
        if !is_proxy_group(gs.last()) {
            assert(p.push(gs.last()).drop_last() =~= p);
        }
    }
}

/// Writing the proxy group keeps every other group: the groups of a synced
/// file that are not the proxy's are those of the file before, in order,
/// and syncing the synced file again writes the same groups.
pub proof fn lemma_proxy_sync_keeps_user_groups(existing: Seq<JsonView>, store: Store)
    ensures
        unmanaged_spec(proxy_merged(existing, managed_group_json(store))) == unmanaged_spec(existing),
        proxy_merged(proxy_merged(existing, managed_group_json(store)), managed_group_json(store)) == proxy_merged(existing, managed_group_json(store)),
{
    lemma_managed_group_is_proxy_group(store);
    lemma_unmanaged_push(unmanaged_spec(existing), managed_group_json(store));
    lemma_unmanaged_stable(existing);
}

/// Leaving out ids leaves none of them: after restoring a target, the
/// target is no longer selected.
pub proof fn lemma_omit_excludes(ids: Seq<Seq<char>>, drop: Seq<Seq<char>>, x: Seq<char>)
    requires
        drop.contains(x),
    ensures
        !omit_ids(ids, drop).contains(x),
    decreases ids.len(),
{
    if ids.len() > 0 {
        lemma_omit_excludes(ids.drop_last(), drop, x);
        let p = omit_ids(ids.drop_last(), drop);
        if !drop.contains(ids.last()) {
            assert forall|j: int| 0 <= j < p.push(ids.last()).len() implies p.push(ids.last())[j] != x by {
                if j < p.len() {
                    assert(p[j] == p.push(ids.last())[j]);
                }
            }
        }
    }
}

proof fn lemma_enabled_index_names_enabled(ps: Seq<CopilotByokModel>, id: Seq<char>)
    ensures
        enabled_index(ps, id) matches Some(i) ==> 0 <= i < ps.len() && ps[i].id@ == id && ps[i].enabled,
    decreases ps.len(),
{
    if ps.len() > 0 {
        lemma_enabled_index_names_enabled(ps.skip(1), id);
        if let Some(i) = enabled_index(ps.skip(1), id) {
            assert(ps.skip(1)[i] == ps[i + 1]);
        }
    }
}

proof fn lemma_fixed_model_get(store: Store, k: Seq<char>)
    ensures
        fixed_model_json(store) matches JsonView::Object(e) && {
            let p = current_index(store);
            &&& k == "id"@ ==> entries_get(e, k) == Some(JsonView::Str("cc-switch-current"@))
            &&& k == "contextWindow"@ ==> entries_get(e, k) == Some(JsonView::Number(decimal(
                (match p { Some(i) => store.providers@[i].context_window, None => DEFAULT_CONTEXT_WINDOW }) as nat)))
            &&& k == "maxOutputTokens"@ ==> entries_get(e, k) == Some(JsonView::Number(decimal(
                (match p { Some(i) => store.providers@[i].max_output_tokens, None => DEFAULT_MAX_OUTPUT_TOKENS }) as nat)))
            &&& k == "toolCalling"@ ==> entries_get(e, k) == Some(JsonView::Bool(match p { Some(i) => store.providers@[i].tool_calling, None => true }))
            &&& k == "vision"@ ==> entries_get(e, k) == Some(JsonView::Bool(match p { Some(i) => store.providers@[i].vision, None => false }))
            &&& k == "thinking"@ ==> entries_get(e, k) == Some(JsonView::Bool(match p { Some(i) => store.providers@[i].thinking, None => true }))
            &&& k == "streaming"@ ==> entries_get(e, k) == Some(JsonView::Bool(match p { Some(i) => store.providers@[i].streaming, None => true }))
        },
{
    reveal_strlit("id");
    reveal_strlit("name");
    reveal_strlit("url");
    reveal_strlit("contextWindow");
    reveal_strlit("maxOutputTokens");
    reveal_strlit("toolCalling");
    reveal_strlit("vision");
    reveal_strlit("thinking");
    reveal_strlit("streaming");
    let p = current_index(store);
    let cw = match p { Some(i) => store.providers@[i].context_window, None => DEFAULT_CONTEXT_WINDOW };
    let mo = match p { Some(i) => store.providers@[i].max_output_tokens, None => DEFAULT_MAX_OUTPUT_TOKENS };
    let tc = match p { Some(i) => store.providers@[i].tool_calling, None => true };
    let vi = match p { Some(i) => store.providers@[i].vision, None => false };
    let th = match p { Some(i) => store.providers@[i].thinking, None => true };
    let st = match p { Some(i) => store.providers@[i].streaming, None => true };
    let e0 = Seq::<(Seq<char>, JsonView)>::empty();
    let e1 = entries_insert(e0, "id"@, JsonView::Str("cc-switch-current"@));
    let e2 = entries_insert(e1, "name"@, JsonView::Str("CC Switch Current"@));
    let e3 = entries_insert(e2, "url"@, JsonView::Str(endpoint_spec(store.listen_port)));
    let e4 = entries_insert(e3, "contextWindow"@, JsonView::Number(decimal(cw as nat)));
    let e5 = entries_insert(e4, "maxOutputTokens"@, JsonView::Number(decimal(mo as nat)));
    let e6 = entries_insert(e5, "toolCalling"@, JsonView::Bool(tc));
    let e7 = entries_insert(e6, "vision"@, JsonView::Bool(vi));
    let e8 = entries_insert(e7, "thinking"@, JsonView::Bool(th));
    lemma_get_after_insert(e0, "id"@, JsonView::Str("cc-switch-current"@), k);
    lemma_get_after_insert(e1, "name"@, JsonView::Str("CC Switch Current"@), k);
    lemma_get_after_insert(e2, "url"@, JsonView::Str(endpoint_spec(store.listen_port)), k);
    lemma_get_after_insert(e3, "contextWindow"@, JsonView::Number(decimal(cw as nat)), k);
    lemma_get_after_insert(e4, "maxOutputTokens"@, JsonView::Number(decimal(mo as nat)), k);
    lemma_get_after_insert(e5, "toolCalling"@, JsonView::Bool(tc), k);
    lemma_get_after_insert(e6, "vision"@, JsonView::Bool(vi), k);
    lemma_get_after_insert(e7, "thinking"@, JsonView::Bool(th), k);
    lemma_get_after_insert(e8, "streaming"@, JsonView::Bool(st), k);
}

/// The one model the proxy writes advertises the current upstream
/// provider, the enabled provider named current: its context window,
/// maximum output tokens and tool-calling, vision, thinking and streaming
/// flags become the model's. With no current provider the model advertises
/// the defaults ([`DEFAULT_CONTEXT_WINDOW`], [`DEFAULT_MAX_OUTPUT_TOKENS`],
/// tools, thinking and streaming on, vision off).
pub proof fn lemma_fixed_model_advertises_current(store: Store)
    ensures
        current_index(store) matches Some(i) ==> (0 <= i < store.providers@.len()
            && (store.current_provider_id matches Some(id) && store.providers@[i].id@ == id@) && store.providers@[i].enabled),
        managed_group_json(store).get("models"@) matches Some(JsonView::Array(ms)) && ms.len() == 1 && ({
            let fm = ms[0];
            &&& fm.get("id"@) == Some(JsonView::Str("cc-switch-current"@))
            &&& (current_index(store) matches Some(i) ==> {
                &&& fm.get("contextWindow"@) == Some(JsonView::Number(decimal(store.providers@[i].context_window as nat)))
                &&& fm.get("maxOutputTokens"@) == Some(JsonView::Number(decimal(store.providers@[i].max_output_tokens as nat)))
                &&& fm.get("toolCalling"@) == Some(JsonView::Bool(store.providers@[i].tool_calling))
                &&& fm.get("vision"@) == Some(JsonView::Bool(store.providers@[i].vision))
                &&& fm.get("thinking"@) == Some(JsonView::Bool(store.providers@[i].thinking))
                &&& fm.get("streaming"@) == Some(JsonView::Bool(store.providers@[i].streaming))
            })
            &&& (current_index(store) is None ==> {
                &&& fm.get("contextWindow"@) == Some(JsonView::Number(decimal(DEFAULT_CONTEXT_WINDOW as nat)))
                &&& fm.get("maxOutputTokens"@) == Some(JsonView::Number(decimal(DEFAULT_MAX_OUTPUT_TOKENS as nat)))
                &&& fm.get("toolCalling"@) == Some(JsonView::Bool(true))
                &&& fm.get("vision"@) == Some(JsonView::Bool(false))
                &&& fm.get("thinking"@) == Some(JsonView::Bool(true))
                &&& fm.get("streaming"@) == Some(JsonView::Bool(true))
            })
        }),
{
    if let Some(id) = store.current_provider_id {
        lemma_enabled_index_names_enabled(store.providers@, id@);
    }
    reveal_strlit("name");
    reveal_strlit("vendor");
    reveal_strlit("apiKey");
    reveal_strlit("apiType");
    reveal_strlit("models");
    assert("models"@[0] != "vendor"@[0] && "models"@[0] != "apiKey"@[0]);
    let e1 = entries_insert(Seq::empty(), "name"@, JsonView::Str("CC Switch Proxy"@));
    let e2 = entries_insert(e1, "vendor"@, JsonView::Str("customendpoint"@));
    let e3 = entries_insert(e2, "apiKey"@, JsonView::Str(store.gateway_token@));
    let e4 = entries_insert(e3, "apiType"@, JsonView::Str("chat-completions"@));
    lemma_get_after_insert(e4, "models"@, JsonView::Array(seq![fixed_model_json(store)]), "models"@);
    assert(seq![fixed_model_json(store)][0] == fixed_model_json(store));
    lemma_fixed_model_get(store, "id"@);
    lemma_fixed_model_get(store, "contextWindow"@);
    lemma_fixed_model_get(store, "maxOutputTokens"@);
    lemma_fixed_model_get(store, "toolCalling"@);
    lemma_fixed_model_get(store, "vision"@);
    lemma_fixed_model_get(store, "thinking"@);
    lemma_fixed_model_get(store, "streaming"@);
}

} // verus!
