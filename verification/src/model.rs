//! The provider catalog: a provider group (one Custom Endpoint connection) and
//! its models, their normalization and validation, and their projection into
//! VS Code's `chatLanguageModels.json` entries.

use vstd::prelude::*;
use vstd::string::StrSliceExecFns;
use vstd::string::StringExecFns;
use crate::bridge::{opt_str, new_uuid, url_parse, parse_url, UrlPartsView, header_name_valid, header_value_valid, check_header_name, check_header_value, unicode_lowercase, to_lowercase};
use crate::error::{AppError, ErrView};
use crate::json::{JsonValue, JsonView, items_view, lemma_items_view_ext, get_str, get_bool, entries_view, entries_collect, entries_insert_exec, json_clone, json_eq, str_items, str_entries, string_array, string_pairs_object};
use crate::kv::{entries_insert, entries_get, lemma_get_after_insert, insert_all, pairs_view, pairs_insert, pairs_collect, keys_sorted, lemma_entries_insert_sorted, lemma_insert_all_sorted};
use crate::text::{decimal, u64_to_string, has_char, contains_char, ascii_lower, to_ascii_lowercase, eq_ignore_ascii_case, replace_spec, replace_all, str_eq};
use crate::text::{starts_with, starts_with_spec, ends_with_spec, trim, trim_spec};

verus! {

/// Name prefix that marked managed groups before the explicit marker existed.
pub const LEGACY_MANAGED_PREFIX: &'static str = "CC Switch:";

/// Largest integer a JavaScript number holds exactly.
pub const MAX_SAFE_JSON_INTEGER: u64 = 9_007_199_254_740_991;

/// Views of a list of strings.
pub open spec fn strs(v: Seq<String>) -> Seq<Seq<char>> {
    v.map_values(|s: String| s@)
}

/// `value` is a VS Code SecretStorage reference `${input:<key>}` with a key
/// that is not blank.
pub open spec fn is_secret_reference_spec(v: Seq<char>) -> bool {
    &&& starts_with_spec(v, "${input:"@)
    &&& ends_with_spec(v.skip(8), "}"@)
    &&& trim_spec(v.skip(8).drop_last()).len() > 0
}

/// Whether `value` is a VS Code SecretStorage reference such as
/// `${input:chat.lm.secret.key}`, which VS Code resolves itself.
pub fn is_vscode_secret_reference(value: &str) -> (r: bool)
    ensures
        r == is_secret_reference_spec(value@),
{
    proof {
        reveal_strlit("${input:");
        reveal_strlit("}");
    }
    if !starts_with(value, "${input:") {
        return false;
    }
    let n = value.unicode_len();
    if n < 9 || value.get_char(n - 1) != '}' {
        proof {
            if n >= 9 {
                assert(value@.skip(8).skip(value@.skip(8).len() - 1)[0] == value@[n - 1]);
            }
        }
        return false;
    }
    let key = value.substring_char(8, n - 1);
    proof {
        assert(value@.skip(8).skip(value@.skip(8).len() - 1) =~= "}"@);
        assert(key@ =~= value@.skip(8).drop_last());
    }
    let t = trim(key);
    t.unicode_len() > 0
}

/// Trimmed, non-empty first occurrences, in order.
pub open spec fn keep_first_nonempty(s: Seq<Seq<char>>) -> Seq<Seq<char>>
    decreases s.len(),
{
    if s.len() == 0 {
        Seq::empty()
    } else {
        let p = keep_first_nonempty(s.drop_last());
        if s.last().len() == 0 || p.contains(s.last()) {
            p
        } else {
            p.push(s.last())
        }
    }
}

/// A cleaned list holds no blank entry and no entry twice (so a store's
/// selected target ids are deduplicated).
pub proof fn lemma_cleaned_list_unique(s: Seq<Seq<char>>)
    ensures
        forall|i: int| 0 <= i < keep_first_nonempty(s).len() ==> #[trigger] keep_first_nonempty(s)[i].len() > 0,
        forall|i: int, j: int| 0 <= i < j < keep_first_nonempty(s).len() ==> #[trigger] keep_first_nonempty(s)[i] != #[trigger] keep_first_nonempty(s)[j],
        forall|x: Seq<char>| #[trigger] keep_first_nonempty(s).contains(x) ==> s.contains(x),
    decreases s.len(),
{
    if s.len() > 0 {
        lemma_cleaned_list_unique(s.drop_last());
        let p = keep_first_nonempty(s.drop_last());
        assert forall|x: Seq<char>| p.contains(x) implies s.contains(x) by {
            let k = choose|k: int| 0 <= k < s.drop_last().len() && s.drop_last()[k] == x;
            assert(s[k] == x);
        }
        if !(s.last().len() == 0 || p.contains(s.last())) {
            let q = p.push(s.last());
            assert forall|i: int, j: int| 0 <= i < j < q.len() implies q[i] != q[j] by {
                if j == q.len() - 1 {
                    assert(p[i] == q[i]);
                    if q[i] == q[j] {
                        assert(p.contains(s.last()));
                    }
                } else {
                    assert(p[i] == q[i] && p[j] == q[j]);
                }
            }
            assert forall|i: int| 0 <= i < q.len() implies #[trigger] q[i].len() > 0 by {
                if i < p.len() {
                    assert(p[i] == q[i]);
                }
            }
            assert forall|x: Seq<char>| q.contains(x) implies s.contains(x) by {
                let k = choose|k: int| 0 <= k < q.len() && q[k] == x;
                if k < p.len() {
                    assert(p[k] == x);
                    assert(p.contains(x));
                } else {
                    assert(s[s.len() - 1] == x);
                }
            }
        }
    }
}

pub open spec fn trimmed_all(v: Seq<String>) -> Seq<Seq<char>> {
    v.map_values(|s: String| trim_spec(s@))
}

/// `strs(v)` contains `s`.
pub fn contains_str(v: &Vec<String>, s: &str) -> (r: bool)
    ensures
        r == strs(v@).contains(s@),
{
    let n = v.len();
    let mut i: usize = 0;
    while i < n
        invariant
            n == v@.len(),
            i <= n,
            forall|k: int| 0 <= k < i ==> v@[k]@ != s@,
        decreases n - i,
    {
        if crate::text::str_eq(v[i].as_str(), s) {
            assert(strs(v@)[i as int] == s@);
            return true;
        }
        i = i + 1;
    }
    assert(!strs(v@).contains(s@)) by {
        if strs(v@).contains(s@) {
            let k = choose|k: int| 0 <= k < strs(v@).len() && strs(v@)[k] == s@;
            assert(v@[k]@ == s@);
        }
    }
    false
}

/// Trims every entry, then keeps the non-empty ones the first time each
/// occurs.
pub fn clean_list(v: &Vec<String>) -> (r: Vec<String>)
    ensures
        strs(r@) == keep_first_nonempty(trimmed_all(v@)),
{
    let mut out: Vec<String> = Vec::new();
    let n = v.len();
    let mut i: usize = 0;
    while i < n
        invariant
            n == v@.len(),
            i <= n,
            strs(out@) == keep_first_nonempty(trimmed_all(v@).take(i as int)),
        decreases n - i,
    {
        let t = trim(v[i].as_str());
        let ghost prefix = trimmed_all(v@).take(i + 1);
        proof {
            assert(prefix.drop_last() =~= trimmed_all(v@).take(i as int));
            assert(prefix.last() == t@);
        }
        if t.unicode_len() > 0 && !contains_str(&out, t.as_str()) {
            out.push(t);
            assert(strs(out@) =~= keep_first_nonempty(prefix));
        }
        i = i + 1;
    }
    assert(trimmed_all(v@).take(n as int) =~= trimmed_all(v@));
    out
}

/// `o.map(|s| s.trim().to_string()).filter(|s| !s.is_empty())`.
pub open spec fn trim_nonempty_spec(o: Option<Seq<char>>) -> Option<Seq<char>> {
    match o {
        Some(s) => if trim_spec(s).len() > 0 {
            Some(trim_spec(s))
        } else {
            None
        },
        None => None,
    }
}

pub fn trim_nonempty(o: &Option<String>) -> (r: Option<String>)
    ensures
        opt_str(r) == trim_nonempty_spec(opt_str(*o)),
{
    match o {
        Some(s) => {
            let t = trim(s.as_str());
            if t.unicode_len() > 0 {
                Some(t)
            } else {
                None
            }
        },
        None => None,
    }
}

/// `o.filter(|v| *v > 0)`.
pub open spec fn positive(o: Option<u64>) -> Option<u64> {
    match o {
        Some(v) => if v > 0 {
            Some(v)
        } else {
            None
        },
        None => None,
    }
}

/// The trimmed id, or a fresh random one when it is blank.
pub fn normalized_id(id: &str) -> (r: String)
    ensures
        trim_spec(id@).len() > 0 ==> r@ == trim_spec(id@),
        trim_spec(id@).len() == 0 ==> r@.len() == 36,
{
    let t = trim(id);
    if t.unicode_len() == 0 {
        new_uuid()
    } else {
        t
    }
}

/// One model of a provider group.
#[derive(Debug)]
pub struct CopilotByokModel {
    /// Internal record id, unique within a group.
    pub id: String,
    /// The upstream model id VS Code sends.
    pub model_id: String,
    /// Display name in the VS Code model picker.
    pub name: String,
    pub enabled: bool,
    pub tool_calling: Option<bool>,
    pub vision: Option<bool>,
    pub thinking: Option<bool>,
    pub streaming: Option<bool>,
    pub context_window: Option<u64>,
    pub max_input_tokens: Option<u64>,
    pub max_output_tokens: Option<u64>,
    pub edit_tools: Vec<String>,
    pub zero_data_retention_enabled: bool,
    pub supports_reasoning_effort: Vec<String>,
    pub reasoning_effort_format: Option<String>,
    pub model_options: JsonValue,
    /// Unknown VS Code fields, kept so that importing and editing never
    /// drops a newer schema's data.
    pub extra: Vec<(String, JsonValue)>,
}

/// `n` is what [`CopilotByokModel::normalize`] makes of `o`: text trimmed, a
/// blank id replaced by a fresh 36-character id, lists trimmed with blanks
/// and repeats dropped, zero token limits removed, everything else kept.
pub open spec fn model_normalized(o: CopilotByokModel, n: CopilotByokModel) -> bool {
    &&& trim_spec(o.id@).len() > 0 ==> n.id@ == trim_spec(o.id@)
    &&& trim_spec(o.id@).len() == 0 ==> n.id@.len() == 36
    &&& n.model_id@ == trim_spec(o.model_id@)
    &&& n.name@ == trim_spec(o.name@)
    &&& n.enabled == o.enabled
    &&& n.tool_calling == o.tool_calling
    &&& n.vision == o.vision
    &&& n.thinking == o.thinking
    &&& n.streaming == o.streaming
    &&& n.context_window == positive(o.context_window)
    &&& n.max_input_tokens == positive(o.max_input_tokens)
    &&& n.max_output_tokens == positive(o.max_output_tokens)
    &&& strs(n.edit_tools@) == keep_first_nonempty(trimmed_all(o.edit_tools@))
    &&& n.zero_data_retention_enabled == o.zero_data_retention_enabled
    &&& strs(n.supports_reasoning_effort@) == keep_first_nonempty(trimmed_all(o.supports_reasoning_effort@))
    &&& opt_str(n.reasoning_effort_format) == trim_nonempty_spec(opt_str(o.reasoning_effort_format))
    &&& n.model_options == o.model_options
    &&& entries_view(n.extra@) == insert_all(Seq::empty(), entries_view(o.extra@))
}

/// The unknown fields of a model, like the map they stand for, hold each
/// key once, in ascending order.
pub open spec fn model_maps_sorted(m: CopilotByokModel) -> bool {
    keys_sorted(entries_view(m.extra@))
}

/// The key-ordered maps of a provider (its request headers, its unknown
/// fields and those of each model) hold each key once, in ascending order,
/// like the maps they stand for.
pub open spec fn group_maps_sorted(g: CopilotByokGroup) -> bool {
    &&& keys_sorted(pairs_view(g.request_headers@))
    &&& keys_sorted(entries_view(g.extra@))
    &&& forall|i: int| 0 <= i < g.models@.len() ==> model_maps_sorted(#[trigger] g.models@[i])
}

/// The first reason a model fails validation.
pub open spec fn model_problem(m: CopilotByokModel) -> Option<Seq<char>> {
    if m.model_id@.len() == 0 {
        Some("Copilot BYOK model id is required"@)
    } else if m.name@.len() == 0 {
        Some("Copilot BYOK display name is required"@)
    } else if !(m.model_options@ is Null) && !(m.model_options@ is Object) {
        Some("Copilot BYOK model options must be a JSON object"@)
    } else if exceeds_safe(m.context_window) || exceeds_safe(m.max_output_tokens) || exceeds_safe(
        m.max_input_tokens,
    ) {
        Some("Copilot BYOK token limits must be JavaScript-safe integers"@)
    } else {
        None
    }
}

pub open spec fn exceeds_safe(o: Option<u64>) -> bool {
    o matches Some(v) && v > MAX_SAFE_JSON_INTEGER
}

fn exceeds_safe_exec(o: Option<u64>) -> (r: bool)
    ensures
        r == exceeds_safe(o),
{
    match o {
        Some(v) => v > MAX_SAFE_JSON_INTEGER,
        None => false,
    }
}

impl CopilotByokModel {
    /// Trims text fields, assigns a fresh id when the id is blank, cleans the
    /// edit-tool and reasoning-effort lists and drops zero token limits.
    pub fn normalize(&mut self)
        ensures
            model_normalized(*old(self), *final(self)),
            model_maps_sorted(*final(self)),
    {
        proof {
            lemma_insert_all_sorted(Seq::<(Seq<char>, JsonView)>::empty(), entries_view(self.extra@));
        }
        self.extra = entries_collect(&self.extra);
        self.id = normalized_id(self.id.as_str());
        self.model_id = trim(self.model_id.as_str());
        self.name = trim(self.name.as_str());
        self.edit_tools = clean_list(&self.edit_tools);
        self.supports_reasoning_effort = clean_list(&self.supports_reasoning_effort);
        self.reasoning_effort_format = trim_nonempty(&self.reasoning_effort_format);
        self.context_window = match self.context_window {
            Some(v) if v > 0 => Some(v),
            _ => None,
        };
        self.max_input_tokens = match self.max_input_tokens {
            Some(v) if v > 0 => Some(v),
            _ => None,
        };
        self.max_output_tokens = match self.max_output_tokens {
            Some(v) if v > 0 => Some(v),
            _ => None,
        };
    }

    /// Checks the model id, display name, model options and token limits.
    pub fn validate(&self) -> (r: Result<(), AppError>)
        ensures
            r is Ok <==> model_problem(*self) is None,
            r matches Err(e) ==> e@ == ErrView::InvalidInput(model_problem(*self)->0),
    {
        if self.model_id.unicode_len() == 0 {
            return Err(AppError::InvalidInput("Copilot BYOK model id is required".to_string()));
        }
        if self.name.unicode_len() == 0 {
            return Err(AppError::InvalidInput("Copilot BYOK display name is required".to_string()));
        }
        if !self.model_options.is_null() && !self.model_options.is_object() {
            return Err(
                AppError::InvalidInput(
                    "Copilot BYOK model options must be a JSON object".to_string(),
                ),
            );
        }
        if exceeds_safe_exec(self.context_window) || exceeds_safe_exec(self.max_output_tokens)
            || exceeds_safe_exec(self.max_input_tokens) {
            return Err(
                AppError::InvalidInput(
                    "Copilot BYOK token limits must be JavaScript-safe integers".to_string(),
                ),
            );
        }
        Ok(())
    }
}


/// Insert `k` with a JSON boolean when the option is set.
pub open spec fn ins_opt_bool(e: Seq<(Seq<char>, JsonView)>, k: Seq<char>, o: Option<bool>) -> Seq<
    (Seq<char>, JsonView),
> {
    match o {
        Some(b) => entries_insert(e, k, JsonView::Bool(b)),
        None => e,
    }
}

/// Insert `k` with a JSON number when the option is set.
pub open spec fn ins_opt_num(e: Seq<(Seq<char>, JsonView)>, k: Seq<char>, o: Option<u64>) -> Seq<
    (Seq<char>, JsonView),
> {
    match o {
        Some(n) => entries_insert(e, k, JsonView::Number(decimal(n as nat))),
        None => e,
    }
}

/// Insert `k` with a JSON string array when the list is not empty.
pub open spec fn ins_list(e: Seq<(Seq<char>, JsonView)>, k: Seq<char>, l: Seq<Seq<char>>) -> Seq<
    (Seq<char>, JsonView),
> {
    if l.len() > 0 {
        entries_insert(e, k, JsonView::Array(str_items(l)))
    } else {
        e
    }
}

/// The `chatLanguageModels.json` entry of one model: its unknown fields, then
/// id, name, url, every capability and limit that is set, the non-empty
/// lists, the retention flag when true, the effort format, the request
/// headers when there are any, and non-empty model options.
pub open spec fn language_model_json(m: CopilotByokModel, url: Seq<char>, headers: Seq<(Seq<char>, Seq<char>)>) -> JsonView {
    let e0 = insert_all(Seq::empty(), entries_view(m.extra@));
    let e1 = entries_insert(e0, "id"@, JsonView::Str(m.model_id@));
    let e2 = entries_insert(e1, "name"@, JsonView::Str(m.name@));
    let e3 = entries_insert(e2, "url"@, JsonView::Str(url));
    let e4 = ins_opt_bool(e3, "toolCalling"@, m.tool_calling);
    let e5 = ins_opt_bool(e4, "vision"@, m.vision);
    let e6 = ins_opt_bool(e5, "thinking"@, m.thinking);
    let e7 = ins_opt_bool(e6, "streaming"@, m.streaming);
    let e8 = ins_opt_num(e7, "contextWindow"@, m.context_window);
    let e9 = ins_opt_num(e8, "maxOutputTokens"@, m.max_output_tokens);
    let e10 = ins_opt_num(e9, "maxInputTokens"@, m.max_input_tokens);
    let e11 = ins_list(e10, "editTools"@, strs(m.edit_tools@));
    let e12 = if m.zero_data_retention_enabled {
        entries_insert(e11, "zeroDataRetentionEnabled"@, JsonView::Bool(true))
    } else {
        e11
    };
    let e13 = ins_list(e12, "supportsReasoningEffort"@, strs(m.supports_reasoning_effort@));
    let e14 = match m.reasoning_effort_format {
        Some(f) => entries_insert(e13, "reasoningEffortFormat"@, JsonView::Str(f@)),
        None => e13,
    };
    let e15 = if headers.len() > 0 {
        entries_insert(e14, "requestHeaders"@, JsonView::Object(str_entries(headers)))
    } else {
        e14
    };
    let e16 = if !(m.model_options@ is Null) && m.model_options@ != JsonView::Object(Seq::empty()) {
        entries_insert(e15, "modelOptions"@, m.model_options@)
    } else {
        e15
    };
    JsonView::Object(e16)
}

fn insert_opt_bool(e: &mut Vec<(String, JsonValue)>, k: &str, o: Option<bool>)
    ensures
        entries_view(final(e)@) == ins_opt_bool(entries_view(old(e)@), k@, o),
{
    if let Some(b) = o {
        entries_insert_exec(e, k.to_string(), JsonValue::Bool(b));
    }
}

fn insert_opt_num(e: &mut Vec<(String, JsonValue)>, k: &str, o: Option<u64>)
    ensures
        entries_view(final(e)@) == ins_opt_num(entries_view(old(e)@), k@, o),
{
    if let Some(n) = o {
        entries_insert_exec(e, k.to_string(), JsonValue::from_u64(n));
    }
}

fn insert_list(e: &mut Vec<(String, JsonValue)>, k: &str, l: &Vec<String>)
    ensures
        entries_view(final(e)@) == ins_list(entries_view(old(e)@), k@, strs(l@)),
{
    if l.len() > 0 {
        entries_insert_exec(e, k.to_string(), string_array(l));
    }
}

fn is_empty_object(v: &JsonValue) -> (r: bool)
    ensures
        r == (v@ == JsonView::Object(Seq::empty())),
{
    match v {
        JsonValue::Object(e) => {
            proof {
                crate::json::lemma_entries_view(e@);
            }
            e.len() == 0
        },
        _ => false,
    }
}

impl CopilotByokModel {
    /// The model's `chatLanguageModels.json` entry, using the group's URL and
    /// request headers.
    pub fn to_language_model(&self, url: &str, request_headers: &Vec<(String, String)>) -> (r:
        JsonValue)
        ensures
            r@ == language_model_json(*self, url@, pairs_view(request_headers@)),
    {
        let mut e = entries_collect(&self.extra);
        entries_insert_exec(&mut e, "id".to_string(), JsonValue::Str(self.model_id.clone()));
        entries_insert_exec(&mut e, "name".to_string(), JsonValue::Str(self.name.clone()));
        entries_insert_exec(&mut e, "url".to_string(), JsonValue::from_str(url));
        insert_opt_bool(&mut e, "toolCalling", self.tool_calling);
        insert_opt_bool(&mut e, "vision", self.vision);
        insert_opt_bool(&mut e, "thinking", self.thinking);
        insert_opt_bool(&mut e, "streaming", self.streaming);
        insert_opt_num(&mut e, "contextWindow", self.context_window);
        insert_opt_num(&mut e, "maxOutputTokens", self.max_output_tokens);
        insert_opt_num(&mut e, "maxInputTokens", self.max_input_tokens);
        insert_list(&mut e, "editTools", &self.edit_tools);
        if self.zero_data_retention_enabled {
            entries_insert_exec(&mut e, "zeroDataRetentionEnabled".to_string(), JsonValue::Bool(true));
        }
        insert_list(&mut e, "supportsReasoningEffort", &self.supports_reasoning_effort);
        if let Some(f) = &self.reasoning_effort_format {
            entries_insert_exec(&mut e, "reasoningEffortFormat".to_string(), JsonValue::Str(f.clone()));
        }
        if request_headers.len() > 0 {
            entries_insert_exec(&mut e, "requestHeaders".to_string(), string_pairs_object(request_headers));
        }
        if !self.model_options.is_null() && !is_empty_object(&self.model_options) {
            entries_insert_exec(&mut e, "modelOptions".to_string(), json_clone(&self.model_options));
        }
        JsonValue::Object(e)
    }
}


/// One Custom Endpoint provider: a shared connection (URL, key, protocol,
/// request headers) and the models served through it.
#[derive(Debug)]
pub struct CopilotByokGroup {
    pub id: String,
    pub name: String,
    pub url: String,
    pub api_key: String,
    /// `chat-completions`, `responses` or `messages`.
    pub api_type: String,
    pub website_url: Option<String>,
    pub notes: Option<String>,
    pub icon: Option<String>,
    pub icon_color: Option<String>,
    pub enabled: bool,
    /// Request headers in key order; values may hold `${apiKey}`.
    pub request_headers: Vec<(String, String)>,
    pub models: Vec<CopilotByokModel>,
    /// Unknown provider-level VS Code fields.
    pub extra: Vec<(String, JsonValue)>,
}

/// A header name that already carries credentials.
pub open spec fn is_auth_header_name(n: Seq<char>) -> bool {
    ||| n == "authorization"@
    ||| n == "proxy-authorization"@
    ||| n == "api-key"@
    ||| n == "x-api-key"@
    ||| n == "anthropic-api-key"@
    ||| n == "x-goog-api-key"@
}

/// Some header name, trimmed and ASCII-lowercased, carries credentials.
pub open spec fn has_explicit_auth(h: Seq<(Seq<char>, Seq<char>)>) -> bool {
    exists|i: int| 0 <= i < h.len() && is_auth_header_name(ascii_lower(trim_spec(#[trigger] h[i].0)))
}

/// Some header name equals `name` ignoring ASCII case.
pub open spec fn has_header_ci(h: Seq<(Seq<char>, Seq<char>)>, name: Seq<char>) -> bool {
    exists|i: int| 0 <= i < h.len() && ascii_lower(#[trigger] h[i].0) == ascii_lower(name)
}

/// The configured headers with `${apiKey}` expanded to the key, unless the
/// key is a SecretStorage reference that VS Code expands itself.
pub open spec fn expanded_headers(g: CopilotByokGroup) -> Seq<(Seq<char>, Seq<char>)> {
    insert_all(Seq::empty(), expand_all(pairs_view(g.request_headers@), g.api_key@))
}

/// One header with `${apiKey}` expanded, unless `key` is a SecretStorage
/// reference.
pub open spec fn expand_pair(p: (Seq<char>, Seq<char>), key: Seq<char>) -> (Seq<char>, Seq<char>) {
    (p.0, if is_secret_reference_spec(key) {
        p.1
    } else {
        replace_spec(p.1, "${apiKey}"@, key)
    })
}

pub open spec fn expand_all(h: Seq<(Seq<char>, Seq<char>)>, key: Seq<char>) -> Seq<(Seq<char>, Seq<char>)> {
    h.map_values(|p: (Seq<char>, Seq<char>)| expand_pair(p, key))
}

/// The request headers every projected model carries: the expanded
/// configured headers, plus the group key as `x-api-key` (Messages API) or
/// `Authorization: Bearer` (otherwise) when a literal key is set and no
/// credential header is configured, plus `anthropic-version: 2023-06-01` for
/// the Messages API when no such header is configured.
pub open spec fn effective_headers(g: CopilotByokGroup) -> Seq<(Seq<char>, Seq<char>)> {
    let base = expanded_headers(g);
    let resolves = is_secret_reference_spec(g.api_key@);
    let messages = g.api_type@ == "messages"@;
    let h1 = if g.api_key@.len() > 0 && !resolves && !has_explicit_auth(base) {
        if messages {
            entries_insert(base, "x-api-key"@, g.api_key@)
        } else {
            entries_insert(base, "Authorization"@, "Bearer "@ + g.api_key@)
        }
    } else {
        base
    };
    if messages && !has_header_ci(h1, "anthropic-version"@) {
        entries_insert(h1, "anthropic-version"@, "2023-06-01"@)
    } else {
        h1
    }
}

fn has_explicit_auth_exec(h: &Vec<(String, String)>) -> (r: bool)
    ensures
        r == has_explicit_auth(pairs_view(h@)),
{
    let n = h.len();
    let mut i: usize = 0;
    while i < n
        invariant
            n == h@.len(),
            i <= n,
            forall|k: int|
                0 <= k < i ==> !is_auth_header_name(ascii_lower(trim_spec(#[trigger] pairs_view(h@)[k].0))),
        decreases n - i,
    {
        let t = trim(h[i].0.as_str());
        let l = to_ascii_lowercase(t.as_str());
        let ls = l.as_str();
        assert(pairs_view(h@)[i as int].0 == h@[i as int].0@);
        if str_eq(ls, "authorization") || str_eq(ls, "proxy-authorization") || str_eq(ls, "api-key")
            || str_eq(ls, "x-api-key") || str_eq(ls, "anthropic-api-key") || str_eq(
            ls,
            "x-goog-api-key",
        ) {
            return true;
        }
        i = i + 1;
    }
    false
}

fn has_header_ci_exec(h: &Vec<(String, String)>, name: &str) -> (r: bool)
    ensures
        r == has_header_ci(pairs_view(h@), name@),
{
    let n = h.len();
    let mut i: usize = 0;
    while i < n
        invariant
            n == h@.len(),
            i <= n,
            forall|k: int|
                0 <= k < i ==> ascii_lower(#[trigger] pairs_view(h@)[k].0) != ascii_lower(name@),
        decreases n - i,
    {
        assert(pairs_view(h@)[i as int].0 == h@[i as int].0@);
        if eq_ignore_ascii_case(h[i].0.as_str(), name) {
            return true;
        }
        i = i + 1;
    }
    false
}

impl CopilotByokGroup {
    /// The headers of [`effective_headers`].
    pub fn effective_request_headers(&self) -> (r: Vec<(String, String)>)
        ensures
            pairs_view(r@) == effective_headers(*self),
    {
        let resolves = is_vscode_secret_reference(self.api_key.as_str());
        let mut mapped: Vec<(String, String)> = Vec::new();
        let n = self.request_headers.len();
        let mut i: usize = 0;
        proof {
            reveal_strlit("${apiKey}");
        }
        while i < n
            invariant
                n == self.request_headers@.len(),
                i <= n,
                resolves == is_secret_reference_spec(self.api_key@),
                "${apiKey}"@.len() > 0,
                pairs_view(mapped@) == expand_all(pairs_view(self.request_headers@).take(i as int), self.api_key@),
            decreases n - i,
        {
            let name = self.request_headers[i].0.clone();
            let value = if resolves {
                self.request_headers[i].1.clone()
            } else {
                replace_all(self.request_headers[i].1.as_str(), "${apiKey}", self.api_key.as_str())
            };
            let ghost prev = pairs_view(mapped@);
            assert(value@ == expand_pair(pairs_view(self.request_headers@)[i as int], self.api_key@).1);
            mapped.push((name, value));
            assert(pairs_view(mapped@) =~= prev.push(expand_pair(pairs_view(self.request_headers@)[i as int], self.api_key@)));
            assert(pairs_view(self.request_headers@).take(i + 1) =~= pairs_view(self.request_headers@).take(i as int).push(pairs_view(self.request_headers@)[i as int]));
            assert(pairs_view(mapped@) =~= expand_all(pairs_view(self.request_headers@).take(i + 1), self.api_key@));
            i = i + 1;
        }
        assert(pairs_view(self.request_headers@).take(n as int) =~= pairs_view(self.request_headers@));
        let mut headers = pairs_collect(&mapped);
        let is_messages = str_eq(self.api_type.as_str(), "messages");
        if self.api_key.unicode_len() > 0 && !resolves && !has_explicit_auth_exec(&headers) {
            if is_messages {
                pairs_insert(&mut headers, "x-api-key".to_string(), self.api_key.clone());
            } else {
                let v = "Bearer ".to_string().concat(self.api_key.as_str());
                pairs_insert(&mut headers, "Authorization".to_string(), v);
            }
        }
        if is_messages && !has_header_ci_exec(&headers, "anthropic-version") {
            pairs_insert(&mut headers, "anthropic-version".to_string(), "2023-06-01".to_string());
        }
        headers
    }
}


/// Trimmed headers with blank names dropped, collected into a key-ordered
/// map (a later duplicate name wins).
pub open spec fn norm_headers(s: Seq<(Seq<char>, Seq<char>)>) -> Seq<(Seq<char>, Seq<char>)>
    decreases s.len(),
{
    if s.len() == 0 {
        Seq::empty()
    } else {
        let acc = norm_headers(s.drop_last());
        let k = trim_spec(s.last().0);
        if k.len() == 0 {
            acc
        } else {
            entries_insert(acc, k, trim_spec(s.last().1))
        }
    }
}

/// Normalized headers hold each name once, in ascending order.
pub proof fn lemma_norm_headers_sorted(s: Seq<(Seq<char>, Seq<char>)>)
    ensures
        keys_sorted(norm_headers(s)),
    decreases s.len(),
{
    if s.len() > 0 {
        lemma_norm_headers_sorted(s.drop_last());
        let k = trim_spec(s.last().0);
        if k.len() > 0 {
            lemma_entries_insert_sorted(norm_headers(s.drop_last()), k, trim_spec(s.last().1));
        }
    }
}

/// `n` is what [`CopilotByokGroup::normalize`] makes of `o`.
pub open spec fn group_normalized(o: CopilotByokGroup, n: CopilotByokGroup) -> bool {
    &&& trim_spec(o.id@).len() > 0 ==> n.id@ == trim_spec(o.id@)
    &&& trim_spec(o.id@).len() == 0 ==> n.id@.len() == 36
    &&& n.name@ == trim_spec(o.name@)
    &&& n.url@ == trim_spec(o.url@)
    &&& n.api_key@ == trim_spec(o.api_key@)
    &&& n.api_type@ == ascii_lower(trim_spec(o.api_type@))
    &&& opt_str(n.website_url) == trim_nonempty_spec(opt_str(o.website_url))
    &&& opt_str(n.notes) == trim_nonempty_spec(opt_str(o.notes))
    &&& opt_str(n.icon) == trim_nonempty_spec(opt_str(o.icon))
    &&& opt_str(n.icon_color) == trim_nonempty_spec(opt_str(o.icon_color))
    &&& n.enabled == o.enabled
    &&& pairs_view(n.request_headers@) == norm_headers(pairs_view(o.request_headers@))
    &&& n.models@.len() == o.models@.len()
    &&& forall|i: int| 0 <= i < o.models@.len() ==> model_normalized(#[trigger] o.models@[i], n.models@[i])
    &&& entries_view(n.extra@) == insert_all(Seq::empty(), entries_view(o.extra@))
}

pub fn normalize_headers(h: &Vec<(String, String)>) -> (r: Vec<(String, String)>)
    ensures
        pairs_view(r@) == norm_headers(pairs_view(h@)),
{
    let mut out: Vec<(String, String)> = Vec::new();
    let n = h.len();
    let mut i: usize = 0;
    assert(pairs_view(out@) =~= norm_headers(pairs_view(h@).take(0)));
    while i < n
        invariant
            n == h@.len(),
            i <= n,
            pairs_view(out@) == norm_headers(pairs_view(h@).take(i as int)),
        decreases n - i,
    {
        let k = trim(h[i].0.as_str());
        let ghost p = pairs_view(h@).take(i + 1);
        assert(p.drop_last() =~= pairs_view(h@).take(i as int));
        assert(p.last() == (h@[i as int].0@, h@[i as int].1@));
        if k.unicode_len() > 0 {
            let v = trim(h[i].1.as_str());
            pairs_insert(&mut out, k, v);
        }
        i = i + 1;
    }
    assert(pairs_view(h@).take(n as int) =~= pairs_view(h@));
    out
}

/// A URL that is absolute HTTP(S) with a host.
pub open spec fn http_like(u: UrlPartsView) -> bool {
    (u.scheme == "http"@ || u.scheme == "https"@) && u.host is Some
}

/// The first problem with the request headers, in key order: a blank or
/// multi-line name or value, a name `HeaderName` rejects, or a name that
/// repeats (ignoring ASCII case) one in `seen` or earlier.
pub open spec fn headers_problem(h: Seq<(Seq<char>, Seq<char>)>, seen: Set<Seq<char>>) -> Option<Seq<char>>
    decreases h.len(),
{
    if h.len() == 0 {
        None
    } else {
        let n = h[0].0;
        let v = h[0].1;
        if trim_spec(n).len() == 0 || has_char(n, '\r') || has_char(n, '\n') || has_char(v, '\r')
            || has_char(v, '\n') {
            Some("Copilot BYOK request headers must not contain empty names or newlines"@)
        } else if !header_name_valid(n) {
            Some("Invalid Copilot BYOK request header name "@ + n + ": "@ + "invalid HTTP header name"@)
        } else if seen.contains(ascii_lower(n)) {
            Some("Duplicate Copilot BYOK request header name: "@ + n)
        } else {
            headers_problem(h.skip(1), seen.insert(ascii_lower(n)))
        }
    }
}

/// The first effective header whose value `HeaderValue` rejects.
pub open spec fn values_problem(h: Seq<(Seq<char>, Seq<char>)>) -> Option<Seq<char>>
    decreases h.len(),
{
    if h.len() == 0 {
        None
    } else if !header_value_valid(h[0].1) {
        Some("Invalid Copilot BYOK request header value for "@ + h[0].0 + ": "@ + "failed to parse header value"@)
    } else {
        values_problem(h.skip(1))
    }
}

/// The first model that is invalid or repeats an internal id, a model id
/// (ignoring case) or a display name (ignoring case).
pub open spec fn models_problem(
    ms: Seq<CopilotByokModel>,
    group_name: Seq<char>,
    ids: Set<Seq<char>>,
    model_ids: Set<Seq<char>>,
    names: Set<Seq<char>>,
) -> Option<Seq<char>>
    decreases ms.len(),
{
    if ms.len() == 0 {
        None
    } else {
        let m = ms[0];
        if model_problem(m) is Some {
            model_problem(m)
        } else if ids.contains(m.id@) {
            Some("Duplicate Copilot BYOK internal model id: "@ + m.id@)
        } else if model_ids.contains(unicode_lowercase(m.model_id@)) {
            Some("Duplicate Copilot BYOK model id in "@ + group_name + ": "@ + m.model_id@)
        } else if names.contains(unicode_lowercase(m.name@)) {
            Some("Duplicate Copilot BYOK display name in "@ + group_name + ": "@ + m.name@)
        } else {
            models_problem(
                ms.skip(1),
                group_name,
                ids.insert(m.id@),
                model_ids.insert(unicode_lowercase(m.model_id@)),
                names.insert(unicode_lowercase(m.name@)),
            )
        }
    }
}

pub open spec fn api_type_supported(t: Seq<char>) -> bool {
    t == "chat-completions"@ || t == "responses"@ || t == "messages"@
}

/// Checks after the endpoint: API type, key, website, models, headers.
pub open spec fn group_problem_after_url(g: CopilotByokGroup) -> Option<Seq<char>> {
    if !api_type_supported(g.api_type@) {
        Some("Unsupported Copilot BYOK API type: "@ + g.api_type@)
    } else if has_char(g.api_key@, '\r') || has_char(g.api_key@, '\n') {
        Some("Copilot BYOK API key must not contain newlines"@)
    } else {
        match opt_str(g.website_url) {
            Some(w) => match url_parse(w) {
                Err(e) => Some("Invalid provider website URL: "@ + e),
                Ok(u) => if !http_like(u) {
                    Some("Provider website must be an absolute HTTP(S) URL"@)
                } else {
                    group_problem_rest(g)
                },
            },
            None => group_problem_rest(g),
        }
    }
}

/// Checks of the models and headers.
pub open spec fn group_problem_rest(g: CopilotByokGroup) -> Option<Seq<char>> {
    if g.models@.len() == 0 {
        Some("Copilot BYOK provider must contain at least one model"@)
    } else if headers_problem(pairs_view(g.request_headers@), Set::empty()) is Some {
        headers_problem(pairs_view(g.request_headers@), Set::empty())
    } else if values_problem(effective_headers(g)) is Some {
        values_problem(effective_headers(g))
    } else {
        models_problem(g.models@, g.name@, Set::empty(), Set::empty(), Set::empty())
    }
}

/// The first reason a group fails validation, in the order the checks run.
pub open spec fn group_problem(g: CopilotByokGroup) -> Option<Seq<char>> {
    if g.name@.len() == 0 {
        Some("Copilot BYOK provider name is required"@)
    } else {
        match url_parse(g.url@) {
            Err(e) => Some("Invalid Copilot BYOK endpoint URL: "@ + e),
            Ok(u) => if !http_like(u) {
                Some("Copilot BYOK endpoint must be an absolute HTTP(S) URL"@)
            } else {
                group_problem_after_url(g)
            },
        }
    }
}

pub fn http_like_exec(u: &crate::bridge::UrlParts) -> (r: bool)
    ensures
        r == http_like(u@),
{
    (str_eq(u.scheme.as_str(), "http") || str_eq(u.scheme.as_str(), "https")) && u.host.is_some()
}

fn headers_check(h: &Vec<(String, String)>) -> (r: Result<(), AppError>)
    ensures
        match r {
            Ok(()) => headers_problem(pairs_view(h@), Set::empty()) is None,
            Err(e) => headers_problem(pairs_view(h@), Set::empty()) matches Some(m) && e@
                == ErrView::InvalidInput(m),
        },
{
    let mut seen: Vec<String> = Vec::new();
    let n = h.len();
    let mut i: usize = 0;
    assert(pairs_view(h@).skip(0) =~= pairs_view(h@));
    assert(strs(seen@).to_set() =~= Set::<Seq<char>>::empty());
    while i < n
        invariant
            n == h@.len(),
            i <= n,
            headers_problem(pairs_view(h@), Set::empty()) == headers_problem(
                pairs_view(h@).skip(i as int),
                strs(seen@).to_set(),
            ),
        decreases n - i,
    {
        let ghost rest = pairs_view(h@).skip(i as int);
        assert(rest[0] == (h@[i as int].0@, h@[i as int].1@));
        let name = h[i].0.as_str();
        let value = h[i].1.as_str();
        let t = trim(name);
        if t.unicode_len() == 0 || contains_char(name, '\r') || contains_char(name, '\n')
            || contains_char(value, '\r') || contains_char(value, '\n') {
            return Err(
                AppError::InvalidInput(
                    "Copilot BYOK request headers must not contain empty names or newlines".to_string(),
                ),
            );
        }
        match check_header_name(name) {
            Ok(()) => {},
            Err(msg) => {
                let m = "Invalid Copilot BYOK request header name ".to_string().concat(name).concat(
                    ": ",
                ).concat(msg.as_str());
                return Err(AppError::InvalidInput(m));
            },
        }
        let lower = to_ascii_lowercase(name);
        if contains_str(&seen, lower.as_str()) {
            proof {
                assert(strs(seen@).to_set().contains(lower@));
            }
            let m = "Duplicate Copilot BYOK request header name: ".to_string().concat(name);
            return Err(AppError::InvalidInput(m));
        }
        let ghost before = strs(seen@);
        seen.push(lower);
        proof {
            assert(strs(seen@) =~= before.push(ascii_lower(name@)));
            before.lemma_push_to_set_commute(ascii_lower(name@));
            assert(rest.skip(1) =~= pairs_view(h@).skip(i + 1));
            if before.to_set().contains(ascii_lower(name@)) {
                assert(before.contains(ascii_lower(name@)));
            }
        }
        i = i + 1;
    }
    Ok(())
}

fn values_check(h: &Vec<(String, String)>) -> (r: Result<(), AppError>)
    ensures
        match r {
            Ok(()) => values_problem(pairs_view(h@)) is None,
            Err(e) => values_problem(pairs_view(h@)) matches Some(m) && e@ == ErrView::InvalidInput(m),
        },
{
    let n = h.len();
    let mut i: usize = 0;
    assert(pairs_view(h@).skip(0) =~= pairs_view(h@));
    while i < n
        invariant
            n == h@.len(),
            i <= n,
            values_problem(pairs_view(h@)) == values_problem(pairs_view(h@).skip(i as int)),
        decreases n - i,
    {
        let ghost rest = pairs_view(h@).skip(i as int);
        assert(rest[0] == (h@[i as int].0@, h@[i as int].1@));
        match check_header_value(h[i].1.as_str()) {
            Ok(()) => {},
            Err(msg) => {
                let m = "Invalid Copilot BYOK request header value for ".to_string().concat(
                    h[i].0.as_str(),
                ).concat(": ").concat(msg.as_str());
                return Err(AppError::InvalidInput(m));
            },
        }
        assert(rest.skip(1) =~= pairs_view(h@).skip(i + 1));
        i = i + 1;
    }
    Ok(())
}

fn models_check(ms: &Vec<CopilotByokModel>, group_name: &String) -> (r: Result<(), AppError>)
    ensures
        match r {
            Ok(()) => models_problem(ms@, group_name@, Set::empty(), Set::empty(), Set::empty()) is None,
            Err(e) => models_problem(ms@, group_name@, Set::empty(), Set::empty(), Set::empty()) matches Some(m)
                && e@ == ErrView::InvalidInput(m),
        },
{
    let mut ids: Vec<String> = Vec::new();
    let mut model_ids: Vec<String> = Vec::new();
    let mut names: Vec<String> = Vec::new();
    let n = ms.len();
    let mut i: usize = 0;
    assert(ms@.skip(0) =~= ms@);
    assert(strs(ids@).to_set() =~= Set::<Seq<char>>::empty());
    assert(strs(model_ids@).to_set() =~= Set::<Seq<char>>::empty());
    assert(strs(names@).to_set() =~= Set::<Seq<char>>::empty());
    while i < n
        invariant
            n == ms@.len(),
            i <= n,
            models_problem(ms@, group_name@, Set::empty(), Set::empty(), Set::empty())
                == models_problem(
                ms@.skip(i as int),
                group_name@,
                strs(ids@).to_set(),
                strs(model_ids@).to_set(),
                strs(names@).to_set(),
            ),
        decreases n - i,
    {
        let ghost rest = ms@.skip(i as int);
        let m = &ms[i];
        assert(rest[0] == *m);
        match m.validate() {
            Ok(()) => {},
            Err(e) => {
                return Err(e);
            },
        }
        if contains_str(&ids, m.id.as_str()) {
            proof {
                assert(strs(ids@).to_set().contains(m.id@));
            }
            let msg = "Duplicate Copilot BYOK internal model id: ".to_string().concat(m.id.as_str());
            return Err(AppError::InvalidInput(msg));
        }
        let lower_id = to_lowercase(m.model_id.as_str());
        if contains_str(&model_ids, lower_id.as_str()) {
            proof {
                assert(strs(model_ids@).to_set().contains(lower_id@));
                if strs(ids@).to_set().contains(m.id@) {
                    assert(strs(ids@).contains(m.id@));
                }
            }
            let msg = "Duplicate Copilot BYOK model id in ".to_string().concat(group_name.as_str()).concat(
                ": ",
            ).concat(m.model_id.as_str());
            return Err(AppError::InvalidInput(msg));
        }
        let lower_name = to_lowercase(m.name.as_str());
        if contains_str(&names, lower_name.as_str()) {
            proof {
                assert(strs(names@).to_set().contains(lower_name@));
                if strs(ids@).to_set().contains(m.id@) {
                    assert(strs(ids@).contains(m.id@));
                }
                if strs(model_ids@).to_set().contains(lower_id@) {
                    assert(strs(model_ids@).contains(lower_id@));
                }
            }
            let msg = "Duplicate Copilot BYOK display name in ".to_string().concat(group_name.as_str()).concat(
                ": ",
            ).concat(m.name.as_str());
            return Err(AppError::InvalidInput(msg));
        }
        proof {
            if strs(ids@).to_set().contains(m.id@) {
                assert(strs(ids@).contains(m.id@));
            }
            if strs(model_ids@).to_set().contains(lower_id@) {
                assert(strs(model_ids@).contains(lower_id@));
            }
            if strs(names@).to_set().contains(lower_name@) {
                assert(strs(names@).contains(lower_name@));
            }
        }
        let ghost (b1, b2, b3) = (strs(ids@), strs(model_ids@), strs(names@));
        ids.push(m.id.clone());
        model_ids.push(lower_id);
        names.push(lower_name);
        proof {
            assert(strs(ids@) =~= b1.push(m.id@));
            assert(strs(model_ids@) =~= b2.push(unicode_lowercase(m.model_id@)));
            assert(strs(names@) =~= b3.push(unicode_lowercase(m.name@)));
            b1.lemma_push_to_set_commute(m.id@);
            b2.lemma_push_to_set_commute(unicode_lowercase(m.model_id@));
            b3.lemma_push_to_set_commute(unicode_lowercase(m.name@));
            assert(rest.skip(1) =~= ms@.skip(i + 1));
        }
        i = i + 1;
    }
    Ok(())
}

impl CopilotByokGroup {
    /// Trims text fields (lowercasing the API type), assigns a fresh id when
    /// the id is blank, drops blank optional texts, normalizes the request
    /// headers and every model.
    pub fn normalize(&mut self)
        ensures
            group_normalized(*old(self), *final(self)),
            group_maps_sorted(*final(self)),
    {
        proof {
            lemma_insert_all_sorted(Seq::<(Seq<char>, JsonView)>::empty(), entries_view(self.extra@));
            lemma_norm_headers_sorted(pairs_view(self.request_headers@));
        }
        self.extra = entries_collect(&self.extra);
        self.id = normalized_id(self.id.as_str());
        self.name = trim(self.name.as_str());
        self.url = trim(self.url.as_str());
        self.api_key = trim(self.api_key.as_str());
        let t = trim(self.api_type.as_str());
        self.api_type = to_ascii_lowercase(t.as_str());
        self.website_url = trim_nonempty(&self.website_url);
        self.notes = trim_nonempty(&self.notes);
        self.icon = trim_nonempty(&self.icon);
        self.icon_color = trim_nonempty(&self.icon_color);
        self.request_headers = normalize_headers(&self.request_headers);
        let mut old_models: Vec<CopilotByokModel> = Vec::new();
        std::mem::swap(&mut old_models, &mut self.models);
        let ghost orig = old_models@;
        let mut out: Vec<CopilotByokModel> = Vec::new();
        let n = old_models.len();
        let mut i: usize = 0;
        while i < n
            invariant
                n == orig.len(),
                i <= n,
                old_models@ == orig.skip(i as int),
                out@.len() == i,
                forall|j: int| 0 <= j < i ==> model_normalized(#[trigger] orig[j], out@[j]),
                forall|j: int| 0 <= j < i ==> model_maps_sorted(#[trigger] out@[j]),
            decreases n - i,
        {
            let mut m = old_models.remove(0);
            assert(m == orig[i as int]);
            m.normalize();
            out.push(m);
            assert(old_models@ =~= orig.skip(i + 1));
            i = i + 1;
        }
        self.models = out;
    }

    /// Checks the provider in order: name, endpoint URL, API type, key,
    /// website, models present, request headers, effective header values,
    /// then each model and the uniqueness of ids, model ids and names.
    pub fn validate(&self) -> (r: Result<(), AppError>)
        ensures
            r is Ok <==> group_problem(*self) is None,
            r matches Err(e) ==> e@ == ErrView::InvalidInput(group_problem(*self)->0),
    {
        if self.name.unicode_len() == 0 {
            return Err(AppError::InvalidInput("Copilot BYOK provider name is required".to_string()));
        }
        match parse_url(self.url.as_str()) {
            Err(e) => {
                let m = "Invalid Copilot BYOK endpoint URL: ".to_string().concat(e.as_str());
                return Err(AppError::InvalidInput(m));
            },
            Ok(u) => {
                if !http_like_exec(&u) {
                    return Err(
                        AppError::InvalidInput(
                            "Copilot BYOK endpoint must be an absolute HTTP(S) URL".to_string(),
                        ),
                    );
                }
            },
        }
        let t = self.api_type.as_str();
        if !(str_eq(t, "chat-completions") || str_eq(t, "responses") || str_eq(t, "messages")) {
            let m = "Unsupported Copilot BYOK API type: ".to_string().concat(t);
            return Err(AppError::InvalidInput(m));
        }
        if contains_char(self.api_key.as_str(), '\r') || contains_char(self.api_key.as_str(), '\n') {
            return Err(
                AppError::InvalidInput("Copilot BYOK API key must not contain newlines".to_string()),
            );
        }
        if let Some(w) = &self.website_url {
            match parse_url(w.as_str()) {
                Err(e) => {
                    let m = "Invalid provider website URL: ".to_string().concat(e.as_str());
                    return Err(AppError::InvalidInput(m));
                },
                Ok(u) => {
                    if !http_like_exec(&u) {
                        return Err(
                            AppError::InvalidInput(
                                "Provider website must be an absolute HTTP(S) URL".to_string(),
                            ),
                        );
                    }
                },
            }
        }
        if self.models.len() == 0 {
            return Err(
                AppError::InvalidInput(
                    "Copilot BYOK provider must contain at least one model".to_string(),
                ),
            );
        }
        headers_check(&self.request_headers)?;
        let effective = self.effective_request_headers();
        values_check(&effective)?;
        models_check(&self.models, &self.name)
    }
}


/// Number of enabled models.
pub open spec fn count_enabled(ms: Seq<CopilotByokModel>) -> nat
    decreases ms.len(),
{
    if ms.len() == 0 {
        0
    } else {
        count_enabled(ms.drop_last()) + if ms.last().enabled {
            1nat
        } else {
            0nat
        }
    }
}

/// Entries of the enabled models, in order.
pub open spec fn enabled_models_json(
    ms: Seq<CopilotByokModel>,
    url: Seq<char>,
    headers: Seq<(Seq<char>, Seq<char>)>,
) -> Seq<JsonView>
    decreases ms.len(),
{
    if ms.len() == 0 {
        Seq::empty()
    } else {
        let p = enabled_models_json(ms.drop_last(), url, headers);
        if ms.last().enabled {
            p.push(language_model_json(ms.last(), url, headers))
        } else {
            p
        }
    }
}

/// The managed `chatLanguageModels.json` group of a provider: its unknown
/// fields, then name, vendor `customendpoint`, key, API type, the managed
/// marker, the group id and the entries of the enabled models, which carry
/// the connection URL and effective headers (a group-level `url` would make
/// VS Code ignore the static models).
pub open spec fn language_model_group_json(g: CopilotByokGroup) -> JsonView {
    let models = enabled_models_json(g.models@, g.url@, effective_headers(g));
    let e0 = insert_all(Seq::empty(), entries_view(g.extra@));
    let e1 = entries_insert(e0, "name"@, JsonView::Str(g.name@));
    let e2 = entries_insert(e1, "vendor"@, JsonView::Str("customendpoint"@));
    let e3 = entries_insert(e2, "apiKey"@, JsonView::Str(g.api_key@));
    let e4 = entries_insert(e3, "apiType"@, JsonView::Str(g.api_type@));
    let e5 = entries_insert(e4, "ccSwitchManaged"@, JsonView::Bool(true));
    let e6 = entries_insert(e5, "ccSwitchGroupId"@, JsonView::Str(g.id@));
    let e7 = entries_insert(e6, "models"@, JsonView::Array(models));
    JsonView::Object(e7)
}

/// A `chatLanguageModels.json` group this library manages: a Custom Endpoint
/// group with the managed marker set, or whose name has the legacy prefix.
pub open spec fn is_managed_group_spec(v: JsonView) -> bool {
    &&& get_str(v.get("vendor"@)) == Some("customendpoint"@)
    &&& (get_bool(v.get("ccSwitchManaged"@)) == Some(true) || (get_str(v.get("name"@)) matches Some(
        n,
    ) && starts_with_spec(n, "CC Switch:"@)))
}

impl CopilotByokGroup {
    /// Models that VS Code will list: none when the provider is disabled.
    pub fn enabled_model_count(&self) -> (r: usize)
        ensures
            r == if self.enabled {
                count_enabled(self.models@)
            } else {
                0
            },
    {
        if !self.enabled {
            return 0;
        }
        let mut count: usize = 0;
        let n = self.models.len();
        let mut i: usize = 0;
        while i < n
            invariant
                n == self.models@.len(),
                i <= n,
                count == count_enabled(self.models@.take(i as int)),
                count <= i,
            decreases n - i,
        {
            assert(self.models@.take(i + 1).drop_last() =~= self.models@.take(i as int));
            if self.models[i].enabled {
                count = count + 1;
            }
            i = i + 1;
        }
        assert(self.models@.take(n as int) =~= self.models@);
        count
    }

    /// The provider's managed `chatLanguageModels.json` group.
    pub fn to_language_model_group(&self) -> (r: JsonValue)
        ensures
            r@ == language_model_group_json(*self),
    {
        let headers = self.effective_request_headers();
        let mut models: Vec<JsonValue> = Vec::new();
        let n = self.models.len();
        let mut i: usize = 0;
        while i < n
            invariant
                n == self.models@.len(),
                i <= n,
                pairs_view(headers@) == effective_headers(*self),
                items_view(models@) == enabled_models_json(self.models@.take(i as int), self.url@, effective_headers(*self)),
            decreases n - i,
        {
            assert(self.models@.take(i + 1).drop_last() =~= self.models@.take(i as int));
            if self.models[i].enabled {
                let j = self.models[i].to_language_model(self.url.as_str(), &headers);
                let ghost before = models@;
                models.push(j);
                assert(models@.drop_last() =~= before);
            }
            i = i + 1;
        }
        assert(self.models@.take(n as int) =~= self.models@);
        let mut e = entries_collect(&self.extra);
        entries_insert_exec(&mut e, "name".to_string(), JsonValue::Str(self.name.clone()));
        entries_insert_exec(&mut e, "vendor".to_string(), JsonValue::from_str("customendpoint"));
        entries_insert_exec(&mut e, "apiKey".to_string(), JsonValue::Str(self.api_key.clone()));
        entries_insert_exec(&mut e, "apiType".to_string(), JsonValue::Str(self.api_type.clone()));
        entries_insert_exec(&mut e, "ccSwitchManaged".to_string(), JsonValue::Bool(true));
        entries_insert_exec(&mut e, "ccSwitchGroupId".to_string(), JsonValue::Str(self.id.clone()));
        entries_insert_exec(&mut e, "models".to_string(), JsonValue::Array(models));
        JsonValue::Object(e)
    }
}

/// Whether a `chatLanguageModels.json` group is managed by this library.
pub fn is_managed_group(value: &JsonValue) -> (r: bool)
    ensures
        r == is_managed_group_spec(value@),
{
    let vendor_ok = match value.get("vendor") {
        Some(v) => match v.as_str() {
            Some(s) => str_eq(s.as_str(), "customendpoint"),
            None => false,
        },
        None => false,
    };
    if !vendor_ok {
        return false;
    }
    let marker = match value.get("ccSwitchManaged") {
        Some(v) => v.as_bool(),
        None => None,
    };
    if marker == Some(true) {
        return true;
    }
    match value.get("name") {
        Some(v) => match v.as_str() {
            Some(s) => starts_with(s.as_str(), "CC Switch:"),
            None => false,
        },
        None => false,
    }
}

/// Serde default for flags that are on unless stored otherwise.
pub fn default_true() -> (r: bool)
    ensures
        r,
{
    true
}

/// Serde default API type.
pub fn default_api_type() -> (r: String)
    ensures
        r@ == "chat-completions"@,
{
    "chat-completions".to_string()
}

proof fn lemma_get_ins_opt_bool(e: Seq<(Seq<char>, JsonView)>, k: Seq<char>, o: Option<bool>, k2: Seq<char>)
    ensures
        entries_get(ins_opt_bool(e, k, o), k2) == if k2 == k && o is Some {
            Some(JsonView::Bool(o->0))
        } else {
            entries_get(e, k2)
        },
{
    if let Some(b) = o {
        lemma_get_after_insert(e, k, JsonView::Bool(b), k2);
    }
}

proof fn lemma_get_ins_opt_num(e: Seq<(Seq<char>, JsonView)>, k: Seq<char>, o: Option<u64>, k2: Seq<char>)
    ensures
        entries_get(ins_opt_num(e, k, o), k2) == if k2 == k && o is Some {
            Some(JsonView::Number(decimal(o->0 as nat)))
        } else {
            entries_get(e, k2)
        },
{
    if let Some(n) = o {
        lemma_get_after_insert(e, k, JsonView::Number(decimal(n as nat)), k2);
    }
}

proof fn lemma_get_ins_list(e: Seq<(Seq<char>, JsonView)>, k: Seq<char>, l: Seq<Seq<char>>, k2: Seq<char>)
    ensures
        k2 != k ==> entries_get(ins_list(e, k, l), k2) == entries_get(e, k2),
{
    if l.len() > 0 {
        lemma_get_after_insert(e, k, JsonView::Array(str_items(l)), k2);
    }
}

/// The keys a model entry sets from the model's own fields.
spec fn model_entry_key(k: Seq<char>) -> bool {
    ||| k == "id"@
    ||| k == "name"@
    ||| k == "url"@
    ||| k == "toolCalling"@
    ||| k == "vision"@
    ||| k == "thinking"@
    ||| k == "streaming"@
    ||| k == "contextWindow"@
    ||| k == "maxOutputTokens"@
    ||| k == "maxInputTokens"@
}

proof fn lemma_language_model_get(m: CopilotByokModel, url: Seq<char>, headers: Seq<(Seq<char>, Seq<char>)>, k: Seq<char>)
    requires
        model_entry_key(k),
    ensures
        language_model_json(m, url, headers) matches JsonView::Object(e) && {
            &&& k == "id"@ ==> entries_get(e, k) == Some(JsonView::Str(m.model_id@))
            &&& k == "name"@ ==> entries_get(e, k) == Some(JsonView::Str(m.name@))
            &&& k == "url"@ ==> entries_get(e, k) == Some(JsonView::Str(url))
            &&& (k == "toolCalling"@ && m.tool_calling is Some) ==> entries_get(e, k) == Some(JsonView::Bool(m.tool_calling->0))
            &&& (k == "vision"@ && m.vision is Some) ==> entries_get(e, k) == Some(JsonView::Bool(m.vision->0))
            &&& (k == "thinking"@ && m.thinking is Some) ==> entries_get(e, k) == Some(JsonView::Bool(m.thinking->0))
            &&& (k == "streaming"@ && m.streaming is Some) ==> entries_get(e, k) == Some(JsonView::Bool(m.streaming->0))
            &&& (k == "contextWindow"@ && m.context_window is Some) ==> entries_get(e, k) == Some(JsonView::Number(decimal(m.context_window->0 as nat)))
            &&& (k == "maxOutputTokens"@ && m.max_output_tokens is Some) ==> entries_get(e, k) == Some(JsonView::Number(decimal(m.max_output_tokens->0 as nat)))
            &&& (k == "maxInputTokens"@ && m.max_input_tokens is Some) ==> entries_get(e, k) == Some(JsonView::Number(decimal(m.max_input_tokens->0 as nat)))
        },
{
    reveal_strlit("id");
    reveal_strlit("name");
    reveal_strlit("url");
    reveal_strlit("toolCalling");
    reveal_strlit("vision");
    reveal_strlit("thinking");
    reveal_strlit("streaming");
    reveal_strlit("contextWindow");
    reveal_strlit("maxOutputTokens");
    reveal_strlit("maxInputTokens");
    reveal_strlit("editTools");
    reveal_strlit("zeroDataRetentionEnabled");
    reveal_strlit("supportsReasoningEffort");
    reveal_strlit("reasoningEffortFormat");
    reveal_strlit("requestHeaders");
    reveal_strlit("modelOptions");
    assert("streaming"@[0] != "editTools"@[0]);
    assert("maxInputTokens"@[0] != "requestHeaders"@[0]);
    let e0 = insert_all(Seq::empty(), entries_view(m.extra@));
    let e1 = entries_insert(e0, "id"@, JsonView::Str(m.model_id@));
    let e2 = entries_insert(e1, "name"@, JsonView::Str(m.name@));
    let e3 = entries_insert(e2, "url"@, JsonView::Str(url));
    let e4 = ins_opt_bool(e3, "toolCalling"@, m.tool_calling);
    let e5 = ins_opt_bool(e4, "vision"@, m.vision);
    let e6 = ins_opt_bool(e5, "thinking"@, m.thinking);
    let e7 = ins_opt_bool(e6, "streaming"@, m.streaming);
    let e8 = ins_opt_num(e7, "contextWindow"@, m.context_window);
    let e9 = ins_opt_num(e8, "maxOutputTokens"@, m.max_output_tokens);
    let e10 = ins_opt_num(e9, "maxInputTokens"@, m.max_input_tokens);
    let e11 = ins_list(e10, "editTools"@, strs(m.edit_tools@));
    let e12 = if m.zero_data_retention_enabled {
        entries_insert(e11, "zeroDataRetentionEnabled"@, JsonView::Bool(true))
    } else {
        e11
    };
    let e13 = ins_list(e12, "supportsReasoningEffort"@, strs(m.supports_reasoning_effort@));
    let e14 = match m.reasoning_effort_format {
        Some(f) => entries_insert(e13, "reasoningEffortFormat"@, JsonView::Str(f@)),
        None => e13,
    };
    let e15 = if headers.len() > 0 {
        entries_insert(e14, "requestHeaders"@, JsonView::Object(str_entries(headers)))
    } else {
        e14
    };
    lemma_get_after_insert(e0, "id"@, JsonView::Str(m.model_id@), k);
    lemma_get_after_insert(e1, "name"@, JsonView::Str(m.name@), k);
    lemma_get_after_insert(e2, "url"@, JsonView::Str(url), k);
    lemma_get_ins_opt_bool(e3, "toolCalling"@, m.tool_calling, k);
    lemma_get_ins_opt_bool(e4, "vision"@, m.vision, k);
    lemma_get_ins_opt_bool(e5, "thinking"@, m.thinking, k);
    lemma_get_ins_opt_bool(e6, "streaming"@, m.streaming, k);
    lemma_get_ins_opt_num(e7, "contextWindow"@, m.context_window, k);
    lemma_get_ins_opt_num(e8, "maxOutputTokens"@, m.max_output_tokens, k);
    lemma_get_ins_opt_num(e9, "maxInputTokens"@, m.max_input_tokens, k);
    lemma_get_ins_list(e10, "editTools"@, strs(m.edit_tools@), k);
    lemma_get_after_insert(e11, "zeroDataRetentionEnabled"@, JsonView::Bool(true), k);
    lemma_get_ins_list(e12, "supportsReasoningEffort"@, strs(m.supports_reasoning_effort@), k);
    if let Some(f) = m.reasoning_effort_format {
        lemma_get_after_insert(e13, "reasoningEffortFormat"@, JsonView::Str(f@), k);
    }
    lemma_get_after_insert(e14, "requestHeaders"@, JsonView::Object(str_entries(headers)), k);
    lemma_get_after_insert(e15, "modelOptions"@, m.model_options@, k);
}

/// A model's `chatLanguageModels.json` entry carries the model: its wire id
/// as `id`, its display name, the group's URL, and every capability flag
/// (`toolCalling`, `vision`, `thinking`, `streaming`) and token limit
/// (`contextWindow`, `maxOutputTokens`, `maxInputTokens`) the model sets,
/// with the model's value.
pub proof fn lemma_language_model_carries_model(m: CopilotByokModel, url: Seq<char>, headers: Seq<(Seq<char>, Seq<char>)>)
    ensures
        ({
            let j = language_model_json(m, url, headers);
            &&& j.get("id"@) == Some(JsonView::Str(m.model_id@))
            &&& j.get("name"@) == Some(JsonView::Str(m.name@))
            &&& j.get("url"@) == Some(JsonView::Str(url))
            &&& (m.tool_calling matches Some(b) ==> j.get("toolCalling"@) == Some(JsonView::Bool(b)))
            &&& (m.vision matches Some(b) ==> j.get("vision"@) == Some(JsonView::Bool(b)))
            &&& (m.thinking matches Some(b) ==> j.get("thinking"@) == Some(JsonView::Bool(b)))
            &&& (m.streaming matches Some(b) ==> j.get("streaming"@) == Some(JsonView::Bool(b)))
            &&& (m.context_window matches Some(n) ==> j.get("contextWindow"@) == Some(JsonView::Number(decimal(n as nat))))
            &&& (m.max_output_tokens matches Some(n) ==> j.get("maxOutputTokens"@) == Some(JsonView::Number(decimal(n as nat))))
            &&& (m.max_input_tokens matches Some(n) ==> j.get("maxInputTokens"@) == Some(JsonView::Number(decimal(n as nat))))
        }),
{
    lemma_language_model_get(m, url, headers, "id"@);
    lemma_language_model_get(m, url, headers, "name"@);
    lemma_language_model_get(m, url, headers, "url"@);
    lemma_language_model_get(m, url, headers, "toolCalling"@);
    lemma_language_model_get(m, url, headers, "vision"@);
    lemma_language_model_get(m, url, headers, "thinking"@);
    lemma_language_model_get(m, url, headers, "streaming"@);
    lemma_language_model_get(m, url, headers, "contextWindow"@);
    lemma_language_model_get(m, url, headers, "maxOutputTokens"@);
    lemma_language_model_get(m, url, headers, "maxInputTokens"@);
}

/// A group whose endpoint parses as an `http` or `https` URL with a host is
/// never refused for its endpoint: with a name, its validation goes on to
/// the checks that follow the endpoint (plain HTTP endpoints, such as a
/// local server, are accepted as HTTPS ones are).
pub proof fn lemma_http_endpoints_pass_the_endpoint_check(g: CopilotByokGroup)
    ensures
        g.name@.len() > 0 && (url_parse(g.url@) matches Ok(u) && (u.scheme == "http"@ || u.scheme == "https"@) && u.host is Some)
            ==> group_problem(g) == group_problem_after_url(g),
{
}

proof fn lemma_enabled_models_json_members(ms: Seq<CopilotByokModel>, url: Seq<char>, headers: Seq<(Seq<char>, Seq<char>)>)
    ensures
        forall|i: int| 0 <= i < ms.len() && #[trigger] ms[i].enabled ==> enabled_models_json(ms, url, headers).contains(
            language_model_json(ms[i], url, headers),
        ),
        forall|j: int| 0 <= j < enabled_models_json(ms, url, headers).len() ==> exists|i: int| 0 <= i < ms.len() && ms[i].enabled
            && #[trigger] enabled_models_json(ms, url, headers)[j] == language_model_json(ms[i], url, headers),
    decreases ms.len(),
{
    if ms.len() > 0 {
        let init = ms.drop_last();
        lemma_enabled_models_json_members(init, url, headers);
        let p = enabled_models_json(init, url, headers);
        let r = enabled_models_json(ms, url, headers);
        assert forall|i: int| 0 <= i < ms.len() && #[trigger] ms[i].enabled implies r.contains(language_model_json(ms[i], url, headers)) by {
            if i < ms.len() - 1 {
                assert(init[i] == ms[i]);
                let j = choose|j: int| 0 <= j < p.len() && p[j] == language_model_json(init[i], url, headers);
                assert(r[j] == p[j]);
            } else {
                assert(r[r.len() - 1] == language_model_json(ms[i], url, headers));
            }
        }
        assert forall|j: int| 0 <= j < r.len() implies exists|i: int| 0 <= i < ms.len() && ms[i].enabled
            && #[trigger] r[j] == language_model_json(ms[i], url, headers) by {
            if j < p.len() {
                assert(r[j] == p[j]);
                let i = choose|i: int| 0 <= i < init.len() && init[i].enabled && p[j] == language_model_json(init[i], url, headers);
                assert(init[i] == ms[i]);
            } else {
                assert(r[j] == language_model_json(ms[ms.len() - 1], url, headers));
            }
        }
    }
}

/// The group a provider writes into `chatLanguageModels.json` lists exactly
/// its enabled models, each as its own entry (see
/// [`lemma_language_model_carries_model`]) with the provider's URL and
/// request headers: every enabled model's entry is in the `models` array,
/// and every entry there is that of an enabled model.
pub proof fn lemma_group_lists_enabled_models(g: CopilotByokGroup)
    ensures
        language_model_group_json(g).get("models"@) matches Some(JsonView::Array(items)) && {
            &&& forall|i: int| 0 <= i < g.models@.len() && #[trigger] g.models@[i].enabled ==> items.contains(
                language_model_json(g.models@[i], g.url@, effective_headers(g)),
            )
            &&& forall|j: int| 0 <= j < items.len() ==> exists|i: int| 0 <= i < g.models@.len() && g.models@[i].enabled
                && #[trigger] items[j] == language_model_json(g.models@[i], g.url@, effective_headers(g))
        },
{
    let models = enabled_models_json(g.models@, g.url@, effective_headers(g));
    let e0 = insert_all(Seq::empty(), entries_view(g.extra@));
    let e1 = entries_insert(e0, "name"@, JsonView::Str(g.name@));
    let e2 = entries_insert(e1, "vendor"@, JsonView::Str("customendpoint"@));
    let e3 = entries_insert(e2, "apiKey"@, JsonView::Str(g.api_key@));
    let e4 = entries_insert(e3, "apiType"@, JsonView::Str(g.api_type@));
    let e5 = entries_insert(e4, "ccSwitchManaged"@, JsonView::Bool(true));
    let e6 = entries_insert(e5, "ccSwitchGroupId"@, JsonView::Str(g.id@));
    lemma_get_after_insert(e6, "models"@, JsonView::Array(models), "models"@);
    lemma_enabled_models_json_members(g.models@, g.url@, effective_headers(g));
}

} // verus!
