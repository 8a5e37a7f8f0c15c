//! Importing the Custom Endpoint groups a user already has in a VS Code
//! target into the single-list model format: reading the entries, deriving
//! stable ids, reusing equivalent models and keeping display names unique.

use vstd::prelude::*;
use vstd::string::StrSliceExecFns;
use vstd::string::StringExecFns;
use crate::bridge::{opt_str, new_uuid, url_parse, parse_url, sha256_hex, sha256_hex_of};
use crate::error::{AppError, ErrView};
use crate::json::{JsonValue, JsonView, items_view, lemma_items_view, entries_view, lemma_entries_view, json_clone, opt_view, entries_lookup, get_str};
use crate::kv::{insert_all, pairs_view, pairs_insert, entries_insert, sorted_keys, sort_dedup};
use crate::model::{lemma_norm_headers_sorted, strs, keep_first_nonempty, trimmed_all, clean_list, trim_nonempty, trim_nonempty_spec, normalized_id, norm_headers, normalize_headers, http_like, http_like_exec, api_type_supported, exceeds_safe, MAX_SAFE_JSON_INTEGER};
use crate::text::{trim, trim_spec, ascii_lower, to_ascii_lowercase, str_eq, contains_sub, contains_text, as_u64_spec, parse_u64_text, lemma_trim_nonblank, is_ws};
use crate::model::{is_managed_group, is_managed_group_spec, contains_str};
use crate::store::CopilotByokStore;
use crate::kv::keys_sorted;

verus! {

/// Context window of an imported model that gives none.
pub const DEFAULT_CONTEXT_WINDOW: u64 = 128000;
/// Output limit of an imported model that gives none.
pub const DEFAULT_MAX_OUTPUT_TOKENS: u64 = 8192;

/// A model of the single-list format: each model carries its own
/// connection.
#[derive(Debug)]
pub struct ImportedModel {
    pub id: String,
    pub model_id: String,
    pub name: String,
    pub url: String,
    pub api_key: String,
    pub api_type: String,
    pub enabled: bool,
    pub tool_calling: bool,
    pub vision: bool,
    pub thinking: bool,
    pub streaming: bool,
    pub context_window: u64,
    pub max_input_tokens: Option<u64>,
    pub max_output_tokens: u64,
    pub edit_tools: Vec<String>,
    pub zero_data_retention_enabled: bool,
    pub supports_reasoning_effort: Vec<String>,
    pub reasoning_effort_format: Option<String>,
    pub request_headers: Vec<(String, String)>,
    pub model_options: JsonValue,
}

/// Model of [`ImportedModel`].
pub struct ImportedView {
    pub id: Seq<char>,
    pub model_id: Seq<char>,
    pub name: Seq<char>,
    pub url: Seq<char>,
    pub api_key: Seq<char>,
    pub api_type: Seq<char>,
    pub enabled: bool,
    pub tool_calling: bool,
    pub vision: bool,
    pub thinking: bool,
    pub streaming: bool,
    pub context_window: u64,
    pub max_input_tokens: Option<u64>,
    pub max_output_tokens: u64,
    pub edit_tools: Seq<Seq<char>>,
    pub zero_data_retention_enabled: bool,
    pub supports_reasoning_effort: Seq<Seq<char>>,
    pub reasoning_effort_format: Option<Seq<char>>,
    pub request_headers: Seq<(Seq<char>, Seq<char>)>,
    pub model_options: JsonView,
}

impl View for ImportedModel {
    type V = ImportedView;

    open spec fn view(&self) -> ImportedView {
        ImportedView {
            id: self.id@,
            model_id: self.model_id@,
            name: self.name@,
            url: self.url@,
            api_key: self.api_key@,
            api_type: self.api_type@,
            enabled: self.enabled,
            tool_calling: self.tool_calling,
            vision: self.vision,
            thinking: self.thinking,
            streaming: self.streaming,
            context_window: self.context_window,
            max_input_tokens: self.max_input_tokens,
            max_output_tokens: self.max_output_tokens,
            edit_tools: strs(self.edit_tools@),
            zero_data_retention_enabled: self.zero_data_retention_enabled,
            supports_reasoning_effort: strs(self.supports_reasoning_effort@),
            reasoning_effort_format: opt_str(self.reasoning_effort_format),
            request_headers: pairs_view(self.request_headers@),
            model_options: self.model_options@,
        }
    }
}

pub open spec fn imported_views(ms: Seq<ImportedModel>) -> Seq<ImportedView> {
    ms.map_values(|m: ImportedModel| m@)
}

/// `n` is what [`ImportedModel::normalize`] makes of `o`: text trimmed (the
/// API type also lowercased), a blank id replaced by a fresh 36-character
/// id, the edit tools without blanks or repeats, the reasoning efforts
/// without blanks, sorted and without repeats, the headers normalized.
pub open spec fn imported_normalized(o: ImportedView, n: ImportedView) -> bool {
    &&& trim_spec(o.id).len() > 0 ==> n.id == trim_spec(o.id)
    &&& trim_spec(o.id).len() == 0 ==> n.id.len() == 36
    &&& n.model_id == trim_spec(o.model_id)
    &&& n.name == trim_spec(o.name)
    &&& n.url == trim_spec(o.url)
    &&& n.api_key == trim_spec(o.api_key)
    &&& n.api_type == ascii_lower(trim_spec(o.api_type))
    &&& n.enabled == o.enabled
    &&& n.tool_calling == o.tool_calling
    &&& n.vision == o.vision
    &&& n.thinking == o.thinking
    &&& n.streaming == o.streaming
    &&& n.context_window == o.context_window
    &&& n.max_input_tokens == o.max_input_tokens
    &&& n.max_output_tokens == o.max_output_tokens
    &&& n.edit_tools == keep_first_nonempty(o.edit_tools.map_values(|s: Seq<char>| trim_spec(s)))
    &&& n.zero_data_retention_enabled == o.zero_data_retention_enabled
    &&& n.supports_reasoning_effort == sorted_keys(keep_first_nonempty(o.supports_reasoning_effort.map_values(|s: Seq<char>| trim_spec(s))))
    &&& n.reasoning_effort_format == trim_nonempty_spec(o.reasoning_effort_format)
    &&& n.request_headers == norm_headers(o.request_headers)
    &&& n.model_options == o.model_options
}

/// The first reason a model fails validation.
pub open spec fn imported_problem(m: ImportedView) -> Option<Seq<char>> {
    if m.model_id.len() == 0 {
        Some("Copilot BYOK model id is required"@)
    } else if m.name.len() == 0 {
        Some("Copilot BYOK display name is required"@)
    } else {
        match url_parse(m.url) {
            Err(e) => Some("Invalid Copilot BYOK endpoint URL: "@ + e),
            Ok(u) => if !http_like(u) {
                Some("Copilot BYOK endpoint must be an absolute HTTP(S) URL"@)
            } else if !api_type_supported(m.api_type) {
                Some("Unsupported Copilot BYOK API type: "@ + m.api_type)
            } else if !(m.model_options is Null) && !(m.model_options is Object) {
                Some("Copilot BYOK model options must be a JSON object"@)
            } else if m.context_window > MAX_SAFE_JSON_INTEGER || m.max_output_tokens > MAX_SAFE_JSON_INTEGER
                || exceeds_safe(m.max_input_tokens) {
                Some("Copilot BYOK token limits must be JavaScript-safe integers"@)
            } else {
                None
            },
        }
    }
}

proof fn lemma_strs_trimmed(v: Seq<String>)
    ensures
        strs(v).map_values(|s: Seq<char>| trim_spec(s)) == trimmed_all(v),
{
    assert(strs(v).map_values(|s: Seq<char>| trim_spec(s)) =~= trimmed_all(v));
}

impl ImportedModel {
    /// Trims text fields, assigns a fresh id when the id is blank, cleans the
    /// edit-tool list, sorts the reasoning efforts and normalizes headers.
    pub fn normalize(&mut self)
        ensures
            imported_normalized(old(self)@, final(self)@),
            keys_sorted(pairs_view(final(self).request_headers@)),
    {
        proof {
            lemma_norm_headers_sorted(pairs_view(self.request_headers@));
            lemma_strs_trimmed(self.edit_tools@);
            lemma_strs_trimmed(self.supports_reasoning_effort@);
        }
        self.id = normalized_id(self.id.as_str());
        self.model_id = trim(self.model_id.as_str());
        self.name = trim(self.name.as_str());
        self.url = trim(self.url.as_str());
        self.api_key = trim(self.api_key.as_str());
        let t = trim(self.api_type.as_str());
        self.api_type = to_ascii_lowercase(t.as_str());
        self.edit_tools = clean_list(&self.edit_tools);
        let efforts = clean_list(&self.supports_reasoning_effort);
        self.supports_reasoning_effort = sort_dedup(&efforts);
        assert(strs(self.supports_reasoning_effort@) == self.supports_reasoning_effort@.map_values(|x: String| x@));
        self.reasoning_effort_format = trim_nonempty(&self.reasoning_effort_format);
        self.request_headers = normalize_headers(&self.request_headers);
    }

    /// Checks the model id, display name, endpoint, API type, model options
    /// and token limits.
    pub fn validate(&self) -> (r: Result<(), AppError>)
        ensures
            r is Ok <==> imported_problem(self@) is None,
            r matches Err(e) ==> e@ == ErrView::InvalidInput(imported_problem(self@)->0),
    {
        if self.model_id.unicode_len() == 0 {
            return Err(AppError::InvalidInput("Copilot BYOK model id is required".to_string()));
        }
        if self.name.unicode_len() == 0 {
            return Err(AppError::InvalidInput("Copilot BYOK display name is required".to_string()));
        }
        match parse_url(self.url.as_str()) {
            Err(e) => {
                return Err(AppError::InvalidInput("Invalid Copilot BYOK endpoint URL: ".to_string().concat(e.as_str())));
            },
            Ok(u) => {
                if !http_like_exec(&u) {
                    return Err(AppError::InvalidInput("Copilot BYOK endpoint must be an absolute HTTP(S) URL".to_string()));
                }
            },
        }
        let t = self.api_type.as_str();
        if !(str_eq(t, "chat-completions") || str_eq(t, "responses") || str_eq(t, "messages")) {
            return Err(AppError::InvalidInput("Unsupported Copilot BYOK API type: ".to_string().concat(t)));
        }
        if !self.model_options.is_null() && !self.model_options.is_object() {
            return Err(AppError::InvalidInput("Copilot BYOK model options must be a JSON object".to_string()));
        }
        let input_too_big = match self.max_input_tokens {
            Some(v) => v > MAX_SAFE_JSON_INTEGER,
            None => false,
        };
        if self.context_window > MAX_SAFE_JSON_INTEGER || self.max_output_tokens > MAX_SAFE_JSON_INTEGER || input_too_big {
            return Err(AppError::InvalidInput("Copilot BYOK token limits must be JavaScript-safe integers".to_string()));
        }
        Ok(())
    }
}

/// A text field: the trimmed string when it is a non-blank JSON string.
pub open spec fn vstring(o: Option<JsonView>) -> Option<Seq<char>> {
    match o {
        Some(JsonView::Str(s)) => if trim_spec(s).len() > 0 { Some(trim_spec(s)) } else { None },
        _ => None,
    }
}

/// `value.and_then(Value::as_str).map(str::trim).filter(non-empty)`.
pub fn value_string(value: Option<&JsonValue>) -> (r: Option<String>)
    ensures
        opt_str(r) == vstring(opt_view(value)),
{
    match value {
        Some(JsonValue::Str(s)) => {
            let t = trim(s.as_str());
            if t.unicode_len() > 0 {
                Some(t)
            } else {
                None
            }
        },
        _ => None,
    }
}

/// A non-negative integer field.
pub open spec fn vu64(o: Option<JsonView>) -> Option<u64> {
    match o {
        Some(JsonView::Number(t)) => as_u64_spec(t),
        _ => None,
    }
}

/// `value.and_then(Value::as_u64)`.
pub fn value_u64(value: Option<&JsonValue>) -> (r: Option<u64>)
    ensures
        r == vu64(opt_view(value)),
{
    match value {
        Some(JsonValue::Number(t)) => parse_u64_text(t.as_str()),
        _ => None,
    }
}

/// A flag, or the default.
pub open spec fn vbool(o: Option<JsonView>, default: bool) -> bool {
    match o {
        Some(JsonView::Bool(b)) => b,
        _ => default,
    }
}

/// `value.and_then(Value::as_bool).unwrap_or(default)`.
pub fn value_bool(value: Option<&JsonValue>, default: bool) -> (r: bool)
    ensures
        r == vbool(opt_view(value), default),
{
    match value {
        Some(JsonValue::Bool(b)) => *b,
        _ => default,
    }
}

/// The trimmed non-blank strings of an array, in order (repeats kept).
pub open spec fn strings_of(items: Seq<JsonView>) -> Seq<Seq<char>>
    decreases items.len(),
{
    if items.len() == 0 {
        Seq::empty()
    } else {
        let p = strings_of(items.drop_last());
        match items.last() {
            JsonView::Str(s) => if trim_spec(s).len() > 0 { p.push(trim_spec(s)) } else { p },
            _ => p,
        }
    }
}

pub open spec fn varray_strings(o: Option<JsonView>) -> Seq<Seq<char>> {
    match o {
        Some(JsonView::Array(items)) => strings_of(items),
        _ => Seq::empty(),
    }
}

/// The trimmed, non-blank strings of a JSON array.
pub fn string_array(value: Option<&JsonValue>) -> (r: Vec<String>)
    ensures
        strs(r@) == varray_strings(opt_view(value)),
{
    let mut out: Vec<String> = Vec::new();
    match value {
        Some(JsonValue::Array(items)) => {
            proof {
                lemma_items_view(items@);
            }
            let n = items.len();
            let mut i: usize = 0;
            while i < n
                invariant
                    n == items@.len(),
                    i <= n,
                    items_view(items@).len() == n,
                    forall|j: int| 0 <= j < n ==> #[trigger] items_view(items@)[j] == items@[j]@,
                    strs(out@) == strings_of(items_view(items@).take(i as int)),
                decreases n - i,
            {
                assert(items_view(items@).take(i + 1).drop_last() =~= items_view(items@).take(i as int));
                assert(items_view(items@).take(i + 1).last() == items@[i as int]@);
                match &items[i] {
                    JsonValue::Str(s) => {
                        let t = trim(s.as_str());
                        if t.unicode_len() > 0 {
                            let ghost before = strs(out@);
                            out.push(t);
                            assert(strs(out@) =~= before.push(t@));
                        }
                    },
                    _ => {},
                }
                i = i + 1;
            }
            assert(items_view(items@).take(n as int) =~= items_view(items@));
        },
        _ => {},
    }
    out
}

/// The text of a string, boolean or number field.
pub open spec fn field_text(v: JsonView) -> Option<Seq<char>> {
    match v {
        JsonView::Str(s) => Some(s),
        JsonView::Bool(b) => Some(if b { "true"@ } else { "false"@ }),
        JsonView::Number(t) => Some(t),
        _ => None,
    }
}

/// The fields of an object that render as text, in order.
pub open spec fn text_fields(e: Seq<(Seq<char>, JsonView)>) -> Seq<(Seq<char>, Seq<char>)>
    decreases e.len(),
{
    if e.len() == 0 {
        Seq::empty()
    } else {
        let p = text_fields(e.drop_last());
        match field_text(e.last().1) {
            Some(t) => p.push((e.last().0, t)),
            None => p,
        }
    }
}

pub open spec fn vstring_map(o: Option<JsonView>) -> Seq<(Seq<char>, Seq<char>)> {
    match o {
        Some(JsonView::Object(e)) => insert_all(Seq::empty(), text_fields(e)),
        _ => Seq::empty(),
    }
}

/// The string, boolean and number fields of a JSON object as text,
/// collected into a key-ordered map.
pub fn string_map(value: Option<&JsonValue>) -> (r: Vec<(String, String)>)
    ensures
        pairs_view(r@) == vstring_map(opt_view(value)),
{
    let mut out: Vec<(String, String)> = Vec::new();
    match value {
        Some(JsonValue::Object(entries)) => {
            proof {
                lemma_entries_view(entries@);
            }
            let n = entries.len();
            let mut i: usize = 0;
            assert(pairs_view(out@) =~= insert_all(Seq::empty(), text_fields(entries_view(entries@).take(0))));
            while i < n
                invariant
                    n == entries@.len(),
                    i <= n,
                    entries_view(entries@).len() == n,
                    forall|j: int| 0 <= j < n ==> #[trigger] entries_view(entries@)[j] == (entries@[j].0@, entries@[j].1@),
                    pairs_view(out@) == insert_all(Seq::empty(), text_fields(entries_view(entries@).take(i as int))),
                decreases n - i,
            {
                let ghost pre = entries_view(entries@).take(i + 1);
                assert(pre.drop_last() =~= entries_view(entries@).take(i as int));
                assert(pre.last() == (entries@[i as int].0@, entries@[i as int].1@));
                let text: Option<String> = match &entries[i].1 {
                    JsonValue::Str(s) => Some(s.clone()),
                    JsonValue::Bool(b) => Some(if *b { "true".to_string() } else { "false".to_string() }),
                    JsonValue::Number(t) => Some(t.clone()),
                    _ => None,
                };
                match text {
                    Some(t) => {
                        proof {
                            assert(text_fields(pre) == text_fields(pre.drop_last()).push((entries@[i as int].0@, t@)));
                            assert(text_fields(pre).drop_last() =~= text_fields(pre.drop_last()));
                            assert(text_fields(pre).last() == (entries@[i as int].0@, t@));
                        }
                        pairs_insert(&mut out, entries[i].0.clone(), t);
                    },
                    None => {
                        assert(text_fields(pre) == text_fields(pre.drop_last()));
                    },
                }
                i = i + 1;
            }
            assert(entries_view(entries@).take(n as int) =~= entries_view(entries@));
        },
        _ => {},
    }
    out
}

/// The API type a URL suggests.
pub open spec fn infer_api_type_spec(url: Seq<char>) -> Seq<char> {
    if contains_sub(url, "/messages"@) {
        "messages"@
    } else if contains_sub(url, "/responses"@) {
        "responses"@
    } else {
        "chat-completions"@
    }
}

/// The API type a URL suggests: `messages`, `responses` or
/// `chat-completions`.
pub fn infer_api_type(url: &str) -> (r: String)
    ensures
        r@ == infer_api_type_spec(url@),
{
    if contains_text(url, "/messages") {
        "messages".to_string()
    } else if contains_text(url, "/responses") {
        "responses".to_string()
    } else {
        "chat-completions".to_string()
    }
}

/// A stable id for an imported model: `vscode-import:` and the first 24
/// hexadecimal digits of the SHA-256 of target, group name, model id and URL
/// joined by NUL characters.
pub open spec fn deterministic_id_spec(target_id: Seq<char>, group_name: Seq<char>, model_id: Seq<char>, url: Seq<char>) -> Seq<char> {
    "vscode-import:"@ + sha256_hex_of(target_id + seq!['\0'] + group_name + seq!['\0'] + model_id + seq!['\0'] + url).take(24)
}

/// See [`deterministic_id_spec`].
pub fn deterministic_model_id(target_id: &str, group_name: &str, model_id: &str, url: &str) -> (r: String)
    ensures
        r@ == deterministic_id_spec(target_id@, group_name@, model_id@, url@),
{
    let mut text = target_id.to_string();
    text.push('\0');
    let text = text.concat(group_name);
    let mut text = text;
    text.push('\0');
    let text = text.concat(model_id);
    let mut text = text;
    text.push('\0');
    let text = text.concat(url);
    assert(text@ =~= target_id@ + seq!['\0'] + group_name@ + seq!['\0'] + model_id@ + seq!['\0'] + url@);
    let digest = sha256_hex(text.as_str());
    let prefix = digest.as_str().substring_char(0, 24);
    "vscode-import:".to_string().concat(prefix)
}

/// Edit tools VS Code supports.
pub open spec fn supported_tool(t: Seq<char>) -> bool {
    t == "find-replace"@ || t == "multi-find-replace"@ || t == "apply-patch"@ || t == "code-rewrite"@
}

/// The supported edit tools, in order.
pub open spec fn supported_only(s: Seq<Seq<char>>) -> Seq<Seq<char>>
    decreases s.len(),
{
    if s.len() == 0 {
        Seq::empty()
    } else {
        let p = supported_only(s.drop_last());
        if supported_tool(s.last()) {
            p.push(s.last())
        } else {
            p
        }
    }
}

fn keep_supported(v: Vec<String>) -> (r: Vec<String>)
    ensures
        strs(r@) == supported_only(strs(v@)),
{
    let mut out: Vec<String> = Vec::new();
    let n = v.len();
    let mut i: usize = 0;
    while i < n
        invariant
            n == v@.len(),
            i <= n,
            strs(out@) == supported_only(strs(v@).take(i as int)),
        decreases n - i,
    {
        assert(strs(v@).take(i + 1).drop_last() =~= strs(v@).take(i as int));
        assert(strs(v@).take(i + 1).last() == v@[i as int]@);
        let t = v[i].as_str();
        if str_eq(t, "find-replace") || str_eq(t, "multi-find-replace") || str_eq(t, "apply-patch") || str_eq(t, "code-rewrite") {
            let ghost before = strs(out@);
            out.push(v[i].clone());
            assert(strs(out@) =~= before.push(v@[i as int]@));
        }
        i = i + 1;
    }
    assert(strs(v@).take(n as int) =~= strs(v@));
    out
}

/// What a model entry reads as before normalization: its id, name (the id
/// when absent), URL, key and API type (each falling back to the group's,
/// the API type last to what the URL suggests), flags and limits (with
/// their defaults), the supported edit tools, the group's headers overlaid
/// by the model's, and its options (else the group's, else `{}`).
pub open spec fn raw_model(target: Seq<char>, gname: Seq<char>, group: Seq<(Seq<char>, JsonView)>, value: JsonView) -> Result<ImportedView, Seq<char>> {
    let grp = JsonView::Object(group);
    match value {
        JsonView::Object(o) => match vstring(value.get("id"@)) {
            None => Err("model entry is missing id"@),
            Some(model_id) => {
                let name = match vstring(value.get("name"@)) { Some(n) => n, None => model_id };
                let url_opt = match vstring(value.get("url"@)) { Some(u) => Some(u), None => vstring(grp.get("url"@)) };
                match url_opt {
                    None => Err("model "@ + model_id + " is missing url"@),
                    Some(url) => {
                        let key_opt = match vstring(value.get("apiKey"@)) { Some(k) => Some(k), None => vstring(grp.get("apiKey"@)) };
                        match key_opt {
                            None => Err("model "@ + model_id + " is missing apiKey"@),
                            Some(api_key) => {
                                let api_type = match vstring(value.get("apiType"@)) {
                                    Some(t) => t,
                                    None => match vstring(grp.get("apiType"@)) { Some(t) => t, None => infer_api_type_spec(url) },
                                };
                                Ok(ImportedView {
                                    id: deterministic_id_spec(target, gname, model_id, url),
                                    model_id,
                                    name,
                                    url,
                                    api_key,
                                    api_type,
                                    enabled: true,
                                    tool_calling: vbool(value.get("toolCalling"@), false),
                                    vision: vbool(value.get("vision"@), false),
                                    thinking: vbool(value.get("thinking"@), false),
                                    streaming: vbool(value.get("streaming"@), true),
                                    context_window: match vu64(value.get("contextWindow"@)) { Some(v) => v, None => DEFAULT_CONTEXT_WINDOW },
                                    max_input_tokens: vu64(value.get("maxInputTokens"@)),
                                    max_output_tokens: match vu64(value.get("maxOutputTokens"@)) { Some(v) => v, None => DEFAULT_MAX_OUTPUT_TOKENS },
                                    edit_tools: supported_only(varray_strings(value.get("editTools"@))),
                                    zero_data_retention_enabled: vbool(value.get("zeroDataRetentionEnabled"@), false),
                                    supports_reasoning_effort: varray_strings(value.get("supportsReasoningEffort"@)),
                                    reasoning_effort_format: vstring(value.get("reasoningEffortFormat"@)),
                                    request_headers: insert_all(vstring_map(grp.get("requestHeaders"@)), vstring_map(value.get("requestHeaders"@))),
                                    model_options: match value.get("modelOptions"@) {
                                        Some(v) => v,
                                        None => match grp.get("modelOptions"@) { Some(v) => v, None => JsonView::Object(Seq::empty()) },
                                    },
                                })
                            },
                        }
                    },
                }
            },
        },
        _ => Err("model entry is not a JSON object"@),
    }
}

/// [`imported_normalized`] for a model whose id is not blank.
pub open spec fn normalized_view(o: ImportedView) -> ImportedView {
    ImportedView {
        id: trim_spec(o.id),
        model_id: trim_spec(o.model_id),
        name: trim_spec(o.name),
        url: trim_spec(o.url),
        api_key: trim_spec(o.api_key),
        api_type: ascii_lower(trim_spec(o.api_type)),
        edit_tools: keep_first_nonempty(o.edit_tools.map_values(|s: Seq<char>| trim_spec(s))),
        supports_reasoning_effort: sorted_keys(keep_first_nonempty(o.supports_reasoning_effort.map_values(|s: Seq<char>| trim_spec(s)))),
        reasoning_effort_format: trim_nonempty_spec(o.reasoning_effort_format),
        request_headers: norm_headers(o.request_headers),
        ..o
    }
}

/// What parsing a model entry yields: the normalized model, or the first
/// reason it cannot be represented.
pub open spec fn parse_model_spec(target: Seq<char>, gname: Seq<char>, group: Seq<(Seq<char>, JsonView)>, value: JsonView) -> Result<ImportedView, Seq<char>> {
    match raw_model(target, gname, group, value) {
        Err(e) => Err(e),
        Ok(r) => {
            let n = normalized_view(r);
            match imported_problem(n) {
                Some(p) => Err(p),
                None => Ok(n),
            }
        },
    }
}

fn lookup<'a>(entries: &'a Vec<(String, JsonValue)>, key: &str) -> (r: Option<&'a JsonValue>)
    ensures
        opt_view(r) == entries_get_view(entries@, key@),
{
    entries_lookup(entries, key)
}

pub open spec fn entries_get_view(e: Seq<(String, JsonValue)>, k: Seq<char>) -> Option<JsonView> {
    crate::kv::entries_get(entries_view(e), k)
}

/// Parses one model entry of a group, see [`parse_model_spec`]; the error
/// is the reason's text.
pub fn parse_model(target_id: &str, group_name: &str, group: &Vec<(String, JsonValue)>, value: &JsonValue) -> (r: Result<ImportedModel, String>)
    ensures
        match r {
            Ok(m) => parse_model_spec(target_id@, group_name@, entries_view(group@), value@) == Ok::<ImportedView, Seq<char>>(m@),
            Err(e) => parse_model_spec(target_id@, group_name@, entries_view(group@), value@) == Err::<ImportedView, Seq<char>>(e@),
        },
{
    let object = match value.as_object() {
        Some(o) => o,
        None => {
            return Err("model entry is not a JSON object".to_string());
        },
    };
    let model_id = match value_string(lookup(object, "id")) {
        Some(v) => v,
        None => {
            return Err("model entry is missing id".to_string());
        },
    };
    let name = match value_string(lookup(object, "name")) {
        Some(v) => v,
        None => model_id.clone(),
    };
    let url = match value_string(lookup(object, "url")) {
        Some(v) => v,
        None => match value_string(lookup(group, "url")) {
            Some(v) => v,
            None => {
                return Err("model ".to_string().concat(model_id.as_str()).concat(" is missing url"));
            },
        },
    };
    let api_key = match value_string(lookup(object, "apiKey")) {
        Some(v) => v,
        None => match value_string(lookup(group, "apiKey")) {
            Some(v) => v,
            None => {
                return Err("model ".to_string().concat(model_id.as_str()).concat(" is missing apiKey"));
            },
        },
    };
    let api_type = match value_string(lookup(object, "apiType")) {
        Some(v) => v,
        None => match value_string(lookup(group, "apiType")) {
            Some(v) => v,
            None => infer_api_type(url.as_str()),
        },
    };
    let edit_tools = keep_supported(string_array(lookup(object, "editTools")));
    let mut request_headers = string_map(lookup(group, "requestHeaders"));
    let model_headers = string_map(lookup(object, "requestHeaders"));
    let ghost base = pairs_view(request_headers@);
    let n = model_headers.len();
    let mut i: usize = 0;
    assert(pairs_view(model_headers@).take(0) =~= Seq::<(Seq<char>, Seq<char>)>::empty());
    while i < n
        invariant
            n == model_headers@.len(),
            i <= n,
            pairs_view(request_headers@) == insert_all(base, pairs_view(model_headers@).take(i as int)),
        decreases n - i,
    {
        assert(pairs_view(model_headers@).take(i + 1).drop_last() =~= pairs_view(model_headers@).take(i as int));
        assert(pairs_view(model_headers@).take(i + 1).last() == (model_headers@[i as int].0@, model_headers@[i as int].1@));
        pairs_insert(&mut request_headers, model_headers[i].0.clone(), model_headers[i].1.clone());
        i = i + 1;
    }
    assert(pairs_view(model_headers@).take(n as int) =~= pairs_view(model_headers@));
    let model_options = match lookup(object, "modelOptions") {
        Some(v) => json_clone(v),
        None => match lookup(group, "modelOptions") {
            Some(v) => json_clone(v),
            None => JsonValue::Object(Vec::new()),
        },
    };
    let id = deterministic_model_id(target_id, group_name, model_id.as_str(), url.as_str());
    let mut model = ImportedModel {
        id,
        model_id,
        name,
        url,
        api_key,
        api_type,
        enabled: true,
        tool_calling: value_bool(lookup(object, "toolCalling"), false),
        vision: value_bool(lookup(object, "vision"), false),
        thinking: value_bool(lookup(object, "thinking"), false),
        streaming: value_bool(lookup(object, "streaming"), true),
        context_window: match value_u64(lookup(object, "contextWindow")) {
            Some(v) => v,
            None => DEFAULT_CONTEXT_WINDOW,
        },
        max_input_tokens: value_u64(lookup(object, "maxInputTokens")),
        max_output_tokens: match value_u64(lookup(object, "maxOutputTokens")) {
            Some(v) => v,
            None => DEFAULT_MAX_OUTPUT_TOKENS,
        },
        edit_tools,
        zero_data_retention_enabled: value_bool(lookup(object, "zeroDataRetentionEnabled"), false),
        supports_reasoning_effort: string_array(lookup(object, "supportsReasoningEffort")),
        reasoning_effort_format: value_string(lookup(object, "reasoningEffortFormat")),
        request_headers,
        model_options,
    };
    let ghost raw = model@;
    proof {
        reveal_strlit("vscode-import:");
        assert(raw.id[0] == 'v');
        lemma_trim_nonblank(raw.id);
        assert(raw == raw_model(target_id@, group_name@, entries_view(group@), value@)->Ok_0);
    }
    model.normalize();
    assert(model@ == normalized_view(raw));
    match model.validate() {
        Ok(()) => Ok(model),
        Err(e) => Err(e.message()),
    }
}

/// Parsing the model entries in order; the first failure is the error.
pub open spec fn parse_models_spec(target: Seq<char>, gname: Seq<char>, group: Seq<(Seq<char>, JsonView)>, items: Seq<JsonView>) -> Result<Seq<ImportedView>, Seq<char>>
    decreases items.len(),
{
    if items.len() == 0 {
        Ok(Seq::empty())
    } else {
        match parse_model_spec(target, gname, group, items[0]) {
            Err(e) => Err(e),
            Ok(m) => match parse_models_spec(target, gname, group, items.skip(1)) {
                Ok(rest) => Ok(seq![m] + rest),
                Err(e) => Err(e),
            },
        }
    }
}

/// What parsing a Custom Endpoint group yields: its name (`Custom Endpoint`
/// when absent) and every model, or why it cannot be imported.
pub open spec fn parse_group_spec(target: Seq<char>, value: JsonView) -> Result<(Seq<char>, Seq<ImportedView>), Seq<char>> {
    match value {
        JsonView::Object(g) => {
            let name = match vstring(value.get("name"@)) { Some(n) => n, None => "Custom Endpoint"@ };
            match value.get("models"@) {
                Some(JsonView::Array(items)) => if items.len() == 0 {
                    Err(name + " has an empty models array"@)
                } else {
                    match parse_models_spec(target, name, g, items) {
                        Ok(ms) => Ok((name, ms)),
                        Err(e) => Err(e),
                    }
                },
                _ => Err(name + " has no static models array"@),
            }
        },
        _ => Err("provider group is not a JSON object"@),
    }
}

/// A parsed group: its name and models.
#[derive(Debug)]
pub struct ParsedGroup {
    pub name: String,
    pub models: Vec<ImportedModel>,
}

/// Parses a Custom Endpoint group, see [`parse_group_spec`].
pub fn parse_group(target_id: &str, value: &JsonValue) -> (r: Result<ParsedGroup, String>)
    ensures
        match r {
            Ok(g) => parse_group_spec(target_id@, value@) == Ok::<(Seq<char>, Seq<ImportedView>), Seq<char>>((g.name@, imported_views(g.models@))),
            Err(e) => parse_group_spec(target_id@, value@) == Err::<(Seq<char>, Seq<ImportedView>), Seq<char>>(e@),
        },
{
    let group = match value.as_object() {
        Some(g) => g,
        None => {
            return Err("provider group is not a JSON object".to_string());
        },
    };
    let name = match value_string(lookup(group, "name")) {
        Some(n) => n,
        None => "Custom Endpoint".to_string(),
    };
    let items = match lookup(group, "models") {
        Some(JsonValue::Array(items)) => items,
        _ => {
            return Err(name.concat(" has no static models array"));
        },
    };
    proof {
        lemma_items_view(items@);
    }
    if items.len() == 0 {
        return Err(name.concat(" has an empty models array"));
    }
    let ghost iv = items_view(items@);
    let mut models: Vec<ImportedModel> = Vec::new();
    let n = items.len();
    let mut i: usize = 0;
    assert(iv.skip(0) =~= iv);
    assert(imported_views(models@) + Seq::<ImportedView>::empty() =~= imported_views(models@));
    let ghost nm = name@;
    assert(nm == (match vstring(value@.get("name"@)) { Some(x) => x, None => "Custom Endpoint"@ }));
    assert(value@ == JsonView::Object(entries_view(group@)));
    assert(value@.get("models"@) == Some(JsonView::Array(iv)));
    while i < n
        invariant
            n == items@.len(),
            n > 0,
            nm == name@,
            nm == (match vstring(value@.get("name"@)) { Some(x) => x, None => "Custom Endpoint"@ }),
            value@ == JsonView::Object(entries_view(group@)),
            value@.get("models"@) == Some(JsonView::Array(iv)),
            iv == items_view(items@),
            iv.len() == n,
            forall|j: int| 0 <= j < n ==> #[trigger] iv[j] == items@[j]@,
            i <= n,
            models@.len() == i,
            parse_models_spec(target_id@, name@, entries_view(group@), iv) == match parse_models_spec(target_id@, name@, entries_view(group@), iv.skip(i as int)) {
                Ok(rest) => Ok(imported_views(models@) + rest),
                Err(e) => Err::<Seq<ImportedView>, Seq<char>>(e),
            },
        decreases n - i,
    {
        let ghost rest = iv.skip(i as int);
        assert(rest[0] == items@[i as int]@);
        assert(rest.skip(1) =~= iv.skip(i + 1));
        let m = match parse_model(target_id, name.as_str(), group, &items[i]) {
            Ok(m) => m,
            Err(e) => {
                assert(parse_models_spec(target_id@, name@, entries_view(group@), rest) == Err::<Seq<ImportedView>, Seq<char>>(e@));
                return Err(e);
            },
        };
        let ghost before = imported_views(models@);
        models.push(m);
        proof {
            assert(imported_views(models@) =~= before.push(m@));
            match parse_models_spec(target_id@, name@, entries_view(group@), iv.skip(i + 1)) {
                Ok(r2) => {
                    assert(before + (seq![m@] + r2) =~= imported_views(models@) + r2);
                },
                Err(_) => {},
            }
        }
        i = i + 1;
    }
    assert(iv.skip(n as int) =~= Seq::<JsonView>::empty());
    assert(imported_views(models@) + Seq::<ImportedView>::empty() =~= imported_views(models@));
    Ok(ParsedGroup { name, models })
}

/// What identifies a model endpoint, ignoring ASCII case.
pub open spec fn fingerprint(m: ImportedView) -> (Seq<char>, Seq<char>) {
    (ascii_lower(m.model_id), ascii_lower(m.url))
}

/// Staging a parsed group's models against the existing ones: a model whose
/// endpoint exists is reused; a repeated endpoint within the group or a
/// taken internal id refuses the group; a display name that is taken
/// (ignoring ASCII case) is prefixed with `<group> · `, and a prefixed name
/// that is still taken refuses the group.
pub open spec fn stage(
    ms: Seq<ImportedView>,
    group: Seq<char>,
    ex_fp: Set<(Seq<char>, Seq<char>)>,
    ex_names: Set<Seq<char>>,
    ex_ids: Set<Seq<char>>,
    st_fp: Set<(Seq<char>, Seq<char>)>,
    st_names: Set<Seq<char>>,
    acc: Seq<ImportedView>,
    reused: nat,
) -> Result<(Seq<ImportedView>, nat), Seq<char>>
    decreases ms.len(),
{
    if ms.len() == 0 {
        Ok((acc, reused))
    } else {
        let m = ms[0];
        let fp = fingerprint(m);
        if ex_fp.contains(fp) {
            stage(ms.skip(1), group, ex_fp, ex_names, ex_ids, st_fp, st_names, acc, reused + 1)
        } else if st_fp.contains(fp) {
            Err(group + " contains duplicate model endpoints"@)
        } else if ex_ids.contains(m.id) {
            Err(group + " produced a conflicting internal model id"@)
        } else {
            let key = ascii_lower(m.name);
            if ex_names.contains(key) || st_names.contains(key) {
                let renamed = group + " · "@ + m.name;
                let nk = ascii_lower(renamed);
                if ex_names.contains(nk) || st_names.contains(nk) {
                    Err(group + " conflicts with an existing model display name"@)
                } else {
                    stage(ms.skip(1), group, ex_fp, ex_names, ex_ids, st_fp.insert(fp), st_names.insert(nk), acc.push(ImportedView { name: renamed, ..m }), reused)
                }
            } else {
                stage(ms.skip(1), group, ex_fp, ex_names, ex_ids, st_fp.insert(fp), st_names.insert(key), acc.push(m), reused)
            }
        }
    }
}

pub open spec fn fingerprints(ms: Seq<ImportedView>) -> Set<(Seq<char>, Seq<char>)> {
    ms.map_values(|m: ImportedView| fingerprint(m)).to_set()
}

pub open spec fn lower_names(ms: Seq<ImportedView>) -> Set<Seq<char>> {
    ms.map_values(|m: ImportedView| ascii_lower(m.name)).to_set()
}

pub open spec fn model_ids(ms: Seq<ImportedView>) -> Set<Seq<char>> {
    ms.map_values(|m: ImportedView| m.id).to_set()
}

/// Staging a group against the models of `existing`.
pub open spec fn stage_group(existing: Seq<ImportedView>, group: Seq<char>, ms: Seq<ImportedView>) -> Result<(Seq<ImportedView>, nat), Seq<char>> {
    stage(ms, group, fingerprints(existing), lower_names(existing), model_ids(existing), Set::empty(), Set::empty(), Seq::empty(), 0)
}

proof fn lemma_stage_all_known(
    ms: Seq<ImportedView>,
    group: Seq<char>,
    ex_fp: Set<(Seq<char>, Seq<char>)>,
    ex_names: Set<Seq<char>>,
    ex_ids: Set<Seq<char>>,
    st_fp: Set<(Seq<char>, Seq<char>)>,
    st_names: Set<Seq<char>>,
    acc: Seq<ImportedView>,
    reused: nat,
)
    requires
        forall|i: int| 0 <= i < ms.len() ==> ex_fp.contains(#[trigger] fingerprint(ms[i])),
    ensures
        stage(ms, group, ex_fp, ex_names, ex_ids, st_fp, st_names, acc, reused) == Ok::<(Seq<ImportedView>, nat), Seq<char>>((acc, reused + ms.len())),
    decreases ms.len(),
{
    if ms.len() > 0 {
        assert(ex_fp.contains(fingerprint(ms[0])));
        assert forall|i: int| 0 <= i < ms.skip(1).len() implies ex_fp.contains(#[trigger] fingerprint(ms.skip(1)[i])) by {
            assert(ms.skip(1)[i] == ms[i + 1]);
            assert(ex_fp.contains(fingerprint(ms[i + 1])));
        }
        lemma_stage_all_known(ms.skip(1), group, ex_fp, ex_names, ex_ids, st_fp, st_names, acc, reused + 1);
    }
}

/// Importing models whose endpoints (model id and URL, ignoring ASCII
/// case) the store already has adds nothing: every one of them is reused.
pub proof fn lemma_existing_models_reused(existing: Seq<ImportedView>, group: Seq<char>, ms: Seq<ImportedView>)
    requires
        forall|i: int| 0 <= i < ms.len() ==> exists|j: int| 0 <= j < existing.len() && #[trigger] fingerprint(existing[j]) == #[trigger] fingerprint(ms[i]),
    ensures
        stage_group(existing, group, ms) == Ok::<(Seq<ImportedView>, nat), Seq<char>>((Seq::<ImportedView>::empty(), ms.len())),
{
    assert forall|i: int| 0 <= i < ms.len() implies fingerprints(existing).contains(#[trigger] fingerprint(ms[i])) by {
        let j = choose|j: int| 0 <= j < existing.len() && #[trigger] fingerprint(existing[j]) == fingerprint(ms[i]);
        assert(existing.map_values(|m: ImportedView| fingerprint(m))[j] == fingerprint(ms[i]));
    }
    lemma_stage_all_known(ms, group, fingerprints(existing), lower_names(existing), model_ids(existing), Set::empty(), Set::empty(), Seq::empty(), 0);
}

/// Staged models are new to the store and to each other: no endpoint, ASCII
/// case-folded display name or internal id of `existing` recurs among them,
/// and no two of them share an endpoint or a case-folded display name.
pub open spec fn staged_fresh(existing: Seq<ImportedView>, st: Seq<ImportedView>) -> bool {
    &&& forall|i: int| 0 <= i < st.len() ==> {
        &&& !fingerprints(existing).contains(#[trigger] fingerprint(st[i]))
        &&& !lower_names(existing).contains(ascii_lower(st[i].name))
        &&& !model_ids(existing).contains(st[i].id)
    }
    &&& forall|i: int, j: int| 0 <= i < j < st.len() ==> fingerprint(#[trigger] st[i]) != fingerprint(#[trigger] st[j])
        && ascii_lower(st[i].name) != ascii_lower(st[j].name)
}

/// No two models share an endpoint or an ASCII case-folded display name.
pub open spec fn models_unique(ms: Seq<ImportedView>) -> bool {
    forall|i: int, j: int| 0 <= i < j < ms.len() ==> fingerprint(#[trigger] ms[i]) != fingerprint(#[trigger] ms[j])
        && ascii_lower(ms[i].name) != ascii_lower(ms[j].name)
}

/// What has been staged so far is recorded in the staged sets and is new to
/// the existing models.
spec fn staged_so_far(
    acc: Seq<ImportedView>,
    ex_fp: Set<(Seq<char>, Seq<char>)>,
    ex_names: Set<Seq<char>>,
    ex_ids: Set<Seq<char>>,
    st_fp: Set<(Seq<char>, Seq<char>)>,
    st_names: Set<Seq<char>>,
) -> bool {
    forall|i: int| 0 <= i < acc.len() ==> {
        &&& st_fp.contains(#[trigger] fingerprint(acc[i]))
        &&& st_names.contains(ascii_lower(acc[i].name))
        &&& !ex_fp.contains(fingerprint(acc[i]))
        &&& !ex_names.contains(ascii_lower(acc[i].name))
        &&& !ex_ids.contains(acc[i].id)
    }
}

proof fn lemma_stage_fresh(
    ms: Seq<ImportedView>,
    group: Seq<char>,
    ex_fp: Set<(Seq<char>, Seq<char>)>,
    ex_names: Set<Seq<char>>,
    ex_ids: Set<Seq<char>>,
    st_fp: Set<(Seq<char>, Seq<char>)>,
    st_names: Set<Seq<char>>,
    acc: Seq<ImportedView>,
    reused: nat,
)
    requires
        staged_so_far(acc, ex_fp, ex_names, ex_ids, st_fp, st_names),
        models_unique(acc),
    ensures
        stage(ms, group, ex_fp, ex_names, ex_ids, st_fp, st_names, acc, reused) matches Ok((st, ru)) ==> {
            &&& st.len() + ru == acc.len() + reused + ms.len()
            &&& models_unique(st)
            &&& forall|i: int| 0 <= i < st.len() ==> {
                &&& !ex_fp.contains(#[trigger] fingerprint(st[i]))
                &&& !ex_names.contains(ascii_lower(st[i].name))
                &&& !ex_ids.contains(st[i].id)
            }
        },
    decreases ms.len(),
{
    if ms.len() > 0 {
        let m = ms[0];
        let fp = fingerprint(m);
        if ex_fp.contains(fp) {
            lemma_stage_fresh(ms.skip(1), group, ex_fp, ex_names, ex_ids, st_fp, st_names, acc, reused + 1);
        } else if st_fp.contains(fp) || ex_ids.contains(m.id) {
        } else {
            let key = ascii_lower(m.name);
            let renamed = group + " · "@ + m.name;
            let nk = ascii_lower(renamed);
            let (m2, k2) = if ex_names.contains(key) || st_names.contains(key) {
                (ImportedView { name: renamed, ..m }, nk)
            } else {
                (m, key)
            };
            if (ex_names.contains(key) || st_names.contains(key)) && (ex_names.contains(nk) || st_names.contains(nk)) {
            } else {
                let acc2 = acc.push(m2);
                assert(fingerprint(m2) == fp);
                assert(ascii_lower(m2.name) == k2);
                assert(staged_so_far(acc2, ex_fp, ex_names, ex_ids, st_fp.insert(fp), st_names.insert(k2))) by {
                    assert forall|i: int| 0 <= i < acc2.len() implies {
                        &&& st_fp.insert(fp).contains(#[trigger] fingerprint(acc2[i]))
                        &&& st_names.insert(k2).contains(ascii_lower(acc2[i].name))
                        &&& !ex_fp.contains(fingerprint(acc2[i]))
                        &&& !ex_names.contains(ascii_lower(acc2[i].name))
                        &&& !ex_ids.contains(acc2[i].id)
                    } by {
                        if i < acc.len() {
                            assert(acc2[i] == acc[i]);
                            assert(st_fp.contains(fingerprint(acc[i])));
                        }
                    }
                }
                assert forall|i: int, j: int| 0 <= i < j < acc2.len() implies fingerprint(#[trigger] acc2[i]) != fingerprint(#[trigger] acc2[j])
                    && ascii_lower(acc2[i].name) != ascii_lower(acc2[j].name) by {
                    assert(acc2[i] == acc[i]);
                    assert(st_fp.contains(fingerprint(acc[i])));
                    if j < acc.len() {
                        assert(acc2[j] == acc[j]);
                    }
                }
                lemma_stage_fresh(ms.skip(1), group, ex_fp, ex_names, ex_ids, st_fp.insert(fp), st_names.insert(k2), acc2, reused);
            }
        }
    }
}

/// Staging adds only what is new: when a group stages, the added and the
/// reused models together are the group's models, the added ones share no
/// endpoint, case-folded display name or internal id with the existing
/// models nor an endpoint or case-folded name with each other, and so a
/// store whose models were unique by endpoint and display name stays so.
pub proof fn lemma_staged_models_fresh(existing: Seq<ImportedView>, group: Seq<char>, ms: Seq<ImportedView>)
    ensures
        stage_group(existing, group, ms) matches Ok((st, ru)) ==> {
            &&& st.len() + ru == ms.len()
            &&& staged_fresh(existing, st)
            &&& models_unique(existing) ==> models_unique(existing + st)
        },
{
    lemma_stage_fresh(ms, group, fingerprints(existing), lower_names(existing), model_ids(existing), Set::empty(), Set::empty(), Seq::empty(), 0);
    if let Ok((st, ru)) = stage_group(existing, group, ms) {
        if models_unique(existing) {
            let all = existing + st;
            assert forall|i: int, j: int| 0 <= i < j < all.len() implies fingerprint(#[trigger] all[i]) != fingerprint(#[trigger] all[j])
                && ascii_lower(all[i].name) != ascii_lower(all[j].name) by {
                if j < existing.len() {
                    assert(all[i] == existing[i] && all[j] == existing[j]);
                } else if i < existing.len() {
                    let k = j - existing.len();
                    assert(all[j] == st[k]);
                    assert(all[i] == existing[i]);
                    assert(existing.map_values(|m: ImportedView| fingerprint(m))[i] == fingerprint(existing[i]));
                    assert(existing.map_values(|m: ImportedView| ascii_lower(m.name))[i] == ascii_lower(existing[i].name));
                    assert(fingerprints(existing).contains(fingerprint(existing[i])));
                    assert(lower_names(existing).contains(ascii_lower(existing[i].name)));
                    assert(!fingerprints(existing).contains(fingerprint(st[k])));
                } else {
                    assert(all[i] == st[i - existing.len()] && all[j] == st[j - existing.len()]);
                }
            }
        }
    }
}

fn pair_in(v: &Vec<(String, String)>, a: &str, b: &str) -> (r: bool)
    ensures
        r == pairs_view(v@).contains((a@, b@)),
{
    let n = v.len();
    let mut i: usize = 0;
    while i < n
        invariant
            n == v@.len(),
            i <= n,
            forall|k: int| 0 <= k < i ==> pairs_view(v@)[k] != (a@, b@),
        decreases n - i,
    {
        if str_eq(v[i].0.as_str(), a) && str_eq(v[i].1.as_str(), b) {
            assert(pairs_view(v@)[i as int] == (a@, b@));
            return true;
        }
        i = i + 1;
    }
    false
}

fn str_in(v: &Vec<String>, s: &str) -> (r: bool)
    ensures
        r == strs(v@).contains(s@),
{
    crate::model::contains_str(v, s)
}

/// Adds a parsed group's models (see [`stage_group`]): on success the
/// staged models are appended and the counts of added and reused models
/// returned; on failure nothing changes.
pub fn add_group_models(models: &mut Vec<ImportedModel>, parsed: ParsedGroup) -> (r: Result<(usize, usize), String>)
    ensures
        match r {
            Ok((imported, reused)) => stage_group(imported_views(old(models)@), parsed.name@, imported_views(parsed.models@)) matches Ok((st, ru))
                && imported_views(final(models)@) == imported_views(old(models)@) + st && imported as nat == st.len() && reused as nat == ru,
            Err(e) => stage_group(imported_views(old(models)@), parsed.name@, imported_views(parsed.models@)) == Err::<(Seq<ImportedView>, nat), Seq<char>>(e@)
                && final(models)@ == old(models)@,
        },
{
    let ghost ev = imported_views(models@);
    let mut ex_fp: Vec<(String, String)> = Vec::new();
    let mut ex_names: Vec<String> = Vec::new();
    let mut ex_ids: Vec<String> = Vec::new();
    let n = models.len();
    let mut i: usize = 0;
    while i < n
        invariant
            n == models@.len(),
            ev == imported_views(models@),
            i <= n,
            pairs_view(ex_fp@) == ev.take(i as int).map_values(|m: ImportedView| fingerprint(m)),
            strs(ex_names@) == ev.take(i as int).map_values(|m: ImportedView| ascii_lower(m.name)),
            strs(ex_ids@) == ev.take(i as int).map_values(|m: ImportedView| m.id),
        decreases n - i,
    {
        let ghost b1 = pairs_view(ex_fp@);
        let ghost b2 = strs(ex_names@);
        let ghost b3 = strs(ex_ids@);
        ex_fp.push((to_ascii_lowercase(models[i].model_id.as_str()), to_ascii_lowercase(models[i].url.as_str())));
        ex_names.push(to_ascii_lowercase(models[i].name.as_str()));
        ex_ids.push(models[i].id.clone());
        proof {
            assert(ev[i as int] == models@[i as int]@);
            assert(pairs_view(ex_fp@) =~= b1.push(fingerprint(ev[i as int])));
            assert(ev.take(i + 1).map_values(|m: ImportedView| fingerprint(m)) =~= ev.take(i as int).map_values(|m: ImportedView| fingerprint(m)).push(fingerprint(ev[i as int])));
            assert(strs(ex_names@) =~= b2.push(ascii_lower(ev[i as int].name)));
            assert(ev.take(i + 1).map_values(|m: ImportedView| ascii_lower(m.name)) =~= ev.take(i as int).map_values(|m: ImportedView| ascii_lower(m.name)).push(ascii_lower(ev[i as int].name)));
            assert(strs(ex_ids@) =~= b3.push(ev[i as int].id));
            assert(ev.take(i + 1).map_values(|m: ImportedView| m.id) =~= ev.take(i as int).map_values(|m: ImportedView| m.id).push(ev[i as int].id));
        }
        i = i + 1;
    }
    assert(ev.take(n as int) =~= ev);
    assert(pairs_view(ex_fp@) =~= ev.map_values(|m: ImportedView| fingerprint(m)));
    assert(strs(ex_names@) =~= ev.map_values(|m: ImportedView| ascii_lower(m.name)));
    assert(strs(ex_ids@) =~= ev.map_values(|m: ImportedView| m.id));
    let ghost efp = fingerprints(ev);
    let ghost enames = lower_names(ev);
    let ghost eids = model_ids(ev);
    let group = parsed.name;
    let mut rest = parsed.models;
    let ghost all = imported_views(rest@);
    let mut staged: Vec<ImportedModel> = Vec::new();
    let mut st_fp: Vec<(String, String)> = Vec::new();
    let mut st_names: Vec<String> = Vec::new();
    let mut reused: usize = 0;
    let m_len = rest.len();
    let mut k: usize = 0;
    assert(all.skip(0) =~= all);
    assert(pairs_view(st_fp@).to_set() =~= Set::<(Seq<char>, Seq<char>)>::empty());
    assert(strs(st_names@).to_set() =~= Set::<Seq<char>>::empty());
    assert(imported_views(staged@) =~= Seq::<ImportedView>::empty());
    while k < m_len
        invariant
            m_len == all.len(),
            k <= m_len,
            imported_views(rest@) == all.skip(k as int),
            reused <= k,
            models@ == old(models)@,
            group@ == parsed.name@,
            all == imported_views(parsed.models@),
            ev == imported_views(models@),
            pairs_view(ex_fp@).to_set() == efp,
            strs(ex_names@).to_set() == enames,
            strs(ex_ids@).to_set() == eids,
            efp == fingerprints(ev),
            enames == lower_names(ev),
            eids == model_ids(ev),
            stage_group(ev, group@, all) == stage(all.skip(k as int), group@, efp, enames, eids, pairs_view(st_fp@).to_set(), strs(st_names@).to_set(), imported_views(staged@), reused as nat),
        decreases m_len - k,
    {
        let ghost old_rest = rest@;
        let mut m = rest.remove(0);
        let ghost mv = m@;
        assert(old_rest[0] == m);
        assert(imported_views(old_rest)[0] == mv);
        assert(mv == all[k as int]);
        assert(rest@ =~= old_rest.skip(1));
        assert(imported_views(rest@) =~= imported_views(old_rest).skip(1));
        assert(imported_views(rest@) =~= all.skip(k + 1));
        assert(all.skip(k as int)[0] == mv);
        assert(all.skip(k as int).skip(1) =~= all.skip(k + 1));
        let fa = to_ascii_lowercase(m.model_id.as_str());
        let fb = to_ascii_lowercase(m.url.as_str());
        proof {
            assert((fa@, fb@) == fingerprint(mv));
        }
        if pair_in(&ex_fp, fa.as_str(), fb.as_str()) {
            proof {
                assert(pairs_view(ex_fp@).to_set().contains((fa@, fb@)));
            }
            reused = reused + 1;
            k = k + 1;
            continue;
        }
        proof {
            if pairs_view(ex_fp@).to_set().contains((fa@, fb@)) {
                assert(pairs_view(ex_fp@).contains((fa@, fb@)));
            }
        }
        if pair_in(&st_fp, fa.as_str(), fb.as_str()) {
            proof {
                assert(pairs_view(st_fp@).to_set().contains((fa@, fb@)));
            }
            return Err(group.concat(" contains duplicate model endpoints"));
        }
        proof {
            if pairs_view(st_fp@).to_set().contains((fa@, fb@)) {
                assert(pairs_view(st_fp@).contains((fa@, fb@)));
            }
        }
        if str_in(&ex_ids, m.id.as_str()) {
            proof {
                assert(strs(ex_ids@).to_set().contains(m.id@));
            }
            return Err(group.concat(" produced a conflicting internal model id"));
        }
        proof {
            if strs(ex_ids@).to_set().contains(m.id@) {
                assert(strs(ex_ids@).contains(m.id@));
            }
        }
        let key = to_ascii_lowercase(m.name.as_str());
        let taken_ex = str_in(&ex_names, key.as_str());
        let taken_st = str_in(&st_names, key.as_str());
        proof {
            if strs(ex_names@).to_set().contains(key@) {
                assert(strs(ex_names@).contains(key@));
            }
            if strs(st_names@).to_set().contains(key@) {
                assert(strs(st_names@).contains(key@));
            }
            if taken_ex {
                assert(strs(ex_names@).to_set().contains(key@));
            }
            if taken_st {
                assert(strs(st_names@).to_set().contains(key@));
            }
        }
        let ghost fp_before = pairs_view(st_fp@);
        let ghost names_before = strs(st_names@);
        let ghost staged_before = imported_views(staged@);
        if taken_ex || taken_st {
            let renamed = group.clone().concat(" · ").concat(m.name.as_str());
            let nk = to_ascii_lowercase(renamed.as_str());
            let ns_ex = str_in(&ex_names, nk.as_str());
            let ns_st = str_in(&st_names, nk.as_str());
            proof {
                if strs(ex_names@).to_set().contains(nk@) {
                    assert(strs(ex_names@).contains(nk@));
                }
                if strs(st_names@).to_set().contains(nk@) {
                    assert(strs(st_names@).contains(nk@));
                }
                if ns_ex {
                    assert(strs(ex_names@).to_set().contains(nk@));
                }
                if ns_st {
                    assert(strs(st_names@).to_set().contains(nk@));
                }
            }
            if ns_ex || ns_st {
                return Err(group.concat(" conflicts with an existing model display name"));
            }
            m.name = renamed;
            st_names.push(nk);
            proof {
                assert(strs(st_names@) =~= names_before.push(nk@));
                names_before.lemma_push_to_set_commute(nk@);
                assert(m@ == (ImportedView { name: renamed@, ..mv }));
            }
        } else {
            st_names.push(key);
            proof {
                assert(strs(st_names@) =~= names_before.push(key@));
                names_before.lemma_push_to_set_commute(key@);
            }
        }
        st_fp.push((fa, fb));
        let ghost mv2 = m@;
        staged.push(m);
        proof {
            assert(pairs_view(st_fp@) =~= fp_before.push(fingerprint(mv)));
            fp_before.lemma_push_to_set_commute(fingerprint(mv));
            assert(imported_views(staged@) =~= staged_before.push(mv2));
        }
        k = k + 1;
    }
    assert(all.skip(m_len as int) =~= Seq::<ImportedView>::empty());
    let imported = staged.len();
    let ghost before_models = models@;
    let ghost staged_seq = staged@;
    let mut staged = staged;
    models.append(&mut staged);
    proof {
        assert(models@ =~= before_models + staged_seq);
        assert(imported_views(models@) =~= imported_views(before_models) + imported_views(staged_seq));
    }
    Ok((imported, reused))
}

/// What an import did.
#[derive(Debug)]
pub struct CopilotByokImportResult {
    pub target_id: String,
    pub imported_group_count: usize,
    pub imported_model_count: usize,
    pub reused_model_count: usize,
    pub skipped_group_count: usize,
    pub changed_target_count: usize,
    pub warnings: Vec<String>,
}

/// The running state of an import.
pub struct ImportState {
    pub models: Seq<ImportedView>,
    pub accepted: Seq<int>,
    pub groups: nat,
    pub imported: nat,
    pub reused: nat,
    pub skipped: nat,
    pub warnings: Seq<Seq<char>>,
}

/// A group the import looks at: an unmanaged Custom Endpoint group.
pub open spec fn importable(g: JsonView) -> bool {
    !is_managed_group_spec(g) && get_str(g.get("vendor"@)) == Some("customendpoint"@)
}

/// One group of the import: skipped unless importable; otherwise its models
/// are added (and the group accepted) or the reason becomes a warning.
pub open spec fn import_step(st: ImportState, target: Seq<char>, index: int, g: JsonView) -> ImportState {
    if !importable(g) {
        st
    } else {
        match parse_group_spec(target, g) {
            Err(e) => ImportState { skipped: st.skipped + 1, warnings: st.warnings.push(e), ..st },
            Ok((name, ms)) => match stage_group(st.models, name, ms) {
                Err(e) => ImportState { skipped: st.skipped + 1, warnings: st.warnings.push(e), ..st },
                Ok((staged, reused)) => ImportState {
                    models: st.models + staged,
                    accepted: st.accepted.push(index),
                    groups: st.groups + 1,
                    imported: st.imported + staged.len(),
                    reused: st.reused + reused,
                    ..st
                },
            },
        }
    }
}

/// The import over a target's groups, first to last.
pub open spec fn import_fold(target: Seq<char>, gs: Seq<JsonView>, init: ImportState) -> ImportState
    decreases gs.len(),
{
    if gs.len() == 0 {
        init
    } else {
        import_step(import_fold(target, gs.drop_last(), init), target, gs.len() - 1, gs.last())
    }
}

pub open spec fn start_state(models: Seq<ImportedView>) -> ImportState {
    ImportState { models, accepted: Seq::empty(), groups: 0, imported: 0, reused: 0, skipped: 0, warnings: Seq::empty() }
}

/// Number of groups the import looks at.
pub open spec fn count_importable(gs: Seq<JsonView>) -> nat
    decreases gs.len(),
{
    if gs.len() == 0 {
        0
    } else {
        count_importable(gs.drop_last()) + if importable(gs.last()) { 1nat } else { 0nat }
    }
}

/// Counting the import: every group it looks at is either imported or
/// skipped, each skipped group leaves one warning, each imported group is
/// accepted once, and while no group is imported the models stay as they
/// were.
pub proof fn lemma_import_counts(target: Seq<char>, gs: Seq<JsonView>, init: ImportState)
    ensures
        ({
            let f = import_fold(target, gs, init);
            &&& f.groups + f.skipped == init.groups + init.skipped + count_importable(gs)
            &&& f.warnings.len() + init.skipped == init.warnings.len() + f.skipped
            &&& f.accepted.len() + init.groups == init.accepted.len() + f.groups
            &&& f.groups >= init.groups && f.skipped >= init.skipped
            &&& (f.groups == init.groups ==> f.models == init.models)
        }),
    decreases gs.len(),
{
    if gs.len() > 0 {
        lemma_import_counts(target, gs.drop_last(), init);
    }
}

/// The store after an import, the counts and warnings, which groups were
/// accepted (by index), and the target's groups that were not imported, in
/// order; the accepted ones are rewritten as managed groups.
#[derive(Debug)]
pub struct ImportOutcome {
    pub store: CopilotByokStore,
    pub result: CopilotByokImportResult,
    pub accepted: Vec<usize>,
    pub remaining: Vec<JsonValue>,
}

/// Imports a target's Custom Endpoint groups (read from its file) into the
/// store's models (see [`import_fold`]). When some group was imported the
/// target becomes selected; otherwise the store stays as it was. Counts of
/// reused models saturate at the largest `usize`.
pub fn import_from_target(store: CopilotByokStore, target_id: &str, groups: &Vec<JsonValue>) -> (r: ImportOutcome)
    ensures
        ({
            let st = import_fold(target_id@, items_view(groups@), start_state(imported_views(store.models@)));
            &&& imported_views(r.store.models@) == st.models
            &&& r.accepted@.map_values(|i: usize| i as int) == st.accepted
            &&& r.result.target_id@ == target_id@
            &&& r.result.imported_group_count as nat == st.groups
            &&& r.result.imported_model_count as nat == st.imported
            &&& r.result.reused_model_count as nat == if st.reused <= usize::MAX { st.reused } else { usize::MAX as nat }
            &&& r.result.skipped_group_count as nat == st.skipped
            &&& r.result.changed_target_count == 0
            &&& strs(r.result.warnings@) == st.warnings
            &&& r.result.imported_group_count + r.result.skipped_group_count == count_importable(items_view(groups@))
            &&& r.result.warnings@.len() == r.result.skipped_group_count
            &&& r.accepted@.len() == r.result.imported_group_count
            &&& items_view(r.remaining@) == remaining_spec(items_view(groups@), st.accepted)
            &&& (st.accepted.len() > 0 ==> r.store.targets_initialized && strs(r.store.selected_target_ids@) == if strs(store.selected_target_ids@).contains(target_id@) {
                strs(store.selected_target_ids@)
            } else {
                strs(store.selected_target_ids@).push(target_id@)
            })
            &&& (st.accepted.len() == 0 ==> r.store.targets_initialized == store.targets_initialized
                && r.store.selected_target_ids == store.selected_target_ids
                && imported_views(r.store.models@) == imported_views(store.models@))
            &&& r.store == (CopilotByokStore { models: r.store.models, targets_initialized: r.store.targets_initialized, selected_target_ids: r.store.selected_target_ids, ..store })
        }),
{
    proof {
        lemma_items_view(groups@);
        lemma_import_counts(target_id@, items_view(groups@), start_state(imported_views(store.models@)));
    }
    let ghost gv = items_view(groups@);
    let ghost s0 = store;
    let mut store = store;
    let mut models: Vec<ImportedModel> = Vec::new();
    std::mem::swap(&mut models, &mut store.models);
    let ghost m0 = imported_views(models@);
    let mut accepted: Vec<usize> = Vec::new();
    let mut group_count: usize = 0;
    let mut imported_count: usize = 0;
    let mut reused_count: usize = 0;
    let mut reused_exact: Ghost<nat> = Ghost(0);
    let mut skipped: usize = 0;
    let mut warnings: Vec<String> = Vec::new();
    let n = groups.len();
    let mut i: usize = 0;
    assert(gv.take(0) =~= Seq::<JsonView>::empty());
    assert(accepted@.map_values(|i: usize| i as int) =~= Seq::<int>::empty());
    assert(strs(warnings@) =~= Seq::<Seq<char>>::empty());
    while i < n
        invariant
            n == groups@.len(),
            gv == items_view(groups@),
            gv.len() == n,
            forall|j: int| 0 <= j < n ==> #[trigger] gv[j] == groups@[j]@,
            i <= n,
            group_count <= i,
            skipped <= i,
            accepted@.len() <= i,
            imported_count as nat + m0.len() == imported_views(models@).len(),
            ({
                let st = import_fold(target_id@, gv.take(i as int), start_state(m0));
                &&& imported_views(models@) == st.models
                &&& accepted@.map_values(|k: usize| k as int) == st.accepted
                &&& group_count as nat == st.groups
                &&& imported_count as nat == st.imported
                &&& reused_exact@ == st.reused
                &&& reused_count as nat == if st.reused <= usize::MAX { st.reused } else { usize::MAX as nat }
                &&& skipped as nat == st.skipped
                &&& strs(warnings@) == st.warnings
            }),
        decreases n - i,
    {
        assert(gv.take(i + 1).drop_last() =~= gv.take(i as int));
        assert(gv.take(i + 1).last() == groups@[i as int]@);
        let g = &groups[i];
        let vendor_ok = match g.get("vendor") {
            Some(v) => match v.as_str() {
                Some(s) => str_eq(s.as_str(), "customendpoint"),
                None => false,
            },
            None => false,
        };
        if is_managed_group(g) || !vendor_ok {
            i = i + 1;
            continue;
        }
        let ghost before_acc = accepted@.map_values(|k: usize| k as int);
        let ghost before_warn = strs(warnings@);
        match parse_group(target_id, g) {
            Err(reason) => {
                skipped = skipped + 1;
                warnings.push(reason);
                assert(strs(warnings@) =~= before_warn.push(reason@));
            },
            Ok(parsed) => {
                match add_group_models(&mut models, parsed) {
                    Err(reason) => {
                        skipped = skipped + 1;
                        warnings.push(reason);
                        assert(strs(warnings@) =~= before_warn.push(reason@));
                    },
                    Ok((imported, reused)) => {
                        accepted.push(i);
                        assert(accepted@.map_values(|k: usize| k as int) =~= before_acc.push(i as int));
                        group_count = group_count + 1;
                        let total = models.len();
                        assert(imported_views(models@).len() == models@.len());
                        imported_count = imported_count + imported;
                        proof {
                            reused_exact@ = reused_exact@ + reused as nat;
                        }
                        if reused_count <= usize::MAX - reused {
                            reused_count = reused_count + reused;
                        } else {
                            reused_count = usize::MAX;
                        }
                    },
                }
            },
        }
        i = i + 1;
    }
    assert(gv.take(n as int) =~= gv);
    let result = CopilotByokImportResult {
        target_id: target_id.to_string(),
        imported_group_count: group_count,
        imported_model_count: imported_count,
        reused_model_count: reused_count,
        skipped_group_count: skipped,
        changed_target_count: 0,
        warnings,
    };
    store.models = models;
    if accepted.len() > 0 {
        store.targets_initialized = true;
        if !contains_str(&store.selected_target_ids, target_id) {
            let ghost before = strs(store.selected_target_ids@);
            store.selected_target_ids.push(target_id.to_string());
            assert(strs(store.selected_target_ids@) =~= before.push(target_id@));
        }
    }
    proof {
        assert(accepted@.len() == accepted@.map_values(|k: usize| k as int).len());
    }
    let remaining = remaining_groups(groups, &accepted);
    ImportOutcome { store, result, accepted, remaining }
}

/// The groups of the target that were not imported, in order.
pub open spec fn remaining_spec(gs: Seq<JsonView>, accepted: Seq<int>) -> Seq<JsonView>
    decreases gs.len(),
{
    if gs.len() == 0 {
        Seq::empty()
    } else {
        let p = remaining_spec(gs.drop_last(), accepted);
        if accepted.contains(gs.len() - 1) {
            p
        } else {
            p.push(gs.last())
        }
    }
}

/// The groups of the target that were not imported (the imported ones are
/// rewritten as managed groups).
pub fn remaining_groups(groups: &Vec<JsonValue>, accepted: &Vec<usize>) -> (r: Vec<JsonValue>)
    ensures
        items_view(r@) == remaining_spec(items_view(groups@), accepted@.map_values(|i: usize| i as int)),
{
    proof {
        lemma_items_view(groups@);
    }
    let ghost acc = accepted@.map_values(|i: usize| i as int);
    let mut out: Vec<JsonValue> = Vec::new();
    let n = groups.len();
    let mut i: usize = 0;
    assert(items_view(out@) =~= remaining_spec(items_view(groups@).take(0), acc));
    while i < n
        invariant
            n == groups@.len(),
            i <= n,
            acc == accepted@.map_values(|i: usize| i as int),
            items_view(groups@).len() == n,
            forall|j: int| 0 <= j < n ==> #[trigger] items_view(groups@)[j] == groups@[j]@,
            items_view(out@) == remaining_spec(items_view(groups@).take(i as int), acc),
        decreases n - i,
    {
        assert(items_view(groups@).take(i + 1).drop_last() =~= items_view(groups@).take(i as int));
        assert(items_view(groups@).take(i + 1).last() == groups@[i as int]@);
        let mut found = false;
        let m = accepted.len();
        let mut k: usize = 0;
        while k < m
            invariant
                m == accepted@.len(),
                k <= m,
                acc == accepted@.map_values(|i: usize| i as int),
                found == exists|q: int| 0 <= q < k && acc[q] == i as int,
            decreases m - k,
        {
            if accepted[k] == i {
                assert(acc[k as int] == i as int);
                found = true;
            }
            k = k + 1;
        }
        proof {
            if acc.contains(i as int) {
                let q = choose|q: int| 0 <= q < acc.len() && acc[q] == i as int;
                assert(q < m);
            }
        }
        if !found {
            let ghost before = out@;
            out.push(json_clone(&groups[i]));
            proof {
                lemma_items_view(out@);
                lemma_items_view(before);
                assert(items_view(out@) =~= items_view(before).push(groups@[i as int]@));
            }
        }
        i = i + 1;
    }
    assert(items_view(groups@).take(n as int) =~= items_view(groups@));
    out
}

/// The entry holds this boolean under `k`.
pub open spec fn flag_is(entry: JsonView, k: Seq<char>, b: bool) -> bool {
    entry.get(k) == Some(JsonView::Bool(b))
}

/// The entry holds no boolean under `k`.
pub open spec fn no_flag(entry: JsonView, k: Seq<char>) -> bool {
    !(entry.get(k) matches Some(JsonView::Bool(_)))
}

/// An imported model keeps the capabilities its entry states: `vision`,
/// `toolCalling`, `thinking` and `zeroDataRetentionEnabled` are the entry's
/// booleans, false where the entry has none; `streaming` is the entry's
/// boolean, true where it has none. Its context window and output limit are
/// the entry's when it states them.
pub proof fn lemma_import_keeps_capabilities(target: Seq<char>, gname: Seq<char>, group: Seq<(Seq<char>, JsonView)>, value: JsonView)
    ensures
        parse_model_spec(target, gname, group, value) matches Ok(m) ==> {
            &&& forall|b: bool| flag_is(value, "vision"@, b) ==> m.vision == b
            &&& no_flag(value, "vision"@) ==> !m.vision
            &&& forall|b: bool| flag_is(value, "toolCalling"@, b) ==> m.tool_calling == b
            &&& no_flag(value, "toolCalling"@) ==> !m.tool_calling
            &&& forall|b: bool| flag_is(value, "thinking"@, b) ==> m.thinking == b
            &&& no_flag(value, "thinking"@) ==> !m.thinking
            &&& forall|b: bool| flag_is(value, "streaming"@, b) ==> m.streaming == b
            &&& no_flag(value, "streaming"@) ==> m.streaming
            &&& forall|b: bool| flag_is(value, "zeroDataRetentionEnabled"@, b) ==> m.zero_data_retention_enabled == b
            &&& no_flag(value, "zeroDataRetentionEnabled"@) ==> !m.zero_data_retention_enabled
            &&& (vu64(value.get("contextWindow"@)) matches Some(n) ==> m.context_window == n)
            &&& (vu64(value.get("maxOutputTokens"@)) matches Some(n) ==> m.max_output_tokens == n)
        },
{
}

proof fn lemma_parse_models_each(target: Seq<char>, gname: Seq<char>, group: Seq<(Seq<char>, JsonView)>, items: Seq<JsonView>)
    ensures
        parse_models_spec(target, gname, group, items) matches Ok(ms) ==> ms.len() == items.len() && forall|i: int|
            0 <= i < items.len() ==> parse_model_spec(target, gname, group, #[trigger] items[i]) == Ok::<ImportedView, Seq<char>>(ms[i]),
    decreases items.len(),
{
    if items.len() > 0 {
        lemma_parse_models_each(target, gname, group, items.skip(1));
        if let Ok(ms) = parse_models_spec(target, gname, group, items) {
            let rest = parse_models_spec(target, gname, group, items.skip(1))->Ok_0;
            assert forall|i: int| 0 <= i < items.len() implies parse_model_spec(target, gname, group, #[trigger] items[i])
                == Ok::<ImportedView, Seq<char>>(ms[i]) by {
                if i > 0 {
                    assert(items.skip(1)[i - 1] == items[i]);
                }
            }
        }
    }
}

/// Importing a group keeps each model's capabilities: the `i`-th imported
/// model comes from the `i`-th entry of the group's `models` array and has
/// that entry's `vision`, `toolCalling`, `thinking`, `streaming` and
/// `zeroDataRetentionEnabled` booleans (see
/// [`lemma_import_keeps_capabilities`] for the defaults).
pub proof fn lemma_import_group_keeps_capabilities(target: Seq<char>, value: JsonView)
    ensures
        parse_group_spec(target, value) matches Ok((name, ms)) ==> (value.get("models"@) matches Some(JsonView::Array(items))
            && ms.len() == items.len() && forall|i: int| 0 <= i < items.len() ==> {
                &&& forall|b: bool| flag_is(#[trigger] items[i], "vision"@, b) ==> ms[i].vision == b
                &&& no_flag(items[i], "vision"@) ==> !ms[i].vision
                &&& forall|b: bool| flag_is(items[i], "toolCalling"@, b) ==> ms[i].tool_calling == b
                &&& forall|b: bool| flag_is(items[i], "thinking"@, b) ==> ms[i].thinking == b
                &&& forall|b: bool| flag_is(items[i], "streaming"@, b) ==> ms[i].streaming == b
            }),
{
    if let Ok((name, ms)) = parse_group_spec(target, value) {
        if let JsonView::Object(g) = value {
            if let Some(JsonView::Array(items)) = value.get("models"@) {
                lemma_parse_models_each(target, name, g, items);
                assert forall|i: int| 0 <= i < items.len() implies {
                    &&& forall|b: bool| flag_is(#[trigger] items[i], "vision"@, b) ==> ms[i].vision == b
                    &&& no_flag(items[i], "vision"@) ==> !ms[i].vision
                    &&& forall|b: bool| flag_is(items[i], "toolCalling"@, b) ==> ms[i].tool_calling == b
                    &&& forall|b: bool| flag_is(items[i], "thinking"@, b) ==> ms[i].thinking == b
                    &&& forall|b: bool| flag_is(items[i], "streaming"@, b) ==> ms[i].streaming == b
                } by {
                    lemma_import_keeps_capabilities(target, name, g, items[i]);
                }
            }
        }
    }
}

} // verus!
