//! Copilot CLI provider switching: the managed environment variables a
//! provider and model map to, detection of edits made outside the library,
//! and the decisions of applying a provider and restoring the original
//! environment.

use vstd::prelude::*;
use vstd::string::StrSliceExecFns;
use vstd::string::StringExecFns;
use crate::bridge::{opt_str, url_parse, parse_url, url_path_set, url_with_path};
use crate::error::{AppError, ErrView};
use crate::kv::{entries_get, entries_insert, insert_all, kv_view, kv_lookup, kv_insert, pairs_view, lemma_get_insert_all, lemma_last_value_keyed, lemma_get_after_insert};
use crate::model::{CopilotByokGroup, CopilotByokModel, is_secret_reference_spec, is_vscode_secret_reference, strs};
use crate::text::{decimal, u64_to_string, has_char, contains_char, ends_with_spec, ends_with, replace_spec, replace_all, str_eq, trim, trim_spec};

verus! {

/// The variables the library manages, in the order it handles them.
pub open spec fn managed_vars() -> Seq<Seq<char>> {
    seq![
        "COPILOT_PROVIDER_BASE_URL"@,
        "COPILOT_PROVIDER_TYPE"@,
        "COPILOT_PROVIDER_API_KEY"@,
        "COPILOT_PROVIDER_BEARER_TOKEN"@,
        "COPILOT_PROVIDER_WIRE_API"@,
        "COPILOT_PROVIDER_TRANSPORT"@,
        "COPILOT_PROVIDER_AZURE_API_VERSION"@,
        "COPILOT_PROVIDER_HEADERS"@,
        "COPILOT_MODEL"@,
        "COPILOT_PROVIDER_MODEL_ID"@,
        "COPILOT_PROVIDER_WIRE_MODEL"@,
        "COPILOT_PROVIDER_MAX_PROMPT_TOKENS"@,
        "COPILOT_PROVIDER_MAX_OUTPUT_TOKENS"@,
    ]
}

/// The managed variable names.
pub fn managed_variables() -> (r: Vec<String>)
    ensures
        strs(r@) == managed_vars(),
{
    let mut v: Vec<String> = Vec::new();
    v.push("COPILOT_PROVIDER_BASE_URL".to_string());
    v.push("COPILOT_PROVIDER_TYPE".to_string());
    v.push("COPILOT_PROVIDER_API_KEY".to_string());
    v.push("COPILOT_PROVIDER_BEARER_TOKEN".to_string());
    v.push("COPILOT_PROVIDER_WIRE_API".to_string());
    v.push("COPILOT_PROVIDER_TRANSPORT".to_string());
    v.push("COPILOT_PROVIDER_AZURE_API_VERSION".to_string());
    v.push("COPILOT_PROVIDER_HEADERS".to_string());
    v.push("COPILOT_MODEL".to_string());
    v.push("COPILOT_PROVIDER_MODEL_ID".to_string());
    v.push("COPILOT_PROVIDER_WIRE_MODEL".to_string());
    v.push("COPILOT_PROVIDER_MAX_PROMPT_TOKENS".to_string());
    v.push("COPILOT_PROVIDER_MAX_OUTPUT_TOKENS".to_string());
    assert(strs(v@) =~= managed_vars());
    v
}

/// Model of an environment map: variable name to value or absence.
pub open spec fn env_view(e: Seq<(String, Option<String>)>) -> Seq<(Seq<char>, Option<Seq<char>>)> {
    kv_view(e)
}

/// The environment values the library wrote last, and the values found
/// before its first write.
#[derive(Debug, Clone)]
pub struct CopilotCliManagedEnvironment {
    pub original: Vec<(String, Option<String>)>,
    pub last_written: Vec<(String, Option<String>)>,
}

/// Device state of the Copilot CLI integration.
#[derive(Debug, Clone)]
pub struct CopilotCliConfig {
    pub enabled: bool,
    pub selected_group_id: Option<String>,
    pub selected_model_id: Option<String>,
    pub managed_environment: CopilotCliManagedEnvironment,
}

impl CopilotCliConfig {
    /// A disabled integration with nothing selected or recorded.
    pub fn default() -> (r: CopilotCliConfig)
        ensures
            r@ == disabled_config(),
    {
        let r = CopilotCliConfig {
            enabled: false,
            selected_group_id: None,
            selected_model_id: None,
            managed_environment: CopilotCliManagedEnvironment {
                original: Vec::new(),
                last_written: Vec::new(),
            },
        };
        assert(r@.original =~= disabled_config().original);
        assert(r@.last_written =~= disabled_config().last_written);
        r
    }
}

/// Model of [`CopilotCliConfig`].
pub struct CliConfigView {
    pub enabled: bool,
    pub group_id: Option<Seq<char>>,
    pub model_id: Option<Seq<char>>,
    pub original: Seq<(Seq<char>, Option<Seq<char>>)>,
    pub last_written: Seq<(Seq<char>, Option<Seq<char>>)>,
}

impl View for CopilotCliConfig {
    type V = CliConfigView;

    open spec fn view(&self) -> CliConfigView {
        CliConfigView {
            enabled: self.enabled,
            group_id: opt_str(self.selected_group_id),
            model_id: opt_str(self.selected_model_id),
            original: env_view(self.managed_environment.original@),
            last_written: env_view(self.managed_environment.last_written@),
        }
    }
}

/// The configuration of a disabled integration.
pub open spec fn disabled_config() -> CliConfigView {
    CliConfigView {
        enabled: false,
        group_id: None,
        model_id: None,
        original: Seq::empty(),
        last_written: Seq::empty(),
    }
}

/// `s.trim_end_matches('/')`.
pub open spec fn trim_end_slashes(s: Seq<char>) -> Seq<char>
    decreases s.len(),
{
    if s.len() > 0 && s.last() == '/' {
        trim_end_slashes(s.drop_last())
    } else {
        s
    }
}

pub fn trim_end_slashes_exec(s: &str) -> (r: String)
    ensures
        r@ == trim_end_slashes(s@),
{
    let n = s.unicode_len();
    let mut j: usize = n;
    assert(s@.take(n as int) =~= s@);
    while j > 0 && s.get_char(j - 1) == '/'
        invariant
            n == s@.len(),
            j <= n,
            trim_end_slashes(s@) == trim_end_slashes(s@.take(j as int)),
        decreases j,
    {
        assert(s@.take(j as int).drop_last() =~= s@.take(j - 1));
        j = j - 1;
    }
    assert(s@.take(n as int) =~= s@);
    s.substring_char(0, j).to_string()
}


/// The endpoint suffix removed for an API type: the first of its terminal
/// paths that `path` ends with.
pub open spec fn matching_suffix(path: Seq<char>, api_type: Seq<char>) -> Option<Seq<char>> {
    if api_type == "chat-completions"@ {
        if ends_with_spec(path, "/chat/completions"@) {
            Some("/chat/completions"@)
        } else {
            None
        }
    } else if api_type == "responses"@ {
        if ends_with_spec(path, "/responses"@) {
            Some("/responses"@)
        } else {
            None
        }
    } else if api_type == "messages"@ {
        if ends_with_spec(path, "/v1/messages"@) {
            Some("/v1/messages"@)
        } else if ends_with_spec(path, "/messages"@) {
            Some("/messages"@)
        } else {
            None
        }
    } else {
        None
    }
}

fn matching_suffix_exec(path: &str, api_type: &str) -> (r: Option<&'static str>)
    ensures
        match r {
            Some(x) => matching_suffix(path@, api_type@) == Some(x@),
            None => matching_suffix(path@, api_type@) is None,
        },
{
    if str_eq(api_type, "chat-completions") {
        if ends_with(path, "/chat/completions") {
            return Some("/chat/completions");
        }
    } else if str_eq(api_type, "responses") {
        if ends_with(path, "/responses") {
            return Some("/responses");
        }
    } else if str_eq(api_type, "messages") {
        if ends_with(path, "/v1/messages") {
            return Some("/v1/messages");
        }
        if ends_with(path, "/messages") {
            return Some("/messages");
        }
    }
    None
}

/// The provider base URL Copilot CLI expects: the endpoint without query or
/// fragment, with trailing slashes and the API type's terminal path removed,
/// and without a trailing slash when only the root path is left.
pub open spec fn base_url_spec(raw: Seq<char>, api_type: Seq<char>) -> Result<Seq<char>, ErrView> {
    match url_parse(raw) {
        Err(e) => Err(ErrView::InvalidInput("Invalid Copilot CLI provider URL: "@ + e)),
        Ok(u) => if u.query is Some || u.fragment is Some {
            Err(ErrView::InvalidInput("Copilot CLI provider base URL must not contain a query or fragment"@))
        } else {
            let path = trim_end_slashes(u.path);
            match matching_suffix(path, api_type) {
                Some(suffix) => {
                    let base = path.take(path.len() - suffix.len());
                    let set = url_path_set(raw, if base.len() == 0 { "/"@ } else { base });
                    Ok(if set.1 == "/"@ { trim_end_slashes(set.0) } else { set.0 })
                },
                None => Ok(if u.path == "/"@ { trim_end_slashes(u.serialization) } else { u.serialization }),
            }
        },
    }
}

/// The base URL of [`base_url_spec`].
pub fn provider_base_url(raw: &str, api_type: &str) -> (r: Result<String, AppError>)
    ensures
        match r {
            Ok(s) => base_url_spec(raw@, api_type@) == Ok::<Seq<char>, ErrView>(s@),
            Err(e) => base_url_spec(raw@, api_type@) == Err::<Seq<char>, ErrView>(e@),
        },
{
    let parsed = match parse_url(raw) {
        Ok(u) => u,
        Err(e) => {
            return Err(AppError::InvalidInput("Invalid Copilot CLI provider URL: ".to_string().concat(e.as_str())));
        },
    };
    if parsed.query.is_some() || parsed.fragment.is_some() {
        return Err(AppError::InvalidInput("Copilot CLI provider base URL must not contain a query or fragment".to_string()));
    }
    let path = trim_end_slashes_exec(parsed.path.as_str());
    match matching_suffix_exec(path.as_str(), api_type) {
        Some(suffix) => {
            let cut = path.unicode_len() - suffix.unicode_len();
            let base = path.as_str().substring_char(0, cut);
            let (rendered, new_path) = if base.unicode_len() == 0 {
                url_with_path(raw, "/")
            } else {
                url_with_path(raw, base)
            };
            if str_eq(new_path.as_str(), "/") {
                Ok(trim_end_slashes_exec(rendered.as_str()))
            } else {
                Ok(rendered)
            }
        },
        None => {
            if str_eq(parsed.path.as_str(), "/") {
                Ok(trim_end_slashes_exec(parsed.serialization.as_str()))
            } else {
                Ok(parsed.serialization)
            }
        },
    }
}

/// A header line Copilot CLI can carry: a non-blank name without `:` or line
/// breaks, and a value without line breaks.
pub open spec fn header_representable(p: (Seq<char>, Seq<char>)) -> bool {
    let name = trim_spec(p.0);
    &&& name.len() > 0
    &&& !has_char(name, ':') && !has_char(name, '\r') && !has_char(name, '\n')
    &&& !has_char(p.1, '\r') && !has_char(p.1, '\n')
}

/// `Name: value` with `${apiKey}` expanded to the key.
pub open spec fn header_line(p: (Seq<char>, Seq<char>), key: Seq<char>) -> Seq<char> {
    trim_spec(p.0) + ": "@ + replace_spec(p.1, "${apiKey}"@, key)
}

/// The lines of the headers, or the raw name of the first header that cannot
/// be represented.
pub open spec fn header_lines(h: Seq<(Seq<char>, Seq<char>)>, key: Seq<char>) -> Result<Seq<Seq<char>>, Seq<char>>
    decreases h.len(),
{
    if h.len() == 0 {
        Ok(Seq::empty())
    } else if !header_representable(h[0]) {
        Err(h[0].0)
    } else {
        match header_lines(h.skip(1), key) {
            Ok(rest) => Ok(seq![header_line(h[0], key)] + rest),
            Err(e) => Err(e),
        }
    }
}

/// Parts joined with `sep`.
pub open spec fn join_with(parts: Seq<Seq<char>>, sep: Seq<char>) -> Seq<char>
    decreases parts.len(),
{
    if parts.len() == 0 {
        Seq::empty()
    } else if parts.len() == 1 {
        parts[0]
    } else {
        join_with(parts.drop_last(), sep) + sep + parts.last()
    }
}

/// `parts.join(sep)`.
pub fn join_strings(parts: &Vec<String>, sep: &str) -> (r: String)
    ensures
        r@ == join_with(strs(parts@), sep@),
{
    let mut out = String::new();
    let m = parts.len();
    let mut j: usize = 0;
    while j < m
        invariant
            m == parts@.len(),
            j <= m,
            out@ == join_with(strs(parts@).take(j as int), sep@),
        decreases m - j,
    {
        assert(strs(parts@).take(j + 1).drop_last() =~= strs(parts@).take(j as int));
        if j > 0 {
            out.append(sep);
        }
        out.append(parts[j].as_str());
        proof {
            if j == 0 {
                assert(strs(parts@).take(1) =~= seq![parts@[0]@]);
            }
        }
        j = j + 1;
    }
    assert(strs(parts@).take(m as int) =~= strs(parts@));
    out
}

/// `COPILOT_PROVIDER_HEADERS` for a group: none without headers, else the
/// header lines joined by newlines.
pub open spec fn headers_value_spec(h: Seq<(Seq<char>, Seq<char>)>, key: Seq<char>) -> Result<Option<Seq<char>>, ErrView> {
    if h.len() == 0 {
        Ok(None)
    } else {
        match header_lines(h, key) {
            Ok(lines) => Ok(Some(join_with(lines, "\n"@))),
            Err(name) => Err(ErrView::InvalidInput("Copilot CLI provider header is not representable: "@ + name)),
        }
    }
}

pub open spec fn prepend_lines(p: Seq<Seq<char>>, r: Result<Seq<Seq<char>>, Seq<char>>) -> Result<Seq<Seq<char>>, Seq<char>> {
    match r {
        Ok(x) => Ok(p + x),
        Err(e) => Err(e),
    }
}

/// The `COPILOT_PROVIDER_HEADERS` value of [`headers_value_spec`].
pub fn format_headers(group: &CopilotByokGroup) -> (r: Result<Option<String>, AppError>)
    ensures
        r matches Ok(v) ==> headers_value_spec(pairs_view(group.request_headers@), group.api_key@) == Ok::<Option<Seq<char>>, ErrView>(opt_str(v)),
        r matches Err(e) ==> headers_value_spec(pairs_view(group.request_headers@), group.api_key@) == Err::<Option<Seq<char>>, ErrView>(e@),
{
    let h = &group.request_headers;
    if h.len() == 0 {
        return Ok(None);
    }
    let ghost hv = pairs_view(h@);
    let ghost key = group.api_key@;
    let mut lines: Vec<String> = Vec::new();
    let n = h.len();
    let mut i: usize = 0;
    proof {
        reveal_strlit("${apiKey}");
        assert(hv.skip(0) =~= hv);
        assert(prepend_lines(strs(lines@), header_lines(hv, key)) =~~= header_lines(hv, key)) by {
            match header_lines(hv, key) {
                Ok(x) => { assert(strs(lines@) + x =~= x); },
                Err(e) => {},
            }
        }
    }
    while i < n
        invariant
            n == h@.len(),
            hv == pairs_view(h@),
            hv == pairs_view(group.request_headers@),
            key == group.api_key@,
            "${apiKey}"@.len() > 0,
            i <= n,
            header_lines(hv, key) == prepend_lines(strs(lines@), header_lines(hv.skip(i as int), key)),
        decreases n - i,
    {
        let ghost rest = hv.skip(i as int);
        assert(rest[0] == (h@[i as int].0@, h@[i as int].1@));
        assert(rest.skip(1) =~= hv.skip(i + 1));
        let raw_name = h[i].0.as_str();
        let raw_value = h[i].1.as_str();
        let name = trim(raw_name);
        if name.unicode_len() == 0 || contains_char(name.as_str(), ':') || contains_char(name.as_str(), '\r')
            || contains_char(name.as_str(), '\n') || contains_char(raw_value, '\r') || contains_char(raw_value, '\n') {
            assert(!header_representable(rest[0]));
            assert(header_lines(rest, key) == Err::<Seq<Seq<char>>, Seq<char>>(raw_name@));
            assert(header_lines(hv, key) == Err::<Seq<Seq<char>>, Seq<char>>(raw_name@));
            assert(hv.len() > 0);
            let msg = "Copilot CLI provider header is not representable: ".to_string().concat(raw_name);
            assert(headers_value_spec(hv, key) == Err::<Option<Seq<char>>, ErrView>(ErrView::InvalidInput(msg@)));
            return Err(AppError::InvalidInput(msg));
        }
        let value = replace_all(raw_value, "${apiKey}", group.api_key.as_str());
        let line = name.concat(": ").concat(value.as_str());
        let ghost before = strs(lines@);
        lines.push(line);
        proof {
            assert(strs(lines@) =~= before.push(header_line(rest[0], key)));
            match header_lines(hv.skip(i + 1), key) {
                Ok(x) => {
                    assert(before + (seq![header_line(rest[0], key)] + x) =~= strs(lines@) + x);
                },
                Err(e) => {},
            }
        }
        i = i + 1;
    }
    proof {
        assert(hv.skip(n as int).len() == 0);
        assert(strs(lines@) + Seq::<Seq<char>>::empty() =~= strs(lines@));
    }
    let out = join_strings(&lines, "\n");
    Ok(Some(out))
}


/// Every managed variable, unset.
pub open spec fn all_unset() -> Seq<(Seq<char>, Option<Seq<char>>)> {
    insert_all(Seq::empty(), managed_vars().map_values(|v: Seq<char>| (v, None::<Seq<char>>)))
}

pub open spec fn opt_decimal(o: Option<u64>) -> Option<Seq<char>> {
    match o {
        Some(n) => Some(decimal(n as nat)),
        None => None,
    }
}

pub const SECRET_REFERENCE_MESSAGE: &'static str = "Copilot CLI cannot resolve a VS Code SecretStorage ${input:...} reference; enter a literal API key or use an unauthenticated local provider";

/// The managed environment a provider and model map to: every managed
/// variable unset except the base URL, the provider type (`anthropic` for the
/// Messages API, else `openai`), the key when one is set, the wire API
/// (`responses` or `completions`), the headers, the model id and the token
/// limits. A SecretStorage key reference is refused.
pub open spec fn desired_env_spec(g: CopilotByokGroup, m: CopilotByokModel) -> Result<Seq<(Seq<char>, Option<Seq<char>>)>, ErrView> {
    if is_secret_reference_spec(g.api_key@) {
        Err(ErrView::InvalidInput(SECRET_REFERENCE_MESSAGE@))
    } else {
        match base_url_spec(g.url@, g.api_type@) {
            Err(e) => Err(e),
            Ok(base) => match headers_value_spec(pairs_view(g.request_headers@), g.api_key@) {
                Err(e) => Err(e),
                Ok(headers) => {
                    let d1 = entries_insert(all_unset(), "COPILOT_PROVIDER_BASE_URL"@, Some(base));
                    let d2 = entries_insert(d1, "COPILOT_PROVIDER_TYPE"@, Some(if g.api_type@ == "messages"@ { "anthropic"@ } else { "openai"@ }));
                    let d3 = if g.api_key@.len() > 0 {
                        entries_insert(d2, "COPILOT_PROVIDER_API_KEY"@, Some(g.api_key@))
                    } else {
                        d2
                    };
                    let d4 = entries_insert(d3, "COPILOT_PROVIDER_WIRE_API"@, if g.api_type@ == "responses"@ {
                        Some("responses"@)
                    } else if g.api_type@ == "chat-completions"@ {
                        Some("completions"@)
                    } else {
                        None
                    });
                    let d5 = entries_insert(d4, "COPILOT_PROVIDER_HEADERS"@, headers);
                    let d6 = entries_insert(d5, "COPILOT_MODEL"@, Some(m.model_id@));
                    let d7 = entries_insert(d6, "COPILOT_PROVIDER_MAX_PROMPT_TOKENS"@, opt_decimal(m.max_input_tokens));
                    let d8 = entries_insert(d7, "COPILOT_PROVIDER_MAX_OUTPUT_TOKENS"@, opt_decimal(m.max_output_tokens));
                    Ok(d8)
                },
            },
        }
    }
}

fn opt_u64_string(o: Option<u64>) -> (r: Option<String>)
    ensures
        opt_str(r) == opt_decimal(o),
{
    match o {
        Some(n) => Some(u64_to_string(n)),
        None => None,
    }
}

/// Every managed variable, unset.
pub fn unset_environment() -> (r: Vec<(String, Option<String>)>)
    ensures
        env_view(r@) == all_unset(),
{
    let names = managed_variables();
    let mut out: Vec<(String, Option<String>)> = Vec::new();
    let n = names.len();
    let mut i: usize = 0;
    assert(env_view(out@) =~= Seq::<(Seq<char>, Option<Seq<char>>)>::empty());
    while i < n
        invariant
            n == names@.len(),
            strs(names@) == managed_vars(),
            i <= n,
            env_view(out@) == insert_all(Seq::empty(), managed_vars().take(i as int).map_values(|v: Seq<char>| (v, None::<Seq<char>>))),
        decreases n - i,
    {
        let name = names[i].clone();
        kv_insert(&mut out, name, None);
        assert(managed_vars().take(i + 1).map_values(|v: Seq<char>| (v, None::<Seq<char>>)).drop_last()
            =~= managed_vars().take(i as int).map_values(|v: Seq<char>| (v, None::<Seq<char>>)));
        assert(managed_vars()[i as int] == names@[i as int]@);
        i = i + 1;
    }
    assert(managed_vars().take(n as int) =~= managed_vars());
    out
}

fn option_string_deep(o: Option<String>) -> (r: Option<String>)
    ensures
        r.deep_view() == opt_str(o),
        r == o,
{
    o
}

/// The managed environment of [`desired_env_spec`].
pub fn desired_environment(group: &CopilotByokGroup, model: &CopilotByokModel) -> (r: Result<Vec<(String, Option<String>)>, AppError>)
    ensures
        r matches Ok(d) ==> desired_env_spec(*group, *model) == Ok::<Seq<(Seq<char>, Option<Seq<char>>)>, ErrView>(env_view(d@)),
        r matches Err(e) ==> desired_env_spec(*group, *model) == Err::<Seq<(Seq<char>, Option<Seq<char>>)>, ErrView>(e@),
{
    if is_vscode_secret_reference(group.api_key.as_str()) {
        return Err(AppError::InvalidInput(SECRET_REFERENCE_MESSAGE.to_string()));
    }
    let base = provider_base_url(group.url.as_str(), group.api_type.as_str())?;
    let headers = format_headers(group)?;
    let mut d = unset_environment();
    kv_insert(&mut d, "COPILOT_PROVIDER_BASE_URL".to_string(), Some(base));
    let provider_type = if str_eq(group.api_type.as_str(), "messages") { "anthropic" } else { "openai" };
    kv_insert(&mut d, "COPILOT_PROVIDER_TYPE".to_string(), Some(provider_type.to_string()));
    if group.api_key.unicode_len() > 0 {
        kv_insert(&mut d, "COPILOT_PROVIDER_API_KEY".to_string(), Some(group.api_key.clone()));
    }
    let wire = if str_eq(group.api_type.as_str(), "responses") {
        Some("responses".to_string())
    } else if str_eq(group.api_type.as_str(), "chat-completions") {
        Some("completions".to_string())
    } else {
        None
    };
    kv_insert(&mut d, "COPILOT_PROVIDER_WIRE_API".to_string(), option_string_deep(wire));
    kv_insert(&mut d, "COPILOT_PROVIDER_HEADERS".to_string(), option_string_deep(headers));
    kv_insert(&mut d, "COPILOT_MODEL".to_string(), Some(model.model_id.clone()));
    kv_insert(&mut d, "COPILOT_PROVIDER_MAX_PROMPT_TOKENS".to_string(), opt_u64_string(model.max_input_tokens));
    kv_insert(&mut d, "COPILOT_PROVIDER_MAX_OUTPUT_TOKENS".to_string(), opt_u64_string(model.max_output_tokens));
    Ok(d)
}


/// Managed variables (in order) whose current value differs from the
/// expected one; a variable missing from a map differs from one present.
pub open spec fn conflicts_in(
    vars: Seq<Seq<char>>,
    current: Seq<(Seq<char>, Option<Seq<char>>)>,
    expected: Seq<(Seq<char>, Option<Seq<char>>)>,
) -> Seq<Seq<char>>
    decreases vars.len(),
{
    if vars.len() == 0 {
        Seq::empty()
    } else {
        let p = conflicts_in(vars.drop_last(), current, expected);
        if entries_get(current, vars.last()) != entries_get(expected, vars.last()) {
            p.push(vars.last())
        } else {
            p
        }
    }
}

pub open spec fn conflicts_spec(
    current: Seq<(Seq<char>, Option<Seq<char>>)>,
    expected: Seq<(Seq<char>, Option<Seq<char>>)>,
) -> Seq<Seq<char>> {
    conflicts_in(managed_vars(), current, expected)
}

pub open spec fn lookup_view(o: Option<&Option<String>>) -> Option<Option<Seq<char>>> {
    match o {
        Some(x) => Some(opt_str(*x)),
        None => None,
    }
}

fn opt_opt_eq(a: Option<&Option<String>>, b: Option<&Option<String>>) -> (r: bool)
    ensures
        r == (lookup_view(a) == lookup_view(b)),
{
    match (a, b) {
        (None, None) => true,
        (Some(x), Some(y)) => match (x, y) {
            (None, None) => true,
            (Some(p), Some(q)) => str_eq(p.as_str(), q.as_str()),
            _ => false,
        },
        _ => false,
    }
}

/// Names of the managed variables whose values differ between the maps.
pub fn conflicts(current: &Vec<(String, Option<String>)>, expected: &Vec<(String, Option<String>)>) -> (r: Vec<String>)
    ensures
        strs(r@) == conflicts_spec(env_view(current@), env_view(expected@)),
{
    let names = managed_variables();
    let mut out: Vec<String> = Vec::new();
    let n = names.len();
    let mut i: usize = 0;
    while i < n
        invariant
            n == names@.len(),
            strs(names@) == managed_vars(),
            i <= n,
            strs(out@) == conflicts_in(managed_vars().take(i as int), env_view(current@), env_view(expected@)),
        decreases n - i,
    {
        let a = kv_lookup(current, names[i].as_str());
        let b = kv_lookup(expected, names[i].as_str());
        assert(managed_vars().take(i + 1).drop_last() =~= managed_vars().take(i as int));
        assert(managed_vars()[i as int] == names@[i as int]@);
        proof {
            assert(lookup_view(a) == entries_get(env_view(current@), names@[i as int]@)) by {
                match a {
                    Some(x) => { assert(x.deep_view() == opt_str(*x)); },
                    None => {},
                }
            }
            assert(lookup_view(b) == entries_get(env_view(expected@), names@[i as int]@)) by {
                match b {
                    Some(x) => { assert(x.deep_view() == opt_str(*x)); },
                    None => {},
                }
            }
        }
        if !opt_opt_eq(a, b) {
            let ghost before = strs(out@);
            out.push(names[i].clone());
            assert(strs(out@) =~= before.push(names@[i as int]@));
        }
        i = i + 1;
    }
    assert(managed_vars().take(n as int) =~= managed_vars());
    out
}


/// Index of the first group with the id.
pub open spec fn group_index(gs: Seq<CopilotByokGroup>, id: Seq<char>) -> Option<int>
    decreases gs.len(),
{
    if gs.len() == 0 {
        None
    } else if gs[0].id@ == id {
        Some(0)
    } else {
        match group_index(gs.skip(1), id) {
            Some(i) => Some(i + 1),
            None => None,
        }
    }
}

/// Index of the first model with the (internal) id.
pub open spec fn model_index(ms: Seq<CopilotByokModel>, id: Seq<char>) -> Option<int>
    decreases ms.len(),
{
    if ms.len() == 0 {
        None
    } else if ms[0].id@ == id {
        Some(0)
    } else {
        match model_index(ms.skip(1), id) {
            Some(i) => Some(i + 1),
            None => None,
        }
    }
}

/// The group and model a CLI selection names.
pub open spec fn selected_spec(gs: Seq<CopilotByokGroup>, group_id: Seq<char>, model_id: Seq<char>) -> Result<(int, int), ErrView> {
    match group_index(gs, group_id) {
        None => Err(ErrView::InvalidInput("Unknown Copilot CLI provider: "@ + group_id)),
        Some(gi) => match model_index(gs[gi].models@, model_id) {
            None => Err(ErrView::InvalidInput("Unknown Copilot CLI model "@ + model_id + " in provider "@ + group_id)),
            Some(mi) => Ok((gi, mi)),
        },
    }
}

fn group_index_exec(gs: &Vec<CopilotByokGroup>, id: &str) -> (r: Option<usize>)
    ensures
        match r {
            Some(i) => group_index(gs@, id@) == Some(i as int) && i < gs@.len(),
            None => group_index(gs@, id@) is None,
        },
{
    let n = gs.len();
    let mut i: usize = 0;
    assert(gs@.skip(0) =~= gs@);
    while i < n
        invariant
            n == gs@.len(),
            i <= n,
            group_index(gs@, id@) == match group_index(gs@.skip(i as int), id@) {
                Some(k) => Some(k + i),
                None => None::<int>,
            },
        decreases n - i,
    {
        assert(gs@.skip(i as int)[0] == gs@[i as int]);
        assert(gs@.skip(i as int).skip(1) =~= gs@.skip(i + 1));
        if str_eq(gs[i].id.as_str(), id) {
            return Some(i);
        }
        i = i + 1;
    }
    None
}

fn model_index_exec(ms: &Vec<CopilotByokModel>, id: &str) -> (r: Option<usize>)
    ensures
        match r {
            Some(i) => model_index(ms@, id@) == Some(i as int) && i < ms@.len(),
            None => model_index(ms@, id@) is None,
        },
{
    let n = ms.len();
    let mut i: usize = 0;
    assert(ms@.skip(0) =~= ms@);
    while i < n
        invariant
            n == ms@.len(),
            i <= n,
            model_index(ms@, id@) == match model_index(ms@.skip(i as int), id@) {
                Some(k) => Some(k + i),
                None => None::<int>,
            },
        decreases n - i,
    {
        assert(ms@.skip(i as int)[0] == ms@[i as int]);
        assert(ms@.skip(i as int).skip(1) =~= ms@.skip(i + 1));
        if str_eq(ms[i].id.as_str(), id) {
            return Some(i);
        }
        i = i + 1;
    }
    None
}

/// Positions of the selected group and model.
pub fn selected(groups: &Vec<CopilotByokGroup>, group_id: &str, model_id: &str) -> (r: Result<(usize, usize), AppError>)
    ensures
        r matches Ok((g, m)) ==> selected_spec(groups@, group_id@, model_id@) == Ok::<(int, int), ErrView>((g as int, m as int))
            && g < groups@.len() && m < groups@[g as int].models@.len(),
        r matches Err(e) ==> selected_spec(groups@, group_id@, model_id@) == Err::<(int, int), ErrView>(e@),
{
    let g = match group_index_exec(groups, group_id) {
        Some(g) => g,
        None => {
            return Err(AppError::InvalidInput("Unknown Copilot CLI provider: ".to_string().concat(group_id)));
        },
    };
    match model_index_exec(&groups[g].models, model_id) {
        Some(m) => Ok((g, m)),
        None => {
            let msg = "Unknown Copilot CLI model ".to_string().concat(model_id).concat(" in provider ").concat(group_id);
            Err(AppError::InvalidInput(msg))
        },
    }
}

/// Refusal to touch a managed environment that was edited elsewhere.
pub open spec fn external_edit_problem(cfg: CliConfigView, current: Seq<(Seq<char>, Option<Seq<char>>)>) -> Option<ErrView> {
    let changed = conflicts_spec(current, cfg.last_written);
    if cfg.enabled && changed.len() > 0 {
        Some(ErrView::Conflict("Copilot CLI environment was changed outside CC Switch: "@ + join_with(changed, ", "@)))
    } else {
        None
    }
}

/// Fails with a conflict when the integration is on and a managed variable
/// no longer holds the value the library last wrote.
pub fn ensure_no_external_edits(cfg: &CopilotCliConfig, current: &Vec<(String, Option<String>)>) -> (r: Result<(), AppError>)
    ensures
        r is Ok <==> external_edit_problem(cfg@, env_view(current@)) is None,
        r matches Err(e) ==> external_edit_problem(cfg@, env_view(current@)) == Some(e@),
{
    if !cfg.enabled {
        return Ok(());
    }
    let changed = conflicts(current, &cfg.managed_environment.last_written);
    if changed.len() == 0 {
        return Ok(());
    }
    let msg = "Copilot CLI environment was changed outside CC Switch: ".to_string().concat(join_strings(&changed, ", ").as_str());
    Err(AppError::Conflict(msg))
}

/// What the settings page shows about the Copilot CLI integration.
#[derive(Debug, Clone, PartialEq, Eq)]
pub struct CopilotCliState {
    pub supported: bool,
    pub enabled: bool,
    pub selected_group_id: Option<String>,
    pub selected_model_id: Option<String>,
    pub selected_provider_name: Option<String>,
    pub selected_model_name: Option<String>,
    pub environment_matches: bool,
    /// Variable names only; values are never reported.
    pub environment_conflicts: Vec<String>,
}

/// The stored selection, when it names an existing group and model.
pub open spec fn selection_spec(cfg: CliConfigView, gs: Seq<CopilotByokGroup>) -> Option<(int, int)> {
    match (cfg.group_id, cfg.model_id) {
        (Some(g), Some(m)) => match selected_spec(gs, g, m) {
            Ok(p) => Some(p),
            Err(_) => None,
        },
        _ => None,
    }
}

pub(crate) fn clone_opt(o: &Option<String>) -> (r: Option<String>)
    ensures
        opt_str(r) == opt_str(*o),
        r.deep_view() == o.deep_view(),
{
    match o {
        Some(s) => Some(s.clone()),
        None => None,
    }
}

/// A copy of an environment map.
pub fn clone_env(e: &Vec<(String, Option<String>)>) -> (r: Vec<(String, Option<String>)>)
    ensures
        env_view(r@) == env_view(e@),
{
    let mut out: Vec<(String, Option<String>)> = Vec::new();
    let n = e.len();
    let mut i: usize = 0;
    while i < n
        invariant
            n == e@.len(),
            i <= n,
            out@.len() == i,
            env_view(out@) == env_view(e@).take(i as int),
        decreases n - i,
    {
        let ghost before = out@;
        let key = e[i].0.clone();
        let value = clone_opt(&e[i].1);
        out.push((key, value));
        proof {
            assert(env_view(out@)[i as int] == env_view(e@)[i as int]);
            assert forall|k: int| 0 <= k < i implies #[trigger] env_view(out@)[k] == env_view(before)[k] by {
                assert(out@[k] == before[k]);
            }
            assert(env_view(out@) =~= env_view(e@).take(i + 1));
        }
        i = i + 1;
    }
    assert(env_view(e@).take(n as int) =~= env_view(e@));
    out
}

fn env_eq(a: &Vec<(String, Option<String>)>, b: &Vec<(String, Option<String>)>) -> (r: bool)
    ensures
        r == (env_view(a@) == env_view(b@)),
{
    if a.len() != b.len() {
        assert(env_view(a@).len() != env_view(b@).len());
        return false;
    }
    let n = a.len();
    let mut i: usize = 0;
    while i < n
        invariant
            n == a@.len(),
            n == b@.len(),
            i <= n,
            forall|k: int| 0 <= k < i ==> #[trigger] env_view(a@)[k] == env_view(b@)[k],
        decreases n - i,
    {
        let same_value = match (&a[i].1, &b[i].1) {
            (None, None) => true,
            (Some(x), Some(y)) => str_eq(x.as_str(), y.as_str()),
            _ => false,
        };
        if !str_eq(a[i].0.as_str(), b[i].0.as_str()) || !same_value {
            assert(env_view(a@)[i as int] != env_view(b@)[i as int]);
            return false;
        }
        i = i + 1;
    }
    assert(env_view(a@) =~= env_view(b@));
    true
}

/// The CLI state given the current values of the managed variables.
pub open spec fn cli_state_spec(cfg: CliConfigView, gs: Seq<CopilotByokGroup>, current: Seq<(Seq<char>, Option<Seq<char>>)>) -> (bool, Option<Seq<char>>, Option<Seq<char>>, bool, Seq<Seq<char>>) {
    let sel = selection_spec(cfg, gs);
    let conflicts = if cfg.enabled {
        conflicts_spec(current, cfg.last_written)
    } else {
        Seq::empty()
    };
    let desired_matches = match sel {
        Some((gi, mi)) => desired_env_spec(gs[gi], gs[gi].models@[mi]) == Ok::<Seq<(Seq<char>, Option<Seq<char>>)>, ErrView>(
            cfg.last_written,
        ),
        None => false,
    };
    let provider_name = match sel {
        Some((gi, mi)) => Some(gs[gi].name@),
        None => None,
    };
    let model_name = match sel {
        Some((gi, mi)) => Some(gs[gi].models@[mi].name@),
        None => None,
    };
    (cfg.enabled, provider_name, model_name, cfg.enabled && sel is Some && desired_matches && conflicts.len() == 0, conflicts)
}

/// The integration's state: the selection (with display names when it still
/// resolves), the variables edited outside the library while enabled, and
/// whether the environment holds exactly what the selection maps to.
pub fn state_with_snapshot(cfg: &CopilotCliConfig, groups: &Vec<CopilotByokGroup>, current: &Vec<(String, Option<String>)>) -> (r: CopilotCliState)
    ensures
        r.supported,
        r.enabled == cfg.enabled,
        opt_str(r.selected_group_id) == opt_str(cfg.selected_group_id),
        opt_str(r.selected_model_id) == opt_str(cfg.selected_model_id),
        (r.enabled, opt_str(r.selected_provider_name), opt_str(r.selected_model_name), r.environment_matches, strs(r.environment_conflicts@))
            == cli_state_spec(cfg@, groups@, env_view(current@)),
{
    let sel = match (&cfg.selected_group_id, &cfg.selected_model_id) {
        (Some(g), Some(m)) => match selected(groups, g.as_str(), m.as_str()) {
            Ok(p) => Some(p),
            Err(_) => None,
        },
        _ => None,
    };
    let environment_conflicts = if cfg.enabled {
        conflicts(current, &cfg.managed_environment.last_written)
    } else {
        Vec::new()
    };
    assert(strs(environment_conflicts@) =~= cli_state_spec(cfg@, groups@, env_view(current@)).4);
    let desired_matches = match sel {
        Some((gi, mi)) => match desired_environment(&groups[gi], &groups[gi].models[mi]) {
            Ok(d) => env_eq(&d, &cfg.managed_environment.last_written),
            Err(_) => false,
        },
        None => false,
    };
    let (provider_name, model_name) = match sel {
        Some((gi, mi)) => (Some(groups[gi].name.clone()), Some(groups[gi].models[mi].name.clone())),
        None => (None, None),
    };
    CopilotCliState {
        supported: true,
        enabled: cfg.enabled,
        selected_group_id: clone_opt(&cfg.selected_group_id),
        selected_model_id: clone_opt(&cfg.selected_model_id),
        selected_provider_name: provider_name,
        selected_model_name: model_name,
        environment_matches: cfg.enabled && sel.is_some() && desired_matches && environment_conflicts.len() == 0,
        environment_conflicts,
    }
}

/// The state on platforms without user-environment switching: unsupported,
/// disabled, with the stored selection and its display names.
pub fn unsupported_state(cfg: &CopilotCliConfig, groups: &Vec<CopilotByokGroup>) -> (r: CopilotCliState)
    ensures
        !r.supported,
        !r.enabled,
        !r.environment_matches,
        r.environment_conflicts@.len() == 0,
        opt_str(r.selected_group_id) == opt_str(cfg.selected_group_id),
        opt_str(r.selected_model_id) == opt_str(cfg.selected_model_id),
        opt_str(r.selected_provider_name) == cli_state_spec(cfg@, groups@, Seq::empty()).1,
        opt_str(r.selected_model_name) == cli_state_spec(cfg@, groups@, Seq::empty()).2,
{
    let sel = match (&cfg.selected_group_id, &cfg.selected_model_id) {
        (Some(g), Some(m)) => match selected(groups, g.as_str(), m.as_str()) {
            Ok(p) => Some(p),
            Err(_) => None,
        },
        _ => None,
    };
    let (provider_name, model_name) = match sel {
        Some((gi, mi)) => (Some(groups[gi].name.clone()), Some(groups[gi].models[mi].name.clone())),
        None => (None, None),
    };
    CopilotCliState {
        supported: false,
        enabled: false,
        selected_group_id: clone_opt(&cfg.selected_group_id),
        selected_model_id: clone_opt(&cfg.selected_model_id),
        selected_provider_name: provider_name,
        selected_model_name: model_name,
        environment_matches: false,
        environment_conflicts: Vec::new(),
    }
}

/// The configuration after applying a provider and model: the selection must
/// resolve, map to an environment, and no managed variable may have been
/// edited outside the library. The first apply records the current values
/// as the original environment; later applies keep the recorded ones.
pub open spec fn apply_spec(
    cfg: CliConfigView,
    gs: Seq<CopilotByokGroup>,
    group_id: Seq<char>,
    model_id: Seq<char>,
    current: Seq<(Seq<char>, Option<Seq<char>>)>,
) -> Result<CliConfigView, ErrView> {
    match selected_spec(gs, group_id, model_id) {
        Err(e) => Err(e),
        Ok((gi, mi)) => match desired_env_spec(gs[gi], gs[gi].models@[mi]) {
            Err(e) => Err(e),
            Ok(d) => match external_edit_problem(cfg, current) {
                Some(e) => Err(e),
                None => Ok(
                    CliConfigView {
                        enabled: true,
                        group_id: Some(group_id),
                        model_id: Some(model_id),
                        original: if cfg.enabled {
                            cfg.original
                        } else {
                            current
                        },
                        last_written: d,
                    },
                ),
            },
        },
    }
}

/// The configuration to persist when applying a provider and model, given
/// the current values of the managed variables. Its `last_written` map is
/// what the environment must be set to.
pub fn plan_apply(
    cfg: &CopilotCliConfig,
    groups: &Vec<CopilotByokGroup>,
    group_id: &str,
    model_id: &str,
    current: &Vec<(String, Option<String>)>,
) -> (r: Result<CopilotCliConfig, AppError>)
    ensures
        r matches Ok(next) ==> apply_spec(cfg@, groups@, group_id@, model_id@, env_view(current@)) == Ok::<CliConfigView, ErrView>(next@),
        r matches Err(e) ==> apply_spec(cfg@, groups@, group_id@, model_id@, env_view(current@)) == Err::<CliConfigView, ErrView>(e@),
{
    let (gi, mi) = selected(groups, group_id, model_id)?;
    let desired = desired_environment(&groups[gi], &groups[gi].models[mi])?;
    ensure_no_external_edits(cfg, current)?;
    let original = if cfg.enabled {
        clone_env(&cfg.managed_environment.original)
    } else {
        clone_env(current)
    };
    Ok(CopilotCliConfig {
        enabled: true,
        selected_group_id: Some(group_id.to_string()),
        selected_model_id: Some(model_id.to_string()),
        managed_environment: CopilotCliManagedEnvironment { original, last_written: desired },
    })
}

/// Restoring the original environment: nothing to do when the integration
/// is off; a conflict when a managed variable was edited outside the
/// library; otherwise the recorded original values to write back.
pub open spec fn disable_spec(
    cfg: CliConfigView,
    current: Seq<(Seq<char>, Option<Seq<char>>)>,
) -> Result<Option<Seq<(Seq<char>, Option<Seq<char>>)>>, ErrView> {
    if !cfg.enabled {
        Ok(None)
    } else {
        match external_edit_problem(cfg, current) {
            Some(e) => Err(e),
            None => Ok(Some(cfg.original)),
        }
    }
}

/// The values to write back when disabling the integration (`None`: the
/// integration is off and nothing is written). After the write the stored
/// configuration becomes [`CopilotCliConfig::default`].
pub fn plan_disable(cfg: &CopilotCliConfig, current: &Vec<(String, Option<String>)>) -> (r: Result<Option<Vec<(String, Option<String>)>>, AppError>)
    ensures
        r matches Ok(Some(v)) ==> disable_spec(cfg@, env_view(current@)) == Ok::<Option<Seq<(Seq<char>, Option<Seq<char>>)>>, ErrView>(Some(env_view(v@))),
        r matches Ok(None) ==> disable_spec(cfg@, env_view(current@)) == Ok::<Option<Seq<(Seq<char>, Option<Seq<char>>)>>, ErrView>(None),
        r matches Err(e) ==> disable_spec(cfg@, env_view(current@)) == Err::<Option<Seq<(Seq<char>, Option<Seq<char>>)>>, ErrView>(e@),
{
    if !cfg.enabled {
        return Ok(None);
    }
    ensure_no_external_edits(cfg, current)?;
    Ok(Some(clone_env(&cfg.managed_environment.original)))
}

/// A user environment: variable name to value; absent names are unset.
pub open spec fn env_get(env: Map<Seq<char>, Seq<char>>, n: Seq<char>) -> Option<Seq<char>> {
    if env.contains_key(n) {
        Some(env[n])
    } else {
        None
    }
}

/// The value a map of managed values gives a variable: `None` both for an
/// explicit unset and for a missing entry.
pub open spec fn stored_value(values: Seq<(Seq<char>, Option<Seq<char>>)>, n: Seq<char>) -> Option<Seq<char>> {
    match entries_get(values, n) {
        Some(Some(v)) => Some(v),
        _ => None,
    }
}

/// Reading every managed variable.
pub open spec fn snapshot_spec(env: Map<Seq<char>, Seq<char>>) -> Seq<(Seq<char>, Option<Seq<char>>)> {
    insert_all(Seq::empty(), managed_vars().map_values(|n: Seq<char>| (n, env_get(env, n))))
}

/// Setting or removing one variable.
pub open spec fn set_var(env: Map<Seq<char>, Seq<char>>, n: Seq<char>, v: Option<Seq<char>>) -> Map<Seq<char>, Seq<char>> {
    match v {
        Some(x) => env.insert(n, x),
        None => env.remove(n),
    }
}

/// Performing writes first to last.
pub open spec fn apply_writes(env: Map<Seq<char>, Seq<char>>, writes: Seq<(Seq<char>, Option<Seq<char>>)>) -> Map<Seq<char>, Seq<char>>
    decreases writes.len(),
{
    if writes.len() == 0 {
        env
    } else {
        set_var(apply_writes(env, writes.drop_last()), writes.last().0, writes.last().1)
    }
}

/// The writes that set the managed variables to a map of values: one per
/// managed variable, in order.
pub open spec fn writes_for(values: Seq<(Seq<char>, Option<Seq<char>>)>) -> Seq<(Seq<char>, Option<Seq<char>>)> {
    managed_vars().map_values(|n: Seq<char>| (n, stored_value(values, n)))
}

/// The environment after every managed variable is set to its value in the
/// map; other variables are untouched.
pub open spec fn write_spec(env: Map<Seq<char>, Seq<char>>, values: Seq<(Seq<char>, Option<Seq<char>>)>) -> Map<Seq<char>, Seq<char>> {
    Map::new(
        |n: Seq<char>|
            if managed_vars().contains(n) {
                stored_value(values, n) is Some
            } else {
                env.contains_key(n)
            },
        |n: Seq<char>|
            if managed_vars().contains(n) {
                stored_value(values, n).unwrap()
            } else {
                env[n]
            },
    )
}

/// The writes of [`writes_for`], for the caller to perform in order.
pub fn write_plan(values: &Vec<(String, Option<String>)>) -> (r: Vec<(String, Option<String>)>)
    ensures
        env_view(r@) == writes_for(env_view(values@)),
{
    let names = managed_variables();
    let mut out: Vec<(String, Option<String>)> = Vec::new();
    let n = names.len();
    let mut i: usize = 0;
    while i < n
        invariant
            n == names@.len(),
            strs(names@) == managed_vars(),
            i <= n,
            out@.len() == i,
            env_view(out@) == writes_for(env_view(values@)).take(i as int),
        decreases n - i,
    {
        let found = kv_lookup(values, names[i].as_str());
        let value: Option<String> = match found {
            Some(Some(v)) => Some(v.clone()),
            _ => None,
        };
        proof {
            assert(managed_vars()[i as int] == names@[i as int]@);
            match found {
                Some(x) => { assert(x.deep_view() == opt_str(*x)); },
                None => {},
            }
            assert(opt_str(value) == stored_value(env_view(values@), names@[i as int]@));
        }
        let ghost before = out@;
        out.push((names[i].clone(), value));
        proof {
            assert(value.deep_view() == opt_str(value));
            assert(env_view(out@)[i as int] == writes_for(env_view(values@))[i as int]);
            assert forall|k: int| 0 <= k < i implies #[trigger] env_view(out@)[k] == env_view(before)[k] by {
                assert(out@[k] == before[k]);
            }
            assert(env_view(out@) =~= writes_for(env_view(values@)).take(i + 1));
        }
        i = i + 1;
    }
    assert(writes_for(env_view(values@)).take(n as int) =~= writes_for(env_view(values@)));
    out
}

/// The error of a failed write, with the variables whose rollback failed.
pub fn rollback_failure_error(error: &AppError, failures: &Vec<String>) -> (r: AppError)
    ensures
        failures@.len() == 0 ==> r@ == error@,
        failures@.len() > 0 ==> r@ == ErrView::Config(
            error@.message() + "; failed to roll back environment variables: "@ + join_with(strs(failures@), ", "@),
        ),
{
    if failures.len() == 0 {
        return error.clone_error();
    }
    let msg = error.message().concat("; failed to roll back environment variables: ").concat(join_strings(failures, ", ").as_str());
    AppError::Config(msg)
}

/// The error of a restore that left some variables unwritten.
pub fn restore_failure_error(failures: &Vec<String>) -> (r: AppError)
    ensures
        r@ == ErrView::Config("Failed to restore environment variables: "@ + join_with(strs(failures@), ", "@)),
{
    AppError::Config("Failed to restore environment variables: ".to_string().concat(join_strings(failures, ", ").as_str()))
}

/// The error of a failed save whose environment rollback failed too;
/// `restoring` tells a failed disable (the applied values could not be
/// written back) from a failed apply.
pub fn persist_rollback_error(error: &AppError, rollback: &AppError, restoring: bool) -> (r: AppError)
    ensures
        r@ == ErrView::Config(
            error@.message() + (if restoring {
                "; failed to reapply Copilot CLI environment: "@
            } else {
                "; failed to roll back Copilot CLI environment: "@
            }) + rollback@.message(),
        ),
{
    let middle = if restoring {
        "; failed to reapply Copilot CLI environment: "
    } else {
        "; failed to roll back Copilot CLI environment: "
    };
    AppError::Config(error.message().concat(middle).concat(rollback.message().as_str()))
}

/// The refusal of the platforms without user-environment switching.
pub fn switching_unsupported() -> (r: AppError)
    ensures
        r@ == ErrView::InvalidInput("Copilot CLI user-environment switching is currently supported on Windows only"@),
{
    AppError::InvalidInput("Copilot CLI user-environment switching is currently supported on Windows only".to_string())
}

/// Check that an enabled integration names a provider and model that exist.
pub open spec fn selection_problem(cfg: CliConfigView, gs: Seq<CopilotByokGroup>) -> Option<ErrView> {
    if !cfg.enabled {
        None
    } else {
        match cfg.group_id {
            None => Some(ErrView::Config("Copilot CLI is enabled without a selected provider"@)),
            Some(g) => match cfg.model_id {
                None => Some(ErrView::Config("Copilot CLI is enabled without a selected model"@)),
                Some(m) => match selected_spec(gs, g, m) {
                    Err(e) => Some(e),
                    Ok(_) => None,
                },
            },
        }
    }
}

/// Fails when the integration is enabled without a resolvable selection.
pub fn validate_selection(cfg: &CopilotCliConfig, groups: &Vec<CopilotByokGroup>) -> (r: Result<(), AppError>)
    ensures
        r is Ok <==> selection_problem(cfg@, groups@) is None,
        r matches Err(e) ==> selection_problem(cfg@, groups@) == Some(e@),
{
    if !cfg.enabled {
        return Ok(());
    }
    let group_id = match &cfg.selected_group_id {
        Some(g) => g,
        None => {
            return Err(AppError::Config("Copilot CLI is enabled without a selected provider".to_string()));
        },
    };
    let model_id = match &cfg.selected_model_id {
        Some(m) => m,
        None => {
            return Err(AppError::Config("Copilot CLI is enabled without a selected model".to_string()));
        },
    };
    match selected(groups, group_id.as_str(), model_id.as_str()) {
        Ok(_) => Ok(()),
        Err(e) => Err(e),
    }
}

/// Reading a managed variable out of a snapshot gives its value.
pub proof fn lemma_snapshot_get(env: Map<Seq<char>, Seq<char>>, n: Seq<char>)
    requires
        managed_vars().contains(n),
    ensures
        entries_get(snapshot_spec(env), n) == Some(env_get(env, n)),
{
    let f = |k: Seq<char>| env_get(env, k);
    let s = managed_vars().map_values(|k: Seq<char>| (k, env_get(env, k)));
    assert(s =~= managed_vars().map_values(|k: Seq<char>| (k, f(k))));
    lemma_get_insert_all(Seq::empty(), s, n);
    lemma_last_value_keyed(managed_vars(), f, n);
}

/// Every managed variable is unset in [`all_unset`].
proof fn lemma_all_unset_get(n: Seq<char>)
    requires
        managed_vars().contains(n),
    ensures
        entries_get(all_unset(), n) == Some(None::<Seq<char>>),
{
    let f = |k: Seq<char>| None::<Seq<char>>;
    let s = managed_vars().map_values(|v: Seq<char>| (v, None::<Seq<char>>));
    assert(s =~= managed_vars().map_values(|k: Seq<char>| (k, f(k))));
    lemma_get_insert_all(Seq::empty(), s, n);
    lemma_last_value_keyed(managed_vars(), f, n);
}

/// A provider's environment sets or unsets every managed variable.
pub proof fn lemma_desired_covers(g: CopilotByokGroup, m: CopilotByokModel, n: Seq<char>)
    requires
        desired_env_spec(g, m) is Ok,
        managed_vars().contains(n),
    ensures
        entries_get(desired_env_spec(g, m)->Ok_0, n) is Some,
{
    lemma_all_unset_get(n);
    let base = base_url_spec(g.url@, g.api_type@)->Ok_0;
    let headers = headers_value_spec(pairs_view(g.request_headers@), g.api_key@)->Ok_0;
    let d1 = entries_insert(all_unset(), "COPILOT_PROVIDER_BASE_URL"@, Some(base));
    lemma_get_after_insert(all_unset(), "COPILOT_PROVIDER_BASE_URL"@, Some(base), n);
    let t = Some(if g.api_type@ == "messages"@ { "anthropic"@ } else { "openai"@ });
    let d2 = entries_insert(d1, "COPILOT_PROVIDER_TYPE"@, t);
    lemma_get_after_insert(d1, "COPILOT_PROVIDER_TYPE"@, t, n);
    let d3 = if g.api_key@.len() > 0 {
        entries_insert(d2, "COPILOT_PROVIDER_API_KEY"@, Some(g.api_key@))
    } else {
        d2
    };
    lemma_get_after_insert(d2, "COPILOT_PROVIDER_API_KEY"@, Some(g.api_key@), n);
    let w = if g.api_type@ == "responses"@ {
        Some("responses"@)
    } else if g.api_type@ == "chat-completions"@ {
        Some("completions"@)
    } else {
        None
    };
    let d4 = entries_insert(d3, "COPILOT_PROVIDER_WIRE_API"@, w);
    lemma_get_after_insert(d3, "COPILOT_PROVIDER_WIRE_API"@, w, n);
    let d5 = entries_insert(d4, "COPILOT_PROVIDER_HEADERS"@, headers);
    lemma_get_after_insert(d4, "COPILOT_PROVIDER_HEADERS"@, headers, n);
    let d6 = entries_insert(d5, "COPILOT_MODEL"@, Some(m.model_id@));
    lemma_get_after_insert(d5, "COPILOT_MODEL"@, Some(m.model_id@), n);
    let d7 = entries_insert(d6, "COPILOT_PROVIDER_MAX_PROMPT_TOKENS"@, opt_decimal(m.max_input_tokens));
    lemma_get_after_insert(d6, "COPILOT_PROVIDER_MAX_PROMPT_TOKENS"@, opt_decimal(m.max_input_tokens), n);
    lemma_get_after_insert(d7, "COPILOT_PROVIDER_MAX_OUTPUT_TOKENS"@, opt_decimal(m.max_output_tokens), n);
}

proof fn lemma_no_conflicts(
    vars: Seq<Seq<char>>,
    current: Seq<(Seq<char>, Option<Seq<char>>)>,
    expected: Seq<(Seq<char>, Option<Seq<char>>)>,
)
    requires
        forall|i: int| 0 <= i < vars.len() ==> entries_get(current, #[trigger] vars[i]) == entries_get(expected, vars[i]),
    ensures
        conflicts_in(vars, current, expected).len() == 0,
    decreases vars.len(),
{
    if vars.len() > 0 {
        assert forall|i: int| 0 <= i < vars.drop_last().len() implies entries_get(current, #[trigger] vars.drop_last()[i])
            == entries_get(expected, vars.drop_last()[i]) by {
            assert(vars.drop_last()[i] == vars[i]);
        }
        lemma_no_conflicts(vars.drop_last(), current, expected);
        assert(vars.last() == vars[vars.len() - 1]);
    }
}

proof fn lemma_conflict_found(
    vars: Seq<Seq<char>>,
    current: Seq<(Seq<char>, Option<Seq<char>>)>,
    expected: Seq<(Seq<char>, Option<Seq<char>>)>,
    i: int,
)
    requires
        0 <= i < vars.len(),
        entries_get(current, vars[i]) != entries_get(expected, vars[i]),
    ensures
        conflicts_in(vars, current, expected).len() > 0,
    decreases vars.len(),
{
    if i < vars.len() - 1 {
        assert(vars.drop_last()[i] == vars[i]);
        lemma_conflict_found(vars.drop_last(), current, expected, i);
    }
}

/// Right after the library writes a map that covers every managed variable,
/// the environment shows no edit made elsewhere.
pub proof fn lemma_written_env_has_no_conflicts(env: Map<Seq<char>, Seq<char>>, d: Seq<(Seq<char>, Option<Seq<char>>)>)
    requires
        forall|n: Seq<char>| #[trigger] managed_vars().contains(n) ==> entries_get(d, n) is Some,
    ensures
        conflicts_spec(snapshot_spec(write_spec(env, d)), d).len() == 0,
{
    let w = write_spec(env, d);
    assert forall|i: int| 0 <= i < managed_vars().len() implies entries_get(snapshot_spec(w), #[trigger] managed_vars()[i])
        == entries_get(d, managed_vars()[i]) by {
        let n = managed_vars()[i];
        assert(managed_vars().contains(n));
        lemma_snapshot_get(w, n);
    }
    lemma_no_conflicts(managed_vars(), snapshot_spec(w), d);
}

/// Restoring a snapshot taken before writing brings the environment back:
/// every managed variable regains its value, and the writes touched nothing
/// else.
pub proof fn lemma_restore_snapshot(env: Map<Seq<char>, Seq<char>>, values: Seq<(Seq<char>, Option<Seq<char>>)>)
    ensures
        write_spec(write_spec(env, values), snapshot_spec(env)) == env,
{
    let w = write_spec(env, values);
    let r = write_spec(w, snapshot_spec(env));
    assert forall|n: Seq<char>| #[trigger] r.contains_key(n) == env.contains_key(n) && (r.contains_key(n) ==> r[n] == env[n]) by {
        if managed_vars().contains(n) {
            lemma_snapshot_get(env, n);
            assert(stored_value(snapshot_spec(env), n) == env_get(env, n));
        } else {
            assert(w.contains_key(n) == env.contains_key(n));
        }
    }
    assert(r =~= env);
}

/// Performing the writes of [`writes_for`] in order sets the environment to
/// [`write_spec`].
pub proof fn lemma_writes_perform(env: Map<Seq<char>, Seq<char>>, values: Seq<(Seq<char>, Option<Seq<char>>)>)
    ensures
        apply_writes(env, writes_for(values)) == write_spec(env, values),
{
    let g = |n: Seq<char>| stored_value(values, n);
    let w = writes_for(values);
    lemma_keyed_writes(env, w, g);
    assert forall|n: Seq<char>| written(w, n) == managed_vars().contains(n) by {
        if written(w, n) {
            let i = choose|i: int| 0 <= i < w.len() && #[trigger] w[i].0 == n;
            assert(managed_vars()[i] == n);
        }
        if managed_vars().contains(n) {
            let i = choose|i: int| 0 <= i < managed_vars().len() && managed_vars()[i] == n;
            assert(w[i].0 == n);
        }
    }
    let r = apply_writes(env, w);
    assert forall|n: Seq<char>| #[trigger] r.contains_key(n) == write_spec(env, values).contains_key(n)
        && (r.contains_key(n) ==> r[n] == write_spec(env, values)[n]) by {
        assert(written(w, n) == managed_vars().contains(n));
    }
    assert(r =~= write_spec(env, values));
}

/// Some write targets the variable.
pub open spec fn written(w: Seq<(Seq<char>, Option<Seq<char>>)>, n: Seq<char>) -> bool {
    exists|i: int| 0 <= i < w.len() && #[trigger] w[i].0 == n
}

proof fn lemma_keyed_writes(env: Map<Seq<char>, Seq<char>>, w: Seq<(Seq<char>, Option<Seq<char>>)>, g: spec_fn(Seq<char>) -> Option<Seq<char>>)
    requires
        forall|i: int| 0 <= i < w.len() ==> #[trigger] w[i].1 == g(w[i].0),
    ensures
        forall|n: Seq<char>|
            #![trigger apply_writes(env, w).contains_key(n)]
            #![trigger apply_writes(env, w)[n]]
            (apply_writes(env, w).contains_key(n) == if written(w, n) { g(n) is Some } else { env.contains_key(n) })
            && (apply_writes(env, w).contains_key(n) ==> apply_writes(env, w)[n] == if written(w, n) {
                g(n).unwrap()
            } else {
                env[n]
            }),
    decreases w.len(),
{
    if w.len() > 0 {
        let ws = w.drop_last();
        assert forall|i: int| 0 <= i < ws.len() implies #[trigger] ws[i].1 == g(ws[i].0) by {
            assert(ws[i] == w[i]);
        }
        lemma_keyed_writes(env, ws, g);
        let last = w[w.len() - 1].0;
        assert(w.last().1 == g(last));
        let prev = apply_writes(env, ws);
        let r = apply_writes(env, w);
        assert(written(w, last));
        assert forall|n: Seq<char>|
            #![trigger r.contains_key(n)]
            #![trigger r[n]]
            (r.contains_key(n) == if written(w, n) { g(n) is Some } else { env.contains_key(n) })
            && (r.contains_key(n) ==> r[n] == if written(w, n) { g(n).unwrap() } else { env[n] }) by {
            if n != last {
                if written(w, n) {
                    let i = choose|i: int| 0 <= i < w.len() && #[trigger] w[i].0 == n;
                    assert(ws[i].0 == n);
                }
                if written(ws, n) {
                    let i = choose|i: int| 0 <= i < ws.len() && #[trigger] ws[i].0 == n;
                    assert(w[i].0 == n);
                }
                assert(prev.contains_key(n) == if written(ws, n) { g(n) is Some } else { env.contains_key(n) });
            }
        }
    } else {
        assert(apply_writes(env, w) == env);
        assert forall|n: Seq<char>| !written(w, n) by {}
    }
}

/// Applying a provider to an environment where the integration is off, then
/// restoring, gives back the environment as it was: the applied state reports
/// a matching environment, the restore finds no edit made elsewhere, and it
/// writes back the recorded original values.
pub proof fn lemma_apply_then_disable_restores(
    env: Map<Seq<char>, Seq<char>>,
    cfg: CliConfigView,
    gs: Seq<CopilotByokGroup>,
    group_id: Seq<char>,
    model_id: Seq<char>,
)
    requires
        !cfg.enabled,
        apply_spec(cfg, gs, group_id, model_id, snapshot_spec(env)) is Ok,
    ensures
        ({
            let next = apply_spec(cfg, gs, group_id, model_id, snapshot_spec(env))->Ok_0;
            let applied = write_spec(env, next.last_written);
            &&& next.enabled
            &&& cli_state_spec(next, gs, snapshot_spec(applied)).3
            &&& cli_state_spec(next, gs, snapshot_spec(applied)).4.len() == 0
            &&& disable_spec(next, snapshot_spec(applied)) == Ok::<Option<Seq<(Seq<char>, Option<Seq<char>>)>>, ErrView>(Some(next.original))
            &&& write_spec(applied, next.original) == env
        }),
{
    let next = apply_spec(cfg, gs, group_id, model_id, snapshot_spec(env))->Ok_0;
    let (gi, mi) = selected_spec(gs, group_id, model_id)->Ok_0;
    assert forall|n: Seq<char>| #[trigger] managed_vars().contains(n) implies entries_get(next.last_written, n) is Some by {
        lemma_desired_covers(gs[gi], gs[gi].models@[mi], n);
    }
    lemma_written_env_has_no_conflicts(env, next.last_written);
    lemma_restore_snapshot(env, next.last_written);
}

/// Switching from one provider to another and then restoring still gives
/// back the environment found before the first switch: later applies keep
/// the original values recorded by the first.
pub proof fn lemma_switch_then_disable_restores(
    env: Map<Seq<char>, Seq<char>>,
    cfg: CliConfigView,
    gs: Seq<CopilotByokGroup>,
    first_group: Seq<char>,
    first_model: Seq<char>,
    second_group: Seq<char>,
    second_model: Seq<char>,
)
    requires
        !cfg.enabled,
        apply_spec(cfg, gs, first_group, first_model, snapshot_spec(env)) is Ok,
        selected_spec(gs, second_group, second_model) is Ok,
        desired_env_spec(
            gs[selected_spec(gs, second_group, second_model)->Ok_0.0],
            gs[selected_spec(gs, second_group, second_model)->Ok_0.0].models@[selected_spec(gs, second_group, second_model)->Ok_0.1],
        ) is Ok,
    ensures
        ({
            let first = apply_spec(cfg, gs, first_group, first_model, snapshot_spec(env))->Ok_0;
            let env1 = write_spec(env, first.last_written);
            let second = apply_spec(first, gs, second_group, second_model, snapshot_spec(env1));
            &&& second is Ok
            &&& second->Ok_0.original == first.original
            &&& ({
                let env2 = write_spec(env1, second->Ok_0.last_written);
                &&& disable_spec(second->Ok_0, snapshot_spec(env2)) == Ok::<Option<Seq<(Seq<char>, Option<Seq<char>>)>>, ErrView>(Some(first.original))
                &&& write_spec(env2, first.original) == env
            })
        }),
{
    let first = apply_spec(cfg, gs, first_group, first_model, snapshot_spec(env))->Ok_0;
    let env1 = write_spec(env, first.last_written);
    let (gi, mi) = selected_spec(gs, first_group, first_model)->Ok_0;
    assert forall|n: Seq<char>| #[trigger] managed_vars().contains(n) implies entries_get(first.last_written, n) is Some by {
        lemma_desired_covers(gs[gi], gs[gi].models@[mi], n);
    }
    lemma_written_env_has_no_conflicts(env, first.last_written);
    let second = apply_spec(first, gs, second_group, second_model, snapshot_spec(env1))->Ok_0;
    let (gj, mj) = selected_spec(gs, second_group, second_model)->Ok_0;
    assert forall|n: Seq<char>| #[trigger] managed_vars().contains(n) implies entries_get(second.last_written, n) is Some by {
        lemma_desired_covers(gs[gj], gs[gj].models@[mj], n);
    }
    let env2 = write_spec(env1, second.last_written);
    lemma_written_env_has_no_conflicts(env1, second.last_written);
    let r = write_spec(env2, first.original);
    assert forall|n: Seq<char>| #[trigger] r.contains_key(n) == env.contains_key(n) && (r.contains_key(n) ==> r[n] == env[n]) by {
        if managed_vars().contains(n) {
            lemma_snapshot_get(env, n);
            assert(stored_value(snapshot_spec(env), n) == env_get(env, n));
        } else {
            assert(env1.contains_key(n) == env.contains_key(n));
            assert(env2.contains_key(n) == env1.contains_key(n));
        }
    }
    assert(r =~= env);
}

/// After an apply, a managed variable edited outside the library (set to a
/// value other than the one written) makes a restore fail with a conflict,
/// so nothing is written over the edit.
pub proof fn lemma_external_edit_blocks_restore(
    env: Map<Seq<char>, Seq<char>>,
    cfg: CliConfigView,
    gs: Seq<CopilotByokGroup>,
    group_id: Seq<char>,
    model_id: Seq<char>,
    name: Seq<char>,
    value: Option<Seq<char>>,
)
    requires
        apply_spec(cfg, gs, group_id, model_id, snapshot_spec(env)) is Ok,
        managed_vars().contains(name),
        value != stored_value(apply_spec(cfg, gs, group_id, model_id, snapshot_spec(env))->Ok_0.last_written, name),
    ensures
        ({
            let next = apply_spec(cfg, gs, group_id, model_id, snapshot_spec(env))->Ok_0;
            let edited = set_var(write_spec(env, next.last_written), name, value);
            disable_spec(next, snapshot_spec(edited)) matches Err(ErrView::Conflict(_))
        }),
{
    let next = apply_spec(cfg, gs, group_id, model_id, snapshot_spec(env))->Ok_0;
    let edited = set_var(write_spec(env, next.last_written), name, value);
    let (gi, mi) = selected_spec(gs, group_id, model_id)->Ok_0;
    lemma_desired_covers(gs[gi], gs[gi].models@[mi], name);
    lemma_snapshot_get(edited, name);
    assert(env_get(edited, name) == value);
    let i = choose|i: int| 0 <= i < managed_vars().len() && managed_vars()[i] == name;
    lemma_conflict_found(managed_vars(), snapshot_spec(edited), next.last_written, i);
}

proof fn lemma_desired_get(g: CopilotByokGroup, m: CopilotByokModel, k: Seq<char>)
    requires
        desired_env_spec(g, m) is Ok,
        managed_vars().contains(k),
    ensures
        entries_get(desired_env_spec(g, m)->Ok_0, k) == if k == "COPILOT_PROVIDER_MAX_OUTPUT_TOKENS"@ {
            Some(opt_decimal(m.max_output_tokens))
        } else if k == "COPILOT_PROVIDER_MAX_PROMPT_TOKENS"@ {
            Some(opt_decimal(m.max_input_tokens))
        } else if k == "COPILOT_MODEL"@ {
            Some(Some(m.model_id@))
        } else if k == "COPILOT_PROVIDER_HEADERS"@ {
            Some(headers_value_spec(pairs_view(g.request_headers@), g.api_key@)->Ok_0)
        } else if k == "COPILOT_PROVIDER_WIRE_API"@ {
            Some(if g.api_type@ == "responses"@ {
                Some("responses"@)
            } else if g.api_type@ == "chat-completions"@ {
                Some("completions"@)
            } else {
                None
            })
        } else if k == "COPILOT_PROVIDER_API_KEY"@ && g.api_key@.len() > 0 {
            Some(Some(g.api_key@))
        } else if k == "COPILOT_PROVIDER_TYPE"@ {
            Some(Some(if g.api_type@ == "messages"@ { "anthropic"@ } else { "openai"@ }))
        } else if k == "COPILOT_PROVIDER_BASE_URL"@ {
            Some(Some(base_url_spec(g.url@, g.api_type@)->Ok_0))
        } else {
            Some(None)
        },
{
    lemma_all_unset_get(k);
    let base = base_url_spec(g.url@, g.api_type@)->Ok_0;
    let headers = headers_value_spec(pairs_view(g.request_headers@), g.api_key@)->Ok_0;
    let d1 = entries_insert(all_unset(), "COPILOT_PROVIDER_BASE_URL"@, Some(base));
    lemma_get_after_insert(all_unset(), "COPILOT_PROVIDER_BASE_URL"@, Some(base), k);
    let t = Some(if g.api_type@ == "messages"@ { "anthropic"@ } else { "openai"@ });
    let d2 = entries_insert(d1, "COPILOT_PROVIDER_TYPE"@, t);
    lemma_get_after_insert(d1, "COPILOT_PROVIDER_TYPE"@, t, k);
    let d3 = if g.api_key@.len() > 0 {
        entries_insert(d2, "COPILOT_PROVIDER_API_KEY"@, Some(g.api_key@))
    } else {
        d2
    };
    lemma_get_after_insert(d2, "COPILOT_PROVIDER_API_KEY"@, Some(g.api_key@), k);
    let w = if g.api_type@ == "responses"@ {
        Some("responses"@)
    } else if g.api_type@ == "chat-completions"@ {
        Some("completions"@)
    } else {
        None
    };
    let d4 = entries_insert(d3, "COPILOT_PROVIDER_WIRE_API"@, w);
    lemma_get_after_insert(d3, "COPILOT_PROVIDER_WIRE_API"@, w, k);
    let d5 = entries_insert(d4, "COPILOT_PROVIDER_HEADERS"@, headers);
    lemma_get_after_insert(d4, "COPILOT_PROVIDER_HEADERS"@, headers, k);
    let d6 = entries_insert(d5, "COPILOT_MODEL"@, Some(m.model_id@));
    lemma_get_after_insert(d5, "COPILOT_MODEL"@, Some(m.model_id@), k);
    let d7 = entries_insert(d6, "COPILOT_PROVIDER_MAX_PROMPT_TOKENS"@, opt_decimal(m.max_input_tokens));
    lemma_get_after_insert(d6, "COPILOT_PROVIDER_MAX_PROMPT_TOKENS"@, opt_decimal(m.max_input_tokens), k);
    lemma_get_after_insert(d7, "COPILOT_PROVIDER_MAX_OUTPUT_TOKENS"@, opt_decimal(m.max_output_tokens), k);
}

/// The Copilot CLI speaks the provider's API: the wire API is `completions`
/// for a Chat Completions provider, `responses` for a Responses provider and
/// unset for a Messages provider; the provider type is `anthropic` exactly
/// for a Messages provider and `openai` otherwise; the model variable holds
/// the model's wire id, the key variable a non-empty key, and the token
/// limit variables the model's own limits, unset when it has none.
pub proof fn lemma_desired_env_matches_provider(g: CopilotByokGroup, m: CopilotByokModel)
    ensures
        desired_env_spec(g, m) matches Ok(d) ==> {
            &&& g.api_type@ == "chat-completions"@ ==> entries_get(d, "COPILOT_PROVIDER_WIRE_API"@) == Some(Some("completions"@))
            &&& g.api_type@ == "responses"@ ==> entries_get(d, "COPILOT_PROVIDER_WIRE_API"@) == Some(Some("responses"@))
            &&& g.api_type@ == "messages"@ ==> entries_get(d, "COPILOT_PROVIDER_WIRE_API"@) == Some(None::<Seq<char>>)
            &&& g.api_type@ == "messages"@ ==> entries_get(d, "COPILOT_PROVIDER_TYPE"@) == Some(Some("anthropic"@))
            &&& g.api_type@ != "messages"@ ==> entries_get(d, "COPILOT_PROVIDER_TYPE"@) == Some(Some("openai"@))
            &&& entries_get(d, "COPILOT_MODEL"@) == Some(Some(m.model_id@))
            &&& g.api_key@.len() > 0 ==> entries_get(d, "COPILOT_PROVIDER_API_KEY"@) == Some(Some(g.api_key@))
            &&& (m.max_input_tokens matches Some(n) ==> entries_get(d, "COPILOT_PROVIDER_MAX_PROMPT_TOKENS"@) == Some(Some(decimal(n as nat))))
            &&& (m.max_input_tokens is None ==> entries_get(d, "COPILOT_PROVIDER_MAX_PROMPT_TOKENS"@) == Some(None::<Seq<char>>))
            &&& (m.max_output_tokens matches Some(n) ==> entries_get(d, "COPILOT_PROVIDER_MAX_OUTPUT_TOKENS"@) == Some(Some(decimal(n as nat))))
            &&& (m.max_output_tokens is None ==> entries_get(d, "COPILOT_PROVIDER_MAX_OUTPUT_TOKENS"@) == Some(None::<Seq<char>>))
        },
{
    if desired_env_spec(g, m) is Ok {
        reveal_strlit("COPILOT_PROVIDER_BASE_URL");
        reveal_strlit("COPILOT_PROVIDER_TYPE");
        reveal_strlit("COPILOT_PROVIDER_API_KEY");
        reveal_strlit("COPILOT_PROVIDER_WIRE_API");
        reveal_strlit("COPILOT_PROVIDER_HEADERS");
        reveal_strlit("COPILOT_MODEL");
        reveal_strlit("COPILOT_PROVIDER_MAX_PROMPT_TOKENS");
        reveal_strlit("COPILOT_PROVIDER_MAX_OUTPUT_TOKENS");
        reveal_strlit("messages");
        reveal_strlit("responses");
        reveal_strlit("chat-completions");
        assert("COPILOT_PROVIDER_API_KEY"@[17] != "COPILOT_PROVIDER_HEADERS"@[17]);
        assert("COPILOT_PROVIDER_API_KEY"@ != "COPILOT_PROVIDER_HEADERS"@);
        assert("COPILOT_PROVIDER_WIRE_API"@[17] != "COPILOT_PROVIDER_BASE_URL"@[17]);
        assert("COPILOT_PROVIDER_WIRE_API"@ != "COPILOT_PROVIDER_BASE_URL"@);
        assert("COPILOT_PROVIDER_MAX_PROMPT_TOKENS"@[21] != "COPILOT_PROVIDER_MAX_OUTPUT_TOKENS"@[21]);
        assert("COPILOT_PROVIDER_MAX_PROMPT_TOKENS"@ != "COPILOT_PROVIDER_MAX_OUTPUT_TOKENS"@);
        assert("messages"@.len() != "responses"@.len() && "messages"@.len() != "chat-completions"@.len());
        assert("messages"@ != "responses"@ && "messages"@ != "chat-completions"@);
        assert(managed_vars()[1] == "COPILOT_PROVIDER_TYPE"@);
        assert(managed_vars()[2] == "COPILOT_PROVIDER_API_KEY"@);
        assert(managed_vars()[4] == "COPILOT_PROVIDER_WIRE_API"@);
        assert(managed_vars()[8] == "COPILOT_MODEL"@);
        assert(managed_vars()[11] == "COPILOT_PROVIDER_MAX_PROMPT_TOKENS"@);
        assert(managed_vars()[12] == "COPILOT_PROVIDER_MAX_OUTPUT_TOKENS"@);
        lemma_desired_get(g, m, "COPILOT_PROVIDER_TYPE"@);
        lemma_desired_get(g, m, "COPILOT_PROVIDER_API_KEY"@);
        lemma_desired_get(g, m, "COPILOT_PROVIDER_WIRE_API"@);
        lemma_desired_get(g, m, "COPILOT_MODEL"@);
        lemma_desired_get(g, m, "COPILOT_PROVIDER_MAX_PROMPT_TOKENS"@);
        lemma_desired_get(g, m, "COPILOT_PROVIDER_MAX_OUTPUT_TOKENS"@);
    }
}

} // verus!
