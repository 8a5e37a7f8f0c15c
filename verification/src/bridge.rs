//! Contracts for the standard-library and outside-crate calls that the
//! verified code makes and that vstd does not already specify. Each item here
//! is trusted: its contract is believed, not proved.

use vstd::prelude::*;
use crate::json::{JsonValue, JsonView};
use crate::text::contains_sub;

verus! {

/// `String::push` appends one `char` to the end of the string, as its
/// documentation states.
pub assume_specification[ String::push ](s: &mut String, ch: char)
    ensures
        final(s)@ == old(s)@.push(ch),
;


/// The parts of a parsed URL that the library reads.
pub struct UrlParts {
    pub scheme: String,
    pub host: Option<String>,
    pub path: String,
    pub query: Option<String>,
    pub fragment: Option<String>,
    /// The URL's serialization (`Url::as_str`).
    pub serialization: String,
}

/// Model of [`UrlParts`].
pub struct UrlPartsView {
    pub scheme: Seq<char>,
    pub host: Option<Seq<char>>,
    pub path: Seq<char>,
    pub query: Option<Seq<char>>,
    pub fragment: Option<Seq<char>>,
    pub serialization: Seq<char>,
}

pub open spec fn opt_str(o: Option<String>) -> Option<Seq<char>> {
    match o {
        Some(s) => Some(s@),
        None => None,
    }
}

impl View for UrlParts {
    type V = UrlPartsView;

    open spec fn view(&self) -> UrlPartsView {
        UrlPartsView {
            scheme: self.scheme@,
            host: opt_str(self.host),
            path: self.path@,
            query: opt_str(self.query),
            fragment: opt_str(self.fragment),
            serialization: self.serialization@,
        }
    }
}

/// What `url::Url::parse` makes of a string: the parts of the URL, or the
/// parse error's message.
pub uninterp spec fn url_parse(raw: Seq<char>) -> Result<UrlPartsView, Seq<char>>;

pub open spec fn url_result_view(r: Result<UrlParts, String>) -> Result<UrlPartsView, Seq<char>> {
    match r {
        Ok(u) => Ok(u@),
        Err(e) => Err(e@),
    }
}

/// Calls `url::Url::parse` and copies out the scheme, host, path, query,
/// fragment and serialization, or the error's `Display` text. The contract
/// only names the outcome (`url_parse`); WHATWG URL parsing is not restated.
#[verifier::external_body]
pub fn parse_url(raw: &str) -> (r: Result<UrlParts, String>)
    ensures
        url_result_view(r) == url_parse(raw@),
{
    match url::Url::parse(raw) {
        Ok(u) => Ok(UrlParts {
            scheme: u.scheme().to_string(),
            host: u.host_str().map(|h| h.to_string()),
            path: u.path().to_string(),
            query: u.query().map(|q| q.to_string()),
            fragment: u.fragment().map(|f| f.to_string()),
            serialization: u.as_str().to_string(),
        }),
        Err(e) => Err(e.to_string()),
    }
}

/// What `Url::set_path(path)` leaves on the URL parsed from `raw`: its
/// serialization and its path.
pub uninterp spec fn url_path_set(raw: Seq<char>, path: Seq<char>) -> (Seq<char>, Seq<char>);

/// Parses `raw` (which parses, by the precondition), calls `Url::set_path`
/// and returns the new serialization and path. The contract only names them.
#[verifier::external_body]
pub fn url_with_path(raw: &str, path: &str) -> (r: (String, String))
    requires
        url_parse(raw@) is Ok,
    ensures
        (r.0@, r.1@) == url_path_set(raw@, path@),
{
    let mut u = url::Url::parse(raw).unwrap();
    u.set_path(path);
    (u.as_str().to_string(), u.path().to_string())
}

/// What `str::to_lowercase` returns (full Unicode lowercase mapping).
pub uninterp spec fn unicode_lowercase(s: Seq<char>) -> Seq<char>;

/// `str::to_lowercase`; the contract names the result.
#[verifier::external_body]
pub fn to_lowercase(s: &str) -> (r: String)
    ensures
        r@ == unicode_lowercase(s@),
{
    s.to_lowercase()
}

/// An HTTP token character, as `http`'s header-name table accepts it.
pub open spec fn is_token_char(c: char) -> bool {
    ||| ('a' <= c && c <= 'z')
    ||| ('A' <= c && c <= 'Z')
    ||| ('0' <= c && c <= '9')
    ||| c == '!' || c == '#' || c == '$' || c == '%' || c == '&' || c == '\''
    ||| c == '*' || c == '+' || c == '-' || c == '.' || c == '^' || c == '_'
    ||| c == '`' || c == '|' || c == '~'
}

/// `HeaderName::from_bytes` accepts the bytes: 1 to 65535 bytes, every one a
/// token character (non-ASCII characters encode to bytes the table rejects).
pub open spec fn header_name_valid(s: Seq<char>) -> bool {
    &&& 1 <= s.len() <= 65535
    &&& forall|i: int| 0 <= i < s.len() ==> is_token_char(#[trigger] s[i])
}

/// Calls `reqwest::header::HeaderName::from_bytes` (the `http` crate's).
/// Per that crate's source, a name is accepted exactly when it is non-empty,
/// at most 65535 bytes long and made of token characters; its error displays
/// as "invalid HTTP header name".
#[verifier::external_body]
pub fn check_header_name(name: &str) -> (r: Result<(), String>)
    ensures
        r is Ok <==> header_name_valid(name@),
        r matches Err(m) ==> m@ == "invalid HTTP header name"@,
{
    reqwest::header::HeaderName::from_bytes(name.as_bytes()).map(|_| ()).map_err(|e| e.to_string())
}

/// `HeaderValue::from_str` accepts every byte `b` with `b >= 32 && b != 127`
/// or `b == b'\t'`; characters above U+007F encode to bytes of at least 0x80.
pub open spec fn header_value_valid(s: Seq<char>) -> bool {
    forall|i: int|
        0 <= i < s.len() ==> (#[trigger] s[i] == '\t' || (' ' <= s[i] && s[i] != '\u{7f}'))
}

/// Calls `reqwest::header::HeaderValue::from_str` (the `http` crate's). Per
/// that crate's source it accepts exactly the strings of
/// [`header_value_valid`]; its error displays as "failed to parse header value".
#[verifier::external_body]
pub fn check_header_value(value: &str) -> (r: Result<(), String>)
    ensures
        r is Ok <==> header_value_valid(value@),
        r matches Err(m) ==> m@ == "failed to parse header value"@,
{
    reqwest::header::HeaderValue::from_str(value).map(|_| ()).map_err(|e| e.to_string())
}

/// `uuid::Uuid::new_v4().to_string()`: a random UUID in hyphenated form,
/// which is 36 characters long. Nothing else is promised of it.
#[verifier::external_body]
pub fn new_uuid() -> (r: String)
    ensures
        r@.len() == 36,
{
    uuid::Uuid::new_v4().to_string()
}


/// `serde_json::Value`, carried through opaquely.
#[verifier::external_type_specification]
#[verifier::external_body]
pub struct ExSerdeJsonValue(serde_json::Value);

/// Converts a `serde_json::Value` one variant to one variant: numbers keep
/// their `Display` text, objects keep the map's (key-ordered) entries.
#[verifier::external_body]
fn json_from_serde(v: serde_json::Value) -> JsonValue {
    match v {
        serde_json::Value::Null => JsonValue::Null,
        serde_json::Value::Bool(b) => JsonValue::Bool(b),
        serde_json::Value::Number(n) => JsonValue::Number(n.to_string()),
        serde_json::Value::String(s) => JsonValue::Str(s),
        serde_json::Value::Array(a) => JsonValue::Array(a.into_iter().map(json_from_serde).collect()),
        serde_json::Value::Object(o) => JsonValue::Object(o.into_iter().map(|(k, v)| (k, json_from_serde(v))).collect()),
    }
}

/// What `json5::from_str::<serde_json::Value>` makes of a text: the value,
/// or the error's `Display` text.
pub uninterp spec fn json5_parse(text: Seq<char>) -> Result<JsonView, Seq<char>>;

pub open spec fn json_result_view(r: Result<JsonValue, String>) -> Result<JsonView, Seq<char>> {
    match r {
        Ok(v) => Ok(v@),
        Err(e) => Err(e@),
    }
}

/// Calls `json5::from_str` into a `serde_json::Value` and converts it. The
/// contract only names the outcome; JSON5 syntax is not restated.
#[verifier::external_body]
pub fn parse_json5(text: &str) -> (r: Result<JsonValue, String>)
    ensures
        json_result_view(r) == json5_parse(text@),
{
    json5::from_str::<serde_json::Value>(text).map(json_from_serde).map_err(|e| e.to_string())
}


/// Lowercase hexadecimal SHA-256 digest of the UTF-8 bytes of a text.
pub uninterp spec fn sha256_hex_of(text: Seq<char>) -> Seq<char>;

/// `format!("{:x}", sha2::Sha256::digest(text.as_bytes()))`: the digest is
/// 32 bytes, rendered as 64 lowercase hexadecimal characters.
#[verifier::external_body]
pub fn sha256_hex(text: &str) -> (r: String)
    ensures
        r@ == sha256_hex_of(text@),
        r@.len() == 64,
{
    format!("{:x}", <sha2::Sha256 as sha2::Digest>::digest(text.as_bytes()))
}

/// A path separator on some platform.
pub open spec fn is_sep_char(c: char) -> bool {
    c == '/' || c == '\\'
}

/// The path begins with two separators, as the prefixes of UNC, device and
/// verbatim paths do on Windows.
pub open spec fn two_sep_start(p: Seq<char>) -> bool {
    p.len() >= 2 && is_sep_char(p[0]) && is_sep_char(p[1])
}

/// A file name that is one ordinary component on every platform: not empty
/// and free of separators and `:`.
pub open spec fn plain_name(s: Seq<char>) -> bool {
    &&& s.len() > 0
    &&& forall|i: int| 0 <= i < s.len() ==> !is_sep_char(#[trigger] s[i]) && s[i] != ':'
}

/// A path whose last component is an ordinary name on every platform: it
/// does not end in a separator or `:`, its final segment is not `.` or
/// `..`, and it does not begin with a two-separator prefix.
pub open spec fn final_name_evident(p: Seq<char>) -> bool {
    let n = p.len();
    &&& n > 0
    &&& !is_sep_char(p[n - 1]) && p[n - 1] != ':'
    &&& !(p[n - 1] == '.' && (n == 1 || is_sep_char(p[n - 2]) || p[n - 2] == ':'))
    &&& !(n >= 2 && p[n - 1] == '.' && p[n - 2] == '.' && (n == 2 || is_sep_char(p[n - 3]) || p[n - 3] == ':'))
    &&& !two_sep_start(p)
}

/// A path whose final component is a name ending in `.json` with something
/// before the dot.
pub open spec fn json_file_evident(p: Seq<char>) -> bool {
    let n = p.len();
    &&& final_name_evident(p)
    &&& n >= 6
    &&& p.subrange(n - 5, n as int) == ".json"@
    &&& !is_sep_char(p[n - 6]) && p[n - 6] != ':'
}

/// `name` joined to `dir`, with or without a separator between them.
pub open spec fn joined(dir: Seq<char>, name: Seq<char>, r: Seq<char>) -> bool {
    ||| r == dir + name
    ||| r == dir + seq!['/'] + name
    ||| r == dir + seq!['\\'] + name
}

/// An absolute path starts with a separator (a Unix root, or a Windows UNC,
/// device or verbatim prefix) or has `:` second (a Windows drive prefix).
pub open spec fn absolute_shape(p: Seq<char>) -> bool {
    p.len() > 0 && (is_sep_char(p[0]) || (p.len() >= 2 && p[1] == ':'))
}

/// The text after the last `/`.
pub open spec fn last_segment(p: Seq<char>) -> Seq<char>
    decreases p.len(),
{
    if p.len() == 0 {
        p
    } else if p.last() == '/' {
        Seq::empty()
    } else {
        last_segment(p.drop_last()).push(p.last())
    }
}

/// A path whose text has no `\` and no `:`, so that every platform splits
/// it at `/` alone and sees no prefix in it.
pub open spec fn slash_only(p: Seq<char>) -> bool {
    forall|i: int| 0 <= i < p.len() ==> #[trigger] p[i] != '\\' && p[i] != ':'
}

/// `Path::new(path).file_name().and_then(OsStr::to_str)`. What counts as the
/// final component depends on the platform's separators; promised is that
/// the name is a part of the path's text, and that a path split at `/` alone
/// whose last part is an ordinary name (see [`final_name_evident`]) has that
/// last part as its name.
#[verifier::external_body]
pub fn path_file_name(path: &str) -> (r: Option<String>)
    ensures
        r matches Some(n) ==> contains_sub(path@, n@),
        r is None ==> !(slash_only(path@) && final_name_evident(path@)),
        r matches Some(n) ==> (slash_only(path@) && final_name_evident(path@) ==> n@ == last_segment(path@)),
{
    std::path::Path::new(path).file_name().and_then(|n| n.to_str()).map(|n| n.to_string())
}

/// `Path::new(path).is_absolute()`. The answer depends on the platform;
/// promised is only that an absolute path has the shape every platform's
/// absolute paths share (see [`absolute_shape`]).
#[verifier::external_body]
pub fn path_is_absolute(path: &str) -> (r: bool)
    ensures
        r ==> absolute_shape(path@),
{
    std::path::Path::new(path).is_absolute()
}

/// `Path::new(a) == Path::new(b)`: equality of the paths' components, which
/// depends on the platform's separators. Only this is promised: a path is
/// equal to itself (the same text gives the same components).
#[verifier::external_body]
pub fn path_eq(a: &str, b: &str) -> (r: bool)
    ensures
        a@ == b@ ==> r,
{
    std::path::Path::new(a) == std::path::Path::new(b)
}

/// `Path::new(dir).join(name)`, lossily decoded. Pushing a relative name
/// appends it after a separator when one is needed; which separator, and
/// how a two-separator (verbatim) prefix is rewritten, depend on the
/// platform, so only the plain case is promised.
#[verifier::external_body]
pub fn path_join(dir: &str, name: &str) -> (r: String)
    ensures
        plain_name(name@) && !two_sep_start(dir@) ==> joined(dir@, name@, r@),
{
    std::path::Path::new(dir).join(name).to_string_lossy().to_string()
}

/// `Path::new(path).with_extension(ext)`, lossily decoded. Promised only
/// for a path whose final component is evidently `<stem>.json`: its
/// extension `json` is replaced by `ext` (which is not empty: an empty
/// extension would remove the dot too).
#[verifier::external_body]
pub fn path_with_extension(path: &str, ext: &str) -> (r: String)
    requires
        ext@.len() > 0,
        forall|i: int| 0 <= i < ext@.len() ==> !is_sep_char(#[trigger] ext@[i]),
    ensures
        json_file_evident(path@) ==> r@ == path@.subrange(0, path@.len() - 4) + ext@,
{
    std::path::Path::new(path).with_extension(ext).to_string_lossy().to_string()
}

/// `Path::new(path).parent()`, lossily decoded. The parent is the path
/// without its final component, a leading part of its text; it exists at
/// least when the final component is an ordinary name (see
/// [`final_name_evident`]). Where it ends otherwise follows the platform.
#[verifier::external_body]
pub fn path_parent(path: &str) -> (r: Option<String>)
    ensures
        r matches Some(p) ==> p@.len() <= path@.len() && p@ == path@.subrange(0, p@.len() as int),
        final_name_evident(path@) ==> r is Some,
{
    std::path::Path::new(path).parent().map(|p| p.to_string_lossy().to_string())
}

} // verus!
