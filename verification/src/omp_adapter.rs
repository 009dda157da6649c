//! The local proxy's adapter for Omp providers.
//!
//! An Omp provider speaks the protocol named by `api` in its settings (`type`
//! is read as an alias); the proxy only forwards same-protocol traffic, so
//! the adapter never rewrites bodies: it resolves the upstream base URL, the
//! credential, and the auth header style.
use vstd::prelude::*;
use crate::error::ProxyError;
use crate::json::{jview, lemma_jview_seq, varr, vbool, vfield, vstr, JsonValue, JsonView};
use crate::strops::{collapse, collapse_str, strip_trailing, trim_end_matches, trim_start_matches};
use crate::text::{
    chars_of, contains_char, ends_with, find_char, find_char_in, is_ascii_alnum, is_digit,
    opt_view, push_str, range_starts_with, starts_with, str_eq, str_starts_with, string_from,
    strip_leading, to_string, trim, trim_str, trimmed_nonempty,
};

verus! {

/// A provider as the proxy sees it: its id, name and settings fragment.
#[derive(Debug)]
pub struct Provider {
    pub id: String,
    pub name: String,
    pub settings_config: JsonValue,
}

/// The protocol family of an Omp provider.
#[derive(Debug, Clone, Copy, PartialEq, Eq, Structural)]
pub enum OmpProtocol {
    AnthropicMessages,
    OpenAiCompletions,
    OpenAiResponses,
    GoogleGenerativeAi,
    Other,
}

/// How the credential is sent upstream.
#[derive(Debug, Clone, Copy, PartialEq, Eq, Structural)]
pub enum AuthStrategy {
    /// `x-api-key: <key>`.
    Anthropic,
    /// `Authorization: Bearer <key>`.
    Bearer,
}

/// A credential and the way it is sent.
#[derive(Debug)]
pub struct AuthInfo {
    pub api_key: String,
    pub strategy: AuthStrategy,
}

impl AuthInfo {
    pub fn new(api_key: String, strategy: AuthStrategy) -> (r: Self)
        ensures
            r.api_key == api_key,
            r.strategy == strategy,
    {
        AuthInfo { api_key, strategy }
    }
}

/// `api`, or `type` when there is no `api` key.
pub open spec fn api_field(v: JsonView) -> Option<JsonView> {
    match vfield(v, "api"@) {
        Some(x) => Some(x),
        None => vfield(v, "type"@),
    }
}

/// The declared API of a settings fragment (or a model entry), trimmed, when
/// it is a non-blank string.
pub open spec fn spec_read_api(v: JsonView) -> Option<Seq<char>> {
    trimmed_nonempty(vstr(api_field(v)))
}

fn read_api(v: &JsonValue) -> (r: Option<String>)
    ensures
        opt_view(r) == spec_read_api(jview(*v)),
{
    let f = match v.get("api") {
        Some(x) => Some(x),
        None => v.get("type"),
    };
    let s = match f {
        Some(x) => match x.as_str() {
            Some(s) => Some(s.clone()),
            None => None,
        },
        None => None,
    };
    crate::text::trimmed_opt(&s)
}

pub open spec fn spec_protocol_of(api: Seq<char>) -> OmpProtocol {
    if api == "anthropic-messages"@ {
        OmpProtocol::AnthropicMessages
    } else if api == "openai-completions"@ {
        OmpProtocol::OpenAiCompletions
    } else if api == "openai-responses"@ {
        OmpProtocol::OpenAiResponses
    } else if api == "google-generative-ai"@ {
        OmpProtocol::GoogleGenerativeAi
    } else {
        OmpProtocol::Other
    }
}

fn protocol_of(api: &str) -> (r: OmpProtocol)
    ensures
        r == spec_protocol_of(api@),
{
    if str_eq(api, "anthropic-messages") {
        OmpProtocol::AnthropicMessages
    } else if str_eq(api, "openai-completions") {
        OmpProtocol::OpenAiCompletions
    } else if str_eq(api, "openai-responses") {
        OmpProtocol::OpenAiResponses
    } else if str_eq(api, "google-generative-ai") {
        OmpProtocol::GoogleGenerativeAi
    } else {
        OmpProtocol::Other
    }
}

/// The declared protocol; Anthropic Messages when none is declared.
pub open spec fn spec_provider_protocol(v: JsonView) -> OmpProtocol {
    match spec_read_api(v) {
        Some(a) => spec_protocol_of(a),
        None => OmpProtocol::AnthropicMessages,
    }
}

/// The provider's declared wire protocol.
pub fn omp_provider_protocol(provider: &Provider) -> (r: OmpProtocol)
    ensures
        r == spec_provider_protocol(jview(provider.settings_config)),
{
    match read_api(&provider.settings_config) {
        Some(a) => protocol_of(a.as_str()),
        None => OmpProtocol::AnthropicMessages,
    }
}

/// A provider serves `want` when it declares it, or when one of its models
/// overrides its API with it.
pub open spec fn spec_supports(v: JsonView, want: OmpProtocol) -> bool {
    spec_provider_protocol(v) == want || match varr(vfield(v, "models"@)) {
        Some(ms) => exists|i: int|
            0 <= i < ms.len() && (#[trigger] spec_read_api(ms[i]) matches Some(a)
                && spec_protocol_of(a) == want),
        None => false,
    }
}

fn omp_provider_supports(provider: &Provider, want: OmpProtocol) -> (r: bool)
    ensures
        r == spec_supports(jview(provider.settings_config), want),
{
    if omp_provider_protocol(provider) == want {
        return true;
    }
    let models = match provider.settings_config.get("models") {
        Some(m) => match m.as_array() {
            Some(a) => a,
            None => {
                return false;
            },
        },
        None => {
            return false;
        },
    };
    proof {
        lemma_jview_seq(models@);
    }
    let ghost ms = crate::json::jview_seq(models@);
    assert(varr(vfield(jview(provider.settings_config), "models"@)) == Some(ms));
    let mut i: usize = 0;
    while i < models.len()
        invariant
            0 <= i <= models.len(),
            ms == crate::json::jview_seq(models@),
            ms.len() == models.len(),
            varr(vfield(jview(provider.settings_config), "models"@)) == Some(ms),
            spec_provider_protocol(jview(provider.settings_config)) != want,
            forall|j: int| 0 <= j < models.len() ==> #[trigger] ms[j] == jview(models@[j]),
            forall|j: int|
                0 <= j < i ==> !(#[trigger] spec_read_api(ms[j]) matches Some(a)
                    && spec_protocol_of(a) == want),
        decreases models.len() - i,
    {
        match read_api(&models[i]) {
            Some(a) => {
                if protocol_of(a.as_str()) == want {
                    assert(ms[i as int] == jview(models@[i as int]));
                    assert(spec_read_api(ms[i as int]) == Some(a@));
                    assert(spec_read_api(ms[i as int]) matches Some(x) && spec_protocol_of(x) == want);
                    return true;
                }
            },
            None => {},
        }
        assert(ms[i as int] == jview(models@[i as int]));
        i = i + 1;
    }
    false
}

/// Whether the provider can serve the Anthropic Messages route.
pub fn omp_provider_supports_anthropic_messages(provider: &Provider) -> (r: bool)
    ensures
        r == spec_supports(jview(provider.settings_config), OmpProtocol::AnthropicMessages),
{
    omp_provider_supports(provider, OmpProtocol::AnthropicMessages)
}

/// Whether the provider can serve the Chat Completions route.
pub fn omp_provider_supports_chat_completions(provider: &Provider) -> (r: bool)
    ensures
        r == spec_supports(jview(provider.settings_config), OmpProtocol::OpenAiCompletions),
{
    omp_provider_supports(provider, OmpProtocol::OpenAiCompletions)
}

// ============================================================================
// `$VAR` / `${VAR}` credentials
// ============================================================================

pub open spec fn is_env_name_char(c: char) -> bool {
    is_ascii_alnum(c) || c == '_'
}

/// What follows the `$` of a reference: the part inside `{}` when braced.
pub open spec fn env_name_part(t: Seq<char>) -> Seq<char> {
    let rest = t.subrange(1, t.len() as int);
    if rest.len() >= 2 && rest[0] == '{' && rest.last() == '}' {
        rest.subrange(1, rest.len() - 1)
    } else {
        rest
    }
}

/// Letters, digits and `_`, not empty and not starting with a digit.
pub open spec fn valid_env_name(name: Seq<char>) -> bool {
    name.len() > 0 && (forall|i: int| 0 <= i < name.len() ==> is_env_name_char(#[trigger] name[i]))
        && !is_digit(name[0])
}

/// The environment variable that a whole-string `$VAR` or `${VAR}` reference
/// names.
pub open spec fn spec_env_template_name(raw: Seq<char>) -> Option<Seq<char>> {
    let t = trim(raw);
    if t.len() > 0 && t[0] == '$' && valid_env_name(env_name_part(t)) {
        Some(env_name_part(t))
    } else {
        None
    }
}

/// The name of the environment variable that `raw` refers to, if it is a
/// whole-string reference.
pub fn env_template_name(raw: &str) -> (r: Option<String>)
    ensures
        opt_view(r) == spec_env_template_name(raw@),
{
    let t = trim_str(raw);
    let v = chars_of(t.as_str());
    if v.len() == 0 || v[0] != '$' {
        return None;
    }
    let n = v.len();
    let (lo, hi) = if n - 1 >= 2 && v[1] == '{' && v[n - 1] == '}' {
        (2, n - 1)
    } else {
        (1, n)
    };
    let ghost rest = v@.subrange(1, n as int);
    let ghost name = v@.subrange(lo as int, hi as int);
    proof {
        assert(rest.len() == n - 1);
        if rest.len() > 0 {
            assert(rest[0] == v@[1]);
            assert(rest.last() == v@[n - 1]);
        }
        if n - 1 >= 2 && v@[1] == '{' && v@[n - 1] == '}' {
            assert(rest.subrange(1, rest.len() - 1) =~= name);
        } else {
            assert(rest =~= name);
        }
        assert(env_name_part(v@) == name);
    }
    if lo >= hi {
        return None;
    }
    if '0' <= v[lo] && v[lo] <= '9' {
        assert(name[0] == v@[lo as int]);
        return None;
    }
    assert(name[0] == v@[lo as int]);
    let mut i: usize = lo;
    while i < hi
        invariant
            lo <= i <= hi <= v.len(),
            lo < hi,
            name == v@.subrange(lo as int, hi as int),
            env_name_part(v@) == name,
            v@ == trim(raw@),
            v@.len() > 0 && v@[0] == '$',
            !is_digit(name[0]),
            forall|j: int| 0 <= j < i - lo ==> is_env_name_char(#[trigger] name[j]),
        decreases hi - i,
    {
        let c = v[i];
        if !(('0' <= c && c <= '9') || ('a' <= c && c <= 'z') || ('A' <= c && c <= 'Z') || c
            == '_') {
            assert(name[i - lo] == v@[i as int]);
            assert(!is_env_name_char(name[i - lo]));
            assert(!valid_env_name(name));
            return None;
        }
        assert(name[i - lo] == v@[i as int]);
        assert(is_env_name_char(name[i - lo]));
        i = i + 1;
    }
    assert(valid_env_name(name));
    Some(string_from(&v, lo, hi))
}

/// `raw` with a whole-string reference replaced by the variable's value;
/// a literal, or a reference to an unset variable, stays as it is.
pub open spec fn spec_resolve_env_template(raw: Seq<char>, env_value: Option<Seq<char>>) -> Seq<
    char,
> {
    match spec_env_template_name(raw) {
        Some(_) => match env_value {
            Some(v) => v,
            None => raw,
        },
        None => raw,
    }
}

/// Resolves a credential: `env_value` is the value of the variable that
/// [`env_template_name`] names (`None` when it is unset).
pub fn resolve_env_template(raw: &str, env_value: Option<&str>) -> (r: String)
    ensures
        r@ == spec_resolve_env_template(
            raw@,
            match env_value {
                Some(v) => Some(v@),
                None => None,
            },
        ),
{
    match env_template_name(raw) {
        Some(_) => match env_value {
            Some(v) => to_string(v),
            None => to_string(raw),
        },
        None => to_string(raw),
    }
}

// ============================================================================
// URLs and headers
// ============================================================================

/// A URL made of a scheme and a host (and port) only: after `://` comes a
/// non-empty part without `/`.
pub open spec fn spec_is_origin_only_url(u: Seq<char>) -> bool {
    let i = find_char(u, ':');
    &&& i >= 0
    &&& starts_with(u.subrange(i, u.len() as int), "://"@)
    &&& {
        let rest = u.subrange(i + "://"@.len(), u.len() as int);
        rest.len() > 0 && !contains_char(rest, '/')
    }
}

/// Whether `u` is an origin without a path.
pub fn is_origin_only_url(u: &str) -> (r: bool)
    ensures
        r == spec_is_origin_only_url(u@),
{
    let v = chars_of(u);
    let sep = chars_of("://");
    assert(v@.subrange(0, v@.len() as int) =~= v@);
    let i = match find_char_in(&v, 0, v.len(), ':') {
        Some(i) => i,
        None => {
            return false;
        },
    };
    if !range_starts_with(&v, i, v.len(), &sep) {
        return false;
    }
    let start = i + sep.len();
    if start >= v.len() {
        return false;
    }
    proof {
        crate::text::lemma_find_char(v@.subrange(start as int, v.len() as int), '/');
    }
    match find_char_in(&v, start, v.len(), '/') {
        Some(_) => false,
        None => true,
    }
}

/// The upstream URL: a versioned endpoint (`/v1/...`, `/v1beta/...`) is
/// appended and a doubled `/v1/v1` collapsed; a version-less endpoint gets
/// `/v1` inserted after a bare origin, and is appended as is otherwise.
pub open spec fn spec_build_url(base_url: Seq<char>, endpoint: Seq<char>) -> Seq<char> {
    let base = strip_trailing(base_url, '/');
    let ep = strip_leading(endpoint, '/');
    if starts_with(ep, "v1/"@) || starts_with(ep, "v1beta/"@) {
        collapse(base + seq!['/'] + ep, "/v1/v1"@, "/v1"@)
    } else if ends_with(base, "/v1"@) {
        base + seq!['/'] + ep
    } else if spec_is_origin_only_url(base) {
        base + "/v1/"@ + ep
    } else {
        base + seq!['/'] + ep
    }
}

/// Whether `s` is a valid HTTP header value: tabs and visible characters,
/// no other control character.
pub open spec fn valid_header_value(s: Seq<char>) -> bool {
    forall|i: int|
        0 <= i < s.len() ==> (#[trigger] s[i] == '\t' || (' ' <= s[i] && s[i] != '\u{7f}'))
}

/// Whether `s` is a valid header value (the test that
/// `http::HeaderValue::from_str` makes on each byte: a tab, or at least 32
/// and not 127; every byte of a non-ASCII character is at least 128).
fn header_value_is_valid(s: &str) -> (b: bool)
    ensures
        b == valid_header_value(s@),
{
    let v = crate::text::chars_of(s);
    let mut i: usize = 0;
    while i < v.len()
        invariant
            0 <= i <= v.len(),
            v@ == s@,
            forall|j: int| 0 <= j < i ==> (#[trigger] v@[j] == '\t' || (' ' <= v@[j] && v@[j] != '\u{7f}')),
        decreases v.len() - i,
    {
        let c = v[i];
        if !(c == '\t' || (' ' <= c && c != '\u{7f}')) {
            return false;
        }
        i = i + 1;
    }
    true
}

/// A header value, refused when HTTP forbids one of its characters.
pub fn auth_header_value(value: &str) -> (r: Result<String, ProxyError>)
    ensures
        match r {
            Ok(v) => valid_header_value(value@) && v@ == value@,
            Err(e) => !valid_header_value(value@) && e is InvalidHeaderValue,
        },
{
    if header_value_is_valid(value) {
        Ok(to_string(value))
    } else {
        Err(ProxyError::InvalidHeaderValue)
    }
}

/// The credential of a settings fragment: `apiKey` (or `api_key` when there
/// is no `apiKey`), trimmed, when a non-blank string.
pub open spec fn spec_raw_key(v: JsonView) -> Option<Seq<char>> {
    trimmed_nonempty(
        vstr(
            match vfield(v, "apiKey"@) {
                Some(x) => Some(x),
                None => vfield(v, "api_key"@),
            },
        ),
    )
}

/// The configured base URL: `baseUrl`, else `base_url`, else `baseURL`,
/// trimmed and without trailing slashes, when not empty.
pub open spec fn spec_base_url(v: JsonView) -> Option<Seq<char>> {
    let f = match vfield(v, "baseUrl"@) {
        Some(x) => Some(x),
        None => match vfield(v, "base_url"@) {
            Some(x) => Some(x),
            None => vfield(v, "baseURL"@),
        },
    };
    match vstr(f) {
        Some(u) => {
            let t = strip_trailing(trim(u), '/');
            if t.len() > 0 {
                Some(t)
            } else {
                None
            }
        },
        None => None,
    }
}

/// The auth strategy: for Anthropic Messages, `x-api-key` unless
/// `authHeader: true`; `Authorization: Bearer` for every other protocol.
pub open spec fn spec_strategy(v: JsonView) -> AuthStrategy {
    if spec_provider_protocol(v) == OmpProtocol::AnthropicMessages {
        if vbool(vfield(v, "authHeader"@)) == Some(true) {
            AuthStrategy::Bearer
        } else {
            AuthStrategy::Anthropic
        }
    } else {
        AuthStrategy::Bearer
    }
}

/// The Omp adapter.
#[derive(Debug)]
pub struct OmpAdapter {}

impl OmpAdapter {
    pub fn new() -> (r: Self) {
        OmpAdapter {  }
    }

    /// The adapter's name.
    pub fn name(&self) -> (r: &'static str)
        ensures
            r@ == "Omp"@,
    {
        "Omp"
    }

    /// The environment variable that the provider's credential refers to,
    /// for the caller to look up before [`Self::extract_key`].
    pub fn key_template_name(&self, provider: &Provider) -> (r: Option<String>)
        ensures
            opt_view(r) == match spec_raw_key(jview(provider.settings_config)) {
                Some(k) => spec_env_template_name(k),
                None => None,
            },
    {
        match self.raw_key(provider) {
            Some(k) => env_template_name(k.as_str()),
            None => None,
        }
    }

    fn raw_key(&self, provider: &Provider) -> (r: Option<String>)
        ensures
            opt_view(r) == spec_raw_key(jview(provider.settings_config)),
    {
        let v = &provider.settings_config;
        let f = match v.get("apiKey") {
            Some(x) => Some(x),
            None => v.get("api_key"),
        };
        let s = match f {
            Some(x) => match x.as_str() {
                Some(s) => Some(s.clone()),
                None => None,
            },
            None => None,
        };
        crate::text::trimmed_opt(&s)
    }

    /// The credential, with a whole-string `$VAR` reference resolved from
    /// `env_value` (the variable's value, `None` when unset).
    pub fn extract_key(&self, provider: &Provider, env_value: Option<&str>) -> (r: Option<String>)
        ensures
            opt_view(r) == match spec_raw_key(jview(provider.settings_config)) {
                Some(k) => Some(
                    spec_resolve_env_template(
                        k,
                        match env_value {
                            Some(v) => Some(v@),
                            None => None,
                        },
                    ),
                ),
                None => None,
            },
    {
        match self.raw_key(provider) {
            Some(k) => Some(resolve_env_template(k.as_str(), env_value)),
            None => None,
        }
    }

    /// The upstream base URL; refused when none is configured.
    pub fn extract_base_url(&self, provider: &Provider) -> (r: Result<String, ProxyError>)
        ensures
            match r {
                Ok(u) => spec_base_url(jview(provider.settings_config)) == Some(u@),
                Err(e) => spec_base_url(jview(provider.settings_config)) is None
                    && e is ConfigError,
            },
    {
        let v = &provider.settings_config;
        let f = match v.get("baseUrl") {
            Some(x) => Some(x),
            None => match v.get("base_url") {
                Some(x) => Some(x),
                None => v.get("baseURL"),
            },
        };
        match f {
            Some(x) => match x.as_str() {
                Some(u) => {
                    let t = trim_str(u.as_str());
                    let t = trim_end_matches(t.as_str(), '/');
                    if !t.as_str().is_empty() {
                        return Ok(t);
                    }
                },
                None => {},
            },
            None => {},
        }
        Err(ProxyError::ConfigError(to_string("Omp provider has no baseUrl")))
    }

    /// The credential and how to send it; nothing without a credential.
    pub fn extract_auth(&self, provider: &Provider, env_value: Option<&str>) -> (r: Option<AuthInfo>)
        ensures
            match r {
                Some(a) => spec_raw_key(jview(provider.settings_config)) matches Some(k)
                    && a.api_key@ == spec_resolve_env_template(
                    k,
                    match env_value {
                        Some(v) => Some(v@),
                        None => None,
                    },
                ) && a.strategy == spec_strategy(jview(provider.settings_config)),
                None => spec_raw_key(jview(provider.settings_config)) is None,
            },
    {
        let key = match self.extract_key(provider, env_value) {
            Some(k) => k,
            None => {
                return None;
            },
        };
        let strategy = match omp_provider_protocol(provider) {
            OmpProtocol::AnthropicMessages => {
                let use_bearer = match provider.settings_config.get("authHeader") {
                    Some(b) => match b.as_bool() {
                        Some(x) => x,
                        None => false,
                    },
                    None => false,
                };
                if use_bearer {
                    AuthStrategy::Bearer
                } else {
                    AuthStrategy::Anthropic
                }
            },
            _ => AuthStrategy::Bearer,
        };
        Some(AuthInfo::new(key, strategy))
    }

    /// The upstream URL of `endpoint` under `base_url`.
    pub fn build_url(&self, base_url: &str, endpoint: &str) -> (r: String)
        ensures
            r@ == spec_build_url(base_url@, endpoint@),
    {
        let base = trim_end_matches(base_url, '/');
        let ep = trim_start_matches(endpoint, '/');
        if str_starts_with(ep.as_str(), "v1/") || str_starts_with(ep.as_str(), "v1beta/") {
            let mut url = base;
            crate::text::push_char(&mut url, '/');
            push_str(&mut url, ep.as_str());
            proof {
                reveal_strlit("/v1/v1");
                reveal_strlit("/v1");
                assert(url@ =~= strip_trailing(base_url@, '/') + seq!['/'] + strip_leading(endpoint@, '/'));
            }
            return collapse_str(url, "/v1/v1", "/v1");
        }
        let mut url = base;
        if crate::text::str_ends_with(url.as_str(), "/v1") {
            crate::text::push_char(&mut url, '/');
        } else if is_origin_only_url(url.as_str()) {
            push_str(&mut url, "/v1/");
        } else {
            crate::text::push_char(&mut url, '/');
        }
        push_str(&mut url, ep.as_str());
        url
    }

    /// The auth headers for a credential: `x-api-key` for the Anthropic
    /// strategy, `authorization: Bearer <key>` otherwise; refused when the
    /// value is not a valid header value.
    pub fn get_auth_headers(&self, auth: &AuthInfo) -> (r: Result<Vec<(String, String)>, ProxyError>)
        ensures
            match auth.strategy {
                AuthStrategy::Anthropic => match r {
                    Ok(h) => valid_header_value(auth.api_key@) && h@.len() == 1 && h@[0].0@
                        == "x-api-key"@ && h@[0].1@ == auth.api_key@,
                    Err(e) => !valid_header_value(auth.api_key@) && e is InvalidHeaderValue,
                },
                AuthStrategy::Bearer => match r {
                    Ok(h) => valid_header_value("Bearer "@ + auth.api_key@) && h@.len() == 1
                        && h@[0].0@ == "authorization"@ && h@[0].1@ == "Bearer "@ + auth.api_key@,
                    Err(e) => !valid_header_value("Bearer "@ + auth.api_key@)
                        && e is InvalidHeaderValue,
                },
            },
    {
        match auth.strategy {
            AuthStrategy::Anthropic => {
                let v = auth_header_value(auth.api_key.as_str())?;
                let mut h: Vec<(String, String)> = Vec::new();
                h.push((to_string("x-api-key"), v));
                Ok(h)
            },
            AuthStrategy::Bearer => {
                let mut value = to_string("Bearer ");
                push_str(&mut value, auth.api_key.as_str());
                let v = auth_header_value(value.as_str())?;
                let mut h: Vec<(String, String)> = Vec::new();
                h.push((to_string("authorization"), v));
                Ok(h)
            },
        }
    }
}

} // verus!
