//! Bounds on room data and the validation of the text that callers send.
use vstd::prelude::*;

use crate::text::{
    any_control, chars_of, concat, eq_ignore_ascii_case, eq_ignoring_ascii_case, has_control,
    is_control, is_control_char, is_whitespace_char, str_eq, string_from_chars, trim, trim_end,
    trim_end_char, trim_start, trimmed,
    without_trailing,
};

verus! {

pub const INVITE_TTL_SECS: i64 = 10 * 60;
pub const SESSION_TTL_SECS: i64 = 12 * 60 * 60;
pub const MAX_PARTICIPANTS: usize = 8;
pub const MAX_HISTORY_MESSAGES: usize = 40;
pub const MAX_RETAINED_RUNS: usize = 100;
pub const MAX_MODEL_ID_CHARS: usize = 256;
pub const MAX_PROMPT_CHARS: usize = 16_000;
pub const MAX_MESSAGE_CHARS: usize = 32_000;
pub const MAX_DELTA_CHARS: usize = 4_096;
pub const MAX_DISPLAY_NAME_CHARS: usize = 80;
pub const MAX_IDEMPOTENCY_KEY_CHARS: usize = 128;
pub const MAX_SHARE_ORIGIN_CHARS: usize = 2_048;

/// A validation outcome as character sequences.
pub open spec fn text_result(r: Result<String, String>) -> Result<Seq<char>, Seq<char>> {
    match r {
        Ok(s) => Ok(s@),
        Err(e) => Err(e@),
    }
}

/// A required, bounded, single-line text field: surrounding whitespace is
/// dropped, and what is left must be non-empty, at most `max_chars`
/// characters and free of control characters.
pub open spec fn non_empty_rule(value: Seq<char>, max_chars: nat, field: Seq<char>) -> Result<
    Seq<char>,
    Seq<char>,
> {
    let v = trim(value);
    if v.len() == 0 {
        Err(field + " is required"@)
    } else if v.len() > max_chars {
        Err(field + " is too long"@)
    } else if has_control(v) {
        Err(field + " contains control characters"@)
    } else {
        Ok(v)
    }
}

pub fn validate_non_empty(value: &str, max_chars: usize, field: &str) -> (r: Result<String, String>)
    ensures
        text_result(r) == non_empty_rule(value@, max_chars as nat, field@),
{
    let v = trimmed(value);
    if v.len() == 0 {
        return Err(concat(field, " is required"));
    }
    if v.len() > max_chars {
        return Err(concat(field, " is too long"));
    }
    if any_control(&v) {
        return Err(concat(field, " contains control characters"));
    }
    Ok(string_from_chars(v.as_slice()))
}

pub fn validate_model_id(value: &str) -> (r: Result<String, String>)
    ensures
        text_result(r) == non_empty_rule(value@, MAX_MODEL_ID_CHARS as nat, "modelId"@),
{
    validate_non_empty(value, MAX_MODEL_ID_CHARS, "modelId")
}

pub fn validate_prompt(value: &str) -> (r: Result<String, String>)
    ensures
        text_result(r) == non_empty_rule(value@, MAX_PROMPT_CHARS as nat, "text"@),
{
    validate_non_empty(value, MAX_PROMPT_CHARS, "text")
}

pub fn validate_display_name(value: &str) -> (r: Result<String, String>)
    ensures
        text_result(r) == non_empty_rule(value@, MAX_DISPLAY_NAME_CHARS as nat, "displayName"@),
{
    validate_non_empty(value, MAX_DISPLAY_NAME_CHARS, "displayName")
}

/// A control character other than newline, carriage return and tab.
pub open spec fn is_unsupported_delta_char(c: char) -> bool {
    is_control_char(c) && c != '\n' && c != '\r' && c != '\t'
}

/// A streamed output fragment: kept verbatim (no trimming), non-empty, at most
/// `MAX_DELTA_CHARS` characters, and free of control characters other than
/// line breaks and tabs.
pub open spec fn delta_rule(value: Seq<char>) -> Result<Seq<char>, Seq<char>> {
    if value.len() == 0 {
        Err("delta is required"@)
    } else if value.len() > MAX_DELTA_CHARS {
        Err("delta is too long"@)
    } else if exists|i: int| 0 <= i < value.len() && is_unsupported_delta_char(#[trigger] value[i]) {
        Err("delta contains unsupported control characters"@)
    } else {
        Ok(value)
    }
}

pub fn validate_delta(value: &str) -> (r: Result<String, String>)
    ensures
        text_result(r) == delta_rule(value@),
{
    let v = chars_of(value);
    if v.len() == 0 {
        return Err("delta is required".to_owned());
    }
    if v.len() > MAX_DELTA_CHARS {
        return Err("delta is too long".to_owned());
    }
    let mut i: usize = 0;
    while i < v.len()
        invariant
            v@ == value@,
            0 < value@.len() <= MAX_DELTA_CHARS,
            i <= v.len(),
            forall|j: int| 0 <= j < i ==> !is_unsupported_delta_char(#[trigger] v@[j]),
        decreases v.len() - i,
    {
        let c = v[i];
        if is_control(c) && c != '\n' && c != '\r' && c != '\t' {
            assert(is_unsupported_delta_char(value@[i as int]));
            return Err("delta contains unsupported control characters".to_owned());
        }
        i = i + 1;
    }
    Ok(value.to_owned())
}

/// The parts of a parsed URL that the share-origin rule reads.
pub struct UrlParts {
    pub scheme: String,
    pub host: Option<String>,
    pub username: String,
    pub password: Option<String>,
    pub query: Option<String>,
    pub fragment: Option<String>,
    pub path: String,
}

pub struct UrlPartsView {
    pub scheme: Seq<char>,
    pub host: Option<Seq<char>>,
    pub username: Seq<char>,
    pub password: Option<Seq<char>>,
    pub query: Option<Seq<char>>,
    pub fragment: Option<Seq<char>>,
    pub path: Seq<char>,
}

pub open spec fn opt_text(o: Option<String>) -> Option<Seq<char>> {
    match o {
        Some(s) => Some(s@),
        None => None,
    }
}

impl View for UrlParts {
    type V = UrlPartsView;

    open spec fn view(&self) -> UrlPartsView {
        UrlPartsView {
            scheme: self.scheme@,
            host: opt_text(self.host),
            username: self.username@,
            password: opt_text(self.password),
            query: opt_text(self.query),
            fragment: opt_text(self.fragment),
            path: self.path@,
        }
    }
}

pub open spec fn opt_url_view(o: Option<UrlParts>) -> Option<UrlPartsView> {
    match o {
        Some(p) => Some(p@),
        None => None,
    }
}

/// What `url::Url::parse` makes of `input`, read through `scheme`,
/// `host_str`, `username`, `password`, `query`, `fragment` and `path`
/// (`None` where parsing fails).
pub uninterp spec fn parsed_url(input: Seq<char>) -> Option<UrlPartsView>;

/// Calls `url::Url::parse` and reads the parts of the result. The contract
/// claims only that the outcome is a function of the input text, named
/// `parsed_url`; the WHATWG parsing itself is not stated.
#[verifier::external_body]
fn parse_url(input: &str) -> (r: Option<UrlParts>)
    ensures
        opt_url_view(r) == parsed_url(input@),
{
    match url::Url::parse(input) {
        Ok(url) => Some(UrlParts {
            scheme: url.scheme().to_owned(),
            host: url.host_str().map(str::to_owned),
            username: url.username().to_owned(),
            password: url.password().map(str::to_owned),
            query: url.query().map(str::to_owned),
            fragment: url.fragment().map(str::to_owned),
            path: url.path().to_owned(),
        }),
        Err(_) => None,
    }
}

/// The URL is not a bare HTTP(S) origin: another scheme, no host,
/// credentials, a query, a fragment or a path other than `/`.
pub open spec fn not_bare_origin(p: UrlPartsView) -> bool {
    ||| !(p.scheme == "http"@ || p.scheme == "https"@)
    ||| p.host is None
    ||| p.username != ""@
    ||| p.password is Some
    ||| p.query is Some
    ||| p.fragment is Some
    ||| !(p.path == ""@ || p.path == "/"@)
}

/// A host that only the serving machine can reach.
pub open spec fn is_loopback_host(host: Seq<char>) -> bool {
    ||| eq_ignore_ascii_case(host, "localhost"@)
    ||| host == "127.0.0.1"@
    ||| host == "::1"@
    ||| host == "0.0.0.0"@
}

/// The share-origin rule applied to an already trimmed `origin` and what the
/// URL parser made of it.
pub open spec fn share_origin_rule(origin: Seq<char>, parsed: Option<UrlPartsView>) -> Result<
    Seq<char>,
    Seq<char>,
> {
    match parsed {
        None => Err("shareOrigin must be a valid URL"@),
        Some(p) => if not_bare_origin(p) {
            Err("shareOrigin must be an HTTP(S) origin without credentials or a path"@)
        } else if is_loopback_host(p.host.unwrap()) {
            Err("shareOrigin must be reachable by another device"@)
        } else {
            Ok(trim_end_char(origin, '/'))
        },
    }
}

/// Applies the share-origin rule to `origin` and its parsed form.
pub fn check_share_origin(origin: &str, parsed: Option<UrlParts>) -> (r: Result<String, String>)
    ensures
        text_result(r) == share_origin_rule(origin@, opt_url_view(parsed)),
{
    let p = match parsed {
        None => {
            return Err("shareOrigin must be a valid URL".to_owned());
        },
        Some(p) => p,
    };
    let scheme_ok = str_eq(p.scheme.as_str(), "http") || str_eq(p.scheme.as_str(), "https");
    let path_ok = str_eq(p.path.as_str(), "") || str_eq(p.path.as_str(), "/");
    if !scheme_ok || p.host.is_none() || !str_eq(p.username.as_str(), "") || p.password.is_some()
        || p.query.is_some() || p.fragment.is_some() || !path_ok {
        return Err("shareOrigin must be an HTTP(S) origin without credentials or a path".to_owned());
    }
    let host = match &p.host {
        Some(h) => h.as_str(),
        None => "",
    };
    if eq_ignoring_ascii_case(host, "localhost") || str_eq(host, "127.0.0.1") || str_eq(host, "::1")
        || str_eq(host, "0.0.0.0") {
        return Err("shareOrigin must be reachable by another device".to_owned());
    }
    let chars = chars_of(origin);
    let kept = without_trailing(&chars, '/');
    Ok(string_from_chars(kept.as_slice()))
}

/// The origin that guests' join links point at: a validated, trimmed
/// `http`/`https` origin with a host other than a loopback name, without
/// credentials, query, fragment or path, and without trailing `/`.
pub open spec fn share_origin_outcome(value: Seq<char>) -> Result<Seq<char>, Seq<char>> {
    match non_empty_rule(value, MAX_SHARE_ORIGIN_CHARS as nat, "shareOrigin"@) {
        Err(e) => Err(e),
        Ok(origin) => share_origin_rule(origin, parsed_url(origin)),
    }
}

pub fn validate_share_origin(value: &str) -> (r: Result<String, String>)
    ensures
        text_result(r) == share_origin_outcome(value@),
{
    let origin = validate_non_empty(value, MAX_SHARE_ORIGIN_CHARS, "shareOrigin")?;
    let parsed = parse_url(origin.as_str());
    check_share_origin(origin.as_str(), parsed)
}

/// What `trim_start` leaves begins with a non-whitespace character.
proof fn lemma_trim_start_head(s: Seq<char>)
    ensures
        trim_start(s).len() == 0 || !is_whitespace_char(trim_start(s)[0]),
    decreases s.len(),
{
    if s.len() > 0 && is_whitespace_char(s[0]) {
        lemma_trim_start_head(s.drop_first());
    }
}

/// What `trim_end` leaves is a prefix ending with a non-whitespace
/// character.
proof fn lemma_trim_end_tail(s: Seq<char>)
    ensures
        trim_end(s).len() <= s.len(),
        trim_end(s) == s.take(trim_end(s).len() as int),
        trim_end(s).len() == 0 || !is_whitespace_char(trim_end(s).last()),
    decreases s.len(),
{
    if s.len() > 0 && is_whitespace_char(s.last()) {
        lemma_trim_end_tail(s.drop_last());
        assert(s.drop_last().take(trim_end(s).len() as int) =~= s.take(trim_end(s).len() as int));
    } else {
        assert(s.take(s.len() as int) =~= s);
    }
}

/// Trimming trimmed text changes nothing.
pub proof fn lemma_trim_idempotent(s: Seq<char>)
    ensures
        trim(trim(s)) == trim(s),
{
    let a = trim_start(s);
    let t = trim_end(a);
    lemma_trim_start_head(s);
    lemma_trim_end_tail(a);
    if t.len() > 0 {
        assert(t[0] == a[0]);
    }
    assert(trim_start(t) == t);
    lemma_trim_end_tail(t);
    if t.len() > 0 {
        assert(trim_end(t) == t);
    }
}

/// A required text field accepts its own accepted value again, unchanged.
pub proof fn law_accepted_text_validates_again(value: Seq<char>, max_chars: nat, field: Seq<char>)
    requires
        non_empty_rule(value, max_chars, field) is Ok,
    ensures
        ({
            let v = non_empty_rule(value, max_chars, field)->Ok_0;
            non_empty_rule(v, max_chars, field) == Ok::<Seq<char>, Seq<char>>(v)
        }),
{
    lemma_trim_idempotent(value);
}

/// A delta is accepted as it is, so an accepted delta is accepted again.
pub proof fn law_accepted_delta_validates_again(value: Seq<char>)
    requires
        delta_rule(value) is Ok,
    ensures
        delta_rule(value) == Ok::<Seq<char>, Seq<char>>(value),
        delta_rule(delta_rule(value)->Ok_0) == Ok::<Seq<char>, Seq<char>>(value),
{
}

} // verus!
