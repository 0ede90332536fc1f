//! The HTTP side of rooms as plain values: request identifiers, the guest
//! session cookie, error statuses and messages, and join links.
use vstd::prelude::*;

use crate::limits::opt_text;
use crate::secrets::{is_hex_token, opaque_id};
use crate::store::find::{first_index};
use crate::store::{StoreError, StoreFailure};
use crate::text::{
    chars_of, concat, eq_ignore_ascii_case, eq_ignoring_ascii_case, has_control, has_prefix,
    is_whitespace, starts_with, string_from_chars, trim, trim_end_char,
    trim_start, trimmed, utf8_len, utf8_len_at_most, vec_eq, without_trailing, any_control,
};

verus! {

pub const SESSION_COOKIE: &'static str = "ryu_rooms_session";

/// How long a guest session cookie lives: twelve hours.
pub const SESSION_MAX_AGE_SECS: u64 = 43200;

/// The error code of a request without a valid guest session.
pub const UNAUTHORIZED_CODE: &'static str = "unauthorized";

pub const UNAUTHORIZED_MESSAGE: &'static str = "a valid guest session is required";

pub open spec fn opt_str(o: Option<&str>) -> Option<Seq<char>> {
    match o {
        Some(s) => Some(s@),
        None => None,
    }
}

/// A caller's `x-request-id` that is kept: not blank, at most 128 bytes and
/// free of control characters.
pub open spec fn request_id_rule(header: Option<Seq<char>>) -> Option<Seq<char>> {
    match header {
        Some(v) => if trim(v).len() > 0 && utf8_len(v) <= 128 && !has_control(v) {
            Some(v)
        } else {
            None
        },
        None => None,
    }
}

/// The caller's request identifier, where it is acceptable.
pub fn accepted_request_id(header: Option<&str>) -> (r: Option<String>)
    ensures
        opt_text(r) == request_id_rule(opt_str(header)),
{
    let v = match header {
        Some(v) => v,
        None => {
            return None;
        },
    };
    let t = trimmed(v);
    let chars = chars_of(v);
    if t.len() == 0 || utf8_len_at_most(&chars, 128) > 128 || any_control(&chars) {
        None
    } else {
        Some(v.to_owned())
    }
}

/// The identifier of a request: the caller's, where acceptable, and a fresh
/// `req_` identifier otherwise.
pub fn request_id(header: Option<&str>) -> (r: String)
    ensures
        match request_id_rule(opt_str(header)) {
            Some(v) => r@ == v,
            None => exists|t: Seq<char>| is_hex_token(t) && r@ == "req_"@ + t,
        },
{
    match accepted_request_id(header) {
        Some(v) => v,
        None => opaque_id("req_"),
    }
}

pub open spec fn is_char(c: char) -> spec_fn(char) -> bool {
    |x: char| x == c
}

/// `s` split at every `c` (`str::split`).
pub open spec fn split_on(s: Seq<char>, c: char) -> Seq<Seq<char>>
    decreases s.len(),
{
    match first_index(s, is_char(c)) {
        None => seq![s],
        Some(i) => if 0 <= i < s.len() {
            seq![s.take(i)] + split_on(s.skip(i + 1), c)
        } else {
            seq![s]
        },
    }
}

/// The text before the first `c`, or all of `s` (`split(c).next()`).
pub open spec fn first_piece(s: Seq<char>, c: char) -> Seq<char> {
    match first_index(s, is_char(c)) {
        None => s,
        Some(i) => s.take(i),
    }
}

/// A trimmed `name=value` pair, split at its first `=`.
pub open spec fn cookie_pair(segment: Seq<char>) -> Option<(Seq<char>, Seq<char>)> {
    let t = trim(segment);
    match first_index(t, is_char('=')) {
        None => None,
        Some(i) => Some((t.take(i), t.skip(i + 1))),
    }
}

/// The value of the first pair named `name` with a non-empty value.
pub open spec fn cookie_in(segments: Seq<Seq<char>>, name: Seq<char>) -> Option<Seq<char>>
    decreases segments.len(),
{
    if segments.len() == 0 {
        None
    } else {
        match cookie_pair(segments[0]) {
            Some((n, v)) => if n == name && v.len() > 0 {
                Some(v)
            } else {
                cookie_in(segments.drop_first(), name)
            },
            None => cookie_in(segments.drop_first(), name),
        }
    }
}

/// The value of cookie `name` in a `Cookie` header.
pub open spec fn cookie_rule(header: Option<Seq<char>>, name: Seq<char>) -> Option<Seq<char>> {
    match header {
        Some(h) => cookie_in(split_on(h, ';'), name),
        None => None,
    }
}

/// The index of the first `c` in `v` at or after `from`, or `v.len()`.
fn position_from(v: &Vec<char>, from: usize, c: char) -> (r: usize)
    requires
        from <= v@.len(),
    ensures
        from <= r <= v@.len(),
        first_index(v@.skip(from as int), is_char(c)) == if r < v@.len() {
            Some(r - from)
        } else {
            None::<int>
        },
{
    let mut i: usize = from;
    while i < v.len()
        invariant
            from <= i <= v@.len(),
            forall|j: int| from <= j < i ==> v@[j] != c,
        decreases v@.len() - i,
    {
        if v[i] == c {
            proof {
                let s = v@.skip(from as int);
                assert forall|j: int| 0 <= j < i - from implies !(is_char(c))(#[trigger] s[j]) by {
                    assert(s[j] == v@[j + from]);
                }
                crate::store::find::lemma_first_index_at(s, is_char(c), i - from);
            }
            return i;
        }
        i = i + 1;
    }
    proof {
        let s = v@.skip(from as int);
        assert forall|j: int| 0 <= j < s.len() implies !(is_char(c))(#[trigger] s[j]) by {
            assert(s[j] == v@[j + from]);
        }
        crate::store::find::lemma_first_index_none(s, is_char(c));
    }
    i
}

/// `v[a..b]`.
fn slice_of(v: &Vec<char>, a: usize, b: usize) -> (out: Vec<char>)
    requires
        a <= b <= v@.len(),
    ensures
        out@ == v@.subrange(a as int, b as int),
{
    let mut out: Vec<char> = Vec::new();
    let mut k: usize = a;
    while k < b
        invariant
            a <= k <= b <= v@.len(),
            out@ == v@.subrange(a as int, k as int),
        decreases b - k,
    {
        out.push(v[k]);
        k = k + 1;
    }
    out
}

/// The name and value of one cookie segment, where it holds a `=`.
fn pair_of(segment: &Vec<char>) -> (r: Option<(Vec<char>, Vec<char>)>)
    ensures
        match r {
            Some((n, v)) => cookie_pair(segment@) == Some((n@, v@)),
            None => cookie_pair(segment@) is None,
        },
{
    let s = string_from_chars(segment.as_slice());
    let t = trimmed(s.as_str());
    let e = position_from(&t, 0, '=');
    assert(t@.skip(0) =~= t@);
    if e < t.len() {
        let n = slice_of(&t, 0, e);
        let v = slice_of(&t, e + 1, t.len());
        assert(n@ =~= t@.take(e as int));
        assert(v@ =~= t@.skip(e + 1));
        Some((n, v))
    } else {
        None
    }
}

proof fn lemma_split_step(s: Seq<char>, c: char, i: int)
    requires
        0 <= i < s.len(),
        first_index(s, is_char(c)) == Some(i),
    ensures
        split_on(s, c)[0] == s.take(i),
        split_on(s, c).drop_first() == split_on(s.skip(i + 1), c),
        split_on(s, c).len() > 0,
{
    assert((seq![s.take(i)] + split_on(s.skip(i + 1), c)).drop_first() =~= split_on(s.skip(i + 1), c));
}

/// The value of cookie `name` in a `Cookie` header, if it has a non-empty
/// one.
pub fn cookie_value(header: Option<&str>, name: &str) -> (r: Option<String>)
    ensures
        opt_text(r) == cookie_rule(opt_str(header), name@),
{
    let h = match header {
        Some(h) => h,
        None => {
            return None;
        },
    };
    let chars = chars_of(h);
    let wanted = chars_of(name);
    let n = chars.len();
    let mut start: usize = 0;
    assert(chars@.skip(0) =~= chars@);
    loop
        invariant
            n == chars@.len(),
            start <= n,
            wanted@ == name@,
            cookie_in(split_on(chars@.skip(start as int), ';'), name@) == cookie_rule(
                opt_str(header),
                name@,
            ),
        decreases n - start,
    {
        let ghost rest = chars@.skip(start as int);
        let j = position_from(&chars, start, ';');
        let segment = slice_of(&chars, start, j);
        let ghost segs = split_on(rest, ';');
        proof {
            if j < n {
                lemma_split_step(rest, ';', j - start);
                assert(rest.take(j - start) =~= segment@);
                assert(rest.skip(j - start + 1) =~= chars@.skip(j + 1));
            } else {
                assert(rest =~= segment@);
                assert(segs == seq![rest]);
                assert(segs.drop_first() =~= Seq::<Seq<char>>::empty());
                assert(cookie_in(segs.drop_first(), name@) is None);
            }
        }
        match pair_of(&segment) {
            Some((k, v)) => {
                if vec_eq(&k, &wanted) && v.len() > 0 {
                    return Some(string_from_chars(v.as_slice()));
                }
            },
            None => {},
        }
        if j >= n {
            return None;
        }
        start = j + 1;
    }
}

/// The guest session cookie: HTTP-only, strict same-site, scoped to the
/// rooms API, twelve hours, and secure where the request came over HTTPS.
pub open spec fn session_cookie_text(secret: Seq<char>, secure: bool) -> Seq<char> {
    "ryu_rooms_session="@ + secret + "; Path=/api/rooms; Max-Age=43200; HttpOnly; SameSite=Strict"@ + if secure {
        "; Secure"@
    } else {
        ""@
    }
}

pub fn session_cookie(secret: &str, secure: bool) -> (c: String)
    ensures
        c@ == session_cookie_text(secret@, secure),
{
    let head = concat("ryu_rooms_session=", secret);
    let body = concat(head.as_str(), "; Path=/api/rooms; Max-Age=43200; HttpOnly; SameSite=Strict");
    if secure {
        concat(body.as_str(), "; Secure")
    } else {
        assert(body@ + ""@ =~= body@) by {
            reveal_strlit("");
        }
        body
    }
}

/// A request came over HTTPS: the first `x-forwarded-proto` entry is `https`
/// in any case, or the `Origin` starts with `https://`.
pub open spec fn https_rule(forwarded_proto: Option<Seq<char>>, origin: Option<Seq<char>>) -> bool {
    ||| (forwarded_proto matches Some(p) && eq_ignore_ascii_case(trim(first_piece(p, ',')), "https"@))
    ||| (origin matches Some(o) && starts_with(trim_start(o), "https://"@))
}

/// The index after the leading whitespace of `v`.
fn leading_space(v: &Vec<char>) -> (r: usize)
    ensures
        r <= v@.len(),
        trim_start(v@) == v@.skip(r as int),
{
    let mut i: usize = 0;
    assert(v@.skip(0) =~= v@);
    while i < v.len() && is_whitespace(v[i])
        invariant
            i <= v@.len(),
            trim_start(v@.skip(i as int)) == trim_start(v@),
        decreases v@.len() - i,
    {
        assert(v@.skip(i as int).drop_first() =~= v@.skip(i + 1));
        i = i + 1;
    }
    i
}

pub fn is_https_request(forwarded_proto: Option<&str>, origin: Option<&str>) -> (r: bool)
    ensures
        r == https_rule(opt_str(forwarded_proto), opt_str(origin)),
{
    if let Some(p) = forwarded_proto {
        let chars = chars_of(p);
        let j = position_from(&chars, 0, ',');
        assert(chars@.skip(0) =~= chars@);
        let first = slice_of(&chars, 0, j);
        assert(first@ =~= first_piece(p@, ','));
        let s = string_from_chars(first.as_slice());
        let t = trimmed(s.as_str());
        let ts = string_from_chars(t.as_slice());
        if eq_ignoring_ascii_case(ts.as_str(), "https") {
            return true;
        }
    }
    if let Some(o) = origin {
        let chars = chars_of(o);
        let i = leading_space(&chars);
        let rest = slice_of(&chars, i, chars.len());
        assert(rest@ =~= chars@.skip(i as int));
        let prefix = chars_of("https://");
        return has_prefix(&rest, &prefix);
    }
    false
}

/// The HTTP status of an error.
pub open spec fn error_status_code(e: StoreFailure) -> u16 {
    match e {
        StoreFailure::Invalid(_) => 400,
        StoreFailure::NotFound => 404,
        StoreFailure::RoomBusy | StoreFailure::Conflict => 409,
        StoreFailure::Closed => 410,
        StoreFailure::Forbidden => 403,
        StoreFailure::InviteUnavailable => 400,
        StoreFailure::Database | StoreFailure::Lock => 503,
    }
}

pub fn error_status(error: &StoreError) -> (s: u16)
    ensures
        s == error_status_code(error@),
{
    match error {
        StoreError::Invalid(_) => 400,
        StoreError::NotFound => 404,
        StoreError::RoomBusy | StoreError::Conflict => 409,
        StoreError::Closed => 410,
        StoreError::Forbidden => 403,
        StoreError::InviteUnavailable => 400,
        StoreError::Database | StoreError::Lock => 503,
    }
}

/// The message that callers see for an error: a validation message as it
/// is, and a fixed sentence for every other error.
pub open spec fn public_message(e: StoreFailure) -> Seq<char> {
    match e {
        StoreFailure::Invalid(m) => m,
        StoreFailure::RoomBusy => "another turn is already running"@,
        StoreFailure::Closed => "this room is closed"@,
        StoreFailure::InviteUnavailable => "the invite is invalid, expired, or revoked"@,
        StoreFailure::Conflict => "the request conflicts with the current room state"@,
        StoreFailure::NotFound => "room not found"@,
        StoreFailure::Forbidden => "permission denied"@,
        StoreFailure::Database | StoreFailure::Lock => "room storage is temporarily unavailable"@,
    }
}

pub fn public_error_message(error: &StoreError) -> (m: String)
    ensures
        m@ == public_message(error@),
{
    match error {
        StoreError::Invalid(message) => message.clone(),
        StoreError::RoomBusy => "another turn is already running".to_owned(),
        StoreError::Closed => "this room is closed".to_owned(),
        StoreError::InviteUnavailable => "the invite is invalid, expired, or revoked".to_owned(),
        StoreError::Conflict => "the request conflicts with the current room state".to_owned(),
        StoreError::NotFound => "room not found".to_owned(),
        StoreError::Forbidden => "permission denied".to_owned(),
        StoreError::Database | StoreError::Lock => "room storage is temporarily unavailable".to_owned(),
    }
}

/// The guest page link that carries an invite in its fragment.
pub open spec fn guest_link_text(origin: Seq<char>, invite: Seq<char>) -> Seq<char> {
    origin + "/api/rooms/guest#invite="@ + invite
}

pub fn guest_link(origin: &str, invite: &str) -> (u: String)
    ensures
        u@ == guest_link_text(origin@, invite@),
{
    let head = concat(origin, "/api/rooms/guest#invite=");
    concat(head.as_str(), invite)
}

/// The join link for a new room: the origin without trailing `/`, then the
/// guest page with the invite in its fragment.
pub fn join_url(share_origin: &str, invite: &str) -> (u: String)
    ensures
        u@ == guest_link_text(trim_end_char(share_origin@, '/'), invite@),
{
    let chars = chars_of(share_origin);
    let kept = without_trailing(&chars, '/');
    let origin = string_from_chars(kept.as_slice());
    guest_link(origin.as_str(), invite)
}

/// The token of an `Authorization: Bearer <token>` header.
pub open spec fn bearer_rule(header: Option<Seq<char>>) -> Option<Seq<char>> {
    match header {
        Some(v) => if starts_with(v, "Bearer "@) {
            Some(v.skip("Bearer "@.len() as int))
        } else {
            None
        },
        None => None,
    }
}

pub fn bearer_token(header: Option<&str>) -> (r: Option<String>)
    ensures
        opt_text(r) == bearer_rule(opt_str(header)),
{
    let v = match header {
        Some(v) => v,
        None => {
            return None;
        },
    };
    let chars = chars_of(v);
    let prefix = chars_of("Bearer ");
    if has_prefix(&chars, &prefix) {
        let rest = slice_of(&chars, prefix.len(), chars.len());
        assert(rest@ =~= v@.skip("Bearer "@.len() as int));
        Some(string_from_chars(rest.as_slice()))
    } else {
        None
    }
}

} // verus!
