//! Response policy: custom headers, CORS and `Cache-Control`.

use vstd::prelude::*;
use crate::request::RequestMethod;
use crate::text::{chars_of, decimal, decimal_text, digit_char, push_char, push_str, trim, trimmed};

verus! {

/// A character that may stand in a header value: visible ASCII, tab, or
/// anything beyond ASCII.
pub open spec fn header_value_char(c: char) -> bool {
    ((c as u32) >= 32 && (c as u32) != 127) || c == '\t'
}

/// Text that forms a valid header value.
pub open spec fn valid_header_value(s: Seq<char>) -> bool {
    forall|i: int| 0 <= i < s.len() ==> #[trigger] header_value_char(s[i])
}

/// A character allowed in a header name (an HTTP token character).
pub open spec fn token_char(c: char) -> bool {
    let u = c as u32;
    ||| 48 <= u <= 57
    ||| 65 <= u <= 90
    ||| 97 <= u <= 122
    ||| u == 33 || u == 35 || u == 36 || u == 37 || u == 38 || u == 39
    ||| u == 42 || u == 43 || u == 45 || u == 46
    ||| u == 94 || u == 95 || u == 96 || u == 124 || u == 126
}

/// ASCII lower-casing of one character.
pub open spec fn ascii_lower(c: char) -> char {
    if 65 <= (c as u32) <= 90 {
        ((c as u32) + 32) as char
    } else {
        c
    }
}

/// The normalized header name that `s` spells, if it is one: between 1 and
/// 65535 token characters, lower-cased.
pub open spec fn header_name_of(s: Seq<char>) -> Option<Seq<char>> {
    if 1 <= s.len() <= 65535 && forall|i: int| 0 <= i < s.len() ==> #[trigger] token_char(s[i]) {
        Some(s.map_values(|c: char| ascii_lower(c)))
    } else {
        None
    }
}

/// Parses a header name.
///
/// Trusted: calls `http::HeaderName::from_str` (through `axum::http`) and
/// reads the name back with `as_str`. In the crate's source a name is
/// refused when it is empty or longer than 65535 bytes, or when a byte maps
/// to 0 in its `HEADER_CHARS` table, which keeps exactly the token
/// characters and lower-cases `A`-`Z`; a non-ASCII character's UTF-8 bytes
/// all map to 0. Standard names read back as the same lower-case text.
#[verifier::external_body]
fn header_name(s: &str) -> (res: Option<String>)
    ensures
        res matches Some(n) ==> header_name_of(s@) == Some(n@),
        res is None ==> header_name_of(s@) is None,
{
    match <axum::http::HeaderName as std::str::FromStr>::from_str(s) {
        Ok(name) => Some(name.as_str().to_string()),
        Err(_) => None,
    }
}

/// Whether `s` is a valid header value.
///
/// Trusted: calls `http::HeaderValue::from_str` (through `axum::http`). Its
/// source accepts exactly the byte strings whose bytes are all `>= 32` and
/// not 127, or a tab; the UTF-8 bytes of a non-ASCII character are all
/// `>= 128`, so over characters this is `valid_header_value`.
#[verifier::external_body]
fn header_value_is_valid(s: &str) -> (res: bool)
    ensures
        res == valid_header_value(s@),
{
    axum::http::HeaderValue::from_str(s).is_ok()
}

/// Why a `NAME:VALUE` header could not be parsed.
#[derive(PartialEq, Eq, Structural, Clone, Copy, Debug)]
pub enum HeaderFault {
    /// There is no `:`.
    MissingSeparator,
    /// The text before the `:` is not a header name.
    InvalidName,
    /// The text after the `:` is not a header value.
    InvalidValue,
}

/// Why a policy could not be built.
#[derive(Debug)]
pub enum PolicyError {
    /// `immutable` was asked for without a cache lifetime.
    ImmutableWithoutCache,
    /// A custom header, given as written, could not be parsed.
    Header(HeaderFault, String),
}

/// The text before and after the first `:` of `s`.
pub open spec fn split_at_colon(s: Seq<char>) -> Option<(Seq<char>, Seq<char>)>
    decreases s.len(),
{
    if s.len() == 0 {
        None
    } else if s[0] == ':' {
        Some((seq![], s.skip(1)))
    } else {
        match split_at_colon(s.skip(1)) {
            Some(halves) => Some((seq![s[0]] + halves.0, halves.1)),
            None => None,
        }
    }
}

proof fn lemma_split_at_colon(s: Seq<char>, i: int)
    requires
        0 <= i <= s.len(),
        forall|j: int| 0 <= j < i ==> s[j] != ':',
    ensures
        i < s.len() && s[i] == ':' ==> split_at_colon(s) == Some((s.take(i), s.skip(i + 1))),
        i == s.len() ==> split_at_colon(s) is None,
    decreases i,
{
    if i > 0 {
        lemma_split_at_colon(s.skip(1), i - 1);
        if i < s.len() {
            assert(s.skip(1).skip(i) == s.skip(i + 1));
        }
    }
}

/// A custom header parsed from `NAME:VALUE`: the normalized name and the
/// trimmed value.
pub open spec fn spec_parse_header(raw: Seq<char>) -> Result<(Seq<char>, Seq<char>), HeaderFault> {
    match split_at_colon(raw) {
        None => Err(HeaderFault::MissingSeparator),
        Some(halves) => match header_name_of(trimmed(halves.0)) {
            None => Err(HeaderFault::InvalidName),
            Some(name) => if valid_header_value(trimmed(halves.1)) {
                Ok((name, trimmed(halves.1)))
            } else {
                Err(HeaderFault::InvalidValue)
            },
        },
    }
}

/// Parses a custom header given as `NAME:VALUE`, trimming white space
/// around both halves.
pub fn parse_header(raw: &str) -> (res: Result<(String, String), PolicyError>)
    ensures
        match res {
            Ok(h) => spec_parse_header(raw@) == Ok::<_, HeaderFault>((h.0@, h.1@)),
            Err(PolicyError::Header(fault, text)) => spec_parse_header(raw@) == Err::<
                (Seq<char>, Seq<char>),
                _,
            >(fault) && text@ == raw@,
            Err(PolicyError::ImmutableWithoutCache) => false,
        },
{
    let cs = chars_of(raw);
    let mut i: usize = 0;
    while i < cs.len() && cs[i] != ':'
        invariant
            cs@ == raw@,
            i <= cs.len(),
            forall|j: int| 0 <= j < i ==> raw@[j] != ':',
        decreases cs.len() - i,
    {
        i = i + 1;
    }
    proof {
        lemma_split_at_colon(raw@, i as int);
    }
    if i == cs.len() {
        return Err(PolicyError::Header(HeaderFault::MissingSeparator, raw.to_owned()));
    }
    let mut before = String::new();
    let mut after = String::new();
    let mut k: usize = 0;
    while k < cs.len()
        invariant
            cs@ == raw@,
            i < cs.len(),
            k <= cs.len(),
            before@ == raw@.take(if k < i { k as int } else { i as int }),
            after@ == (if k <= i { seq![] } else { raw@.subrange(i + 1, k as int) }),
        decreases cs.len() - k,
    {
        if k < i {
            push_char(&mut before, cs[k]);
        } else if k > i {
            push_char(&mut after, cs[k]);
        }
        k = k + 1;
    }
    let name_text = trim(before.as_str());
    let value_text = trim(after.as_str());
    let name = match header_name(name_text) {
        Some(n) => n,
        None => return Err(PolicyError::Header(HeaderFault::InvalidName, raw.to_owned())),
    };
    if !header_value_is_valid(value_text) {
        return Err(PolicyError::Header(HeaderFault::InvalidValue, raw.to_owned()));
    }
    Ok((name, value_text.to_owned()))
}

} // verus!

verus! {

/// The `Cache-Control` value for successful file responses.
pub open spec fn spec_cache_header(seconds: u64, immutable: bool) -> Seq<char> {
    if seconds == 0 {
        "no-cache"@
    } else {
        "public, max-age="@ + decimal(seconds as nat) + if immutable {
            ", immutable"@
        } else {
            seq![]
        }
    }
}

proof fn lemma_decimal_is_digits(n: nat)
    ensures
        forall|i: int| 0 <= i < decimal(n).len() ==> #[trigger] header_value_char(decimal(n)[i]),
    decreases n,
{
    if n >= 10 {
        lemma_decimal_is_digits(n / 10);
        let prev = decimal(n / 10);
        assert forall|i: int| 0 <= i < decimal(n).len() implies #[trigger] header_value_char(
            decimal(n)[i],
        ) by {
            if i < prev.len() {
                assert(decimal(n)[i] == prev[i]);
            }
        }
    } else {
        assert(header_value_char(digit_char(n)));
    }
}

/// Builds the `Cache-Control` value: `no-cache` for a zero lifetime, else
/// `public, max-age=N`, with `, immutable` where asked.
pub fn cache_header(seconds: u64, immutable: bool) -> (res: String)
    ensures
        res@ == spec_cache_header(seconds, immutable),
        valid_header_value(res@),
{
    proof {
        reveal_strlit("no-cache");
        reveal_strlit("public, max-age=");
        reveal_strlit(", immutable");
        lemma_decimal_is_digits(seconds as nat);
    }
    if seconds == 0 {
        let res = String::from_str("no-cache");
        return res;
    }
    let mut res = String::from_str("public, max-age=");
    let digits = decimal_text(seconds as u128);
    push_str(&mut res, digits.as_str());
    if immutable {
        push_str(&mut res, ", immutable");
    }
    let ghost v = res@;
    assert forall|i: int| 0 <= i < v.len() implies #[trigger] header_value_char(v[i]) by {
        let p = "public, max-age="@;
        let d = decimal(seconds as nat);
        if i < p.len() {
            assert(v[i] == p[i]);
        } else if i < p.len() + d.len() {
            assert(v[i] == d[i - p.len()]);
        } else {
            assert(v[i] == ", immutable"@[i - p.len() - d.len()]);
        }
    }
    res
}

/// The custom headers parsed from `raws`, or the first that fails, with its
/// text.
pub open spec fn parse_all(raws: Seq<Seq<char>>) -> Result<
    Seq<(Seq<char>, Seq<char>)>,
    (HeaderFault, Seq<char>),
>
    decreases raws.len(),
{
    if raws.len() == 0 {
        Ok(seq![])
    } else {
        match parse_all(raws.drop_last()) {
            Err(e) => Err(e),
            Ok(hs) => match spec_parse_header(raws.last()) {
                Ok(h) => Ok(hs.push(h)),
                Err(f) => Err((f, raws.last())),
            },
        }
    }
}

pub open spec fn text_views(v: Seq<String>) -> Seq<Seq<char>> {
    v.map_values(|s: String| s@)
}

pub open spec fn pair_views(v: Seq<(String, String)>) -> Seq<(Seq<char>, Seq<char>)> {
    v.map_values(|p: (String, String)| (p.0@, p.1@))
}

/// How responses are decorated: custom headers, CORS, and the cache header
/// for successful `GET` and `HEAD` responses.
pub struct Policy {
    headers: Vec<(String, String)>,
    cors: bool,
    cache: String,
    verbose: bool,
}

impl Policy {
    /// The custom headers, as (normalized name, value), in the given order.
    pub closed spec fn spec_headers(&self) -> Seq<(Seq<char>, Seq<char>)> {
        pair_views(self.headers@)
    }

    pub closed spec fn spec_cors(&self) -> bool {
        self.cors
    }

    pub closed spec fn spec_cache(&self) -> Seq<char> {
        self.cache@
    }

    pub closed spec fn spec_verbose(&self) -> bool {
        self.verbose
    }

    /// Builds a policy.
    ///
    /// `immutable` without a cache lifetime is refused; so is the first
    /// custom header that is not a valid `NAME:VALUE`.
    pub fn new(
        raw_headers: &[String],
        cors: bool,
        cache_seconds: u64,
        immutable: bool,
        verbose: bool,
    ) -> (res: Result<Policy, PolicyError>)
        ensures
            immutable && cache_seconds == 0 ==> res matches Err(PolicyError::ImmutableWithoutCache),
            !(immutable && cache_seconds == 0) ==> match parse_all(text_views(raw_headers@)) {
                Ok(hs) => res matches Ok(p) && p.spec_headers() == hs && p.spec_cors() == cors
                    && p.spec_cache() == spec_cache_header(cache_seconds, immutable)
                    && p.spec_verbose() == verbose,
                Err(e) => res matches Err(PolicyError::Header(fault, text)) && fault == e.0
                    && text@ == e.1,
            },
    {
        if immutable && cache_seconds == 0 {
            return Err(PolicyError::ImmutableWithoutCache);
        }
        let mut headers: Vec<(String, String)> = Vec::new();
        let mut i: usize = 0;
        assert(pair_views(headers@) == Seq::<(Seq<char>, Seq<char>)>::empty());
        while i < raw_headers.len()
            invariant
                !(immutable && cache_seconds == 0),
                i <= raw_headers.len(),
                parse_all(text_views(raw_headers@).take(i as int)) == Ok::<_, (HeaderFault, Seq<char>)>(
                    pair_views(headers@),
                ),
            decreases raw_headers.len() - i,
        {
            let ghost raws = text_views(raw_headers@);
            assert(raws.take(i + 1).drop_last() == raws.take(i as int));
            match parse_header(raw_headers[i].as_str()) {
                Ok(h) => {
                    let ghost before = headers@;
                    headers.push(h);
                    assert(pair_views(headers@) == pair_views(before).push((h.0@, h.1@)));
                },
                Err(e) => {
                    proof {
                        lemma_parse_all_error_persists(raws, i as int + 1);
                    }
                    return Err(e);
                },
            }
            i = i + 1;
        }
        assert(text_views(raw_headers@).take(i as int) == text_views(raw_headers@));
        Ok(Policy { headers, cors, cache: cache_header(cache_seconds, immutable), verbose })
    }

    /// The custom headers, as (normalized name, value).
    pub fn headers(&self) -> (res: &Vec<(String, String)>)
        ensures
            pair_views(res@) == self.spec_headers(),
    {
        &self.headers
    }

    /// Whether cross-origin requests are allowed.
    pub fn cors(&self) -> (res: bool)
        ensures
            res == self.spec_cors(),
    {
        self.cors
    }

    /// The `Cache-Control` value for successful file responses.
    pub fn cache(&self) -> (res: &String)
        ensures
            res@ == self.spec_cache(),
    {
        &self.cache
    }

    /// Whether each request is logged.
    pub fn verbose(&self) -> (res: bool)
        ensures
            res == self.spec_verbose(),
    {
        self.verbose
    }
}

proof fn lemma_parse_all_error_persists(raws: Seq<Seq<char>>, k: int)
    requires
        0 < k <= raws.len(),
        parse_all(raws.take(k)) is Err,
    ensures
        parse_all(raws) == parse_all(raws.take(k)),
    decreases raws.len() - k,
{
    if k < raws.len() {
        assert(raws.take(k + 1).drop_last() == raws.take(k));
        lemma_parse_all_error_persists(raws, k + 1);
    } else {
        assert(raws.take(k) == raws);
    }
}

} // verus!

verus! {

/// Whether a status code is a success (2xx).
pub open spec fn is_success(status: u16) -> bool {
    200 <= status <= 299
}

/// The headers that the policy sets on a response, in the order they are
/// inserted; a later insert of a name replaces an earlier one.
pub open spec fn spec_inserts(
    headers: Seq<(Seq<char>, Seq<char>)>,
    cors: bool,
    cache: Seq<char>,
    method: RequestMethod,
    status: u16,
    has_cache_control: bool,
) -> Seq<(Seq<char>, Seq<char>)> {
    (if (method == RequestMethod::Get || method == RequestMethod::Head) && is_success(status)
        && !has_cache_control {
        seq![("cache-control"@, cache)]
    } else {
        seq![]
    }) + (if cors {
        seq![
            ("access-control-allow-origin"@, "*"@),
            ("access-control-allow-methods"@, "GET, HEAD, OPTIONS"@),
            ("access-control-allow-headers"@, "*"@),
        ]
    } else {
        seq![]
    }) + headers
}

/// A header map after inserting `inserts` into `map`, in order.
pub open spec fn apply_inserts(
    map: Map<Seq<char>, Seq<char>>,
    inserts: Seq<(Seq<char>, Seq<char>)>,
) -> Map<Seq<char>, Seq<char>>
    decreases inserts.len(),
{
    if inserts.len() == 0 {
        map
    } else {
        apply_inserts(map, inserts.drop_last()).insert(inserts.last().0, inserts.last().1)
    }
}

impl Policy {
    /// Whether the policy answers the request itself, with `204 No Content`,
    /// without serving it: CORS preflight requests.
    pub fn short_circuits(&self, method: RequestMethod) -> (res: bool)
        ensures
            res == (self.spec_cors() && method == RequestMethod::Options),
    {
        self.cors && method == RequestMethod::Options
    }

    /// The headers to insert into a response with `status` to a request with
    /// `method`: `Cache-Control` for successful `GET` and `HEAD` responses
    /// that have none, the CORS headers when enabled, then the custom headers.
    pub fn headers_to_insert(&self, method: RequestMethod, status: u16, has_cache_control: bool) -> (res: Vec<(String, String)>)
        ensures
            pair_views(res@) == spec_inserts(
                self.spec_headers(),
                self.spec_cors(),
                self.spec_cache(),
                method,
                status,
                has_cache_control,
            ),
    {
        let mut res: Vec<(String, String)> = Vec::new();
        if (method == RequestMethod::Get || method == RequestMethod::Head) && 200 <= status
            && status <= 299 && !has_cache_control {
            res.push((String::from_str("cache-control"), self.cache.clone()));
        }
        if self.cors {
            res.push((String::from_str("access-control-allow-origin"), String::from_str("*")));
            res.push((String::from_str("access-control-allow-methods"), String::from_str("GET, HEAD, OPTIONS")));
            res.push((String::from_str("access-control-allow-headers"), String::from_str("*")));
        }
        let ghost head = pair_views(res@);
        let mut i: usize = 0;
        while i < self.headers.len()
            invariant
                i <= self.headers.len(),
                pair_views(res@) == head + pair_views(self.headers@).take(i as int),
            decreases self.headers.len() - i,
        {
            let ghost before = res@;
            let name = self.headers[i].0.clone();
            let value = self.headers[i].1.clone();
            res.push((name, value));
            assert(pair_views(res@) == pair_views(before).push(pair_views(self.headers@)[i as int]));
            i = i + 1;
        }
        res
    }
}

proof fn lemma_apply_concat(
    map: Map<Seq<char>, Seq<char>>,
    a: Seq<(Seq<char>, Seq<char>)>,
    b: Seq<(Seq<char>, Seq<char>)>,
)
    ensures
        apply_inserts(map, a + b) == apply_inserts(apply_inserts(map, a), b),
    decreases b.len(),
{
    if b.len() > 0 {
        assert((a + b).drop_last() == a + b.drop_last());
        lemma_apply_concat(map, a, b.drop_last());
    } else {
        assert(a + b == a);
    }
}

proof fn lemma_last_insert_wins(
    map: Map<Seq<char>, Seq<char>>,
    inserts: Seq<(Seq<char>, Seq<char>)>,
    i: int,
)
    requires
        0 <= i < inserts.len(),
        forall|j: int| i < j < inserts.len() ==> (#[trigger] inserts[j]).0 != inserts[i].0,
    ensures
        apply_inserts(map, inserts).dom().contains(inserts[i].0),
        apply_inserts(map, inserts)[inserts[i].0] == inserts[i].1,
    decreases inserts.len(),
{
    if i < inserts.len() - 1 {
        lemma_last_insert_wins(map, inserts.drop_last(), i);
    }
}

/// A custom header reaches the client with the value given last for its
/// name, whatever the response already held and whatever the cache and CORS
/// headers are.
pub proof fn lemma_custom_headers_win(
    policy: Policy,
    method: RequestMethod,
    status: u16,
    has_cache_control: bool,
    response: Map<Seq<char>, Seq<char>>,
    i: int,
)
    requires
        0 <= i < policy.spec_headers().len(),
        forall|j: int|
            i < j < policy.spec_headers().len() ==> (#[trigger] policy.spec_headers()[j]).0
                != policy.spec_headers()[i].0,
    ensures
        ({
            let after = apply_inserts(
                response,
                spec_inserts(
                    policy.spec_headers(),
                    policy.spec_cors(),
                    policy.spec_cache(),
                    method,
                    status,
                    has_cache_control,
                ),
            );
            after.dom().contains(policy.spec_headers()[i].0) && after[policy.spec_headers()[i].0]
                == policy.spec_headers()[i].1
        }),
{
    let hs = policy.spec_headers();
    let all = spec_inserts(hs, policy.spec_cors(), policy.spec_cache(), method, status, has_cache_control);
    let k = all.len() - hs.len();
    assert forall|j: int| k + i < j < all.len() implies (#[trigger] all[j]).0 != all[k + i].0 by {
        assert(all[j] == hs[j - k]);
        assert(all[k + i] == hs[i]);
    }
    lemma_last_insert_wins(response, all, k + i);
}

/// A successful `GET` or `HEAD` response without its own `Cache-Control`
/// gets the policy's, unless a custom header of that name replaces it.
pub proof fn lemma_cache_header_applied(
    policy: Policy,
    method: RequestMethod,
    status: u16,
    response: Map<Seq<char>, Seq<char>>,
)
    requires
        method == RequestMethod::Get || method == RequestMethod::Head,
        is_success(status),
        forall|j: int|
            0 <= j < policy.spec_headers().len() ==> (#[trigger] policy.spec_headers()[j]).0
                != "cache-control"@,
    ensures
        ({
            let after = apply_inserts(
                response,
                spec_inserts(
                    policy.spec_headers(),
                    policy.spec_cors(),
                    policy.spec_cache(),
                    method,
                    status,
                    false,
                ),
            );
            after.dom().contains("cache-control"@) && after["cache-control"@] == policy.spec_cache()
        }),
{
    reveal_strlit("cache-control");
    reveal_strlit("access-control-allow-origin");
    reveal_strlit("access-control-allow-methods");
    reveal_strlit("access-control-allow-headers");
    let hs = policy.spec_headers();
    let all = spec_inserts(hs, policy.spec_cors(), policy.spec_cache(), method, status, false);
    assert forall|j: int| 0 < j < all.len() implies (#[trigger] all[j]).0 != all[0].0 by {
        if policy.spec_cors() && j <= 3 {
            assert("cache-control"@[0] != "access-control-allow-origin"@[1]
                || "cache-control"@.len() != "access-control-allow-origin"@.len());
        } else {
            let k = if policy.spec_cors() { 4int } else { 1int };
            assert(all[j] == hs[j - k]);
        }
    }
    lemma_last_insert_wins(response, all, 0);
}

} // verus!

verus! {

/// The line logged for a request in verbose mode.
pub open spec fn spec_access_log_line(method: Seq<char>, uri: Seq<char>, status: u16, millis: u128) -> Seq<char> {
    method + " "@ + uri + " -> "@ + decimal(status as nat) + " ("@ + decimal(millis as nat) + " ms)"@
}

/// Formats the verbose log line: `METHOD URI -> STATUS (N ms)`.
pub fn access_log_line(method: &str, uri: &str, status: u16, millis: u128) -> (res: String)
    ensures
        res@ == spec_access_log_line(method@, uri@, status, millis),
{
    let mut line = String::new();
    push_str(&mut line, method);
    push_str(&mut line, " ");
    push_str(&mut line, uri);
    push_str(&mut line, " -> ");
    let code = decimal_text(status as u128);
    push_str(&mut line, code.as_str());
    push_str(&mut line, " (");
    let ms = decimal_text(millis);
    push_str(&mut line, ms.as_str());
    push_str(&mut line, " ms)");
    line
}

/// The headers set on every response, whatever its method and status: the
/// policy's `Cache-Control` first, only for a successful `GET` or `HEAD`
/// without one; then, exactly when CORS is on, `Access-Control-Allow-Origin:
/// *`, `-Methods: GET, HEAD, OPTIONS` and `-Headers: *`; last, the custom
/// headers in their order.
pub proof fn lemma_inserts_shape(
    headers: Seq<(Seq<char>, Seq<char>)>,
    cors: bool,
    cache: Seq<char>,
    method: RequestMethod,
    status: u16,
    has_cache_control: bool,
)
    ensures
        ({
            let ins = spec_inserts(headers, cors, cache, method, status, has_cache_control);
            let caching = (method == RequestMethod::Get || method == RequestMethod::Head) && 200
                <= status <= 299 && !has_cache_control;
            let k = (if caching { 1int } else { 0int }) + (if cors { 3int } else { 0int });
            &&& ins.len() == k + headers.len()
            &&& ins.skip(k) == headers
            &&& caching ==> ins[0] == ("cache-control"@, cache)
            &&& cors ==> ins[k - 3] == ("access-control-allow-origin"@, "*"@)
            &&& cors ==> ins[k - 2] == ("access-control-allow-methods"@, "GET, HEAD, OPTIONS"@)
            &&& cors ==> ins[k - 1] == ("access-control-allow-headers"@, "*"@)
        }),
{
    let ins = spec_inserts(headers, cors, cache, method, status, has_cache_control);
    let caching = (method == RequestMethod::Get || method == RequestMethod::Head) && 200 <= status
        <= 299 && !has_cache_control;
    let k = (if caching { 1int } else { 0int }) + (if cors { 3int } else { 0int });
    assert(ins.skip(k) =~= headers);
}

/// A parsed custom header has a lower-case name of token characters and a
/// valid value without white space at either end.
pub proof fn lemma_parsed_header_is_clean(raw: Seq<char>)
    requires
        spec_parse_header(raw) is Ok,
    ensures
        ({
            let h = spec_parse_header(raw)->Ok_0;
            &&& h.0.len() >= 1
            &&& forall|i: int| 0 <= i < h.0.len() ==> token_char(#[trigger] h.0[i]) && !(65 <= (
                h.0[i] as u32) <= 90)
            &&& valid_header_value(h.1)
            &&& (h.1.len() > 0 ==> !crate::text::white_space(h.1[0]) && !crate::text::white_space(
                h.1.last(),
            ))
        }),
{
    let halves = split_at_colon(raw)->0;
    let n = trimmed(halves.0);
    let name = header_name_of(n)->0;
    assert forall|i: int| 0 <= i < name.len() implies token_char(#[trigger] name[i]) && !(65 <= (
        name[i] as u32) <= 90) by {
        assert(token_char(n[i]));
        let c = n[i];
        if 65 <= (c as u32) <= 90 {
            vstd::utf8::char_u32_cast(ascii_lower(c), ((c as u32) + 32) as u32);
        }
    }
    crate::text::lemma_trimmed_ends(halves.1);
}

/// Each custom header of a policy is the parse of the text given at the same
/// position: none is dropped, added or reordered.
pub proof fn lemma_parse_all_pointwise(raws: Seq<Seq<char>>)
    requires
        parse_all(raws) is Ok,
    ensures
        parse_all(raws)->Ok_0.len() == raws.len(),
        forall|i: int| 0 <= i < raws.len() ==> spec_parse_header(#[trigger] raws[i]) == Ok::<
            _,
            HeaderFault,
        >(parse_all(raws)->Ok_0[i]),
    decreases raws.len(),
{
    if raws.len() > 0 {
        lemma_parse_all_pointwise(raws.drop_last());
        let hs = parse_all(raws)->Ok_0;
        assert forall|i: int| 0 <= i < raws.len() implies spec_parse_header(#[trigger] raws[i])
            == Ok::<_, HeaderFault>(hs[i]) by {
            if i < raws.len() - 1 {
                assert(raws[i] == raws.drop_last()[i]);
            }
        }
    }
}

/// The cache header: `no-cache` exactly for a zero lifetime; otherwise a
/// public lifetime of that many seconds, marked immutable exactly when asked.
pub proof fn lemma_cache_header_shape(seconds: u64, immutable: bool)
    ensures
        seconds == 0 ==> spec_cache_header(seconds, immutable) == "no-cache"@,
        seconds > 0 ==> spec_cache_header(seconds, immutable).take("public, max-age="@.len() as int)
            == "public, max-age="@,
        seconds > 0 && immutable ==> spec_cache_header(seconds, immutable) == "public, max-age="@
            + decimal(seconds as nat) + ", immutable"@,
        seconds > 0 && !immutable ==> spec_cache_header(seconds, immutable) == "public, max-age="@
            + decimal(seconds as nat),
{
    if seconds > 0 {
        let s = spec_cache_header(seconds, immutable);
        assert(s.take("public, max-age="@.len() as int) =~= "public, max-age="@);
        if !immutable {
            assert(s =~= "public, max-age="@ + decimal(seconds as nat));
        }
    }
}

} // verus!
