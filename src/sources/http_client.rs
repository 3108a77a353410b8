use vstd::prelude::*;

verus! {

/// The request method a polling client uses.
#[derive(Clone, Copy, Debug, PartialEq, Eq, Structural)]
pub enum HttpMethod {
    Get,
    Post,
}

/// Why a header was refused.
#[derive(Clone, Copy, Debug, PartialEq, Eq, Structural)]
pub enum HeaderError {
    InvalidName,
    InvalidValue,
}

/// A character allowed in a header name: a letter, a digit, or one of
/// `` !#$%&'*+-.^_`|~ ``.
pub open spec fn header_name_char(c: char) -> bool {
    ||| 'a' <= c && c <= 'z'
    ||| 'A' <= c && c <= 'Z'
    ||| '0' <= c && c <= '9'
    ||| c == '!' || c == '#' || c == '$' || c == '%' || c == '&' || c == '\'' || c == '*'
    ||| c == '+' || c == '-' || c == '.' || c == '^' || c == '_' || c == '`' || c == '|'
    ||| c == '~'
}

/// An ASCII upper-case letter lowered; any other character unchanged.
pub open spec fn lower_char(c: char) -> char {
    if 'A' <= c && c <= 'Z' {
        ((c as u32) + 32) as char
    } else {
        c
    }
}

/// The normalised form of a header name: when it holds 1 to 65535 characters
/// allowed in a name, the name with its letters lowered; none otherwise.
pub open spec fn header_name_of(key: Seq<char>) -> Option<Seq<char>> {
    if 1 <= key.len() <= 65535 && forall|i: int| 0 <= i < key.len() ==> #[trigger] header_name_char(key[i]) {
        Option::Some(key.map_values(|c: char| lower_char(c)))
    } else {
        Option::None
    }
}

/// A header value may hold visible characters, spaces and tabs, but no other
/// control character.
pub open spec fn header_value_char_ok(c: char) -> bool {
    (c as u32 >= 32 && c as u32 != 127) || c == '\t'
}

pub open spec fn header_value_ok(value: Seq<char>) -> bool {
    forall|i: int| 0 <= i < value.len() ==> #[trigger] header_value_char_ok(value[i])
}

/// Relies on `reqwest::header::HeaderName::from_bytes`, which accepts 1 to
/// 65535 bytes that its character table maps to a non-zero byte (exactly the
/// characters of `header_name_char`; every non-ASCII byte maps to zero) and
/// normalises through that table, which lowers ASCII letters; and on `as_str`
/// for the normalised text.
#[verifier::external_body]
fn parse_header_name(key: &str) -> (r: Option<String>)
    ensures
        match r {
            Option::Some(n) => header_name_of(key@) == Option::Some(n@),
            Option::None => header_name_of(key@) is None,
        },
{
    match reqwest::header::HeaderName::from_bytes(key.as_bytes()) {
        Ok(name) => Option::Some(name.as_str().to_owned()),
        Err(_) => Option::None,
    }
}

/// Relies on `reqwest::header::HeaderValue::from_str`, which accepts a value
/// exactly when each of its bytes is a tab or at least 32 and not 127; every
/// byte of a non-ASCII character is at least 128.
#[verifier::external_body]
fn is_valid_header_value(value: &str) -> (r: bool)
    ensures
        r == header_value_ok(value@),
{
    reqwest::header::HeaderValue::from_str(value).is_ok()
}

/// The headers as pairs of text.
pub open spec fn header_view(hs: Seq<(String, String)>) -> Seq<(Seq<char>, Seq<char>)> {
    hs.map_values(|p: (String, String)| (p.0@, p.1@))
}

/// The position of the last header named `name`, or -1.
pub open spec fn header_index(hs: Seq<(Seq<char>, Seq<char>)>, name: Seq<char>) -> int
    decreases hs.len(),
{
    if hs.len() == 0 {
        -1
    } else if hs.last().0 == name {
        hs.len() - 1
    } else {
        header_index(hs.drop_last(), name)
    }
}

/// Sets header `name` to `value`: an existing entry of that name is replaced
/// in place, otherwise the header is appended.
pub open spec fn set_header(hs: Seq<(Seq<char>, Seq<char>)>, name: Seq<char>, value: Seq<char>) -> Seq<
    (Seq<char>, Seq<char>),
> {
    let i = header_index(hs, name);
    if i >= 0 {
        hs.update(i, (name, value))
    } else {
        hs.push((name, value))
    }
}

/// The headers after adding `key: value`, or why the pair is refused; the name
/// is checked before the value.
pub open spec fn add_header(hs: Seq<(Seq<char>, Seq<char>)>, key: Seq<char>, value: Seq<char>) -> Result<
    Seq<(Seq<char>, Seq<char>)>,
    HeaderError,
> {
    match header_name_of(key) {
        Option::None => Result::Err(HeaderError::InvalidName),
        Option::Some(name) => if header_value_ok(value) {
            Result::Ok(set_header(hs, name, value))
        } else {
            Result::Err(HeaderError::InvalidValue)
        },
    }
}

/// The headers after adding every pair of `entries` in order, or the first refusal.
pub open spec fn add_headers(hs: Seq<(Seq<char>, Seq<char>)>, entries: Seq<(Seq<char>, Seq<char>)>) -> Result<
    Seq<(Seq<char>, Seq<char>)>,
    HeaderError,
>
    decreases entries.len(),
{
    if entries.len() == 0 {
        Result::Ok(hs)
    } else {
        match add_headers(hs, entries.drop_last()) {
            Result::Err(e) => Result::Err(e),
            Result::Ok(h) => add_header(h, entries.last().0, entries.last().1),
        }
    }
}

/// What a polling client requests, and how often.
#[derive(Clone, Debug)]
pub struct PollingHttpClientConfig {
    pub url: String,
    pub period_ms: u64,
    pub headers: Vec<(String, String)>,
    pub method: HttpMethod,
    pub body: Option<String>,
}

impl PollingHttpClientConfig {
    /// A `GET` of `url` every `period_ms` milliseconds, with no headers and no body.
    pub fn new(url: &str, period_ms: u64) -> (r: PollingHttpClientConfig)
        ensures
            r.url@ == url@,
            r.period_ms == period_ms,
            r.headers@ == Seq::<(String, String)>::empty(),
            r.method == HttpMethod::Get,
            r.body is None,
    {
        PollingHttpClientConfig {
            url: url.to_owned(),
            period_ms,
            headers: Vec::new(),
            method: HttpMethod::Get,
            body: Option::None,
        }
    }

    /// Adds the header `key: value`, replacing a header of the same name.
    pub fn with_header(self, key: &str, value: &str) -> (r: Result<
        PollingHttpClientConfig,
        HeaderError,
    >)
        ensures
            match add_header(header_view(self.headers@), key@, value@) {
                Result::Ok(hs) => r matches Result::Ok(c) && header_view(c.headers@) == hs && c.url
                    == self.url && c.period_ms == self.period_ms && c.method == self.method
                    && c.body == self.body,
                Result::Err(e) => r == Result::<PollingHttpClientConfig, HeaderError>::Err(e),
            },
    {
        let name = match parse_header_name(key) {
            Option::Some(n) => n,
            Option::None => {
                return Result::Err(HeaderError::InvalidName);
            },
        };
        if !is_valid_header_value(value) {
            return Result::Err(HeaderError::InvalidValue);
        }
        let mut config = self;
        set_header_in(&mut config.headers, name, value.to_owned());
        Result::Ok(config)
    }

    /// Adds each header of `headers` in order, stopping at the first refusal.
    pub fn with_headers(self, headers: Vec<(String, String)>) -> (r: Result<
        PollingHttpClientConfig,
        HeaderError,
    >)
        ensures
            match add_headers(header_view(self.headers@), header_view(headers@)) {
                Result::Ok(hs) => r matches Result::Ok(c) && header_view(c.headers@) == hs && c.url
                    == self.url && c.period_ms == self.period_ms && c.method == self.method
                    && c.body == self.body,
                Result::Err(e) => r == Result::<PollingHttpClientConfig, HeaderError>::Err(e),
            },
    {
        let ghost entries = header_view(headers@);
        let mut config = self;
        let mut i: usize = 0;
        while i < headers.len()
            invariant
                i <= headers@.len(),
                entries == header_view(headers@),
                add_headers(header_view(self.headers@), entries.take(i as int)) == Result::<
                    Seq<(Seq<char>, Seq<char>)>,
                    HeaderError,
                >::Ok(header_view(config.headers@)),
                config.url == self.url,
                config.period_ms == self.period_ms,
                config.method == self.method,
                config.body == self.body,
            decreases headers@.len() - i,
        {
            assert(entries.take(i + 1).drop_last() =~= entries.take(i as int));
            let (key, value) = &headers[i];
            match config.with_header(key.as_str(), value.as_str()) {
                Result::Ok(c) => {
                    config = c;
                },
                Result::Err(e) => {
                    assert(add_headers(header_view(self.headers@), entries) == Result::<
                        Seq<(Seq<char>, Seq<char>)>,
                        HeaderError,
                    >::Err(e)) by {
                        lemma_add_headers_stays_failed(
                            header_view(self.headers@),
                            entries,
                            i as int + 1,
                            e,
                        );
                    }
                    return Result::Err(e);
                },
            }
            i = i + 1;
        }
        assert(entries.take(i as int) =~= entries);
        Result::Ok(config)
    }

    /// Sets the request method.
    pub fn with_method(self, method: HttpMethod) -> (r: PollingHttpClientConfig)
        ensures
            r == (PollingHttpClientConfig { method, ..self }),
    {
        PollingHttpClientConfig { method, ..self }
    }

    /// Sets the request body.
    pub fn with_body(self, body: &str) -> (r: PollingHttpClientConfig)
        ensures
            r.url == self.url,
            r.period_ms == self.period_ms,
            r.headers == self.headers,
            r.method == self.method,
            r.body matches Option::Some(b) && b@ == body@,
    {
        PollingHttpClientConfig { body: Option::Some(body.to_owned()), ..self }
    }
}

/// Once adding a prefix of the entries failed, adding all of them fails alike.
proof fn lemma_add_headers_stays_failed(
    hs: Seq<(Seq<char>, Seq<char>)>,
    entries: Seq<(Seq<char>, Seq<char>)>,
    n: int,
    e: HeaderError,
)
    requires
        0 <= n <= entries.len(),
        add_headers(hs, entries.take(n)) == Result::<Seq<(Seq<char>, Seq<char>)>, HeaderError>::Err(
            e,
        ),
    ensures
        add_headers(hs, entries) == Result::<Seq<(Seq<char>, Seq<char>)>, HeaderError>::Err(e),
    decreases entries.len() - n,
{
    if n < entries.len() {
        assert(entries.take(n + 1).drop_last() =~= entries.take(n));
        lemma_add_headers_stays_failed(hs, entries, n + 1, e);
    } else {
        assert(entries.take(n) =~= entries);
    }
}

/// Sets header `name` to `value` in place.
fn set_header_in(headers: &mut Vec<(String, String)>, name: String, value: String)
    ensures
        header_view(final(headers)@) == set_header(header_view(old(headers)@), name@, value@),
{
    let ghost hv = header_view(headers@);
    let mut found: Option<usize> = Option::None;
    let mut i: usize = 0;
    while i < headers.len()
        invariant
            i <= headers@.len(),
            hv == header_view(headers@),
            match found {
                Option::Some(j) => j < i && header_index(hv.take(i as int), name@) == j as int,
                Option::None => header_index(hv.take(i as int), name@) == -1,
            },
        decreases headers@.len() - i,
    {
        assert(hv.take(i + 1).drop_last() =~= hv.take(i as int));
        if headers[i].0 == name {
            found = Option::Some(i);
        }
        i = i + 1;
    }
    assert(hv.take(i as int) =~= hv);
    match found {
        Option::Some(j) => {
            headers.set(j, (name, value));
            assert(header_view(headers@) =~= hv.update(j as int, (name@, value@)));
        },
        Option::None => {
            headers.push((name, value));
            assert(header_view(headers@) =~= hv.push((name@, value@)));
        },
    }
}

} // verus!
