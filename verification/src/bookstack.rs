//! What the wiki's API is asked and how its answers are read.

use crate::rate_limit;
use crate::text;
use crate::text::{
    chars_of, contains_chars, decimal_int_string, decimal_string, same_text, string_of,
    to_ascii_lower,
};
use vstd::prelude::*;
use vstd::slice::slice_subrange;
use vstd::string::StringExecFns;

verus! {

// --- Path parameters ---

/// A format in which content can be exported.
#[derive(Clone, Copy, Debug, PartialEq, Eq, Structural)]
pub enum ExportFormat {
    Markdown,
    Plaintext,
    Html,
}

impl ExportFormat {
    /// The name of the format in a path.
    pub open spec fn path_name(self) -> Seq<char> {
        match self {
            ExportFormat::Markdown => "markdown"@,
            ExportFormat::Plaintext => "plaintext"@,
            ExportFormat::Html => "html"@,
        }
    }

    /// The format with the given name.
    pub open spec fn named(s: Seq<char>) -> Option<ExportFormat> {
        if s == "markdown"@ {
            Some(ExportFormat::Markdown)
        } else if s == "plaintext"@ {
            Some(ExportFormat::Plaintext)
        } else if s == "html"@ {
            Some(ExportFormat::Html)
        } else {
            None
        }
    }

    /// Reads the name of a format.
    pub fn parse_str(s: &str) -> (r: Result<ExportFormat, String>)
        ensures
            match r {
                Ok(f) => ExportFormat::named(s@) == Some(f),
                Err(e) => ExportFormat::named(s@) is None && e@ == "Invalid export format: '"@ + s@
                    + "'. Must be one of: markdown, plaintext, html"@,
            },
    {
        if same_text(s, "markdown") {
            Ok(ExportFormat::Markdown)
        } else if same_text(s, "plaintext") {
            Ok(ExportFormat::Plaintext)
        } else if same_text(s, "html") {
            Ok(ExportFormat::Html)
        } else {
            let mut e = String::new();
            e.append("Invalid export format: '");
            e.append(s);
            e.append("'. Must be one of: markdown, plaintext, html");
            assert(e@ =~= "Invalid export format: '"@ + s@
                + "'. Must be one of: markdown, plaintext, html"@);
            Err(e)
        }
    }

    /// The name of the format in a path.
    pub fn as_str(&self) -> (r: &'static str)
        ensures
            r@ == self.path_name(),
    {
        match self {
            ExportFormat::Markdown => "markdown",
            ExportFormat::Plaintext => "plaintext",
            ExportFormat::Html => "html",
        }
    }
}

/// A type of content that has permissions.
#[derive(Clone, Copy, Debug, PartialEq, Eq, Structural)]
pub enum ContentType {
    Page,
    Chapter,
    Book,
    Shelf,
}

impl ContentType {
    /// The name of the type in a path.
    pub open spec fn path_name(self) -> Seq<char> {
        match self {
            ContentType::Page => "page"@,
            ContentType::Chapter => "chapter"@,
            ContentType::Book => "book"@,
            ContentType::Shelf => "shelf"@,
        }
    }

    /// The type with the given name.
    pub open spec fn named(s: Seq<char>) -> Option<ContentType> {
        if s == "page"@ {
            Some(ContentType::Page)
        } else if s == "chapter"@ {
            Some(ContentType::Chapter)
        } else if s == "book"@ {
            Some(ContentType::Book)
        } else if s == "shelf"@ {
            Some(ContentType::Shelf)
        } else {
            None
        }
    }

    /// Reads the name of a content type.
    pub fn parse_str(s: &str) -> (r: Result<ContentType, String>)
        ensures
            match r {
                Ok(t) => ContentType::named(s@) == Some(t),
                Err(e) => ContentType::named(s@) is None && e@ == "Invalid content type: '"@ + s@
                    + "'. Must be one of: page, chapter, book, shelf"@,
            },
    {
        if same_text(s, "page") {
            Ok(ContentType::Page)
        } else if same_text(s, "chapter") {
            Ok(ContentType::Chapter)
        } else if same_text(s, "book") {
            Ok(ContentType::Book)
        } else if same_text(s, "shelf") {
            Ok(ContentType::Shelf)
        } else {
            let mut e = String::new();
            e.append("Invalid content type: '");
            e.append(s);
            e.append("'. Must be one of: page, chapter, book, shelf");
            assert(e@ =~= "Invalid content type: '"@ + s@
                + "'. Must be one of: page, chapter, book, shelf"@);
            Err(e)
        }
    }

    /// The name of the type in a path.
    pub fn as_str(&self) -> (r: &'static str)
        ensures
            r@ == self.path_name(),
    {
        match self {
            ContentType::Page => "page",
            ContentType::Chapter => "chapter",
            ContentType::Book => "book",
            ContentType::Shelf => "shelf",
        }
    }
}

/// Formats and content types are read back from their names, and from no
/// others.
pub proof fn law_path_names_round_trip(format: ExportFormat, content: ContentType, s: Seq<char>)
    ensures
        ExportFormat::named(format.path_name()) == Some(format),
        ExportFormat::named(s) == Some(format) ==> s == format.path_name(),
        ContentType::named(content.path_name()) == Some(content),
        ContentType::named(s) == Some(content) ==> s == content.path_name(),
{
    reveal_strlit("markdown");
    reveal_strlit("plaintext");
    reveal_strlit("html");
    reveal_strlit("page");
    reveal_strlit("chapter");
    reveal_strlit("book");
    reveal_strlit("shelf");
    assert("markdown"@.len() != "plaintext"@.len());
    assert("markdown"@.len() != "html"@.len());
    assert("plaintext"@.len() != "html"@.len());
    assert("page"@[0] != "book"@[0]);
    assert("page"@.len() != "chapter"@.len());
    assert("page"@.len() != "shelf"@.len());
    assert("chapter"@.len() != "book"@.len());
    assert("chapter"@.len() != "shelf"@.len());
    assert("book"@.len() != "shelf"@.len());
}

/// The API path for an export: `{content}/{id}/export/{format}`.
pub fn export_path(content: &str, id: i64, format: ExportFormat) -> (r: String)
    ensures
        r@ == content@ + "/"@ + text::decimal_int(id as int) + "/export/"@ + format.path_name(),
{
    let number = decimal_int_string(id);
    let mut path = String::new();
    path.append(content);
    path.append("/");
    path.append(number.as_str());
    path.append("/export/");
    path.append(format.as_str());
    assert(path@ =~= content@ + "/"@ + text::decimal_int(id as int) + "/export/"@
        + format.path_name());
    path
}

/// The API path for the permissions of some content.
pub fn permissions_path(content: ContentType, id: i64) -> (r: String)
    ensures
        r@ == "content-permissions/"@ + content.path_name() + "/"@ + text::decimal_int(id as int),
{
    let number = decimal_int_string(id);
    let mut path = String::new();
    path.append("content-permissions/");
    path.append(content.as_str());
    path.append("/");
    path.append(number.as_str());
    assert(path@ =~= "content-permissions/"@ + content.path_name() + "/"@ + text::decimal_int(
        id as int,
    ));
    path
}

// --- The account ---

/// `s` without the slashes at its end.
pub open spec fn without_slashes(s: Seq<char>) -> Seq<char>
    decreases s.len(),
{
    if s.len() > 0 && s.last() == '/' {
        without_slashes(s.drop_last())
    } else {
        s
    }
}

/// Drops the slashes at the end of a base address.
pub fn trim_base_url(s: &str) -> (r: String)
    ensures
        r@ == without_slashes(s@),
{
    let chars = chars_of(s);
    let mut n: usize = chars.len();
    assert(chars@.take(n as int) =~= s@);
    while n > 0 && chars[n - 1] == '/'
        invariant
            n <= chars@.len(),
            without_slashes(s@) == without_slashes(chars@.take(n as int)),
        decreases n,
    {
        assert(chars@.take(n as int).drop_last() =~= chars@.take(n - 1));
        n -= 1;
    }
    assert(chars@.subrange(0, n as int) =~= chars@.take(n as int));
    string_of(slice_subrange(chars.as_slice(), 0, n))
}

/// The address of a wiki with the API token that is used there.
pub struct BookStackClient {
    base_url: String,
    token_id: String,
    token_secret: String,
}

impl BookStackClient {
    /// The base address.
    pub closed spec fn base(self) -> Seq<char> {
        self.base_url@
    }

    /// The token's id.
    pub closed spec fn id(self) -> Seq<char> {
        self.token_id@
    }

    /// The token's secret.
    pub closed spec fn secret(self) -> Seq<char> {
        self.token_secret@
    }

    /// Takes an address, without the slashes at its end, and a token.
    pub fn new(base_url: &str, token_id: &str, token_secret: &str) -> (r: Self)
        ensures
            r.base() == without_slashes(base_url@),
            r.id() == token_id@,
            r.secret() == token_secret@,
    {
        BookStackClient {
            base_url: trim_base_url(base_url),
            token_id: token_id.to_owned(),
            token_secret: token_secret.to_owned(),
        }
    }

    /// The base address.
    pub fn base_url(&self) -> (r: &str)
        ensures
            r@ == self.base(),
    {
        self.base_url.as_str()
    }

    /// The token's id, which is no secret.
    pub fn token_id(&self) -> (r: &str)
        ensures
            r@ == self.id(),
    {
        self.token_id.as_str()
    }

    /// The value of the `Authorization` header.
    pub fn auth_header(&self) -> (r: String)
        ensures
            r@ == "Token "@ + self.id() + ":"@ + self.secret(),
    {
        let mut h = String::new();
        h.append("Token ");
        h.append(self.token_id.as_str());
        h.append(":");
        h.append(self.token_secret.as_str());
        assert(h@ =~= "Token "@ + self.id() + ":"@ + self.secret());
        h
    }

    /// The address of an API path: `{base}/api/{path}`.
    pub fn api_url(&self, path: &str) -> (r: String)
        ensures
            r@ == self.base() + "/api/"@ + path@,
    {
        let mut u = String::new();
        u.append(self.base_url.as_str());
        u.append("/api/");
        u.append(path);
        assert(u@ =~= self.base() + "/api/"@ + path@);
        u
    }

    /// Overwrites the token in memory and leaves it empty.
    pub fn wipe(&mut self)
        ensures
            final(self).base() == old(self).base(),
            final(self).id().len() == 0,
            final(self).secret().len() == 0,
    {
        zeroize_string(&mut self.token_id);
        zeroize_string(&mut self.token_secret);
    }
}

/// `zeroize`'s `Zeroize` for `String`: the bytes are overwritten with zeros and
/// the string is left empty. That the memory is overwritten is not stated.
#[verifier::external_body]
fn zeroize_string(s: &mut String)
    ensures
        final(s)@.len() == 0,
{
    zeroize::Zeroize::zeroize(s);
}

// --- Status codes ---

/// The reason phrase of a status code.
pub uninterp spec fn reason_phrase(code: u16) -> Option<Seq<char>>;

/// `http`'s `StatusCode::canonical_reason`: the standard reason phrase of a
/// status code, and `None` for a code without one or out of range.
#[verifier::external_body]
fn canonical_reason(code: u16) -> (r: Option<&'static str>)
    ensures
        match r {
            Some(s) => reason_phrase(code) == Some(s@),
            None => reason_phrase(code) is None,
        },
{
    reqwest::StatusCode::from_u16(code).ok().and_then(|s| s.canonical_reason())
}

/// A status code with its reason phrase.
pub open spec fn status_line(code: u16) -> Seq<char> {
    status_line_with(code, reason_phrase(code))
}

/// A status code with the given reason phrase.
pub open spec fn status_line_with(code: u16, reason: Option<Seq<char>>) -> Seq<char> {
    text::decimal(code as nat) + " "@ + match reason {
        Some(s) => s,
        None => "<unknown status code>"@,
    }
}

/// A status code as it is shown, from its reason phrase.
pub fn show_status_with(code: u16, reason: Option<&str>) -> (r: String)
    ensures
        r@ == status_line_with(
            code,
            match reason {
                Some(s) => Some(s@),
                None => None,
            },
        ),
{
    let mut line = decimal_string(code as u64);
    line.append(" ");
    match reason {
        Some(s) => line.append(s),
        None => line.append("<unknown status code>"),
    }
    line
}

/// A status code as it is shown: the number and the reason phrase.
pub fn show_status(code: u16) -> (r: String)
    ensures
        r@ == status_line(code),
{
    show_status_with(code, canonical_reason(code))
}

/// The status code stands for success.
pub open spec fn is_success(code: u16) -> bool {
    200 <= code <= 299
}

/// The error for a request that the wiki answered with a failure.
pub fn api_error(status: u16) -> (r: String)
    ensures
        r@ == "BookStack API error: "@ + status_line(status),
{
    let line = show_status(status);
    let mut e = String::new();
    e.append("BookStack API error: ");
    e.append(line.as_str());
    assert(e@ =~= "BookStack API error: "@ + status_line(status));
    e
}

// --- Credentials ---

/// Who the token belongs to.
#[derive(Clone, Debug)]
pub struct UserIdentity {
    pub bookstack_user_id: i64,
    pub email: Option<String>,
    pub name: String,
}

/// The outcome of a credential check. Only `Rejected` says anything of the
/// credentials.
#[derive(Clone, Debug)]
pub enum CredentialCheck {
    /// The wiki accepted the credentials.
    Valid,
    /// The wiki answered that the credentials are bad.
    Rejected(String),
    /// The wiki could not be reached or could not answer.
    Unavailable(String),
}

impl CredentialCheck {
    /// Classifies a failure. Only 401 and 403 reject the credentials; any other
    /// status means that there was no usable answer.
    pub fn from_error_status(status: u16) -> (r: CredentialCheck)
        ensures
            match r {
                CredentialCheck::Valid => false,
                CredentialCheck::Rejected(e) => (status == 401 || status == 403) && e@
                    == "BookStack rejected the credentials: "@ + status_line(status),
                CredentialCheck::Unavailable(e) => status != 401 && status != 403 && e@
                    == "BookStack API error: "@ + status_line(status),
            },
    {
        if status == 401 || status == 403 {
            let line = show_status(status);
            let mut e = String::new();
            e.append("BookStack rejected the credentials: ");
            e.append(line.as_str());
            assert(e@ =~= "BookStack rejected the credentials: "@ + status_line(status));
            CredentialCheck::Rejected(e)
        } else {
            CredentialCheck::Unavailable(api_error(status))
        }
    }

    /// The outcome of a check by the wiki's answer: its status, and whether the
    /// body was JSON. A success with any other body comes from something in
    /// front of the wiki and says nothing of the credentials.
    pub fn from_response(status: u16, body_is_json: bool) -> (r: CredentialCheck)
        ensures
            match r {
                CredentialCheck::Valid => is_success(status) && body_is_json,
                CredentialCheck::Rejected(e) => (status == 401 || status == 403) && e@
                    == "BookStack rejected the credentials: "@ + status_line(status),
                CredentialCheck::Unavailable(e) => status != 401 && status != 403 && (if is_success(
                    status,
                ) {
                    !body_is_json && e@
                        == "BookStack returned a non-JSON response \u{2014} check for a proxy or auth portal in front of the API"@
                } else {
                    e@ == "BookStack API error: "@ + status_line(status)
                }),
            },
    {
        if 200 <= status && status <= 299 {
            if body_is_json {
                CredentialCheck::Valid
            } else {
                CredentialCheck::Unavailable(
                    "BookStack returned a non-JSON response \u{2014} check for a proxy or auth portal in front of the API".to_owned(),
                )
            }
        } else {
            CredentialCheck::from_error_status(status)
        }
    }
}

/// A request that failed for want of permission: the error names the status or
/// the word, in whatever case.
pub open spec fn is_forbidden(error: Seq<char>) -> bool {
    text::contains(error, "403"@) || text::contains(text::ascii_lowered(error), "forbidden"@)
}

/// Tells from the outcome of listing users whether the token is an
/// administrator's: a refusal means no, any other failure is passed on.
pub fn admin_from_listing(error: Option<&str>) -> (r: Result<bool, String>)
    ensures
        match (error, r) {
            (None, Ok(b)) => b,
            (Some(e), Ok(b)) => !b && is_forbidden(e@),
            (Some(e), Err(out)) => !is_forbidden(e@) && out@ == e@,
            (None, Err(_)) => false,
        },
{
    match error {
        None => Ok(true),
        Some(e) => {
            let chars = chars_of(e);
            let lower = to_ascii_lower(chars.as_slice());
            let code = chars_of("403");
            let word = chars_of("forbidden");
            if contains_chars(chars.as_slice(), code.as_slice()) || contains_chars(
                lower.as_slice(),
                word.as_slice(),
            ) {
                Ok(false)
            } else {
                Err(e.to_owned())
            }
        },
    }
}

// --- Response limits ---

/// Largest response that is read, in bytes.
pub const MAX_RESPONSE_SIZE: usize = 52428800;

/// Largest error body that is read, in bytes.
pub const MAX_ERROR_BODY_SIZE: usize = 4096;

/// Largest file that is fetched from an address, in bytes.
pub const MAX_FILE_CONTENT_SIZE: usize = 52428800;

/// Rejects a response that is longer than `limit`. A length that is not known
/// passes.
pub fn check_content_length(len: Option<u64>, limit: usize) -> (r: Result<(), String>)
    ensures
        match r {
            Ok(_) => len matches Some(n) ==> n <= limit,
            Err(e) => len matches Some(n) && n > limit && e@ == "Response too large: "@
                + text::decimal(n as nat) + " bytes"@,
        },
{
    match len {
        Some(n) => if n > limit as u64 {
            let number = decimal_string(n);
            let mut e = String::new();
            e.append("Response too large: ");
            e.append(number.as_str());
            e.append(" bytes");
            assert(e@ =~= "Response too large: "@ + text::decimal(n as nat) + " bytes"@);
            Err(e)
        } else {
            Ok(())
        },
        None => Ok(()),
    }
}

/// The smaller of two numbers.
pub open spec fn min(a: int, b: int) -> int {
    if a <= b {
        a
    } else {
        b
    }
}

/// Takes one chunk of an error body in, up to the limit, and tells whether more
/// is wanted.
pub fn take_error_chunk(buf: &mut Vec<u8>, chunk: &[u8]) -> (more: bool)
    requires
        old(buf)@.len() <= MAX_ERROR_BODY_SIZE,
    ensures
        final(buf)@ == old(buf)@ + chunk@.take(
            min(chunk@.len() as int, MAX_ERROR_BODY_SIZE - old(buf)@.len()),
        ),
        final(buf)@.len() <= MAX_ERROR_BODY_SIZE,
        more == (final(buf)@.len() < MAX_ERROR_BODY_SIZE),
{
    let remaining: usize = MAX_ERROR_BODY_SIZE - buf.len();
    let n: usize = if chunk.len() < remaining {
        chunk.len()
    } else {
        remaining
    };
    let ghost start = buf@;
    let mut i: usize = 0;
    assert(start + chunk@.take(0) =~= start);
    while i < n
        invariant
            i <= n <= chunk@.len(),
            start.len() + n <= MAX_ERROR_BODY_SIZE,
            buf@ == start + chunk@.take(i as int),
        decreases n - i,
    {
        assert(start + chunk@.take(i + 1) =~= (start + chunk@.take(i as int)).push(
            chunk@[i as int],
        ));
        buf.push(chunk[i]);
        i += 1;
    }
    buf.len() < MAX_ERROR_BODY_SIZE
}

// --- Retries ---

/// How often a request is sent before a refusal for load is passed on.
pub const RETRY_429_MAX_ATTEMPTS: u32 = 4;

/// What happens after a response.
pub enum RetryStep {
    /// Hand the response to the caller.
    Deliver,
    /// Wait for the given time, then send the request again.
    Wait { secs: u64, millis: u64 },
    /// Give up with an error.
    GiveUp(String),
}

/// The waiting time without a header, in milliseconds: half a second, doubled
/// with each attempt.
pub open spec fn backoff_millis(attempt: nat) -> nat
    decreases attempt,
{
    if attempt == 0 {
        500
    } else {
        2 * backoff_millis((attempt - 1) as nat)
    }
}

/// Decides what follows the response to the attempt with the given number,
/// counted from zero. Only a status of 429 is retried: after the time that the
/// `Retry-After` header states, or else the backoff, with the jitter added.
pub fn retry_step(
    attempt: u32,
    status: u16,
    retry_after: Option<&str>,
    jitter_millis: u64,
) -> (r: RetryStep)
    requires
        attempt < RETRY_429_MAX_ATTEMPTS,
        jitter_millis < 500,
    ensures
        match r {
            RetryStep::Deliver => status != 429,
            RetryStep::GiveUp(e) => status == 429 && attempt + 1 == RETRY_429_MAX_ATTEMPTS && e@
                == "BookStack API error: "@ + status_line(status),
            RetryStep::Wait { secs, millis } => status == 429 && attempt + 1
                < RETRY_429_MAX_ATTEMPTS && match rate_limit::header_seconds(
                match retry_after {
                    Some(v) => Some(v@),
                    None => None,
                },
            ) {
                Some(n) => secs == n && millis == jitter_millis,
                None => secs == 0 && millis == backoff_millis(attempt as nat) + jitter_millis,
            },
        },
{
    if status != 429 {
        return RetryStep::Deliver;
    }
    if attempt + 1 == RETRY_429_MAX_ATTEMPTS {
        return RetryStep::GiveUp(api_error(status));
    }
    if let Some(value) = retry_after {
        if let Some(secs) = rate_limit::retry_after_seconds(value) {
            return RetryStep::Wait { secs, millis: jitter_millis };
        }
    }
    let base: u64 = if attempt == 0 {
        500
    } else if attempt == 1 {
        1000
    } else {
        2000
    };
    proof {
        reveal_with_fuel(backoff_millis, 4);
    }
    RetryStep::Wait { secs: 0, millis: base + jitter_millis }
}

// --- Files by path or address ---

/// An IP address.
#[derive(Clone, Copy, Debug, PartialEq, Eq)]
pub enum IpAddress {
    /// The four bytes, first byte first.
    V4([u8; 4]),
    /// The eight 16-bit groups, first group first.
    V6([u16; 8]),
}

/// The first seven groups are zero.
pub open spec fn seven_zero_groups(g: Seq<u16>) -> bool {
    forall|i: int| 0 <= i < 7 ==> g[i] == 0
}

/// The address is not public: loopback, private, link-local, broadcast,
/// unspecified or carrier-grade NAT; for IPv6 loopback, unspecified, link-local
/// or unique local.
pub open spec fn is_restricted(ip: IpAddress) -> bool {
    match ip {
        IpAddress::V4(o) => {
            ||| o@[0] == 127
            ||| o@[0] == 10
            ||| o@[0] == 172 && 16 <= o@[1] <= 31
            ||| o@[0] == 192 && o@[1] == 168
            ||| o@[0] == 169 && o@[1] == 254
            ||| o@[0] == 255 && o@[1] == 255 && o@[2] == 255 && o@[3] == 255
            ||| o@[0] == 0 && o@[1] == 0 && o@[2] == 0 && o@[3] == 0
            ||| o@[0] == 100 && 64 <= o@[1] <= 127
        },
        IpAddress::V6(g) => {
            ||| seven_zero_groups(g@) && g@[7] <= 1
            ||| 0xfe80 <= g@[0] <= 0xfebf
            ||| 0xfc00 <= g@[0] <= 0xfdff
        },
    }
}

/// Tells whether an address must not be fetched from.
pub fn is_restricted_ip(ip: &IpAddress) -> (r: bool)
    ensures
        r == is_restricted(*ip),
{
    match ip {
        IpAddress::V4(o) => {
            let a: u8 = o[0];
            let b: u8 = o[1];
            let c: u8 = o[2];
            let d: u8 = o[3];
            a == 127 || a == 10 || (a == 172 && 16 <= b && b <= 31) || (a == 192 && b == 168) || (a
                == 169 && b == 254) || (a == 255 && b == 255 && c == 255 && d == 255) || (a == 0
                && b == 0 && c == 0 && d == 0) || (a == 100 && 64 <= b && b <= 127)
        },
        IpAddress::V6(g) => {
            let first: u16 = g[0];
            let low = g[0] == 0 && g[1] == 0 && g[2] == 0 && g[3] == 0 && g[4] == 0 && g[5] == 0
                && g[6] == 0;
            assert(low == seven_zero_groups(g@)) by {
                if low {
                    assert forall|i: int| 0 <= i < 7 implies g@[i] == 0 by {
                        assert(i == 0 || i == 1 || i == 2 || i == 3 || i == 4 || i == 5 || i == 6);
                    }
                }
            }
            (low && g[7] <= 1) || (0xfe80 <= first && first <= 0xfebf) || (0xfc00 <= first && first
                <= 0xfdff)
        },
    }
}

/// Where a file comes from.
pub enum FileSource<'a> {
    Path(&'a str),
    Address(&'a str),
}

/// Picks the source of a file: exactly one of path and address must be given.
pub fn choose_source<'a>(file_path: Option<&'a str>, url: Option<&'a str>) -> (r: Result<
    FileSource<'a>,
    String,
>)
    ensures
        match (file_path, url) {
            (Some(p), None) => r matches Ok(FileSource::Path(q)) && q@ == p@,
            (None, Some(u)) => r matches Ok(FileSource::Address(v)) && v@ == u@,
            (Some(_), Some(_)) => r matches Err(e) && e@
                == "Provide either file_path or url, not both"@,
            (None, None) => r matches Err(e) && e@ == "Either file_path or url is required"@,
        },
{
    match (file_path, url) {
        (Some(p), None) => Ok(FileSource::Path(p)),
        (None, Some(u)) => Ok(FileSource::Address(u)),
        (Some(_), Some(_)) => Err("Provide either file_path or url, not both".to_owned()),
        (None, None) => Err("Either file_path or url is required".to_owned()),
    }
}

/// The name of a file by the last part of its path; `file` where it has none.
pub fn file_name_or_default(name: Option<&str>) -> (r: String)
    ensures
        r@ == match name {
            Some(n) => n@,
            None => "file"@,
        },
{
    match name {
        Some(n) => n.to_owned(),
        None => "file".to_owned(),
    }
}

/// The parts of an address that a fetch looks at.
pub struct UrlParts {
    pub scheme: String,
    pub host: Option<String>,
    /// The port that is written, or else the scheme's usual one.
    pub port: Option<u16>,
}

/// The parts of an address, in the model.
#[verifier::ext_equal]
pub struct UrlModel {
    pub scheme: Seq<char>,
    pub host: Option<Seq<char>>,
    pub port: Option<u16>,
}

impl UrlParts {
    /// The parts in the model.
    pub open spec fn model(self) -> UrlModel {
        UrlModel {
            scheme: self.scheme@,
            host: match self.host {
                Some(h) => Some(h@),
                None => None,
            },
            port: self.port,
        }
    }
}

/// The parts of an address, or the reason why it is none.
pub uninterp spec fn parsed_url(url: Seq<char>) -> Result<UrlModel, Seq<char>>;

/// A parse result in the model.
pub open spec fn url_result(r: Result<UrlParts, String>) -> Result<UrlModel, Seq<char>> {
    match r {
        Ok(p) => Ok(p.model()),
        Err(e) => Err(e@),
    }
}

/// `url`'s `Url::parse`: the scheme, host and port (or the scheme's usual port)
/// of an address, or the text of the parse error. The outcome depends on the
/// text alone.
#[verifier::external_body]
fn parse_url(url: &str) -> (r: Result<UrlParts, String>)
    ensures
        url_result(r) == parsed_url(url@),
{
    match url::Url::parse(url) {
        Ok(u) => Ok(
            UrlParts {
                scheme: u.scheme().to_string(),
                host: u.host_str().map(|h| h.to_string()),
                port: u.port_or_known_default(),
            },
        ),
        Err(e) => Err(e.to_string()),
    }
}

/// Where a fetch connects to.
pub struct FetchTarget {
    pub host: String,
    pub port: u16,
}

/// Where a fetch of `url` connects to, by the parts of the address; or why it
/// is refused.
pub open spec fn fetch_target(url: Seq<char>, parts: Result<UrlModel, Seq<char>>) -> Result<
    (Seq<char>, u16),
    Seq<char>,
> {
    match parts {
        Err(e) => Err("Invalid URL '"@ + url + "': "@ + e),
        Ok(p) => if p.scheme != "http"@ && p.scheme != "https"@ {
            Err(
                "URL scheme '"@ + p.scheme
                    + "' is not allowed; only http and https are permitted"@,
            )
        } else {
            match p.host {
                None => Err("URL '"@ + url + "' has no host"@),
                Some(h) => Ok(
                    (
                        h,
                        match p.port {
                            Some(n) => n,
                            None => 80,
                        },
                    ),
                ),
            }
        },
    }
}

/// A fetch target in the model.
pub open spec fn target_result(r: Result<FetchTarget, String>) -> Result<(Seq<char>, u16), Seq<char>> {
    match r {
        Ok(t) => Ok((t.host@, t.port)),
        Err(e) => Err(e@),
    }
}

/// Checks the parts of an address: only `http` and `https` with a host are
/// fetched.
pub fn plan_fetch_from(url: &str, parts: Result<UrlParts, String>) -> (r: Result<
    FetchTarget,
    String,
>)
    ensures
        target_result(r) == fetch_target(url@, url_result(parts)),
{
    match parts {
        Err(reason) => {
            let mut e = String::new();
            e.append("Invalid URL '");
            e.append(url);
            e.append("': ");
            e.append(reason.as_str());
            assert(e@ =~= "Invalid URL '"@ + url@ + "': "@ + reason@);
            Err(e)
        },
        Ok(p) => {
            let UrlParts { scheme, host, port } = p;
            if !same_text(scheme.as_str(), "http") && !same_text(scheme.as_str(), "https") {
                let mut e = String::new();
                e.append("URL scheme '");
                e.append(scheme.as_str());
                e.append("' is not allowed; only http and https are permitted");
                assert(e@ =~= "URL scheme '"@ + scheme@
                    + "' is not allowed; only http and https are permitted"@);
                return Err(e);
            }
            match host {
                None => {
                    let mut e = String::new();
                    e.append("URL '");
                    e.append(url);
                    e.append("' has no host");
                    assert(e@ =~= "URL '"@ + url@ + "' has no host"@);
                    Err(e)
                },
                Some(host) => Ok(
                    FetchTarget {
                        host,
                        port: match port {
                            Some(n) => n,
                            None => 80,
                        },
                    },
                ),
            }
        },
    }
}

/// Checks an address and tells where a fetch connects to.
pub fn plan_fetch(url: &str) -> (r: Result<FetchTarget, String>)
    ensures
        target_result(r) == fetch_target(url@, parsed_url(url@)),
{
    plan_fetch_from(url, parse_url(url))
}

/// An address that a host name resolved to, with the text that shows it.
pub struct ResolvedAddress {
    pub ip: IpAddress,
    pub shown: String,
}

/// The position of the first address that must not be fetched from.
pub open spec fn first_restricted(addrs: Seq<ResolvedAddress>, i: int) -> Option<int>
    decreases addrs.len() - i,
{
    if i < 0 || i >= addrs.len() {
        None
    } else if is_restricted(addrs[i].ip) {
        Some(i)
    } else {
        first_restricted(addrs, i + 1)
    }
}

/// Why a host must not be fetched from, by the addresses it resolved to.
pub open spec fn host_refusal(host: Seq<char>, addrs: Seq<ResolvedAddress>) -> Option<Seq<char>> {
    if addrs.len() == 0 {
        Some("Host '"@ + host + "' resolved to no addresses"@)
    } else {
        match first_restricted(addrs, 0) {
            Some(i) => Some(
                "URL host '"@ + host + "' resolves to restricted IP address "@ + addrs[i].shown@
                    + "; private, loopback, and link-local addresses are not allowed"@,
            ),
            None => None,
        }
    }
}

/// Checks the addresses that a host resolved to: there must be some, and each
/// must be public.
pub fn check_addresses(host: &str, addrs: &Vec<ResolvedAddress>) -> (r: Result<(), String>)
    ensures
        match r {
            Ok(_) => host_refusal(host@, addrs@) is None,
            Err(e) => host_refusal(host@, addrs@) == Some(e@),
        },
{
    if addrs.len() == 0 {
        let mut e = String::new();
        e.append("Host '");
        e.append(host);
        e.append("' resolved to no addresses");
        assert(e@ =~= "Host '"@ + host@ + "' resolved to no addresses"@);
        return Err(e);
    }
    let mut i: usize = 0;
    while i < addrs.len()
        invariant
            i <= addrs@.len(),
            addrs@.len() > 0,
            first_restricted(addrs@, 0) == first_restricted(addrs@, i as int),
        decreases addrs@.len() - i,
    {
        if is_restricted_ip(&addrs[i].ip) {
            let mut e = String::new();
            e.append("URL host '");
            e.append(host);
            e.append("' resolves to restricted IP address ");
            e.append(addrs[i].shown.as_str());
            e.append("; private, loopback, and link-local addresses are not allowed");
            assert(e@ =~= "URL host '"@ + host@ + "' resolves to restricted IP address "@
                + addrs@[i as int].shown@
                + "; private, loopback, and link-local addresses are not allowed"@);
            return Err(e);
        }
        i += 1;
    }
    Ok(())
}

/// A host passes exactly where it resolved to at least one address and every
/// one of them is public.
pub proof fn law_only_public_hosts_pass(host: Seq<char>, addrs: Seq<ResolvedAddress>)
    ensures
        host_refusal(host, addrs) is None <==> addrs.len() > 0 && forall|i: int|
            0 <= i < addrs.len() ==> !is_restricted((#[trigger] addrs[i]).ip),
{
    lemma_first_restricted(addrs, 0);
}

proof fn lemma_first_restricted(addrs: Seq<ResolvedAddress>, i: int)
    requires
        0 <= i,
    ensures
        first_restricted(addrs, i) is None <==> forall|j: int|
            i <= j < addrs.len() ==> !is_restricted((#[trigger] addrs[j]).ip),
    decreases addrs.len() - i,
{
    if i < addrs.len() {
        lemma_first_restricted(addrs, i + 1);
        if !is_restricted(addrs[i].ip) && first_restricted(addrs, i + 1) is None {
            assert forall|j: int| i <= j < addrs.len() implies !is_restricted(
                (#[trigger] addrs[j]).ip,
            ) by {
                if j > i {
                    assert(i + 1 <= j < addrs.len());
                }
            }
        }
    }
}

/// Checks the size of a fetched file.
pub fn check_remote_size(len: u64) -> (r: Result<(), String>)
    ensures
        match r {
            Ok(_) => len <= MAX_FILE_CONTENT_SIZE,
            Err(e) => len > MAX_FILE_CONTENT_SIZE && e@ == "Remote file too large: "@
                + text::decimal(len as nat) + " bytes (limit "@ + text::decimal(52428800)
                + ")"@,
        },
{
    if len <= MAX_FILE_CONTENT_SIZE as u64 {
        return Ok(());
    }
    let size = decimal_string(len);
    let limit = decimal_string(52428800);
    let mut e = String::new();
    e.append("Remote file too large: ");
    e.append(size.as_str());
    e.append(" bytes (limit ");
    e.append(limit.as_str());
    e.append(")");
    assert(e@ =~= "Remote file too large: "@ + text::decimal(len as nat) + " bytes (limit "@
        + text::decimal(52428800) + ")"@);
    Err(e)
}

/// Checks the status of a fetch.
pub fn check_fetch_status(status: u16) -> (r: Result<(), String>)
    ensures
        match r {
            Ok(_) => is_success(status),
            Err(e) => !is_success(status) && e@ == "URL returned status "@ + status_line(status),
        },
{
    if 200 <= status && status <= 299 {
        return Ok(());
    }
    let line = show_status(status);
    let mut e = String::new();
    e.append("URL returned status ");
    e.append(line.as_str());
    assert(e@ =~= "URL returned status "@ + status_line(status));
    Err(e)
}

/// Where the last part of an address begins: behind its last slash before `n`.
pub open spec fn after_last_slash(s: Seq<char>, n: int) -> int
    decreases n,
{
    if n <= 0 {
        0
    } else if s[n - 1] == '/' {
        n
    } else {
        after_last_slash(s, n - 1)
    }
}

/// Where the query begins, from position `i` on; the end where there is none.
pub open spec fn query_start(s: Seq<char>, i: int) -> int
    decreases s.len() - i,
{
    if i >= s.len() || s[i] == '?' {
        i
    } else {
        query_start(s, i + 1)
    }
}

/// The name of a file by its address: the last part of the path without the
/// query, or `download`.
pub open spec fn name_in_url(url: Seq<char>) -> Seq<char> {
    let start = after_last_slash(url, url.len() as int);
    let name = url.subrange(start, query_start(url, start));
    if name.len() > 0 {
        name
    } else {
        "download"@
    }
}

/// Names a fetched file by its address.
pub fn download_name(url: &str) -> (r: String)
    ensures
        r@ == name_in_url(url@),
{
    let chars = chars_of(url);
    let total: usize = chars.len();
    let mut start: usize = total;
    while start > 0 && chars[start - 1] != '/'
        invariant
            start <= total == chars@.len(),
            after_last_slash(chars@, total as int) == after_last_slash(chars@, start as int),
        decreases start,
    {
        start -= 1;
    }
    let mut end: usize = start;
    while end < total && chars[end] != '?'
        invariant
            start <= end <= total == chars@.len(),
            query_start(chars@, start as int) == query_start(chars@, end as int),
        decreases total - end,
    {
        end += 1;
    }
    if end > start {
        string_of(slice_subrange(chars.as_slice(), start, end))
    } else {
        "download".to_owned()
    }
}

} // verus!
