use vstd::prelude::*;
use crate::text::{after_last, chars_after_last, chars_of, contains, contains_text, decimal, decimal_string, parse_u64, parse_u64_text, remove_all, remove_all_text, string_from_chars};

verus! {

broadcast use vstd::string::group_string_axioms;

/// What resolving an address found: where it finally leads, how large the
/// file is, and whether the server honours byte ranges.
#[derive(Debug)]
pub struct ResolveResp {
    pub final_url: String,
    pub file_size: u64,
    pub support_range: bool,
}

/// A request to resolve an address.
#[derive(Debug)]
pub struct ResolveReq {
    pub url: String,
}

/// HTTP status `206 Partial Content`.
pub const STATUS_PARTIAL_CONTENT: u16 = 206;

/// HTTP status `200 OK`.
pub const STATUS_OK: u16 = 200;

/// After the `HEAD` request: a successful answer with a positive length is
/// checked for range support next (the length is returned); otherwise the
/// ranged `GET` is tried.
pub fn after_head(success: bool, content_length: Option<u64>) -> (r: Option<u64>)
    ensures
        r == match content_length {
            Some(n) if success && n > 0 => Some(n),
            _ => None::<u64>,
        },
{
    if success {
        match content_length {
            Some(n) => if n > 0 { Some(n) } else { None },
            None => None,
        }
    } else {
        None
    }
}

/// After probing with `Range: bytes=0-0`: ranges are supported when the probe
/// answered `206`; a failed probe (`None`) means they are not.
pub fn after_range_probe(probe_status: Option<u16>, final_url: String, file_size: u64) -> (r: ResolveResp)
    ensures
        r.final_url == final_url,
        r.file_size == file_size,
        r.support_range == (probe_status == Some(STATUS_PARTIAL_CONTENT)),
{
    let support_range = match probe_status {
        Some(s) => s == STATUS_PARTIAL_CONTENT,
        None => false,
    };
    ResolveResp { final_url, file_size, support_range }
}

/// The total size a `Content-Range` header announces: the number after its
/// last `/`.
pub open spec fn content_range_total(header: Seq<char>) -> Option<u64> {
    parse_u64_text(after_last(header, '/'))
}

/// The total size a `Content-Range` header announces, if it parses.
pub fn parse_content_range_total(header: &str) -> (r: Option<u64>)
    ensures
        r == content_range_total(header@),
{
    let v = chars_of(header);
    let tail = string_from_chars(&chars_after_last(&v, '/'));
    parse_u64(tail.as_str())
}

/// After the ranged `GET`: a `206` answer gives the size announced by its
/// `Content-Range` (ranges supported); a `200` answer with a positive length
/// gives that length (ranges not supported); otherwise a plain `GET` is
/// tried.
pub fn after_ranged_get(status: u16, content_range: &str, content_length: Option<u64>, final_url: String) -> (r: Option<ResolveResp>)
    ensures
        status == STATUS_PARTIAL_CONTENT ==> match content_range_total(content_range@) {
            Some(total) => r matches Some(x) && x.final_url == final_url && x.file_size == total && x.support_range,
            None => r is None,
        },
        status == STATUS_OK ==> match content_length {
            Some(n) if n > 0 => r matches Some(x) && x.final_url == final_url && x.file_size == n && !x.support_range,
            _ => r is None,
        },
        status != STATUS_PARTIAL_CONTENT && status != STATUS_OK ==> r is None,
{
    if status == STATUS_PARTIAL_CONTENT {
        match parse_content_range_total(content_range) {
            Some(total) => Some(ResolveResp { final_url, file_size: total, support_range: true }),
            None => None,
        }
    } else if status == STATUS_OK {
        match content_length {
            Some(n) => if n > 0 { Some(ResolveResp { final_url, file_size: n, support_range: false }) } else { None },
            None => None,
        }
    } else {
        None
    }
}

/// After the plain `GET`: a successful answer with a positive length gives
/// that length (ranges not supported); anything else fails the resolution.
pub fn after_plain_get(success: bool, content_length: Option<u64>, final_url: String) -> (r: Option<ResolveResp>)
    ensures
        match content_length {
            Some(n) if success && n > 0 => r matches Some(x) && x.final_url == final_url && x.file_size == n && !x.support_range,
            _ => r is None,
        },
{
    if success {
        match content_length {
            Some(n) => if n > 0 { Some(ResolveResp { final_url, file_size: n, support_range: false }) } else { None },
            None => None,
        }
    } else {
        None
    }
}

/// Retry delays never exceed this many milliseconds.
pub const MAX_BACKOFF_MS: u64 = 30000;

/// The delay before retry number `retry_count`: the base delay doubled for
/// each retry, at most thirty seconds; nothing when `base * 2^retry_count`
/// does not fit in a `u64`.
pub fn backoff_delay_ms(retry_count: u32, base_delay_ms: u64) -> (r: Option<u64>)
    ensures
        retry_count < 64 && base_delay_ms * vstd::arithmetic::power2::pow2(retry_count as nat) <= u64::MAX ==> r == Some(
            if base_delay_ms * vstd::arithmetic::power2::pow2(retry_count as nat) < MAX_BACKOFF_MS {
                (base_delay_ms * vstd::arithmetic::power2::pow2(retry_count as nat)) as u64
            } else {
                MAX_BACKOFF_MS
            },
        ),
        !(retry_count < 64 && base_delay_ms * vstd::arithmetic::power2::pow2(retry_count as nat) <= u64::MAX) ==> r is None,
{
    if retry_count >= 64 {
        return None;
    }
    let mut factor: u64 = 1;
    let mut k: u32 = 0;
    proof {
        vstd::arithmetic::power2::lemma2_to64();
    }
    while k < retry_count
        invariant
            k <= retry_count < 64,
            factor == vstd::arithmetic::power2::pow2(k as nat),
        decreases retry_count - k,
    {
        proof {
            vstd::arithmetic::power2::lemma_pow2_unfold((k + 1) as nat);
            vstd::arithmetic::power2::lemma_pow2_strictly_increases((k + 1) as nat, 64);
            vstd::arithmetic::power2::lemma2_to64();
        }
        factor = factor * 2;
        k = k + 1;
    }
    match base_delay_ms.checked_mul(factor) {
        Some(d) => Some(if d < MAX_BACKOFF_MS { d } else { MAX_BACKOFF_MS }),
        None => None,
    }
}

/// The text of a body worth logging as text: JSON, any `text/` type, or a
/// form.
pub open spec fn is_textual(content_type: Seq<char>) -> bool {
    contains_text(content_type, "application/json"@) || contains_text(content_type, "text/"@) || contains_text(
        content_type,
        "application/x-www-form-urlencoded"@,
    )
}

/// The bytes read as UTF-8, each malformed sequence replaced by U+FFFD, as
/// `String::from_utf8_lossy` does.
pub uninterp spec fn utf8_lossy(bytes: Seq<u8>) -> Seq<char>;

/// `String::from_utf8_lossy(bytes).into_owned()`.
#[verifier::external_body]
fn lossy_text(bytes: &[u8]) -> (s: String)
    ensures
        s@ == utf8_lossy(bytes@),
{
    String::from_utf8_lossy(bytes).into_owned()
}

/// How a request or response body appears in the logs.
pub open spec fn body_log_text(content_type: Seq<char>, bytes: Seq<u8>) -> Seq<char> {
    if bytes.len() == 0 {
        "<empty>"@
    } else if is_textual(content_type) {
        utf8_lossy(bytes)
    } else {
        "<binary data, size: "@ + decimal(bytes.len()) + " bytes>"@
    }
}

/// How a body of the given content type appears in the logs: `<empty>` when
/// there is none, the text itself for textual types, and its size otherwise.
pub fn describe_body(content_type: &str, bytes: &[u8]) -> (s: String)
    ensures
        s@ == body_log_text(content_type@, bytes@),
{
    if bytes.len() == 0 {
        return "<empty>".to_owned();
    }
    if contains(content_type, "application/json") || contains(content_type, "text/") || contains(
        content_type,
        "application/x-www-form-urlencoded",
    ) {
        return lossy_text(bytes);
    }
    let mut s = "<binary data, size: ".to_owned();
    s.append(decimal_string(bytes.len() as u64).as_str());
    s.append(" bytes>");
    s
}

/// Why a request carrying a bearer token was refused.
#[derive(Clone, Copy, Debug, PartialEq, Eq, Structural)]
pub enum AuthError {
    Missing,
    Invalid,
}

/// A request is let in when its authorization value is `Bearer ` followed by
/// the node's token.
pub fn check_bearer(header: Option<&str>, token: &str) -> (r: Result<(), AuthError>)
    ensures
        r == match header {
            None => Err::<(), AuthError>(AuthError::Missing),
            Some(h) => if h@ == "Bearer "@ + token@ { Ok::<(), AuthError>(()) } else { Err::<(), AuthError>(AuthError::Invalid) },
        },
{
    match header {
        None => Err(AuthError::Missing),
        Some(h) => {
            let mut expected = "Bearer ".to_owned();
            expected.append(token);
            if h.to_owned() == expected {
                Ok(())
            } else {
                Err(AuthError::Invalid)
            }
        },
    }
}

/// Whether an authorization value carries the owner's token: every
/// `Bearer ` in it is dropped and the rest must be the token.
pub fn is_owner_token(header: &str, token: &str) -> (b: bool)
    ensures
        b == (remove_all(header@, "Bearer "@) == token@),
{
    proof {
        reveal_strlit("Bearer ");
    }
    let stripped = remove_all_text(header, "Bearer ");
    stripped == token.to_owned()
}

/// The address of a gRPC endpoint: `http://` and the host, with trailing
/// slashes dropped when `trim` is set.
pub fn endpoint_url(addr: &str, trim: bool) -> (s: String)
    ensures
        s@ == "http://"@ + if trim { trim_trailing_slashes(addr@) } else { addr@ },
{
    let mut s = "http://".to_owned();
    if trim {
        let v = chars_of(addr);
        let mut n: usize = v.len();
        assert(addr@.take(v@.len() as int) =~= addr@);
        while n > 0 && v[n - 1] == '/'
            invariant
                v@ == addr@,
                n <= v@.len(),
                trim_trailing_slashes(addr@) == trim_trailing_slashes(addr@.take(n as int)),
            decreases n,
        {
            assert(addr@.take(n as int).drop_last() =~= addr@.take(n - 1));
            n = n - 1;
        }
        assert(addr@.take(v@.len() as int) =~= addr@);
        let mut kept: Vec<char> = Vec::new();
        let mut i: usize = 0;
        while i < n
            invariant
                v@ == addr@,
                n <= v@.len(),
                i <= n,
                kept@ == addr@.take(i as int),
            decreases n - i,
        {
            kept.push(v[i]);
            assert(kept@ =~= addr@.take(i + 1));
            i = i + 1;
        }
        proof {
            if n > 0 {
                assert(addr@.take(n as int).last() == addr@[n - 1]);
            }
            assert(trim_trailing_slashes(addr@.take(n as int)) == addr@.take(n as int));
        }
        s.append(string_from_chars(&kept).as_str());
    } else {
        s.append(addr);
    }
    s
}

/// The text without its trailing slashes (`trim_end_matches('/')`).
pub open spec fn trim_trailing_slashes(s: Seq<char>) -> Seq<char>
    decreases s.len(),
{
    if s.len() > 0 && s.last() == '/' { trim_trailing_slashes(s.drop_last()) } else { s }
}

} // verus!
