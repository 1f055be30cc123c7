//! The decisions taken while sending a request: whether a response is
//! followed as a redirect and where to, whether a digest challenge is
//! answered, how a body is carried, and whether a failed attempt is retried
//! and after how long. The caller performs the network work and feeds the
//! results back.
use vstd::prelude::*;

use crate::error::AppError;
use crate::http::{binary_content_type, is_binary_content_type, BodyEncoding, RedirectPolicy};
use crate::text::{chars_of, has_prefix, starts_with};
use crate::urls::{join_url, joined_url};

verus! {

/// The statuses that redirect.
pub open spec fn redirect_status(status: u16) -> bool {
    status == 301 || status == 302 || status == 303 || status == 307 || status == 308
}

/// What to do with a response.
#[derive(Debug)]
pub enum RedirectDecision {
    /// Request this URL next, after recording the current one.
    Follow(String),
    /// Keep this response.
    Finish,
    /// The redirect target could not be resolved; fail with this error.
    Invalid(AppError),
}

/// What a response with this status leads to: under a following policy, a
/// redirect status with fewer than `max_redirects` redirects followed so far
/// goes to its non-empty location (taken as is when it starts with `http`,
/// otherwise resolved against the current URL); anything else is kept.
pub open spec fn redirect_outcome(
    policy: RedirectPolicy,
    status: u16,
    followed: nat,
    max_redirects: nat,
    location: Seq<char>,
    current_url: Seq<char>,
) -> Result<Option<Seq<char>>, Seq<char>> {
    let follows = !(policy is NoFollow) && redirect_status(status);
    if follows && followed < max_redirects && location.len() > 0 {
        if starts_with(location, "http"@) {
            Ok(Some(location))
        } else {
            match joined_url(current_url, location) {
                Ok(u) => Ok(Some(u)),
                Err(e) => Err(e),
            }
        }
    } else {
        Ok(None)
    }
}

/// Decides what a response leads to (see `redirect_outcome`); a missing or
/// unreadable `Location` header counts as empty.
pub fn redirect_decision(
    policy: RedirectPolicy,
    status: u16,
    followed: usize,
    max_redirects: usize,
    location: &str,
    current_url: &str,
) -> (r: RedirectDecision)
    ensures
        match redirect_outcome(
            policy,
            status,
            followed as nat,
            max_redirects as nat,
            location@,
            current_url@,
        ) {
            Ok(Some(u)) => r matches RedirectDecision::Follow(s) && s@ == u,
            Ok(None) => r is Finish,
            Err(e) => r matches RedirectDecision::Invalid(AppError::UrlParse(m)) && m@ == e,
        },
{
    let follows = match policy {
        RedirectPolicy::NoFollow => false,
        _ => true,
    } && (status == 301 || status == 302 || status == 303 || status == 307 || status == 308);
    let loc = chars_of(location);
    if follows && followed < max_redirects && loc.len() > 0 {
        if has_prefix(&loc, &chars_of("http")) {
            RedirectDecision::Follow(location.to_string())
        } else {
            match join_url(current_url, location) {
                Ok(u) => RedirectDecision::Follow(u),
                Err(e) => RedirectDecision::Invalid(AppError::UrlParse(e)),
            }
        }
    } else {
        RedirectDecision::Finish
    }
}

/// Whether a response is answered with digest credentials: a 401 whose
/// `WWW-Authenticate` header starts with `Digest `, on a request that
/// carries digest credentials.
pub fn wants_digest(status: u16, has_digest_credentials: bool, www_authenticate: Option<&str>) -> (r: bool)
    ensures
        r == (status == 401 && has_digest_credentials && match www_authenticate {
            Some(w) => starts_with(w@, "Digest "@),
            None => false,
        }),
{
    if status == 401 && has_digest_credentials {
        match www_authenticate {
            Some(w) => has_prefix(&chars_of(w), &chars_of("Digest ")),
            None => false,
        }
    } else {
        false
    }
}

/// How a response body with this content type is carried.
pub fn body_encoding_for(content_type: &str) -> (r: BodyEncoding)
    ensures
        r == (if binary_content_type(content_type@) {
            BodyEncoding::Base64
        } else {
            BodyEncoding::Text
        }),
{
    if is_binary_content_type(content_type) {
        BodyEncoding::Base64
    } else {
        BodyEncoding::Text
    }
}

/// The character of the standard base64 alphabet for `n` below 64.
pub open spec fn base64_char(n: int) -> char {
    if n < 26 {
        (65 + n) as char
    } else if n < 52 {
        (97 + n - 26) as char
    } else if n < 62 {
        (48 + n - 52) as char
    } else if n == 62 {
        '+'
    } else {
        '/'
    }
}

/// What `base64::engine::general_purpose::STANDARD.encode` gives for bytes:
/// every three bytes as four characters of the standard alphabet, six bits
/// each, and a last group of one or two bytes padded with `=`.
pub open spec fn base64_of(bytes: Seq<u8>) -> Seq<char>
    decreases bytes.len(),
{
    if bytes.len() == 0 {
        Seq::empty()
    } else if bytes.len() == 1 {
        let b0 = bytes[0] as int;
        seq![base64_char(b0 / 4), base64_char((b0 % 4) * 16), '=', '=']
    } else if bytes.len() == 2 {
        let b0 = bytes[0] as int;
        let b1 = bytes[1] as int;
        seq![base64_char(b0 / 4), base64_char((b0 % 4) * 16 + b1 / 16), base64_char((b1 % 16) * 4), '=']
    } else {
        let b0 = bytes[0] as int;
        let b1 = bytes[1] as int;
        let b2 = bytes[2] as int;
        seq![
            base64_char(b0 / 4),
            base64_char((b0 % 4) * 16 + b1 / 16),
            base64_char((b1 % 16) * 4 + b2 / 64),
            base64_char(b2 % 64),
        ] + base64_of(bytes.skip(3))
    }
}

/// `STANDARD.encode`: the standard alphabet with padding (see `base64_of`);
/// four characters for every three bytes or part of them.
#[verifier::external_body]
pub(crate) fn base64_encode(bytes: &[u8]) -> (r: String)
    requires
        bytes@.len() <= usize::MAX / 2,
    ensures
        r@ == base64_of(bytes@),
        r@.len() == (bytes@.len() + 2) / 3 * 4,
{
    base64::Engine::encode(&base64::engine::general_purpose::STANDARD, bytes)
}

/// A binary body as carried in a response: its base64 text, the encoding,
/// and its size in bytes.
pub fn binary_body(bytes: &[u8]) -> (r: (String, BodyEncoding, u64))
    requires
        bytes@.len() <= usize::MAX / 2,
    ensures
        r.0@ == base64_of(bytes@),
        r.1 == BodyEncoding::Base64,
        r.2 == bytes@.len(),
{
    let text = base64_encode(bytes);
    (text, BodyEncoding::Base64, bytes.len() as u64)
}

/// What happens after an attempt.
#[derive(Debug, Clone, Copy, PartialEq, Eq, Structural)]
pub enum AttemptOutcome {
    /// The attempt got a response: it is returned.
    Success,
    /// Try again after waiting this many milliseconds.
    Retry { delay_ms: u64 },
    /// The last attempt failed: its error is returned.
    GiveUp,
}

/// What follows attempt `attempt` (counted from 0) of `max_retries + 1`,
/// decided by that attempt alone: success when it got a response, whatever
/// earlier attempts met; otherwise a retry after `backoff_ms` times the next
/// attempt's number while attempts remain, else giving up.
pub open spec fn attempt_outcome(attempt: nat, max_retries: nat, backoff_ms: nat, failed: bool) -> AttemptOutcome {
    if !failed {
        AttemptOutcome::Success
    } else if attempt >= max_retries {
        AttemptOutcome::GiveUp
    } else {
        AttemptOutcome::Retry { delay_ms: (backoff_ms * (attempt + 1)) as u64 }
    }
}

/// Decides what follows an attempt from whether that attempt failed (see
/// `attempt_outcome`). The delay must fit in 64 bits.
pub fn after_attempt(attempt: u32, max_retries: u32, backoff_ms: u64, failed: bool) -> (r: AttemptOutcome)
    requires
        attempt <= max_retries,
        attempt < max_retries ==> backoff_ms * (attempt + 1) <= u64::MAX,
    ensures
        r == attempt_outcome(attempt as nat, max_retries as nat, backoff_ms as nat, failed),
        attempt == max_retries ==> !(r is Retry),
{
    if !failed {
        AttemptOutcome::Success
    } else if attempt >= max_retries {
        AttemptOutcome::GiveUp
    } else {
        let next: u64 = attempt as u64 + 1;
        AttemptOutcome::Retry { delay_ms: backoff_ms * next }
    }
}

/// A request is attempted at most `max_retries + 1` times: from any attempt
/// the outcome is a retry only while attempts remain.
pub proof fn lemma_attempts_bounded(attempt: nat, max_retries: nat, backoff_ms: nat, failed: bool)
    ensures
        attempt_outcome(attempt, max_retries, backoff_ms, failed) is Retry ==> attempt + 1 <= max_retries,
        attempt >= max_retries ==> !(attempt_outcome(attempt, max_retries, backoff_ms, failed) is Retry),
{
}

/// Retrying with backoff: an attempt that gets a response succeeds, whatever
/// the earlier attempts met; a failed attempt is retried after
/// `backoff_ms * (attempt + 1)` milliseconds while attempts remain, and only
/// the last failed attempt gives up.
pub proof fn lemma_retry_with_backoff(attempt: nat, max_retries: nat, backoff_ms: nat, failed: bool)
    requires
        backoff_ms * (attempt + 1) <= u64::MAX,
    ensures
        !failed <==> attempt_outcome(attempt, max_retries, backoff_ms, failed) is Success,
        failed && attempt < max_retries ==> attempt_outcome(attempt, max_retries, backoff_ms, failed)
            == (AttemptOutcome::Retry { delay_ms: (backoff_ms * (attempt + 1)) as u64 }),
        attempt_outcome(attempt, max_retries, backoff_ms, failed) is GiveUp <==> (failed && attempt
            >= max_retries),
{
}

} // verus!
