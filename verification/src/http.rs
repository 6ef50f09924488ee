//! Request pacing and retry decisions: rotating browser user agents, the
//! splitmix64 jitter source, the https-to-http fallback, the retry plan of
//! a download, and the decoding of fetched pages.

use vstd::prelude::*;
use vstd::utf8::{decode_utf8, valid_utf8};

use crate::codec::{decode_gb18030, gb18030_decode, utf8_text};
use crate::text::{chars_of, decimal, push_all, push_decimal, slice_chars, starts_with, starts_with_exec, string_of};

verus! {

/// The browser user agents used in turn.
pub open spec fn uas() -> Seq<Seq<char>> {
    seq![
        "Mozilla/5.0 (Windows NT 10.0; Win64; x64) AppleWebKit/537.36 (KHTML, like Gecko) Chrome/120.0.0.0 Safari/537.36"@,
        "Mozilla/5.0 (Windows NT 10.0; Win64; x64) AppleWebKit/537.36 (KHTML, like Gecko) Chrome/122.0.0.0 Safari/537.36"@,
        "Mozilla/5.0 (Macintosh; Intel Mac OS X 10_15_7) AppleWebKit/537.36 (KHTML, like Gecko) Chrome/121.0.0.0 Safari/537.36"@,
        "Mozilla/5.0 (Windows NT 10.0; Win64; x64; rv:123.0) Gecko/20100101 Firefox/123.0"@,
        "Mozilla/5.0 (Macintosh; Intel Mac OS X 10_15_7) AppleWebKit/605.1.15 (KHTML, like Gecko) Version/17.3 Safari/605.1.15"@,
    ]
}

/// The user agent of request number `n` (counted from 0): the pool is
/// used in turn.
pub fn user_agent(n: u64) -> (r: &'static str)
    ensures
        r@ == uas()[(n % 5) as int],
{
    let i = n % 5;
    if i == 0 {
        "Mozilla/5.0 (Windows NT 10.0; Win64; x64) AppleWebKit/537.36 (KHTML, like Gecko) Chrome/120.0.0.0 Safari/537.36"
    } else if i == 1 {
        "Mozilla/5.0 (Windows NT 10.0; Win64; x64) AppleWebKit/537.36 (KHTML, like Gecko) Chrome/122.0.0.0 Safari/537.36"
    } else if i == 2 {
        "Mozilla/5.0 (Macintosh; Intel Mac OS X 10_15_7) AppleWebKit/537.36 (KHTML, like Gecko) Chrome/121.0.0.0 Safari/537.36"
    } else if i == 3 {
        "Mozilla/5.0 (Windows NT 10.0; Win64; x64; rv:123.0) Gecko/20100101 Firefox/123.0"
    } else {
        "Mozilla/5.0 (Macintosh; Intel Mac OS X 10_15_7) AppleWebKit/605.1.15 (KHTML, like Gecko) Version/17.3 Safari/605.1.15"
    }
}

pub open spec fn wmul(x: u64, y: u64) -> u64 {
    ((x as nat * y as nat) % 0x1_0000_0000_0000_0000) as u64
}

/// The splitmix64 finaliser.
pub open spec fn splitmix64_spec(x: u64) -> u64 {
    let a = wmul(x ^ (x >> 30u64), 0xBF58_476D_1CE4_E5B9);
    let b = wmul(a ^ (a >> 27u64), 0x94D0_49BB_1331_11EB);
    b ^ (b >> 31u64)
}

pub fn splitmix64(x: u64) -> (r: u64)
    ensures
        r == splitmix64_spec(x),
{
    let a = (x ^ (x >> 30)).wrapping_mul(0xBF58_476D_1CE4_E5B9);
    let b = (a ^ (a >> 27)).wrapping_mul(0x94D0_49BB_1331_11EB);
    b ^ (b >> 31)
}

/// The seed used when the clock cannot be read.
pub const FALLBACK_SEED: u64 = 0x9E37_79B9_7F4A_7C15;

/// The next state of the jitter source, which is also the random value it
/// hands out: an unseeded state (0) is first seeded from the clock reading
/// in nanoseconds, made odd.
pub open spec fn next_rand_spec(state: u64, clock_nanos: Option<u64>) -> u64 {
    let seed = if state == 0 {
        (match clock_nanos {
            Some(t) => t,
            None => FALLBACK_SEED,
        }) | 1u64
    } else {
        state
    };
    splitmix64_spec(seed)
}

pub fn next_rand(state: u64, clock_nanos: Option<u64>) -> (r: u64)
    ensures
        r == next_rand_spec(state, clock_nanos),
{
    let seed = if state == 0 {
        (match clock_nanos {
            Some(t) => t,
            None => FALLBACK_SEED,
        }) | 1
    } else {
        state
    };
    splitmix64(seed)
}

/// The width of a jitter window `[min_ms, max_ms]` (0 when empty).
pub open spec fn jitter_span(min_ms: u64, max_ms: u64) -> u64 {
    if max_ms > min_ms {
        (max_ms - min_ms) as u64
    } else {
        0
    }
}

/// The delay drawn from `[min_ms, max_ms]` with the random value `r`; no
/// random value is used when the window is empty.
pub open spec fn jitter_spec(min_ms: u64, max_ms: u64, r: u64) -> u64 {
    let span = jitter_span(min_ms, max_ms);
    if span == 0 {
        min_ms
    } else {
        (min_ms + (r as int) % (span + 1)) as u64
    }
}

/// Whether a jitter window needs a random value.
pub fn jitter_needs_rand(min_ms: u64, max_ms: u64) -> (b: bool)
    ensures
        b == (jitter_span(min_ms, max_ms) != 0),
{
    max_ms > min_ms
}

pub fn jitter_ms(min_ms: u64, max_ms: u64, r: u64) -> (d: u64)
    requires
        jitter_span(min_ms, max_ms) < u64::MAX,
    ensures
        d == jitter_spec(min_ms, max_ms, r),
        min_ms <= d,
        d <= min_ms || d <= max_ms,
{
    let span = max_ms.saturating_sub(min_ms);
    if span == 0 {
        min_ms
    } else {
        min_ms + r % (span + 1)
    }
}

/// The same address over plain http when it is an https address.
pub open spec fn http_fallback_spec(url: Seq<char>) -> Seq<char> {
    if starts_with(url, "https://"@) {
        "http://"@ + url.skip(8)
    } else {
        url
    }
}

pub fn http_fallback(url: &str) -> (r: String)
    ensures
        r@ == http_fallback_spec(url@),
{
    let u = chars_of(url);
    if starts_with_exec(u.as_slice(), chars_of("https://").as_slice()) {
        proof {
            reveal_strlit("https://");
        }
        let mut out = chars_of("http://");
        let ul = u.len();
        push_all(&mut out, slice_chars(u.as_slice(), 8, ul).as_slice());
        string_of(out.as_slice())
    } else {
        url.to_owned()
    }
}

/// A fetched page as text: UTF-8 when it is valid UTF-8, else GB18030.
pub open spec fn decode_text_spec(bytes: Seq<u8>) -> Seq<char> {
    if valid_utf8(bytes) {
        decode_utf8(bytes)
    } else {
        gb18030_decode(bytes)
    }
}

pub fn decode_text(bytes: &[u8]) -> (r: String)
    ensures
        r@ == decode_text_spec(bytes@),
{
    match utf8_text(bytes) {
        Some(s) => s,
        None => decode_gb18030(bytes),
    }
}

/// Where a download stands.
#[derive(PartialEq, Eq, Structural, Debug, Clone, Copy)]
pub enum Phase {
    /// Waiting out the pause before the first request.
    Start,
    /// A request to candidate `cand` of attempt `attempt` is under way.
    Sending,
    /// The response came back; its body is being read.
    Reading,
    /// Waiting out the pause between two attempts.
    Backoff,
    /// Finished.
    Done,
}

/// A download with up to three attempts, each trying the address and then
/// its plain-http form.
pub struct Fetch {
    pub url: String,
    pub phase: Phase,
    pub attempt: u32,
    pub cand: u32,
    pub last: String,
}

/// What happened since the last action.
pub enum FetchEvent {
    /// A pause ended.
    Slept,
    /// The request was answered with this status code.
    Status(u16),
    /// The request failed with this message.
    SendFailed(String),
    /// The response body was read.
    Body(Vec<u8>),
    /// The response body could not be read.
    BodyFailed(String),
}

/// What the caller does next.
pub enum FetchAction {
    /// Pause for a random time in `[min_ms, max_ms]`.
    Sleep(u64, u64),
    /// Request this address.
    Send(String),
    /// Read the response body.
    ReadBody,
    /// Stop with this outcome.
    Finish(Result<Vec<u8>, String>),
}

/// "HTTP {code}".
pub open spec fn http_status_text(code: u16) -> Seq<char> {
    "HTTP "@ + decimal(code as nat)
}

fn http_status_exec(code: u16) -> (r: String)
    ensures
        r@ == http_status_text(code),
{
    let mut out = chars_of("HTTP ");
    push_decimal(&mut out, code as u64);
    string_of(out.as_slice())
}

/// The address of candidate `cand`: the address itself, then its
/// plain-http form.
pub open spec fn candidate(url: Seq<char>, cand: u32) -> Seq<char> {
    if cand == 0 {
        url
    } else {
        http_fallback_spec(url)
    }
}

/// The pause after failed attempt `attempt`: `800 << attempt` ms plus up to
/// 1.5 s.
pub open spec fn backoff_ms(attempt: u32) -> u64 {
    if attempt == 0 {
        800
    } else {
        1600
    }
}

pub open spec fn action_view(a: FetchAction) -> (int, u64, u64, Seq<char>, Option<Result<Seq<u8>, Seq<char>>>) {
    match a {
        FetchAction::Sleep(lo, hi) => (0, lo, hi, Seq::empty(), None),
        FetchAction::Send(u) => (1, 0, 0, u@, None),
        FetchAction::ReadBody => (2, 0, 0, Seq::empty(), None),
        FetchAction::Finish(r) => (3, 0, 0, Seq::empty(), Some(match r {
            Ok(b) => Ok(b@),
            Err(e) => Err(e@),
        })),
    }
}

/// A failure of candidate `cand` in attempt `attempt` with message `msg`:
/// the next candidate, else a pause before the next attempt, else the end
/// with the last message.
pub open spec fn after_failure(url: Seq<char>, attempt: u32, cand: u32, msg: Seq<char>) -> (
    (Phase, u32, u32, Seq<char>),
    (int, u64, u64, Seq<char>, Option<Result<Seq<u8>, Seq<char>>>),
) {
    if cand == 0 {
        ((Phase::Sending, attempt, 1, msg), (1, 0, 0, candidate(url, 1), None))
    } else if attempt < 2 {
        (
            (Phase::Backoff, attempt, cand, msg),
            (0, backoff_ms(attempt), (backoff_ms(attempt) + 1500) as u64, Seq::empty(), None),
        )
    } else {
        ((Phase::Done, attempt, cand, msg), (3, 0, 0, Seq::empty(), Some(Err(msg))))
    }
}

/// The transitions of a download, over the state `(phase, attempt, cand,
/// last message)` of `url`.
pub open spec fn fetch_next(
    url: Seq<char>,
    st: (Phase, u32, u32, Seq<char>),
    ev: FetchEvent,
) -> ((Phase, u32, u32, Seq<char>), (int, u64, u64, Seq<char>, Option<Result<Seq<u8>, Seq<char>>>)) {
    let (phase, attempt, cand, last) = st;
    match (phase, ev) {
        (Phase::Start, FetchEvent::Slept) => (
            (Phase::Sending, 0, 0, last),
            (1, 0, 0, candidate(url, 0), None),
        ),
        (Phase::Backoff, FetchEvent::Slept) => (
            (Phase::Sending, (attempt + 1) as u32, 0, last),
            (1, 0, 0, candidate(url, 0), None),
        ),
        (Phase::Sending, FetchEvent::Status(code)) => if 400 <= code <= 499 {
            (
                (Phase::Done, attempt, cand, last),
                (3, 0, 0, Seq::empty(), Some(Err(http_status_text(code)))),
            )
        } else if 500 <= code <= 599 {
            after_failure(url, attempt, cand, http_status_text(code))
        } else {
            ((Phase::Reading, attempt, cand, last), (2, 0, 0, Seq::empty(), None))
        },
        (Phase::Sending, FetchEvent::SendFailed(e)) => after_failure(url, attempt, cand, e@),
        (Phase::Reading, FetchEvent::Body(b)) => (
            (Phase::Done, attempt, cand, last),
            (3, 0, 0, Seq::empty(), Some(Ok(b@))),
        ),
        (Phase::Reading, FetchEvent::BodyFailed(e)) => after_failure(url, attempt, cand, e@),
        _ => ((Phase::Done, attempt, cand, last), (3, 0, 0, Seq::empty(), Some(Err(last)))),
    }
}

/// The states a download can be in: at most three attempts, a pause only
/// between attempts, two candidates.
pub open spec fn fetch_wf(f: Fetch) -> bool {
    f.attempt <= 2 && (f.phase == Phase::Backoff ==> f.attempt < 2) && f.cand <= 1
}

/// The part of a download's state that its steps change: phase, attempt,
/// candidate and last message. Its url is fixed when it starts, and
/// `fetch_start` and `fetch_step` state it apart.
pub open spec fn fetch_view(f: Fetch) -> (Phase, u32, u32, Seq<char>) {
    (f.phase, f.attempt, f.cand, f.last@)
}

/// A new download of `url`: it begins with a pause of 250 to 700 ms.
pub fn fetch_start(url: &str) -> (r: (Fetch, FetchAction))
    ensures
        r.0.url@ == url@,
        fetch_view(r.0) == (Phase::Start, 0u32, 0u32, Seq::<char>::empty()),
        fetch_wf(r.0),
        action_view(r.1) == (0int, 250u64, 700u64, Seq::<char>::empty(), None::<Result<Seq<u8>, Seq<char>>>),
{
    (
        Fetch { url: url.to_owned(), phase: Phase::Start, attempt: 0, cand: 0, last: String::new() },
        FetchAction::Sleep(250, 700),
    )
}

fn candidate_exec(url: &String, cand: u32) -> (r: String)
    ensures
        r@ == candidate(url@, cand),
{
    if cand == 0 {
        url.clone()
    } else {
        http_fallback(url.as_str())
    }
}

fn fail_step(f: &mut Fetch, msg: String) -> (a: FetchAction)
    requires
        fetch_wf(*old(f)),
    ensures
        fetch_wf(*final(f)),
        (fetch_view(*final(f)), action_view(a)) == after_failure(
            old(f).url@,
            old(f).attempt,
            old(f).cand,
            msg@,
        ),
        final(f).url == old(f).url,
{
    f.last = msg;
    if f.cand == 0 {
        f.phase = Phase::Sending;
        f.cand = 1;
        FetchAction::Send(candidate_exec(&f.url, 1))
    } else if f.attempt < 2 {
        f.phase = Phase::Backoff;
        let b: u64 = if f.attempt == 0 {
            800
        } else {
            1600
        };
        FetchAction::Sleep(b, b + 1500)
    } else {
        f.phase = Phase::Done;
        FetchAction::Finish(Err(f.last.clone()))
    }
}

/// The next state and action of a download after event `ev`.
pub fn fetch_step(f: &mut Fetch, ev: FetchEvent) -> (a: FetchAction)
    requires
        fetch_wf(*old(f)),
    ensures
        (fetch_view(*final(f)), action_view(a)) == fetch_next(old(f).url@, fetch_view(*old(f)), ev),
        final(f).url == old(f).url,
        fetch_wf(*final(f)),
{
    match (f.phase, ev) {
        (Phase::Start, FetchEvent::Slept) => {
            f.phase = Phase::Sending;
            f.attempt = 0;
            f.cand = 0;
            FetchAction::Send(candidate_exec(&f.url, 0))
        },
        (Phase::Backoff, FetchEvent::Slept) => {
            f.phase = Phase::Sending;
            f.attempt = f.attempt + 1;
            f.cand = 0;
            FetchAction::Send(candidate_exec(&f.url, 0))
        },
        (Phase::Sending, FetchEvent::Status(code)) => {
            if 400 <= code && code <= 499 {
                f.phase = Phase::Done;
                FetchAction::Finish(Err(http_status_exec(code)))
            } else if 500 <= code && code <= 599 {
                fail_step(f, http_status_exec(code))
            } else {
                f.phase = Phase::Reading;
                FetchAction::ReadBody
            }
        },
        (Phase::Sending, FetchEvent::SendFailed(e)) => fail_step(f, e),
        (Phase::Reading, FetchEvent::Body(b)) => {
            f.phase = Phase::Done;
            FetchAction::Finish(Ok(b))
        },
        (Phase::Reading, FetchEvent::BodyFailed(e)) => fail_step(f, e),
        _ => {
            f.phase = Phase::Done;
            FetchAction::Finish(Err(f.last.clone()))
        },
    }
}

} // verus!
