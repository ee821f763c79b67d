//! Admission to the server: a cap on concurrent sessions and a limit on how often each peer may
//! begin a new one.
//!
//! A new session begins with a POST that carries no session id. All other traffic passes; where
//! it carries a session id, it counts as activity of that session.

use vstd::prelude::*;
use vstd::string::*;

use crate::engines::utf8_lossy;
use crate::limiter::{PeerAddr, PeerLimiter};
use crate::reaper::ActivityTracker;
use crate::text::{self, push_decimal};

verus! {

/// Nanoseconds in a second.
pub const SECOND: u64 = 1_000_000_000;

/// What decides on admission, and what is kept for it.
pub struct GateCtx {
    /// The most sessions that may be open at a time.
    pub max_sessions: usize,
    /// How often each peer may begin a session.
    pub limiter: PeerLimiter,
    /// Whether the forwarding header tells the peer.
    pub trust_forwarded_for: bool,
    /// When each session was last active.
    pub activity: ActivityTracker,
}

impl GateCtx {
    /// Whether the limiter is in order.
    pub open spec fn wf(self) -> bool {
        self.limiter.wf()
    }
}

/// The decision on a request.
#[derive(Debug, Clone, Copy, PartialEq, Eq, Structural)]
pub enum Verdict {
    /// Hand it on.
    Pass,
    /// Refuse it: there are as many sessions as there may be.
    SessionCap,
    /// Refuse it: the peer begins sessions too often. It may come back after so many seconds.
    RateLimited(u64),
}

/// A refusal, as the protocol carries it.
#[derive(Debug)]
pub struct Rejection {
    pub status: u16,
    /// The value of the header that tells when to try again.
    pub retry_after: String,
    pub body: String,
}

impl Verdict {
    /// The response that a refusal is answered with: 503 or 429, with a hint when to try again.
    pub fn rejection(&self) -> (rejection: Option<Rejection>)
        ensures
            match *self {
                Verdict::Pass => rejection is None,
                Verdict::SessionCap => rejection matches Some(r) && r.status == 503
                    && r.retry_after@ == text::decimal(5) && r.body@ == "session cap reached"@,
                Verdict::RateLimited(secs) => rejection matches Some(r) && r.status == 429
                    && r.retry_after@ == text::decimal(secs as nat) && r.body@
                    == "initialize rate limit"@,
            },
    {
        let mut retry_after = String::new();
        match *self {
            Verdict::Pass => None,
            Verdict::SessionCap => {
                push_decimal(&mut retry_after, 5);
                assert(retry_after@ =~= text::decimal(5));
                Some(Rejection { status: 503, retry_after, body: "session cap reached".to_owned() })
            },
            Verdict::RateLimited(secs) => {
                push_decimal(&mut retry_after, secs);
                assert(retry_after@ =~= text::decimal(secs as nat));
                Some(
                    Rejection {
                        status: 429,
                        retry_after,
                        body: "initialize rate limit".to_owned(),
                    },
                )
            },
        }
    }
}

/// Whether a header value may hold the byte `b` and still be text: printable ASCII and tab.
pub open spec fn is_visible(b: u8) -> bool {
    32 <= b < 127 || b == 9
}

/// Whether a header value is text.
pub open spec fn is_header_text(value: Seq<u8>) -> bool {
    forall|i: int| 0 <= i < value.len() ==> is_visible(#[trigger] value[i])
}

/// The characters of ASCII bytes.
pub open spec fn ascii_chars(bytes: Seq<u8>) -> Seq<char> {
    bytes.map_values(|b: u8| b as char)
}

/// Header text is ASCII, and ASCII is UTF-8.
proof fn lemma_header_text(value: Seq<u8>)
    requires
        is_header_text(value),
    ensures
        vstd::utf8::valid_utf8(value),
        vstd::utf8::decode_utf8(value) == ascii_chars(value),
{
    let chars = ascii_chars(value);
    assert(vstd::utf8::is_ascii_chars(chars)) by {
        assert forall|i: int| 0 <= i < chars.len() implies '\0' <= #[trigger] chars[i]
            <= '\u{7f}' by {
            assert(is_visible(value[i]));
        }
    }
    vstd::utf8::is_ascii_chars_encode_utf8(chars);
    assert(vstd::utf8::encode_utf8(chars) =~= value) by {
        assert forall|i: int| 0 <= i < value.len() implies vstd::utf8::encode_utf8(chars)[i]
            == value[i] by {
            assert(is_visible(value[i]));
            assert(chars[i] as u8 == value[i]);
        }
    }
    vstd::utf8::encode_utf8_valid_utf8(chars);
    vstd::utf8::encode_utf8_decode_utf8(chars);
}

/// The text of a header value, if it is text.
pub fn header_text(value: &[u8]) -> (text: Option<String>)
    ensures
        crate::tools::response::text_of(text) == if is_header_text(value@) {
            Some(ascii_chars(value@))
        } else {
            None::<Seq<char>>
        },
{
    let mut i: usize = 0;
    while i < value.len()
        invariant
            i <= value@.len(),
            forall|k: int| 0 <= k < i ==> is_visible(#[trigger] value@[k]),
        decreases value@.len() - i,
    {
        let b: u8 = value[i];
        if !((32 <= b && b < 127) || b == 9) {
            assert(!is_visible(value@[i as int]));
            return None;
        }
        i = i + 1;
    }
    proof {
        lemma_header_text(value@);
    }
    Some(utf8_lossy(value))
}

/// Whether `b` is a space or a tab.
pub open spec fn is_blank(b: u8) -> bool {
    b == 32 || b == 9
}

/// Where the first comma stands, or the length if there is none.
pub open spec fn first_comma(value: Seq<u8>) -> int
    decreases value.len(),
{
    if value.len() == 0 || value[0] == 44 {
        0
    } else {
        1 + first_comma(value.skip(1))
    }
}

/// `s` without blanks at its start.
pub open spec fn trimmed_start(s: Seq<u8>) -> Seq<u8>
    decreases s.len(),
{
    if s.len() > 0 && is_blank(s[0]) {
        trimmed_start(s.skip(1))
    } else {
        s
    }
}

/// `s` without blanks at its end.
pub open spec fn trimmed_end(s: Seq<u8>) -> Seq<u8>
    decreases s.len(),
{
    if s.len() > 0 && is_blank(s.last()) {
        trimmed_end(s.drop_last())
    } else {
        s
    }
}

/// The first hop that a forwarding header names: what stands before the first comma, without
/// blanks around it. A value that is no text names none.
pub open spec fn hop_of(value: Seq<u8>) -> Option<Seq<char>> {
    if is_header_text(value) {
        Some(ascii_chars(trimmed_end(trimmed_start(value.take(first_comma(value))))))
    } else {
        None
    }
}

/// The first comma stands where no comma came before.
pub proof fn lemma_first_comma(value: Seq<u8>, i: int)
    requires
        0 <= i <= value.len(),
        forall|k: int| 0 <= k < i ==> value[k] != 44,
        i == value.len() || value[i] == 44,
    ensures
        first_comma(value) == i,
    decreases i,
{
    if i > 0 {
        assert(value[0] != 44);
        lemma_first_comma(value.skip(1), i - 1);
    }
}

/// Blanks at the start are skipped one by one.
pub proof fn lemma_trimmed_start(s: Seq<u8>, i: int)
    requires
        0 <= i <= s.len(),
        forall|k: int| 0 <= k < i ==> is_blank(#[trigger] s[k]),
        i == s.len() || !is_blank(s[i]),
    ensures
        trimmed_start(s) == s.skip(i),
    decreases i,
{
    if i > 0 {
        assert(is_blank(s[0]));
        let rest = s.skip(1);
        assert forall|k: int| 0 <= k < i - 1 implies is_blank(#[trigger] rest[k]) by {
            assert(is_blank(s[k + 1]));
        }
        lemma_trimmed_start(rest, i - 1);
        assert(rest.skip(i - 1) =~= s.skip(i));
    } else {
        assert(s.skip(0) =~= s);
    }
}

/// Blanks at the end are dropped one by one.
pub proof fn lemma_trimmed_end(s: Seq<u8>, n: int)
    requires
        0 <= n <= s.len(),
        forall|k: int| n <= k < s.len() ==> is_blank(#[trigger] s[k]),
        n == 0 || !is_blank(s[n - 1]),
    ensures
        trimmed_end(s) == s.take(n),
    decreases s.len() - n,
{
    if n < s.len() {
        assert(is_blank(s[s.len() - 1]));
        let rest = s.drop_last();
        assert forall|k: int| n <= k < rest.len() implies is_blank(#[trigger] rest[k]) by {
            assert(is_blank(s[k]));
        }
        lemma_trimmed_end(rest, n);
        assert(rest.take(n) =~= s.take(n));
    } else {
        assert(s.take(n) =~= s);
    }
}

/// The first hop that a forwarding header names, if its value is text. The hop may be anything;
/// whether it is an address is for the caller to find out.
pub fn forwarded_hop(value: &[u8]) -> (hop: Option<String>)
    ensures
        crate::tools::response::text_of(hop) == hop_of(value@),
{
    if header_text(value).is_none() {
        return None;
    }
    let mut comma: usize = 0;
    while comma < value.len() && value[comma] != 44
        invariant
            comma <= value@.len(),
            forall|k: int| 0 <= k < comma ==> value@[k] != 44,
        decreases value@.len() - comma,
    {
        comma = comma + 1;
    }
    let ghost piece = value@.take(comma as int);
    let mut start: usize = 0;
    while start < comma && (value[start] == 32 || value[start] == 9)
        invariant
            start <= comma <= value@.len(),
            piece == value@.take(comma as int),
            forall|k: int| 0 <= k < start ==> is_blank(#[trigger] piece[k]),
        decreases comma - start,
    {
        assert(is_blank(piece[start as int]));
        start = start + 1;
    }
    let mut end: usize = comma;
    while start < end && (value[end - 1] == 32 || value[end - 1] == 9)
        invariant
            start <= end <= comma <= value@.len(),
            piece == value@.take(comma as int),
            forall|k: int| end <= k < comma ==> is_blank(#[trigger] piece[k]),
        decreases end - start,
    {
        assert(is_blank(piece[end - 1]));
        end = end - 1;
    }
    proof {
        lemma_first_comma(value@, comma as int);
        lemma_trimmed_start(piece, start as int);
        let tail = piece.skip(start as int);
        assert forall|k: int| end - start <= k < tail.len() implies is_blank(#[trigger] tail[k]) by {
            assert(is_blank(piece[k + start]));
        }
        lemma_trimmed_end(tail, end - start);
        assert(tail.take(end - start) =~= value@.subrange(start as int, end as int));
    }
    let kept = vstd::slice::slice_subrange(value, start, end);
    proof {
        assert forall|i: int| 0 <= i < kept@.len() implies is_visible(#[trigger] kept@[i]) by {
            assert(is_visible(value@[start + i]));
        }
    }
    header_text(kept)
}

/// The peer that a request counts for: the forwarded address where it is trusted and there is
/// one, else the address of the socket.
pub fn peer_ip(forwarded: Option<PeerAddr>, socket: PeerAddr, trust_forwarded_for: bool) -> (peer:
    PeerAddr)
    ensures
        peer == match forwarded {
            Some(ip) if trust_forwarded_for => ip,
            _ => socket,
        },
{
    if trust_forwarded_for {
        if let Some(ip) = forwarded {
            return ip;
        }
    }
    socket
}

/// Whether a request asks for a new session.
pub open spec fn is_initialize(is_post: bool, session: Option<&[u8]>) -> bool {
    is_post && session is None
}

/// The decision on a request that asks for a new session, with `in_use` sessions open.
pub open spec fn new_session_verdict(
    ctx: GateCtx,
    peer: PeerAddr,
    in_use: usize,
    now: u64,
) -> Verdict {
    if in_use >= ctx.max_sessions {
        Verdict::SessionCap
    } else if ctx.limiter@.admits(peer, now) {
        Verdict::Pass
    } else {
        let secs = ctx.limiter@.wait(peer, now) / SECOND as nat;
        Verdict::RateLimited(if secs == 0 {
            1
        } else {
            secs as u64
        })
    }
}

/// The record of activity after a request: one that carries a session id renews that session.
pub open spec fn activity_after(
    activity: Map<Seq<char>, u64>,
    session: Option<&[u8]>,
    now: u64,
) -> Map<Seq<char>, u64> {
    match session {
        Some(id) if is_header_text(id@) => activity.insert(ascii_chars(id@), now),
        _ => activity,
    }
}

/// Whether `verdict` is the decision on a request that finds `before`, and `after` is what it
/// leaves behind, as far as the cap on sessions and the limiter go.
pub open spec fn decides(
    before: GateCtx,
    after: GateCtx,
    is_new: bool,
    peer: PeerAddr,
    in_use: usize,
    now: u64,
    verdict: Verdict,
) -> bool {
    &&& after.max_sessions == before.max_sessions
    &&& verdict == if is_new {
        new_session_verdict(before, peer, in_use, now)
    } else {
        Verdict::Pass
    }
    &&& after.limiter@ == if is_new && in_use < before.max_sessions {
        before.limiter@.consume(peer, now)
    } else {
        before.limiter@
    }
}

/// Decides on a request. `session` is the value of its session id header, if it has one, and
/// `in_use` the number of sessions that are open.
///
/// Requests for a new session are held to the cap on sessions, and then to the peer's rate. All
/// other traffic passes untouched.
pub fn gate(
    ctx: &mut GateCtx,
    is_post: bool,
    session: Option<&[u8]>,
    peer: PeerAddr,
    in_use: usize,
    now: u64,
) -> (verdict: Verdict)
    requires
        old(ctx).wf(),
    ensures
        final(ctx).wf(),
        final(ctx).max_sessions == old(ctx).max_sessions,
        final(ctx).trust_forwarded_for == old(ctx).trust_forwarded_for,
        final(ctx).activity@ == activity_after(old(ctx).activity@, session, now),
        verdict == if is_initialize(is_post, session) {
            new_session_verdict(*old(ctx), peer, in_use, now)
        } else {
            Verdict::Pass
        },
        final(ctx).limiter@ == if is_initialize(is_post, session) && in_use < old(
            ctx,
        ).max_sessions {
            old(ctx).limiter@.consume(peer, now)
        } else {
            old(ctx).limiter@
        },
        decides(
            *old(ctx),
            *final(ctx),
            is_initialize(is_post, session),
            peer,
            in_use,
            now,
            verdict,
        ),
{
    if let Some(value) = session {
        if let Some(id) = header_text(value) {
            ctx.activity.touch(id, now);
        }
        return Verdict::Pass;
    }
    if !is_post {
        return Verdict::Pass;
    }
    if in_use >= ctx.max_sessions {
        return Verdict::SessionCap;
    }
    match ctx.limiter.try_consume(peer, now) {
        Ok(()) => Verdict::Pass,
        Err(nanos) => {
            let secs: u64 = nanos / SECOND;
            Verdict::RateLimited(if secs == 0 { 1 } else { secs })
        },
    }
}

/// The cap holds: where a request for a new session passes, there is room for that session.
pub proof fn cap_is_hard(ctx: GateCtx, peer: PeerAddr, in_use: usize, now: u64)
    requires
        new_session_verdict(ctx, peer, in_use, now) == Verdict::Pass,
    ensures
        in_use + 1 <= ctx.max_sessions,
{
}

/// The cap comes first: at the cap every request for a new session is refused for that reason,
/// however often its peer has asked.
pub proof fn full_house_refuses_all(ctx: GateCtx, peer: PeerAddr, in_use: usize, now: u64)
    requires
        in_use >= ctx.max_sessions,
    ensures
        new_session_verdict(ctx, peer, in_use, now) == Verdict::SessionCap,
{
}

/// A peer that is told to come back is told to wait for a second at least.
pub proof fn retry_takes_time(ctx: GateCtx, peer: PeerAddr, in_use: usize, now: u64)
    requires
        ctx.wf(),
    ensures
        new_session_verdict(ctx, peer, in_use, now) matches Verdict::RateLimited(secs) ==> secs >= 1,
{
}

} // verus!
