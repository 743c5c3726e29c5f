//! Connection decisions of the WebSocket client: the handshake, the
//! heartbeat, the handling of incoming frames and the reconnect policy with
//! jittered exponential backoff. The socket itself is driven by the caller,
//! which feeds these functions the events it observes and performs the
//! actions they return.
use vstd::prelude::*;
use vstd::arithmetic::power2::{pow2, lemma2_to64};
use std::time::{Duration, SystemTime};
use crate::protocol::{Msg, ReplayEntry, WorkspaceInfo};
use vstd::string::StringExecFns;
use crate::keys::{debug_quote, debug_quoted};
use crate::utf8_text::chars_of;
use crate::widgets::{decimal, push_decimal};

verus! {

/// Close codes after which no reconnect is attempted: auth failure (4401),
/// session replaced by a newer client (4002), and a normal close (1000).
pub open spec fn is_terminal_code(code: u16) -> bool {
    code == 4401 || code == 4002 || code == 1000
}

/// Whether `code` is a terminal close code.
pub fn terminal_code(code: u16) -> (r: bool)
    ensures
        r == is_terminal_code(code),
{
    code == 4401 || code == 4002 || code == 1000
}

/// Consecutive unanswered pings after which the connection is dropped.
pub const MAX_MISSED_PONGS: u32 = 2;

/// How a connection ended.
pub struct CloseInfo {
    pub code: u16,
    pub reason: String,
}

/// The WebSocket client.
pub struct Client;

/// State of a reconnecting connection, as shown to the user.
#[derive(Debug, Clone)]
pub enum ConnectionState {
    Connecting,
    Authenticated,
    Reconnecting { in_seconds: u64 },
    Failed { reason: String },
}

#[verifier::external_type_specification]
#[verifier::external_body]
pub struct ExSystemTime(SystemTime);

/// `SystemTime::now`: the current wall-clock time. Nothing is claimed of
/// it: it depends on the clock.
#[verifier::external_body]
fn system_time_now() -> SystemTime {
    SystemTime::now()
}

/// `SystemTime::duration_since(UNIX_EPOCH)`, `None` for a time before the
/// epoch. Nothing is claimed of the duration: a `SystemTime` is opaque here.
#[verifier::external_body]
fn since_unix_epoch(t: &SystemTime) -> Option<Duration> {
    t.duration_since(std::time::UNIX_EPOCH).ok()
}

/// `Duration::subsec_nanos`: the fractional part of a duration, in
/// nanoseconds, which is always below one second.
#[verifier::external_body]
fn duration_subsec_nanos(d: &Duration) -> (n: u32)
    ensures
        n < 1_000_000_000,
{
    d.subsec_nanos()
}

/// `Duration::as_millis`: the whole number of milliseconds in a duration.
/// Nothing is claimed of it: a `Duration` is opaque here.
#[verifier::external_body]
fn duration_as_millis(d: &Duration) -> u128 {
    d.as_millis()
}

/// A millisecond count cut to 64 bits, zero when there is none.
pub fn millis_or_zero(ms: Option<u128>) -> (r: u64)
    ensures
        r == match ms {
            Some(v) => v as u64,
            None => 0u64,
        },
{
    match ms {
        Some(v) => {
            #[verifier::truncate]
            (v as u64)
        },
        None => 0,
    }
}

/// Milliseconds since the Unix epoch (zero if the clock is set before it),
/// truncated to 64 bits.
pub fn now_ms() -> u64 {
    let now = system_time_now();
    let ms = match since_unix_epoch(&now) {
        Some(d) => Some(duration_as_millis(&d)),
        None => None,
    };
    millis_or_zero(ms)
}

/// Base delay before reconnect attempt `attempt`: `2^attempt` seconds,
/// capped at 30.
pub open spec fn backoff_base(attempt: u32) -> int {
    if pow2(attempt as nat) <= 30 {
        pow2(attempt as nat) as int
    } else {
        30
    }
}

/// The base delay with ±25% jitter taken from `nanos`: with
/// `q = base / 4`, the delay is `base - q + nanos % (2q)`, and just `base`
/// when `q` is zero.
pub open spec fn jittered_backoff(attempt: u32, nanos: u32) -> int {
    let base = backoff_base(attempt);
    let q = base / 4;
    if q == 0 {
        base
    } else {
        base - q + (nanos as int) % (2 * q)
    }
}

/// Exact base delay for `attempt`.
fn backoff_base_secs(attempt: u32) -> (r: u64)
    ensures
        r == backoff_base(attempt),
        1 <= r <= 30,
{
    proof {
        lemma2_to64();
        if attempt > 5 {
            vstd::arithmetic::power2::lemma_pow2_strictly_increases(5, attempt as nat);
        }
    }
    if attempt == 0 {
        1
    } else if attempt == 1 {
        2
    } else if attempt == 2 {
        4
    } else if attempt == 3 {
        8
    } else if attempt == 4 {
        16
    } else {
        30
    }
}

/// Delay in seconds before reconnect attempt `attempt`, jittered by the
/// nanosecond reading `nanos`.
pub fn backoff_with_jitter(attempt: u32, nanos: u32) -> (r: u64)
    ensures
        r == jittered_backoff(attempt, nanos),
{
    let base = backoff_base_secs(attempt);
    let quarter = base / 4;
    if quarter == 0 {
        return base;
    }
    let offset = (nanos as u64) % (quarter * 2);
    base - quarter + offset
}

/// Delay in seconds before reconnect attempt `attempt`, jittered by ±25%
/// using the sub-second part of the current clock.
pub fn backoff_secs(attempt: u32) -> (r: u64)
    ensures
        exists|nanos: u32| nanos < 1_000_000_000 && r == jittered_backoff(attempt, nanos),
{
    let now = system_time_now();
    let nanos = match since_unix_epoch(&now) {
        Some(d) => duration_subsec_nanos(&d),
        None => 0,
    };
    backoff_with_jitter(attempt, nanos)
}

/// The jittered delay stays within 25% of the base delay, and never
/// exceeds 37 seconds.
pub proof fn law_backoff_bounds(attempt: u32, nanos: u32)
    ensures
        backoff_base(attempt) - backoff_base(attempt) / 4 <= jittered_backoff(attempt, nanos)
            <= backoff_base(attempt) + backoff_base(attempt) / 4,
        1 <= jittered_backoff(attempt, nanos) <= 37,
        attempt == 0 ==> jittered_backoff(attempt, nanos) == 1,
        attempt >= 5 ==> 23 <= jittered_backoff(attempt, nanos) <= 37,
{
    lemma2_to64();
    if attempt > 5 {
        vstd::arithmetic::power2::lemma_pow2_strictly_increases(5, attempt as nat);
    }
    if attempt < 5 {
        assert(attempt == 0 || attempt == 1 || attempt == 2 || attempt == 3 || attempt == 4);
    }
}


/// Whether `needle` occurs in `hay` as a contiguous run of characters.
pub open spec fn contains_seq(hay: Seq<char>, needle: Seq<char>) -> bool {
    exists|i: int|
        0 <= i && i + needle.len() <= hay.len() && #[trigger] hay.subrange(i, i + needle.len())
            == needle
}

/// `hay` contains `needle`.
pub fn contains_str(hay: &str, needle: &str) -> (r: bool)
    ensures
        r == contains_seq(hay@, needle@),
{
    let h = chars_of(hay);
    let n = chars_of(needle);
    if n.len() > h.len() {
        return false;
    }
    let last = h.len() - n.len();
    let mut i: usize = 0;
    while i <= last
        invariant
            h@ == hay@,
            n@ == needle@,
            last == h.len() - n.len(),
            n.len() <= h.len(),
            i <= last + 1,
            forall|j: int| 0 <= j < i ==> #[trigger] h@.subrange(j, j + n.len()) != n@,
        decreases last + 1 - i,
    {
        let mut k: usize = 0;
        let mut same = true;
        while k < n.len()
            invariant
                h@ == hay@,
                n@ == needle@,
                i + n.len() <= h.len(),
                k <= n.len(),
                same == (forall|m: int| 0 <= m < k ==> h@[i + m] == n@[m]),
            decreases n.len() - k,
        {
            if h[i + k] != n[k] {
                same = false;
            }
            k = k + 1;
        }
        if same {
            assert(h@.subrange(i as int, i + n.len()) =~= n@);
            return true;
        }
        proof {
            let m = choose|m: int| 0 <= m < n.len() && h@[i + m] != n@[m];
            assert(h@.subrange(i as int, i + n.len())[m] != n@[m]);
        }
        i = i + 1;
    }
    proof {
        assert forall|j: int|
            0 <= j && j + needle@.len() <= hay@.len() implies #[trigger] hay@.subrange(
            j,
            j + needle@.len(),
        ) != needle@ by {
            assert(j < i);
        }
    }
    false
}

/// A frame read from the socket, with text frames already parsed.
pub enum Incoming {
    /// A text frame holding a message.
    Message(Msg),
    /// A text frame that is not a valid message.
    Unparsable,
    /// A close frame with its code and reason, if the peer sent them.
    Close(Option<CloseInfo>),
    /// A ping, pong or binary frame.
    Control,
    /// A transport error, with its description.
    Error(String),
    /// The stream ended.
    End,
}

/// Why the handshake did not complete.
pub enum HandshakeError {
    /// The server's first text frame was not a valid message.
    Unparsable,
    /// The server rejected the key.
    AuthFailed { reason: String },
    /// The server answered with a message other than `Welcome`.
    Unexpected(Msg),
    /// The server closed the connection, with this close code (0 when the
    /// close frame carried none).
    Closed { code: u16 },
    /// The transport failed.
    Transport(String),
    /// The stream ended before `Welcome`.
    Ended,
}

/// What the handshake does with one incoming frame.
pub enum HandshakeStep {
    /// Keep waiting.
    Continue,
    /// The server accepted us with this `Welcome`.
    Welcomed(Msg),
    /// The handshake failed.
    Failed(HandshakeError),
}

/// Close code of an optional close frame, 0 when absent.
pub open spec fn close_code(c: Option<CloseInfo>) -> u16 {
    match c {
        Some(info) => info.code,
        None => 0,
    }
}

/// Outcome of one frame during the handshake, after `Hello` was sent.
pub open spec fn handshake_outcome(frame: Incoming) -> HandshakeStep {
    match frame {
        Incoming::Message(m) => match m {
            Msg::Welcome { .. } => HandshakeStep::Welcomed(m),
            Msg::AuthFailed { reason } => HandshakeStep::Failed(
                HandshakeError::AuthFailed { reason },
            ),
            _ => HandshakeStep::Failed(HandshakeError::Unexpected(m)),
        },
        Incoming::Unparsable => HandshakeStep::Failed(HandshakeError::Unparsable),
        Incoming::Close(c) => HandshakeStep::Failed(HandshakeError::Closed { code: close_code(c) }),
        Incoming::Control => HandshakeStep::Continue,
        Incoming::Error(e) => HandshakeStep::Failed(HandshakeError::Transport(e)),
        Incoming::End => HandshakeStep::Failed(HandshakeError::Ended),
    }
}

/// Handles one frame while waiting for `Welcome`: control frames are
/// skipped, `Welcome` completes the handshake, anything else fails it.
pub fn handshake_step(frame: Incoming) -> (r: HandshakeStep)
    ensures
        r == handshake_outcome(frame),
{
    match frame {
        Incoming::Message(m) => match m {
            Msg::Welcome { .. } => HandshakeStep::Welcomed(m),
            Msg::AuthFailed { reason } => HandshakeStep::Failed(
                HandshakeError::AuthFailed { reason },
            ),
            _ => HandshakeStep::Failed(HandshakeError::Unexpected(m)),
        },
        Incoming::Unparsable => HandshakeStep::Failed(HandshakeError::Unparsable),
        Incoming::Close(c) => {
            let code = match c {
                Some(info) => info.code,
                None => 0,
            };
            HandshakeStep::Failed(HandshakeError::Closed { code })
        },
        Incoming::Control => HandshakeStep::Continue,
        Incoming::Error(e) => HandshakeStep::Failed(HandshakeError::Transport(e)),
        Incoming::End => HandshakeStep::Failed(HandshakeError::Ended),
    }
}

/// `Debug` text of a message: the variant's name and its fields in braces,
/// strings quoted and escaped.
pub open spec fn msg_debug(m: Msg) -> Seq<char> {
    match m {
        Msg::Hello { key, client_version } => "Hello { key: "@ + debug_quoted(key@)
            + ", client_version: "@ + debug_quoted(client_version@) + " }"@,
        Msg::Welcome { server_version, workspaces } => "Welcome { server_version: "@ + debug_quoted(
            server_version@,
        ) + ", workspaces: "@ + list_debug(workspaces@.map_values(|w: WorkspaceInfo| workspace_debug(w)))
            + " }"@,
        Msg::AuthFailed { reason } => "AuthFailed { reason: "@ + debug_quoted(reason@) + " }"@,
        Msg::Ping { ts_ms } => "Ping { ts_ms: "@ + decimal(ts_ms as nat) + " }"@,
        Msg::Pong { client_ts_ms, server_ts_ms } => "Pong { client_ts_ms: "@ + decimal(
            client_ts_ms as nat,
        ) + ", server_ts_ms: "@ + decimal(server_ts_ms as nat) + " }"@,
        Msg::Send { workspace_id, text, queue_mode } => "Send { workspace_id: "@ + decimal(
            workspace_id as nat,
        ) + ", text: "@ + debug_quoted(text@) + ", queue_mode: "@ + debug_quoted(queue_mode@)
            + " }"@,
        Msg::Abort { workspace_id } => "Abort { workspace_id: "@ + decimal(workspace_id as nat)
            + " }"@,
        Msg::AgentStatus { workspace_id, status } => "AgentStatus { workspace_id: "@ + decimal(
            workspace_id as nat,
        ) + ", status: "@ + debug_quoted(status@) + " }"@,
        Msg::Resume { workspace_id, last_seq } => "Resume { workspace_id: "@ + decimal(
            workspace_id as nat,
        ) + ", last_seq: "@ + decimal(last_seq as nat) + " }"@,
        Msg::AgentEvent { workspace_id, seq, event } => "AgentEvent { workspace_id: "@ + decimal(
            workspace_id as nat,
        ) + ", seq: "@ + decimal(seq as nat) + ", event: "@ + debug_quoted(event@) + " }"@,
        Msg::ReplayBatch { workspace_id, events, latest_seq } => "ReplayBatch { workspace_id: "@
            + decimal(workspace_id as nat) + ", events: "@ + list_debug(
            events@.map_values(|e: ReplayEntry| entry_debug(e)),
        ) + ", latest_seq: "@ + decimal(latest_seq as nat) + " }"@,
    }
}

/// Items separated by `, `.
pub open spec fn joined(items: Seq<Seq<char>>) -> Seq<char>
    decreases items.len(),
{
    if items.len() == 0 {
        seq![]
    } else if items.len() == 1 {
        items[0]
    } else {
        joined(items.drop_last()) + ", "@ + items.last()
    }
}

/// `Debug` text of a list: its items' texts in square brackets.
pub open spec fn list_debug(items: Seq<Seq<char>>) -> Seq<char> {
    "["@ + joined(items) + "]"@
}

pub open spec fn workspace_debug(w: WorkspaceInfo) -> Seq<char> {
    "WorkspaceInfo { workspace_id: "@ + decimal(w.workspace_id as nat) + " }"@
}

pub open spec fn entry_debug(e: ReplayEntry) -> Seq<char> {
    "ReplayEntry { seq: "@ + decimal(e.seq as nat) + ", event: "@ + debug_quoted(e.event@)
        + " }"@
}

proof fn lemma_joined_step(items: Seq<Seq<char>>, i: int)
    requires
        0 <= i < items.len(),
    ensures
        joined(items.take(i + 1)) == joined(items.take(i)) + (if i == 0 {
            seq![]
        } else {
            ", "@
        }) + items[i],
{
    let t = items.take(i + 1);
    assert(t.drop_last() =~= items.take(i));
    if i == 0 {
        assert(joined(items.take(0)) =~= Seq::<char>::empty());
        assert(joined(t) == t[0]);
        assert(Seq::<char>::empty() + Seq::<char>::empty() + items[0] =~= items[0]);
    }
}

fn push_workspaces(out: &mut String, ws: &Vec<WorkspaceInfo>)
    ensures
        final(out)@ == old(out)@ + list_debug(ws@.map_values(|w: WorkspaceInfo| workspace_debug(w))),
{
    let ghost items = ws@.map_values(|w: WorkspaceInfo| workspace_debug(w));
    out.append("[");
    let mut i: usize = 0;
    while i < ws.len()
        invariant
            i <= ws@.len(),
            items == ws@.map_values(|w: WorkspaceInfo| workspace_debug(w)),
            out@ == old(out)@ + "["@ + joined(items.take(i as int)),
        decreases ws@.len() - i,
    {
        proof {
            lemma_joined_step(items, i as int);
        }
        if i > 0 {
            out.append(", ");
        }
        out.append("WorkspaceInfo { workspace_id: ");
        push_decimal(out, ws[i].workspace_id);
        out.append(" }");
        proof {
            reveal_strlit(", ");
            reveal_strlit("WorkspaceInfo { workspace_id: ");
            reveal_strlit(" }");
            assert(out@ =~= old(out)@ + "["@ + joined(items.take(i + 1)));
        }
        i = i + 1;
    }
    out.append("]");
    proof {
        reveal_strlit("[");
        reveal_strlit("]");
        assert(items.take(ws@.len() as int) =~= items);
        assert(out@ =~= old(out)@ + list_debug(items));
    }
}

fn push_entries(out: &mut String, es: &Vec<ReplayEntry>)
    ensures
        final(out)@ == old(out)@ + list_debug(es@.map_values(|e: ReplayEntry| entry_debug(e))),
{
    let ghost items = es@.map_values(|e: ReplayEntry| entry_debug(e));
    out.append("[");
    let mut i: usize = 0;
    while i < es.len()
        invariant
            i <= es@.len(),
            items == es@.map_values(|e: ReplayEntry| entry_debug(e)),
            out@ == old(out)@ + "["@ + joined(items.take(i as int)),
        decreases es@.len() - i,
    {
        proof {
            lemma_joined_step(items, i as int);
        }
        if i > 0 {
            out.append(", ");
        }
        out.append("ReplayEntry { seq: ");
        push_decimal(out, es[i].seq);
        out.append(", event: ");
        push_quoted(out, es[i].event.as_str());
        out.append(" }");
        proof {
            reveal_strlit(", ");
            reveal_strlit("ReplayEntry { seq: ");
            reveal_strlit(", event: ");
            reveal_strlit(" }");
            assert(out@ =~= old(out)@ + "["@ + joined(items.take(i + 1)));
        }
        i = i + 1;
    }
    out.append("]");
    proof {
        reveal_strlit("[");
        reveal_strlit("]");
        assert(items.take(es@.len() as int) =~= items);
        assert(out@ =~= old(out)@ + list_debug(items));
    }
}

/// The error text of a failed handshake.
pub open spec fn handshake_error_message(e: HandshakeError) -> Seq<char> {
    match e {
        HandshakeError::Unparsable => "parse server message during handshake"@,
        HandshakeError::AuthFailed { reason } => "auth failed: "@ + reason@,
        HandshakeError::Unexpected(m) => "unexpected message during handshake: "@ + msg_debug(m),
        HandshakeError::Closed { code } => "connection closed during handshake: code "@ + decimal(
            code as nat,
        ),
        HandshakeError::Transport(t) => t@,
        HandshakeError::Ended => "connection closed before Welcome"@,
    }
}

fn push_quoted(out: &mut String, s: &str)
    ensures
        final(out)@ == old(out)@ + debug_quoted(s@),
{
    let q = debug_quote(s);
    out.append(q.as_str());
}

/// The `Debug` text of `m`.
pub fn msg_debug_text(m: &Msg) -> (r: String)
    ensures
        r@ == msg_debug(*m),
{
    let mut out = String::new();
    match m {
        Msg::Hello { key, client_version } => {
            out.append("Hello { key: ");
            push_quoted(&mut out, key.as_str());
            out.append(", client_version: ");
            push_quoted(&mut out, client_version.as_str());
        },
        Msg::Welcome { server_version, workspaces } => {
            out.append("Welcome { server_version: ");
            push_quoted(&mut out, server_version.as_str());
            out.append(", workspaces: ");
            push_workspaces(&mut out, workspaces);
        },
        Msg::AuthFailed { reason } => {
            out.append("AuthFailed { reason: ");
            push_quoted(&mut out, reason.as_str());
        },
        Msg::Ping { ts_ms } => {
            out.append("Ping { ts_ms: ");
            push_decimal(&mut out, *ts_ms);
        },
        Msg::Pong { client_ts_ms, server_ts_ms } => {
            out.append("Pong { client_ts_ms: ");
            push_decimal(&mut out, *client_ts_ms);
            out.append(", server_ts_ms: ");
            push_decimal(&mut out, *server_ts_ms);
        },
        Msg::Send { workspace_id, text, queue_mode } => {
            out.append("Send { workspace_id: ");
            push_decimal(&mut out, *workspace_id);
            out.append(", text: ");
            push_quoted(&mut out, text.as_str());
            out.append(", queue_mode: ");
            push_quoted(&mut out, queue_mode.as_str());
        },
        Msg::Abort { workspace_id } => {
            out.append("Abort { workspace_id: ");
            push_decimal(&mut out, *workspace_id);
        },
        Msg::AgentStatus { workspace_id, status } => {
            out.append("AgentStatus { workspace_id: ");
            push_decimal(&mut out, *workspace_id);
            out.append(", status: ");
            push_quoted(&mut out, status.as_str());
        },
        Msg::Resume { workspace_id, last_seq } => {
            out.append("Resume { workspace_id: ");
            push_decimal(&mut out, *workspace_id);
            out.append(", last_seq: ");
            push_decimal(&mut out, *last_seq);
        },
        Msg::AgentEvent { workspace_id, seq, event } => {
            out.append("AgentEvent { workspace_id: ");
            push_decimal(&mut out, *workspace_id);
            out.append(", seq: ");
            push_decimal(&mut out, *seq);
            out.append(", event: ");
            push_quoted(&mut out, event.as_str());
        },
        Msg::ReplayBatch { workspace_id, events, latest_seq } => {
            out.append("ReplayBatch { workspace_id: ");
            push_decimal(&mut out, *workspace_id);
            out.append(", events: ");
            push_entries(&mut out, events);
            out.append(", latest_seq: ");
            push_decimal(&mut out, *latest_seq);
        },
    }
    out.append(" }");
    proof {
        reveal_strlit("Hello { key: ");
        reveal_strlit(", client_version: ");
        reveal_strlit("Welcome { server_version: ");
        reveal_strlit("AuthFailed { reason: ");
        reveal_strlit("Ping { ts_ms: ");
        reveal_strlit("Pong { client_ts_ms: ");
        reveal_strlit(", server_ts_ms: ");
        reveal_strlit("Send { workspace_id: ");
        reveal_strlit(", text: ");
        reveal_strlit(", queue_mode: ");
        reveal_strlit("Abort { workspace_id: ");
        reveal_strlit("AgentStatus { workspace_id: ");
        reveal_strlit(", status: ");
        reveal_strlit(", workspaces: ");
        reveal_strlit("Resume { workspace_id: ");
        reveal_strlit(", last_seq: ");
        reveal_strlit("AgentEvent { workspace_id: ");
        reveal_strlit(", seq: ");
        reveal_strlit(", event: ");
        reveal_strlit("ReplayBatch { workspace_id: ");
        reveal_strlit(", events: ");
        reveal_strlit(", latest_seq: ");
        reveal_strlit(" }");
        assert(out@ =~= msg_debug(*m));
    }
    out
}

/// The error text of a failed handshake: `auth failed: <reason>` when the
/// server rejected the key, and a description of what arrived otherwise.
pub fn handshake_error_text(e: &HandshakeError) -> (r: String)
    ensures
        r@ == handshake_error_message(*e),
{
    match e {
        HandshakeError::Unparsable => {
            let r = "parse server message during handshake".to_owned();
            proof {
                reveal_strlit("parse server message during handshake");
            }
            r
        },
        HandshakeError::AuthFailed { reason } => {
            let mut r = "auth failed: ".to_owned();
            r.append(reason.as_str());
            proof {
                reveal_strlit("auth failed: ");
            }
            r
        },
        HandshakeError::Unexpected(m) => {
            let mut r = "unexpected message during handshake: ".to_owned();
            let d = msg_debug_text(m);
            r.append(d.as_str());
            proof {
                reveal_strlit("unexpected message during handshake: ");
            }
            r
        },
        HandshakeError::Closed { code } => {
            let mut r = "connection closed during handshake: code ".to_owned();
            push_decimal(&mut r, *code as u64);
            proof {
                reveal_strlit("connection closed during handshake: code ");
            }
            r
        },
        HandshakeError::Transport(t) => t.as_str().to_owned(),
        HandshakeError::Ended => {
            let r = "connection closed before Welcome".to_owned();
            proof {
                reveal_strlit("connection closed before Welcome");
            }
            r
        },
    }
}

/// Heartbeat bookkeeping of an established session: pings sent without a
/// pong since, and whether a ping is awaiting its pong.
pub struct Session {
    missed_pongs: u32,
    pending_ping: bool,
}

/// Something the session loop observed.
pub enum SessionEvent {
    /// A frame from the server.
    Frame(Incoming),
    /// A message the application wants sent.
    Outgoing(Msg),
    /// The application's outgoing channel closed.
    OutgoingClosed,
    /// The ping interval elapsed.
    Tick,
}

/// What the session loop does in response.
pub enum SessionAction {
    /// Hand a server message to the application.
    Deliver(Msg),
    /// Send a message to the server.
    Send(Msg),
    /// Send a `Ping` stamped with the current time.
    SendPing,
    /// Nothing to do.
    Ignore,
    /// End the session with this close information.
    Close(CloseInfo),
}

impl View for Session {
    type V = (u32, bool);

    closed spec fn view(&self) -> (u32, bool) {
        (self.missed_pongs, self.pending_ping)
    }
}

/// The session is still running: fewer than `MAX_MISSED_PONGS` pongs missed.
pub open spec fn session_live(s: (u32, bool)) -> bool {
    s.0 < MAX_MISSED_PONGS
}

/// Heartbeat state after a ping-interval tick.
pub open spec fn after_tick(s: (u32, bool)) -> (u32, bool) {
    if s.1 {
        ((s.0 + 1) as u32, true)
    } else {
        (s.0, true)
    }
}

/// A close action with this code and reason text.
pub open spec fn closes_with(a: SessionAction, code: u16, reason: Seq<char>) -> bool {
    a matches SessionAction::Close(info) && info.code == code && info.reason@ == reason
}

/// The session's response to an event: `s2` is the heartbeat state after
/// `ev` arrived in state `s`, and `a` the action taken.
pub open spec fn session_transition(
    s: (u32, bool),
    ev: SessionEvent,
    s2: (u32, bool),
    a: SessionAction,
) -> bool {
    match ev {
        SessionEvent::Frame(f) => match f {
            Incoming::Message(m) => match m {
                Msg::Pong { .. } => s2 == (0u32, false) && a is Ignore,
                _ => s2 == s && a == SessionAction::Deliver(m),
            },
            Incoming::Unparsable => s2 == s && a is Ignore,
            Incoming::Close(c) => s2 == s && match c {
                Some(info) => a == SessionAction::Close(info),
                None => closes_with(a, 0, Seq::empty()),
            },
            Incoming::Control => s2 == s && a is Ignore,
            Incoming::Error(e) => s2 == s && closes_with(a, 0, e@),
            Incoming::End => s2 == s && closes_with(a, 0, "connection closed"@),
        },
        SessionEvent::Outgoing(m) => s2 == s && a == SessionAction::Send(m),
        SessionEvent::OutgoingClosed => s2 == s && closes_with(a, 1000, "channel closed"@),
        SessionEvent::Tick => s2 == after_tick(s) && if session_live(after_tick(s)) {
            a is SendPing
        } else {
            closes_with(a, 0, "missed pongs"@)
        },
    }
}

impl Session {
    /// A fresh session: nothing missed, no ping outstanding.
    pub fn new() -> (r: Session)
        ensures
            r@ == (0u32, false),
    {
        Session { missed_pongs: 0, pending_ping: false }
    }

    /// Handles one event of a live session. A pong clears the heartbeat
    /// state; each tick sends a ping, after first counting the previous ping
    /// as missed if it is still unanswered; the session closes once
    /// `MAX_MISSED_PONGS` pings went unanswered.
    pub fn step(&mut self, ev: SessionEvent) -> (a: SessionAction)
        requires
            session_live(old(self)@),
        ensures
            session_transition(old(self)@, ev, final(self)@, a),
            !(a is Close) ==> session_live(final(self)@),
    {
        match ev {
            SessionEvent::Frame(f) => match f {
                Incoming::Message(m) => match m {
                    Msg::Pong { .. } => {
                        self.missed_pongs = 0;
                        self.pending_ping = false;
                        SessionAction::Ignore
                    },
                    _ => SessionAction::Deliver(m),
                },
                Incoming::Unparsable => SessionAction::Ignore,
                Incoming::Close(c) => match c {
                    Some(info) => SessionAction::Close(info),
                    None => SessionAction::Close(CloseInfo { code: 0, reason: String::new() }),
                },
                Incoming::Control => SessionAction::Ignore,
                Incoming::Error(e) => SessionAction::Close(CloseInfo { code: 0, reason: e }),
                Incoming::End => SessionAction::Close(
                    CloseInfo { code: 0, reason: "connection closed".to_owned() },
                ),
            },
            SessionEvent::Outgoing(m) => SessionAction::Send(m),
            SessionEvent::OutgoingClosed => SessionAction::Close(
                CloseInfo { code: 1000, reason: "channel closed".to_owned() },
            ),
            SessionEvent::Tick => {
                if self.pending_ping {
                    self.missed_pongs = self.missed_pongs + 1;
                    if self.missed_pongs >= MAX_MISSED_PONGS {
                        return SessionAction::Close(
                            CloseInfo { code: 0, reason: "missed pongs".to_owned() },
                        );
                    }
                }
                self.pending_ping = true;
                SessionAction::SendPing
            },
        }
    }
}

/// Without pongs, a fresh session pings on the first two ticks and closes
/// on the third; a pong at any point starts the count afresh.
pub proof fn law_missed_pongs_close_session()
    ensures
        after_tick((0u32, false)) == (0u32, true),
        session_live(after_tick((0u32, false))),
        after_tick(after_tick((0u32, false))) == (1u32, true),
        session_live(after_tick(after_tick((0u32, false)))),
        !session_live(after_tick(after_tick(after_tick((0u32, false))))),
{
}

/// Reconnect policy: counts failed attempts since the last successful
/// connection.
pub struct Reconnector {
    attempt: u32,
}

impl View for Reconnector {
    type V = u32;

    closed spec fn view(&self) -> u32 {
        self.attempt
    }
}

/// Code and reason of an optional close, defaulting to 0 and
/// "channel closed" when the session ended without one.
pub open spec fn close_reason(c: Option<CloseInfo>) -> Seq<char> {
    match c {
        Some(info) => info.reason@,
        None => "channel closed"@,
    }
}

/// `r` schedules a retry of attempt `attempt`.
pub open spec fn is_retry(r: ConnectionState, attempt: u32) -> bool {
    r matches ConnectionState::Reconnecting { in_seconds } && exists|nanos: u32|
        nanos < 1_000_000_000 && in_seconds == jittered_backoff(attempt, nanos)
}

/// `r` is the terminal failure state with this reason.
pub open spec fn is_failure(r: ConnectionState, reason: Seq<char>) -> bool {
    r matches ConnectionState::Failed { reason: got } && got@ == reason
}

impl Reconnector {
    /// No attempt made yet.
    pub fn new() -> (r: Reconnector)
        ensures
            r@ == 0,
    {
        Reconnector { attempt: 0 }
    }

    /// Number of failed attempts since the last successful connection.
    pub fn attempt(&self) -> (r: u32)
        ensures
            r == self@,
    {
        self.attempt
    }

    /// A connection was established and authenticated: the attempt count
    /// starts over.
    pub fn on_connected(&mut self) -> (r: ConnectionState)
        ensures
            r is Authenticated,
            final(self)@ == 0,
    {
        self.attempt = 0;
        ConnectionState::Authenticated
    }

    /// Schedules the next attempt.
    fn retry(&mut self) -> (r: ConnectionState)
        requires
            old(self)@ < u32::MAX,
        ensures
            is_retry(r, old(self)@),
            final(self)@ == old(self)@ + 1,
    {
        let delay = backoff_secs(self.attempt);
        self.attempt = self.attempt + 1;
        ConnectionState::Reconnecting { in_seconds: delay }
    }

    /// An established session ended. A terminal close code fails for good;
    /// anything else schedules a reconnect.
    pub fn on_disconnected(&mut self, close: Option<CloseInfo>) -> (r: ConnectionState)
        requires
            old(self)@ < u32::MAX,
        ensures
            is_terminal_code(close_code(close)) ==> is_failure(r, close_reason(close))
                && final(self)@ == old(self)@,
            !is_terminal_code(close_code(close)) ==> is_retry(r, old(self)@) && final(self)@
                == old(self)@ + 1,
    {
        let (code, reason) = match close {
            Some(info) => (info.code, info.reason),
            None => (0, "channel closed".to_owned()),
        };
        if terminal_code(code) {
            return ConnectionState::Failed { reason };
        }
        self.retry()
    }

    /// A connection attempt failed with this error text. An auth failure is
    /// final; anything else schedules a reconnect.
    pub fn on_connect_failed(&mut self, reason: String) -> (r: ConnectionState)
        requires
            old(self)@ < u32::MAX,
        ensures
            contains_seq(reason@, "auth failed"@) ==> is_failure(r, reason@) && final(self)@
                == old(self)@,
            !contains_seq(reason@, "auth failed"@) ==> is_retry(r, old(self)@) && final(self)@
                == old(self)@ + 1,
    {
        if contains_str(reason.as_str(), "auth failed") {
            return ConnectionState::Failed { reason };
        }
        self.retry()
    }
}

/// The text of a rejected key always contains `auth failed`, so handing it
/// to [`Reconnector::on_connect_failed`] ends in `Failed` with no retry.
pub proof fn law_auth_failure_is_final(reason: String)
    ensures
        contains_seq(handshake_error_message(HandshakeError::AuthFailed { reason }), "auth failed"@),
{
    reveal_strlit("auth failed: ");
    reveal_strlit("auth failed");
    let t = handshake_error_message(HandshakeError::AuthFailed { reason });
    let n = "auth failed"@;
    let i: int = 0;
    assert(t.subrange(i, i + n.len()) =~= n);
}

/// What one connection attempt of the reconnect loop came to.
pub enum AttemptOutcome {
    /// Connecting or the handshake failed with this error text.
    ConnectFailed(String),
    /// A session was established and later ended, with this close
    /// information if any arrived.
    Disconnected(Option<CloseInfo>),
}

/// After this outcome the loop stops for good.
pub open spec fn outcome_is_final(o: AttemptOutcome) -> bool {
    match o {
        AttemptOutcome::ConnectFailed(t) => contains_seq(t@, "auth failed"@),
        AttemptOutcome::Disconnected(c) => is_terminal_code(close_code(c)),
    }
}

/// One turn of the reconnect loop, as the [`Reconnector`] steps make it:
/// from attempt count `a`, outcome `o` published state `r` and left count
/// `a2`. A session first resets the count (`on_connected`), so its end
/// retries as attempt 0.
pub open spec fn reconnect_step(a: u32, o: AttemptOutcome, r: ConnectionState, a2: u32) -> bool {
    match o {
        AttemptOutcome::ConnectFailed(t) => if contains_seq(t@, "auth failed"@) {
            is_failure(r, t@) && a2 == a
        } else {
            is_retry(r, a) && a2 == a + 1
        },
        AttemptOutcome::Disconnected(c) => if is_terminal_code(close_code(c)) {
            is_failure(r, close_reason(c)) && a2 == 0
        } else {
            is_retry(r, 0) && a2 == 1
        },
    }
}

/// Attempt count before the `i`-th outcome: failures since the last session
/// (whose own end counts as one), from zero at the start.
pub open spec fn attempt_before(os: Seq<AttemptOutcome>, i: int) -> int
    decreases i,
{
    if i <= 0 {
        0
    } else {
        match os[i - 1] {
            AttemptOutcome::ConnectFailed(_) => attempt_before(os, i - 1) + 1,
            AttemptOutcome::Disconnected(_) => 1,
        }
    }
}

/// The attempt whose backoff follows the `i`-th outcome.
pub open spec fn retry_attempt(os: Seq<AttemptOutcome>, i: int) -> int {
    match os[i] {
        AttemptOutcome::ConnectFailed(_) => attempt_before(os, i),
        AttemptOutcome::Disconnected(_) => 0,
    }
}

proof fn lemma_attempts_counted(
    os: Seq<AttemptOutcome>,
    states: Seq<ConnectionState>,
    attempts: Seq<u32>,
    i: int,
)
    requires
        states.len() == os.len(),
        attempts.len() == os.len() + 1,
        attempts[0] == 0,
        forall|j: int|
            0 <= j < os.len() ==> reconnect_step(attempts[j], #[trigger] os[j], states[j], attempts[j + 1]),
        forall|j: int| 0 <= j < os.len() - 1 ==> !outcome_is_final(#[trigger] os[j]),
        0 <= i < os.len(),
    ensures
        attempts[i] == attempt_before(os, i),
    decreases i,
{
    if i > 0 {
        lemma_attempts_counted(os, states, attempts, i - 1);
        assert(reconnect_step(attempts[i - 1], os[i - 1], states[i - 1], attempts[i]));
        assert(!outcome_is_final(os[i - 1]));
    }
}

/// Over a whole run of the reconnect loop — each outcome handled by the
/// [`Reconnector`] steps, the loop stopping at the first final outcome — the
/// attempt count is the number of failures since the last session, every
/// non-final outcome schedules a retry backed off by that count (by zero
/// after a session), and the final outcome, an auth failure or a terminal
/// close code, publishes `Failed`.
pub proof fn law_reconnect_run(
    os: Seq<AttemptOutcome>,
    states: Seq<ConnectionState>,
    attempts: Seq<u32>,
)
    requires
        states.len() == os.len(),
        attempts.len() == os.len() + 1,
        attempts[0] == 0,
        forall|j: int|
            0 <= j < os.len() ==> reconnect_step(attempts[j], #[trigger] os[j], states[j], attempts[j + 1]),
        forall|j: int| 0 <= j < os.len() - 1 ==> !outcome_is_final(#[trigger] os[j]),
    ensures
        forall|i: int| 0 <= i < os.len() ==> #[trigger] attempts[i] == attempt_before(os, i),
        forall|i: int|
            0 <= i < os.len() && !outcome_is_final(#[trigger] os[i]) ==> is_retry(
                states[i],
                retry_attempt(os, i) as u32,
            ),
        forall|i: int|
            0 <= i < os.len() && outcome_is_final(#[trigger] os[i]) ==> states[i] is Failed,
{
    assert forall|i: int| 0 <= i < os.len() implies #[trigger] attempts[i] == attempt_before(os, i) by {
        lemma_attempts_counted(os, states, attempts, i);
    }
    assert forall|i: int|
        0 <= i < os.len() && !outcome_is_final(#[trigger] os[i]) implies is_retry(
            states[i],
            retry_attempt(os, i) as u32,
        ) by {
        lemma_attempts_counted(os, states, attempts, i);
        assert(reconnect_step(attempts[i], os[i], states[i], attempts[i + 1]));
    }
    assert forall|i: int| 0 <= i < os.len() && outcome_is_final(#[trigger] os[i]) implies states[i] is Failed by {
        assert(reconnect_step(attempts[i], os[i], states[i], attempts[i + 1]));
    }
}

/// After a successful connection the next retry waits one second.
pub proof fn law_first_retry_after_success(r: ConnectionState)
    requires
        is_retry(r, 0),
    ensures
        r matches ConnectionState::Reconnecting { in_seconds } && in_seconds == 1,
{
    let nanos = choose|nanos: u32| nanos < 1_000_000_000 && r->in_seconds == jittered_backoff(0, nanos);
    law_backoff_bounds(0, nanos);
}


} // verus!
