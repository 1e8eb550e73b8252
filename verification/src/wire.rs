//! Canonical encodings of the protocol messages.
//!
//! Each message kind encodes to a JSON object with a `type` discriminator.
//! The decoders accept exactly the canonical form the encoders produce:
//! decoding returns `Some` precisely on canonical encodings, and then the
//! returned value's encoding is the input, so the two directions round-trip.

use vstd::prelude::*;

use crate::codec::esc;
use crate::codec::is_digit;
use crate::codec::lemma_canonical_digits;
use crate::codec::lemma_dec_props;
use crate::codec::lemma_run_digits;
use crate::codec::lemma_sparse_num_complete;
use crate::codec::lemma_sparse_str_complete;
use crate::codec::lemma_sparse_str_sound;
use crate::codec::parse_jstring;
use crate::codec::parse_u64;
use crate::codec::push_escaped;
use crate::codec::push_u64;
use crate::codec::seq_val;
use crate::codec::sparse_num;
use crate::codec::sparse_str;
use crate::codec::spec_dec;
use crate::codec::digit_run_end;
use crate::events::StateEvent;
use crate::protocol::Mode;
use crate::protocol::Request;
use crate::protocol::Response;
use crate::protocol::DaemonStatus;
use crate::protocol::Notification;

verus! {

// ---------------------------------------------------------------------------
// Literal helpers
// ---------------------------------------------------------------------------

/// Whether `lit` occurs in `s` starting at position `i`.
fn match_lit(s: &str, i: usize, lit: &str) -> (b: bool)
    requires
        i <= s@.len(),
    ensures
        b == (i + lit@.len() <= s@.len() && s@.subrange(i as int, i + lit@.len()) == lit@),
{
    let sl: usize = s.unicode_len();
    let ll: usize = lit.unicode_len();
    if ll > sl - i {
        return false;
    }
    let mut k: usize = 0;
    while k < ll
        invariant
            i + ll <= sl,
            sl as nat == s@.len(),
            ll as nat == lit@.len(),
            k <= ll,
            forall|t: int| 0 <= t < k ==> s@[i + t] == #[trigger] lit@[t],
        decreases ll - k,
    {
        if s.get_char(i + k) != lit.get_char(k) {
            proof {
                assert(s@.subrange(i as int, i + lit@.len())[k as int] == s@[i + k]);
            }
            return false;
        }
        k = k + 1;
    }
    proof {
        assert(s@.subrange(i as int, i + lit@.len()) =~= lit@);
    }
    true
}

/// Whether `s` is exactly `lit`.
fn eq_lit(s: &str, lit: &str) -> (b: bool)
    ensures
        b == (s@ == lit@),
{
    let sl: usize = s.unicode_len();
    let ll: usize = lit.unicode_len();
    if sl != ll {
        return false;
    }
    let m = match_lit(s, 0, lit);
    proof {
        assert(s@.subrange(0, s@.len() as int) =~= s@);
    }
    m
}

/// A prefix of a known piece of the input is itself a known piece.
proof fn lemma_prefix_trans(s: Seq<char>, i: int, w: Seq<char>, p: Seq<char>)
    requires
        0 <= i,
        i + w.len() <= s.len(),
        s.subrange(i, i + w.len()) == w,
        p.len() <= w.len(),
        p == w.subrange(0, p.len() as int),
    ensures
        i + p.len() <= s.len(),
        s.subrange(i, i + p.len()) == p,
{
    assert forall|k: int| 0 <= k < p.len() implies s.subrange(i, i + p.len())[k] == p[k] by {
        assert(s.subrange(i, i + w.len())[k] == s[i + k]);
        assert(s.subrange(i, i + p.len())[k] == s[i + k]);
        assert(w.subrange(0, p.len() as int)[k] == w[k]);
    }
    assert(s.subrange(i, i + p.len()) =~= p);
}

/// A sub-piece of a known piece of the input is itself a known piece.
proof fn lemma_sub_sub(s: Seq<char>, i: int, w: Seq<char>, a: int, b: int)
    requires
        0 <= i,
        i + w.len() <= s.len(),
        s.subrange(i, i + w.len()) == w,
        0 <= a <= b <= w.len(),
    ensures
        s.subrange(i + a, i + b) == w.subrange(a, b),
{
    assert forall|k: int| 0 <= k < b - a implies s.subrange(i + a, i + b)[k] == w.subrange(a, b)[k]
        by {
        assert(s.subrange(i, i + w.len())[a + k] == s[i + a + k]);
        assert(s.subrange(i + a, i + b)[k] == s[i + a + k]);
    }
    assert(s.subrange(i + a, i + b) =~= w.subrange(a, b));
}

/// A single position of a known piece of the input is known.
proof fn lemma_at(s: Seq<char>, i: int, w: Seq<char>, k: int)
    requires
        0 <= i,
        i + w.len() <= s.len(),
        s.subrange(i, i + w.len()) == w,
        0 <= k < w.len(),
    ensures
        s[i + k] == w[k],
{
    assert(s.subrange(i, i + w.len())[k] == s[i + k]);
}

// ---------------------------------------------------------------------------
// State events
// ---------------------------------------------------------------------------

/// The canonical encoding of a lifecycle event.
pub open spec fn spec_enc_state_event(e: StateEvent) -> Seq<char> {
    match e {
        StateEvent::DictationStarted => "{\"type\":\"dictation_started\"}"@,
        StateEvent::DictationComplete { duration_ms } => (
        "{\"type\":\"dictation_complete\",\"duration_ms\":"@ + spec_dec(duration_ms as nat)
            + "}"@),
        StateEvent::IntelligentStarted => "{\"type\":\"intelligent_started\"}"@,
        StateEvent::IntelligentRequestComplete { duration_ms } => (
        "{\"type\":\"intelligent_request_complete\",\"duration_ms\":"@ + spec_dec(
            duration_ms as nat,
        ) + "}"@),
        StateEvent::AgentModeEntered => "{\"type\":\"agent_mode_entered\"}"@,
        StateEvent::AgentModeExited { duration_ms } => (
        "{\"type\":\"agent_mode_exited\",\"duration_ms\":"@ + spec_dec(duration_ms as nat)
            + "}"@),
        StateEvent::AudioCaptureStarted => "{\"type\":\"audio_capture_started\"}"@,
        StateEvent::AudioCaptureStopped => "{\"type\":\"audio_capture_stopped\"}"@,
    }
}

/// Reveal every literal used by the state event encoding.
proof fn reveal_event_literals()
    ensures
        "{\"type\":\"dictation_started\"}"@.len() == 28,
        "{\"type\":\"dictation_complete\",\"duration_ms\":"@.len() == 43,
        "{\"type\":\"intelligent_started\"}"@.len() == 30,
        "{\"type\":\"intelligent_request_complete\",\"duration_ms\":"@.len() == 53,
        "{\"type\":\"agent_mode_entered\"}"@.len() == 29,
        "{\"type\":\"agent_mode_exited\",\"duration_ms\":"@.len() == 42,
        "{\"type\":\"audio_capture_started\"}"@.len() == 32,
        "{\"type\":\"audio_capture_stopped\"}"@.len() == 32,
        "}"@.len() == 1,
        "}"@[0] == '}',
{
    reveal_strlit("{\"type\":\"dictation_started\"}");
    reveal_strlit("{\"type\":\"dictation_complete\",\"duration_ms\":");
    reveal_strlit("{\"type\":\"intelligent_started\"}");
    reveal_strlit("{\"type\":\"intelligent_request_complete\",\"duration_ms\":");
    reveal_strlit("{\"type\":\"agent_mode_entered\"}");
    reveal_strlit("{\"type\":\"agent_mode_exited\",\"duration_ms\":");
    reveal_strlit("{\"type\":\"audio_capture_started\"}");
    reveal_strlit("{\"type\":\"audio_capture_stopped\"}");
    reveal_strlit("}");
}

/// Characters that tell the event encodings apart.
proof fn lemma_event_discriminators(e: StateEvent)
    ensures
        spec_enc_state_event(e).len() > 25,
        e is DictationStarted ==> spec_enc_state_event(e)[9] == 'd' && spec_enc_state_event(
            e,
        )[10] == 'i' && spec_enc_state_event(e)[19] == 's',
        e is DictationComplete ==> spec_enc_state_event(e)[9] == 'd' && spec_enc_state_event(
            e,
        )[10] == 'i' && spec_enc_state_event(e)[19] == 'c',
        e is IntelligentStarted ==> spec_enc_state_event(e)[9] == 'i' && spec_enc_state_event(
            e,
        )[21] == 's',
        e is IntelligentRequestComplete ==> spec_enc_state_event(e)[9] == 'i'
            && spec_enc_state_event(e)[21] == 'r',
        e is AgentModeEntered ==> spec_enc_state_event(e)[9] == 'a' && spec_enc_state_event(
            e,
        )[10] == 'g' && spec_enc_state_event(e)[21] == 'n',
        e is AgentModeExited ==> spec_enc_state_event(e)[9] == 'a' && spec_enc_state_event(
            e,
        )[10] == 'g' && spec_enc_state_event(e)[21] == 'x',
        e is AudioCaptureStarted ==> spec_enc_state_event(e)[9] == 'a' && spec_enc_state_event(
            e,
        )[10] == 'u' && spec_enc_state_event(e)[25] == 'a',
        e is AudioCaptureStopped ==> spec_enc_state_event(e)[9] == 'a' && spec_enc_state_event(
            e,
        )[10] == 'u' && spec_enc_state_event(e)[25] == 'o',
{
    reveal_strlit("{\"type\":\"dictation_started\"}");
    reveal_strlit("{\"type\":\"dictation_complete\",\"duration_ms\":");
    reveal_strlit("{\"type\":\"intelligent_started\"}");
    reveal_strlit("{\"type\":\"intelligent_request_complete\",\"duration_ms\":");
    reveal_strlit("{\"type\":\"agent_mode_entered\"}");
    reveal_strlit("{\"type\":\"agent_mode_exited\",\"duration_ms\":");
    reveal_strlit("{\"type\":\"audio_capture_started\"}");
    reveal_strlit("{\"type\":\"audio_capture_stopped\"}");
    match e {
        StateEvent::DictationComplete { duration_ms } => {
            lemma_dec_props(duration_ms as nat);
        },
        StateEvent::IntelligentRequestComplete { duration_ms } => {
            lemma_dec_props(duration_ms as nat);
        },
        StateEvent::AgentModeExited { duration_ms } => {
            lemma_dec_props(duration_ms as nat);
        },
        _ => {},
    }
}

/// Two event encodings that both start at the same position of the same
/// input are encodings of the same event.
pub proof fn lemma_event_prefix_unique(s: Seq<char>, i: int, a: StateEvent, b: StateEvent)
    requires
        0 <= i,
        i + spec_enc_state_event(a).len() <= s.len(),
        s.subrange(i, i + spec_enc_state_event(a).len()) == spec_enc_state_event(a),
        i + spec_enc_state_event(b).len() <= s.len(),
        s.subrange(i, i + spec_enc_state_event(b).len()) == spec_enc_state_event(b),
    ensures
        a == b,
{
    reveal_event_literals();
    lemma_event_discriminators(a);
    lemma_event_discriminators(b);
    let ea = spec_enc_state_event(a);
    let eb = spec_enc_state_event(b);
    assert(s[i + 9] == ea[9] && s[i + 10] == ea[10] && s[i + 19] == ea[19] && s[i + 21] == ea[21]
        && s[i + 25] == ea[25]) by {
        lemma_at(s, i, ea, 9);
        lemma_at(s, i, ea, 10);
        lemma_at(s, i, ea, 19);
        lemma_at(s, i, ea, 21);
        lemma_at(s, i, ea, 25);
    }
    assert(s[i + 9] == eb[9] && s[i + 10] == eb[10] && s[i + 19] == eb[19] && s[i + 21] == eb[21]
        && s[i + 25] == eb[25]) by {
        lemma_at(s, i, eb, 9);
        lemma_at(s, i, eb, 10);
        lemma_at(s, i, eb, 19);
        lemma_at(s, i, eb, 21);
        lemma_at(s, i, eb, 25);
    }
    match (a, b) {
        (
            StateEvent::DictationComplete { duration_ms: n },
            StateEvent::DictationComplete { duration_ms: m },
        ) => {
            lemma_numeric_payload_unique(s, i, "{\"type\":\"dictation_complete\",\"duration_ms\":"@, n, m);
        },
        (
            StateEvent::IntelligentRequestComplete { duration_ms: n },
            StateEvent::IntelligentRequestComplete { duration_ms: m },
        ) => {
            lemma_numeric_payload_unique(
                s,
                i,
                "{\"type\":\"intelligent_request_complete\",\"duration_ms\":"@,
                n,
                m,
            );
        },
        (
            StateEvent::AgentModeExited { duration_ms: n },
            StateEvent::AgentModeExited { duration_ms: m },
        ) => {
            lemma_numeric_payload_unique(s, i, "{\"type\":\"agent_mode_exited\",\"duration_ms\":"@, n, m);
        },
        _ => {},
    }
}

/// Two decimal payloads that both follow the same prefix at the same
/// position of the same input, each closed by a brace, are the same number.
proof fn lemma_numeric_payload_unique(s: Seq<char>, i: int, p: Seq<char>, n: u64, m: u64)
    requires
        0 <= i,
        i + p.len() + spec_dec(n as nat).len() + 1 <= s.len(),
        s.subrange(i, i + p.len() + spec_dec(n as nat).len() + 1) == p + spec_dec(n as nat)
            + "}"@,
        i + p.len() + spec_dec(m as nat).len() + 1 <= s.len(),
        s.subrange(i, i + p.len() + spec_dec(m as nat).len() + 1) == p + spec_dec(m as nat)
            + "}"@,
        "}"@.len() == 1 && "}"@[0] == '}',
    ensures
        n == m,
{
    lemma_numeric_payload_parse(s, i, p, n);
    lemma_numeric_payload_parse(s, i, p, m);
}

/// A decimal payload following a prefix and closed by a brace is found by
/// the number parser.
proof fn lemma_numeric_payload_parse(s: Seq<char>, i: int, p: Seq<char>, n: u64)
    requires
        0 <= i,
        i + p.len() + spec_dec(n as nat).len() + 1 <= s.len(),
        s.subrange(i, i + p.len() + spec_dec(n as nat).len() + 1) == p + spec_dec(n as nat)
            + "}"@,
        "}"@.len() == 1 && "}"@[0] == '}',
    ensures
        sparse_num(s, i + p.len()) == Some((n, i + p.len() + spec_dec(n as nat).len())),
        s[i + p.len() + spec_dec(n as nat).len()] == '}',
{
    let w = p + spec_dec(n as nat) + "}"@;
    let dl = spec_dec(n as nat).len() as int;
    lemma_dec_props(n as nat);
    lemma_sub_sub(s, i, w, p.len() as int, p.len() + dl);
    assert(w.subrange(p.len() as int, p.len() + dl) =~= spec_dec(n as nat));
    lemma_at(s, i, w, p.len() + dl);
    assert(w[p.len() + dl] == '}');
    assert(!is_digit('}'));
    lemma_sparse_num_complete(s, i + p.len(), n);
}

/// Encode a lifecycle event.
pub fn encode_state_event(e: &StateEvent) -> (r: String)
    ensures
        r@ == spec_enc_state_event(*e),
{
    let mut out = String::new();
    match e {
        StateEvent::DictationStarted => out.append("{\"type\":\"dictation_started\"}"),
        StateEvent::DictationComplete { duration_ms } => {
            out.append("{\"type\":\"dictation_complete\",\"duration_ms\":");
            push_u64(&mut out, *duration_ms);
            out.append("}");
        },
        StateEvent::IntelligentStarted => out.append("{\"type\":\"intelligent_started\"}"),
        StateEvent::IntelligentRequestComplete { duration_ms } => {
            out.append("{\"type\":\"intelligent_request_complete\",\"duration_ms\":");
            push_u64(&mut out, *duration_ms);
            out.append("}");
        },
        StateEvent::AgentModeEntered => out.append("{\"type\":\"agent_mode_entered\"}"),
        StateEvent::AgentModeExited { duration_ms } => {
            out.append("{\"type\":\"agent_mode_exited\",\"duration_ms\":");
            push_u64(&mut out, *duration_ms);
            out.append("}");
        },
        StateEvent::AudioCaptureStarted => out.append("{\"type\":\"audio_capture_started\"}"),
        StateEvent::AudioCaptureStopped => out.append("{\"type\":\"audio_capture_stopped\"}"),
    }
    proof {
        assert(out@ =~= spec_enc_state_event(*e));
    }
    out
}

/// Whether the encoding of some event occurs in `s` at position `i`.
pub open spec fn event_at(s: Seq<char>, i: int, e: StateEvent) -> bool {
    &&& i + spec_enc_state_event(e).len() <= s.len()
    &&& s.subrange(i, i + spec_enc_state_event(e).len()) == spec_enc_state_event(e)
}

/// Parse one encoded lifecycle event starting at `i`, returning the event
/// and the position just after its closing brace.  Succeeds exactly where
/// the canonical encoding of some event occurs.
pub fn parse_event(s: &str, i: usize) -> (r: Option<(StateEvent, usize)>)
    requires
        i <= s@.len(),
    ensures
        r matches Some((e, j)) ==> i < j <= s@.len() && s@.subrange(i as int, j as int)
            == spec_enc_state_event(e),
        forall|e2: StateEvent|
            #![trigger spec_enc_state_event(e2)]
            event_at(s@, i as int, e2) ==> (r matches Some((e, j)) && e == e2 && j == i
                + spec_enc_state_event(e2).len()),
{
    let sl: usize = s.unicode_len();
    proof {
        reveal_event_literals();
    }
    if match_lit(s, i, "{\"type\":\"dictation_started\"}") {
        let j = i + "{\"type\":\"dictation_started\"}".unicode_len();
        proof {
            event_some_return(s@, i as int, StateEvent::DictationStarted);
        }
        return Some((StateEvent::DictationStarted, j));
    }
    if match_lit(s, i, "{\"type\":\"intelligent_started\"}") {
        let j = i + "{\"type\":\"intelligent_started\"}".unicode_len();
        proof {
            event_some_return(s@, i as int, StateEvent::IntelligentStarted);
        }
        return Some((StateEvent::IntelligentStarted, j));
    }
    if match_lit(s, i, "{\"type\":\"agent_mode_entered\"}") {
        let j = i + "{\"type\":\"agent_mode_entered\"}".unicode_len();
        proof {
            event_some_return(s@, i as int, StateEvent::AgentModeEntered);
        }
        return Some((StateEvent::AgentModeEntered, j));
    }
    if match_lit(s, i, "{\"type\":\"audio_capture_started\"}") {
        let j = i + "{\"type\":\"audio_capture_started\"}".unicode_len();
        proof {
            event_some_return(s@, i as int, StateEvent::AudioCaptureStarted);
        }
        return Some((StateEvent::AudioCaptureStarted, j));
    }
    if match_lit(s, i, "{\"type\":\"audio_capture_stopped\"}") {
        let j = i + "{\"type\":\"audio_capture_stopped\"}".unicode_len();
        proof {
            event_some_return(s@, i as int, StateEvent::AudioCaptureStopped);
        }
        return Some((StateEvent::AudioCaptureStopped, j));
    }
    if match_lit(s, i, "{\"type\":\"dictation_complete\",\"duration_ms\":") {
        let plen = "{\"type\":\"dictation_complete\",\"duration_ms\":".unicode_len();
        return finish_numeric_event(s, i, plen, 0);
    }
    if match_lit(s, i, "{\"type\":\"intelligent_request_complete\",\"duration_ms\":") {
        let plen = "{\"type\":\"intelligent_request_complete\",\"duration_ms\":".unicode_len();
        return finish_numeric_event(s, i, plen, 1);
    }
    if match_lit(s, i, "{\"type\":\"agent_mode_exited\",\"duration_ms\":") {
        let plen = "{\"type\":\"agent_mode_exited\",\"duration_ms\":".unicode_len();
        return finish_numeric_event(s, i, plen, 2);
    }
    proof {
        assert forall|e2: StateEvent| #![trigger spec_enc_state_event(e2)]
            event_at(s@, i as int, e2) implies false by {
            event_refute_unmatched(s@, i as int, e2);
        }
    }
    None
}

/// The events whose encodings begin with a fixed numeric prefix, by the
/// index `finish_numeric_event` is called with.
spec fn numeric_event(which: u8, duration_ms: u64) -> StateEvent {
    if which == 0 {
        StateEvent::DictationComplete { duration_ms }
    } else if which == 1 {
        StateEvent::IntelligentRequestComplete { duration_ms }
    } else {
        StateEvent::AgentModeExited { duration_ms }
    }
}

/// The numeric prefix for `which`.
spec fn numeric_prefix(which: u8) -> Seq<char> {
    if which == 0 {
        "{\"type\":\"dictation_complete\",\"duration_ms\":"@
    } else if which == 1 {
        "{\"type\":\"intelligent_request_complete\",\"duration_ms\":"@
    } else {
        "{\"type\":\"agent_mode_exited\",\"duration_ms\":"@
    }
}

/// Shared tail of the numeric event branches: parse the duration and the
/// closing brace after a matched prefix.
#[verifier::rlimit(30)]
fn finish_numeric_event(s: &str, i: usize, plen: usize, which: u8) -> (r: Option<
    (StateEvent, usize),
>)
    requires
        which < 3,
        i <= s@.len(),
        plen as nat == numeric_prefix(which).len(),
        i + numeric_prefix(which).len() <= s@.len(),
        s@.subrange(i as int, i + numeric_prefix(which).len()) == numeric_prefix(which),
    ensures
        r matches Some((e, j)) ==> i < j <= s@.len() && s@.subrange(i as int, j as int)
            == spec_enc_state_event(e),
        forall|e2: StateEvent|
            #![trigger spec_enc_state_event(e2)]
            event_at(s@, i as int, e2) ==> (r matches Some((e, j)) && e == e2 && j == i
                + spec_enc_state_event(e2).len()),
{
    proof {
        reveal_event_literals();
    }
    let sl: usize = s.unicode_len();
    let num_at = i + plen;
    match parse_u64(s, num_at) {
        Some((n, j)) => {
            if j < sl && s.get_char(j) == '}' {
                let e: StateEvent = if which == 0 {
                    StateEvent::DictationComplete { duration_ms: n }
                } else if which == 1 {
                    StateEvent::IntelligentRequestComplete { duration_ms: n }
                } else {
                    StateEvent::AgentModeExited { duration_ms: n }
                };
                proof {
                    numeric_event_sound(s@, i as int, which, n, j as int);
                    event_some_return(s@, i as int, numeric_event(which, n));
                }
                return Some((e, j + 1));
            }
            proof {
                assert forall|e2: StateEvent| #![trigger spec_enc_state_event(e2)]
                    event_at(s@, i as int, e2) implies false by {
                    numeric_event_refute(s@, i as int, which, e2);
                    let m = spec_enc_payload(e2);
                    lemma_numeric_payload_parse(s@, i as int, numeric_prefix(which), m);
                    assert(j as int == i + plen + spec_dec(m as nat).len());
                    assert(s@[j as int] == '}');
                    assert(j < s@.len());
                }
            }
            None
        },
        None => {
            proof {
                assert forall|e2: StateEvent| #![trigger spec_enc_state_event(e2)]
                    event_at(s@, i as int, e2) implies false by {
                    numeric_event_refute(s@, i as int, which, e2);
                    let m = spec_enc_payload(e2);
                    lemma_numeric_payload_parse(s@, i as int, numeric_prefix(which), m);
                }
            }
            None
        },
    }
}

/// The duration carried by a numeric event (0 for the others).
spec fn spec_enc_payload(e: StateEvent) -> u64 {
    match e {
        StateEvent::DictationComplete { duration_ms } => duration_ms,
        StateEvent::IntelligentRequestComplete { duration_ms } => duration_ms,
        StateEvent::AgentModeExited { duration_ms } => duration_ms,
        _ => 0,
    }
}

/// In a numeric branch, any event whose encoding occurs here must be the
/// branch's own variant.
proof fn numeric_event_refute(s: Seq<char>, i: int, which: u8, e2: StateEvent)
    requires
        which < 3,
        0 <= i,
        i + numeric_prefix(which).len() <= s.len(),
        s.subrange(i, i + numeric_prefix(which).len()) == numeric_prefix(which),
        event_at(s, i, e2),
    ensures
        numeric_event(which, spec_enc_payload(e2)) == e2,
        event_at(s, i, numeric_event(which, spec_enc_payload(e2))),
{
    reveal_strlit("{\"type\":\"dictation_complete\",\"duration_ms\":");
    reveal_strlit("{\"type\":\"intelligent_request_complete\",\"duration_ms\":");
    reveal_strlit("{\"type\":\"agent_mode_exited\",\"duration_ms\":");
    lemma_event_discriminators(e2);
    let w = spec_enc_state_event(e2);
    lemma_at(s, i, w, 9);
    lemma_at(s, i, w, 10);
    lemma_at(s, i, w, 19);
    lemma_at(s, i, w, 21);
    let p = numeric_prefix(which);
    lemma_at(s, i, p, 9);
    lemma_at(s, i, p, 10);
    lemma_at(s, i, p, 19);
    lemma_at(s, i, p, 21);
}

/// In a numeric branch, a successfully parsed duration and closing brace
/// yield the canonical encoding of the branch's event.
proof fn numeric_event_sound(s: Seq<char>, i: int, which: u8, n: u64, j: int)
    requires
        which < 3,
        0 <= i,
        i + numeric_prefix(which).len() <= s.len(),
        s.subrange(i, i + numeric_prefix(which).len()) == numeric_prefix(which),
        sparse_num(s, i + numeric_prefix(which).len()) == Some((n, j)),
        j < s.len(),
        s[j] == '}',
    ensures
        event_at(s, i, numeric_event(which, n)),
        i + spec_enc_state_event(numeric_event(which, n)).len() == j + 1,
{
    reveal_event_literals();
    let p = numeric_prefix(which);
    let e = digit_run_end(s, i + p.len());
    lemma_run_digits(s, i + p.len());
    let ds = s.subrange(i + p.len(), e);
    assert(forall|k: int| 0 <= k < ds.len() ==> is_digit(#[trigger] ds[k])) by {
        assert(forall|k: int|
            0 <= k < ds.len() ==> #[trigger] ds[k] == s[i + p.len() + k] && is_digit(
                s[i + p.len() + k],
            ));
    }
    lemma_canonical_digits(ds);
    assert(seq_val(ds) == n as int);
    assert(spec_dec(n as nat) == ds);
    lemma_dec_props(n as nat);
    let w = spec_enc_state_event(numeric_event(which, n));
    assert(w == p + spec_dec(n as nat) + "}"@);
    assert(s.subrange(i, j + 1) =~= w) by {
        assert(forall|k: int|
            0 <= k < p.len() ==> #[trigger] s.subrange(i, i + p.len() as int)[k] == s[i + k]);
        assert(forall|k: int| 0 <= k < ds.len() ==> #[trigger] ds[k] == s[i + p.len() + k]);
    }
}

/// At a successful return, the parsed event is the only one whose encoding
/// occurs at this position.
proof fn event_some_return(s: Seq<char>, i: int, e: StateEvent)
    requires
        0 <= i,
        event_at(s, i, e),
    ensures
        forall|e2: StateEvent|
            #![trigger spec_enc_state_event(e2)]
            event_at(s, i, e2) ==> e2 == e && spec_enc_state_event(e2).len()
                == spec_enc_state_event(e).len(),
{
    assert forall|e2: StateEvent| #![trigger spec_enc_state_event(e2)]
        event_at(s, i, e2) implies e2 == e && spec_enc_state_event(e2).len()
        == spec_enc_state_event(e).len() by {
        lemma_event_prefix_unique(s, i, e, e2);
    }
}

/// When no branch matched, no event encoding occurs at this position.
proof fn event_refute_unmatched(s: Seq<char>, i: int, e2: StateEvent)
    requires
        0 <= i,
        !(i + "{\"type\":\"dictation_started\"}"@.len() <= s.len() && s.subrange(
            i,
            i + "{\"type\":\"dictation_started\"}"@.len(),
        ) == "{\"type\":\"dictation_started\"}"@),
        !(i + "{\"type\":\"intelligent_started\"}"@.len() <= s.len() && s.subrange(
            i,
            i + "{\"type\":\"intelligent_started\"}"@.len(),
        ) == "{\"type\":\"intelligent_started\"}"@),
        !(i + "{\"type\":\"agent_mode_entered\"}"@.len() <= s.len() && s.subrange(
            i,
            i + "{\"type\":\"agent_mode_entered\"}"@.len(),
        ) == "{\"type\":\"agent_mode_entered\"}"@),
        !(i + "{\"type\":\"audio_capture_started\"}"@.len() <= s.len() && s.subrange(
            i,
            i + "{\"type\":\"audio_capture_started\"}"@.len(),
        ) == "{\"type\":\"audio_capture_started\"}"@),
        !(i + "{\"type\":\"audio_capture_stopped\"}"@.len() <= s.len() && s.subrange(
            i,
            i + "{\"type\":\"audio_capture_stopped\"}"@.len(),
        ) == "{\"type\":\"audio_capture_stopped\"}"@),
        !(i + "{\"type\":\"dictation_complete\",\"duration_ms\":"@.len() <= s.len() && s.subrange(
            i,
            i + "{\"type\":\"dictation_complete\",\"duration_ms\":"@.len(),
        ) == "{\"type\":\"dictation_complete\",\"duration_ms\":"@),
        !(i + "{\"type\":\"intelligent_request_complete\",\"duration_ms\":"@.len() <= s.len()
            && s.subrange(
            i,
            i + "{\"type\":\"intelligent_request_complete\",\"duration_ms\":"@.len(),
        ) == "{\"type\":\"intelligent_request_complete\",\"duration_ms\":"@),
        !(i + "{\"type\":\"agent_mode_exited\",\"duration_ms\":"@.len() <= s.len() && s.subrange(
            i,
            i + "{\"type\":\"agent_mode_exited\",\"duration_ms\":"@.len(),
        ) == "{\"type\":\"agent_mode_exited\",\"duration_ms\":"@),
    ensures
        !event_at(s, i, e2),
{
    reveal_event_literals();
    if event_at(s, i, e2) {
        let w = spec_enc_state_event(e2);
        match e2 {
            StateEvent::DictationComplete { duration_ms } => {
                lemma_dec_props(duration_ms as nat);
                let p = "{\"type\":\"dictation_complete\",\"duration_ms\":"@;
                assert(p =~= w.subrange(0, p.len() as int));
                lemma_prefix_trans(s, i, w, p);
            },
            StateEvent::IntelligentRequestComplete { duration_ms } => {
                lemma_dec_props(duration_ms as nat);
                let p = "{\"type\":\"intelligent_request_complete\",\"duration_ms\":"@;
                assert(p =~= w.subrange(0, p.len() as int));
                lemma_prefix_trans(s, i, w, p);
            },
            StateEvent::AgentModeExited { duration_ms } => {
                lemma_dec_props(duration_ms as nat);
                let p = "{\"type\":\"agent_mode_exited\",\"duration_ms\":"@;
                assert(p =~= w.subrange(0, p.len() as int));
                lemma_prefix_trans(s, i, w, p);
            },
            _ => {},
        }
    }
}

/// Decode a whole input as one lifecycle event.
pub fn decode_state_event(s: &str) -> (r: Option<StateEvent>)
    ensures
        r matches Some(e) ==> s@ == spec_enc_state_event(e),
        forall|e2: StateEvent|
            #![trigger spec_enc_state_event(e2)]
            s@ == spec_enc_state_event(e2) ==> r == Some(e2),
{
    let n: usize = s.unicode_len();
    proof {
        assert forall|e2: StateEvent| #![trigger spec_enc_state_event(e2)]
            s@ == spec_enc_state_event(e2) implies event_at(s@, 0, e2) by {
            assert(s@.subrange(0, s@.len() as int) =~= s@);
        }
    }
    match parse_event(s, 0) {
        Some((e, j)) => {
            if j == n {
                proof {
                    assert(s@.subrange(0, s@.len() as int) =~= s@);
                }
                Some(e)
            } else {
                None
            }
        },
        None => None,
    }
}

/// Encoding lifecycle events is injective.
pub proof fn lemma_enc_state_event_injective(a: StateEvent, b: StateEvent)
    requires
        spec_enc_state_event(a) == spec_enc_state_event(b),
    ensures
        a == b,
{
    let w = spec_enc_state_event(a);
    assert(w.subrange(0, w.len() as int) =~= w);
    lemma_event_prefix_unique(w, 0, a, b);
}

// ---------------------------------------------------------------------------
// Requests
// ---------------------------------------------------------------------------

/// The canonical encoding of a request.
pub open spec fn spec_enc_request(r: Request) -> Seq<char> {
    match r {
        Request::GetStatus => "{\"type\":\"get_status\"}"@,
        Request::SetMode { mode } => match mode {
            Mode::Idle => "{\"type\":\"set_mode\",\"mode\":\"idle\"}"@,
            Mode::Dictation => "{\"type\":\"set_mode\",\"mode\":\"dictation\"}"@,
            Mode::Intelligent => "{\"type\":\"set_mode\",\"mode\":\"intelligent\"}"@,
            Mode::Agent => "{\"type\":\"set_mode\",\"mode\":\"agent\"}"@,
        },
        Request::Ping => "{\"type\":\"ping\"}"@,
        Request::Subscribe => "{\"type\":\"subscribe\"}"@,
    }
}

/// Reveal every literal used by the request encoding; they all have
/// different lengths.
proof fn reveal_request_literals()
    ensures
        "{\"type\":\"get_status\"}"@.len() == 21,
        "{\"type\":\"set_mode\",\"mode\":\"idle\"}"@.len() == 33,
        "{\"type\":\"set_mode\",\"mode\":\"dictation\"}"@.len() == 38,
        "{\"type\":\"set_mode\",\"mode\":\"intelligent\"}"@.len() == 40,
        "{\"type\":\"set_mode\",\"mode\":\"agent\"}"@.len() == 34,
        "{\"type\":\"ping\"}"@.len() == 15,
        "{\"type\":\"subscribe\"}"@.len() == 20,
{
    reveal_strlit("{\"type\":\"get_status\"}");
    reveal_strlit("{\"type\":\"set_mode\",\"mode\":\"idle\"}");
    reveal_strlit("{\"type\":\"set_mode\",\"mode\":\"dictation\"}");
    reveal_strlit("{\"type\":\"set_mode\",\"mode\":\"intelligent\"}");
    reveal_strlit("{\"type\":\"set_mode\",\"mode\":\"agent\"}");
    reveal_strlit("{\"type\":\"ping\"}");
    reveal_strlit("{\"type\":\"subscribe\"}");
}

/// Encoding requests is injective.
pub proof fn lemma_enc_request_injective(a: Request, b: Request)
    requires
        spec_enc_request(a) == spec_enc_request(b),
    ensures
        a == b,
{
    reveal_request_literals();
}

/// Encode a request.
pub fn encode_request(r: &Request) -> (out: String)
    ensures
        out@ == spec_enc_request(*r),
{
    let mut out = String::new();
    match r {
        Request::GetStatus => out.append("{\"type\":\"get_status\"}"),
        Request::SetMode { mode } => match mode {
            Mode::Idle => out.append("{\"type\":\"set_mode\",\"mode\":\"idle\"}"),
            Mode::Dictation => out.append("{\"type\":\"set_mode\",\"mode\":\"dictation\"}"),
            Mode::Intelligent => out.append("{\"type\":\"set_mode\",\"mode\":\"intelligent\"}"),
            Mode::Agent => out.append("{\"type\":\"set_mode\",\"mode\":\"agent\"}"),
        },
        Request::Ping => out.append("{\"type\":\"ping\"}"),
        Request::Subscribe => out.append("{\"type\":\"subscribe\"}"),
    }
    proof {
        assert(out@ =~= spec_enc_request(*r));
    }
    out
}

/// Decode a whole input as one request.  Succeeds exactly on the canonical
/// request encodings.
pub fn decode_request(s: &str) -> (r: Option<Request>)
    ensures
        r matches Some(m) ==> s@ == spec_enc_request(m),
        forall|m: Request|
            #![trigger spec_enc_request(m)]
            s@ == spec_enc_request(m) ==> r == Some(m),
{
    proof {
        reveal_request_literals();
    }
    let r: Option<Request> = if eq_lit(s, "{\"type\":\"get_status\"}") {
        Some(Request::GetStatus)
    } else if eq_lit(s, "{\"type\":\"ping\"}") {
        Some(Request::Ping)
    } else if eq_lit(s, "{\"type\":\"subscribe\"}") {
        Some(Request::Subscribe)
    } else if eq_lit(s, "{\"type\":\"set_mode\",\"mode\":\"idle\"}") {
        Some(Request::SetMode { mode: Mode::Idle })
    } else if eq_lit(s, "{\"type\":\"set_mode\",\"mode\":\"dictation\"}") {
        Some(Request::SetMode { mode: Mode::Dictation })
    } else if eq_lit(s, "{\"type\":\"set_mode\",\"mode\":\"intelligent\"}") {
        Some(Request::SetMode { mode: Mode::Intelligent })
    } else if eq_lit(s, "{\"type\":\"set_mode\",\"mode\":\"agent\"}") {
        Some(Request::SetMode { mode: Mode::Agent })
    } else {
        None
    };
    proof {
        match r {
            Some(m0) => {
                assert forall|m: Request| #![trigger spec_enc_request(m)]
                    s@ == spec_enc_request(m) implies r == Some(m) by {
                    lemma_enc_request_injective(m, m0);
                }
            },
            None => {},
        }
    }
    r
}

// ---------------------------------------------------------------------------
// Responses
// ---------------------------------------------------------------------------

/// The snake_case tag of a mode.
pub open spec fn spec_mode_tag(m: Mode) -> Seq<char> {
    match m {
        Mode::Idle => "idle"@,
        Mode::Dictation => "dictation"@,
        Mode::Intelligent => "intelligent"@,
        Mode::Agent => "agent"@,
    }
}

/// The piece of a status encoding between the mode tag and the uptime.
pub open spec fn spec_hk(b: bool) -> Seq<char> {
    if b {
        "\",\"hotkey_registered\":true,\"uptime_secs\":"@
    } else {
        "\",\"hotkey_registered\":false,\"uptime_secs\":"@
    }
}

/// The piece of a mode change encoding after the mode tag.
pub open spec fn spec_active_tail(b: bool) -> Seq<char> {
    if b {
        "\",\"active\":true}"@
    } else {
        "\",\"active\":false}"@
    }
}

/// The canonical encoding of a response.
pub open spec fn spec_enc_response(r: Response) -> Seq<char> {
    match r {
        Response::Status(st) => (
        "{\"type\":\"status\",\"version\":\""@ + esc(st.version@).push('"') + ",\"mode\":\""@
            + spec_mode_tag(st.mode) + spec_hk(st.hotkey_registered) + spec_dec(
            st.uptime_secs as nat,
        ) + "}"@),
        Response::ModeChange { mode, active } => (
        "{\"type\":\"mode_change\",\"mode\":\""@ + spec_mode_tag(mode) + spec_active_tail(active)),
        Response::Pong => "{\"type\":\"pong\"}"@,
        Response::Subscribed => "{\"type\":\"subscribed\"}"@,
        Response::Error { code, message } => (
        "{\"type\":\"error\",\"code\":\""@ + esc(code@).push('"') + ",\"message\":\""@ + esc(
            message@,
        ).push('"') + "}"@),
    }
}

/// Reveal every literal used by the response encoding.
proof fn reveal_response_literals()
    ensures
        "{\"type\":\"status\",\"version\":\""@.len() == 28,
        "{\"type\":\"status\",\"version\":\""@[9] == 's',
        ",\"mode\":\""@.len() == 9,
        "\",\"hotkey_registered\":true,\"uptime_secs\":"@.len() == 41,
        "\",\"hotkey_registered\":false,\"uptime_secs\":"@.len() == 42,
        "\",\"hotkey_registered\":true,\"uptime_secs\":"@[22] == 't',
        "\",\"hotkey_registered\":false,\"uptime_secs\":"@[22] == 'f',
        "{\"type\":\"mode_change\",\"mode\":\""@.len() == 30,
        "{\"type\":\"mode_change\",\"mode\":\""@[9] == 'm',
        "\",\"active\":true}"@.len() == 16,
        "\",\"active\":false}"@.len() == 17,
        "\",\"active\":true}"@[11] == 't',
        "\",\"active\":false}"@[11] == 'f',
        "{\"type\":\"pong\"}"@.len() == 15,
        "{\"type\":\"subscribed\"}"@.len() == 21,
        "{\"type\":\"error\",\"code\":\""@.len() == 24,
        "{\"type\":\"error\",\"code\":\""@[9] == 'e',
        ",\"message\":\""@.len() == 12,
        "}"@.len() == 1,
        "}"@[0] == '}',
{
    reveal_strlit("{\"type\":\"status\",\"version\":\"");
    reveal_strlit(",\"mode\":\"");
    reveal_strlit("\",\"hotkey_registered\":true,\"uptime_secs\":");
    reveal_strlit("\",\"hotkey_registered\":false,\"uptime_secs\":");
    reveal_strlit("{\"type\":\"mode_change\",\"mode\":\"");
    reveal_strlit("\",\"active\":true}");
    reveal_strlit("\",\"active\":false}");
    reveal_strlit("{\"type\":\"pong\"}");
    reveal_strlit("{\"type\":\"subscribed\"}");
    reveal_strlit("{\"type\":\"error\",\"code\":\"");
    reveal_strlit(",\"message\":\"");
    reveal_strlit("}");
}

/// Reveal the four mode tags.
proof fn reveal_mode_tags()
    ensures
        "idle"@.len() == 4,
        "dictation"@.len() == 9,
        "intelligent"@.len() == 11,
        "agent"@.len() == 5,
        spec_mode_tag(Mode::Idle) == "idle"@,
        spec_mode_tag(Mode::Dictation) == "dictation"@,
        spec_mode_tag(Mode::Intelligent) == "intelligent"@,
        spec_mode_tag(Mode::Agent) == "agent"@,
        "idle"@[0] == 'i' && "idle"@[1] == 'd',
        "dictation"@[0] == 'd',
        "intelligent"@[0] == 'i' && "intelligent"@[1] == 'n',
        "agent"@[0] == 'a',
{
    reveal_strlit("idle");
    reveal_strlit("dictation");
    reveal_strlit("intelligent");
    reveal_strlit("agent");
}

/// Two mode tags at the same position of the same input name the same mode.
proof fn lemma_mode_tag_unique(s: Seq<char>, i: int, a: Mode, b: Mode)
    requires
        0 <= i,
        i + spec_mode_tag(a).len() <= s.len(),
        s.subrange(i, i + spec_mode_tag(a).len()) == spec_mode_tag(a),
        i + spec_mode_tag(b).len() <= s.len(),
        s.subrange(i, i + spec_mode_tag(b).len()) == spec_mode_tag(b),
    ensures
        a == b,
{
    reveal_mode_tags();
    lemma_at(s, i, spec_mode_tag(a), 0);
    lemma_at(s, i, spec_mode_tag(a), 1);
    lemma_at(s, i, spec_mode_tag(b), 0);
    lemma_at(s, i, spec_mode_tag(b), 1);
}

/// Layout facts of a status encoding: where each piece of the encoding of
/// `Response::Status(st)` sits inside it.
proof fn status_facts(s: Seq<char>, st: DaemonStatus)
    requires
        s == spec_enc_response(Response::Status(st)),
    ensures
        ({
            let b = esc(st.version@).push('"');
            let tg = spec_mode_tag(st.mode);
            let hk = spec_hk(st.hotkey_registered);
            let dn = spec_dec(st.uptime_secs as nat);
            let jv = 28 + b.len() as int;
            let p2 = jv + 9;
            let p3 = p2 + tg.len() as int;
            let p4 = p3 + hk.len() as int;
            let jn = p4 + dn.len() as int;
            &&& s.len() == jn + 1
            &&& s.subrange(0, 28) == "{\"type\":\"status\",\"version\":\""@
            &&& sparse_str(s, 28) == Some((st.version@, jv))
            &&& s.subrange(jv, jv + 9) == ",\"mode\":\""@
            &&& s.subrange(p2, p3) == tg
            &&& s.subrange(p3, p4) == hk
            &&& sparse_num(s, p4) == Some((st.uptime_secs, jn))
            &&& s[jn] == '}'
            &&& s[9] == 's'
            &&& s[p3 + 22] == (if st.hotkey_registered {
                't'
            } else {
                'f'
            })
        }),
{
    reveal_response_literals();
    reveal_mode_tags();
    let a = "{\"type\":\"status\",\"version\":\""@;
    let b = esc(st.version@).push('"');
    let m1 = ",\"mode\":\""@;
    let tg = spec_mode_tag(st.mode);
    let hk = spec_hk(st.hotkey_registered);
    let dn = spec_dec(st.uptime_secs as nat);
    lemma_dec_props(st.uptime_secs as nat);
    let jv = 28 + b.len() as int;
    let p2 = jv + 9;
    let p3 = p2 + tg.len() as int;
    let p4 = p3 + hk.len() as int;
    let jn = p4 + dn.len() as int;
    assert(s == a + b + m1 + tg + hk + dn + "}"@);
    assert(s.subrange(0, 28) =~= a);
    assert(s.subrange(28, jv) =~= b) by {
        assert forall|k: int| 0 <= k < b.len() implies s.subrange(28, jv)[k] == b[k] by {
            assert(s[28 + k] == b[k]);
        }
    }
    assert(s.subrange(jv, jv + 9) =~= m1) by {
        assert forall|k: int| 0 <= k < 9 implies s.subrange(jv, jv + 9)[k] == m1[k] by {
            assert(s[jv + k] == m1[k]);
        }
    }
    assert(s.subrange(p2, p3) =~= tg) by {
        assert forall|k: int| 0 <= k < tg.len() implies s.subrange(p2, p3)[k] == tg[k] by {
            assert(s[p2 + k] == tg[k]);
        }
    }
    assert(s.subrange(p3, p4) =~= hk) by {
        assert forall|k: int| 0 <= k < hk.len() implies s.subrange(p3, p4)[k] == hk[k] by {
            assert(s[p3 + k] == hk[k]);
        }
    }
    assert(s.subrange(p4, jn) =~= dn) by {
        assert forall|k: int| 0 <= k < dn.len() implies s.subrange(p4, jn)[k] == dn[k] by {
            assert(s[p4 + k] == dn[k]);
        }
    }
    lemma_sparse_str_complete(s, 28, st.version@);
    assert(s[jn] == '}');
    assert(!is_digit('}'));
    lemma_sparse_num_complete(s, p4, st.uptime_secs);
}

/// Layout facts of an error encoding.
proof fn error_facts(s: Seq<char>, code: String, message: String)
    requires
        s == spec_enc_response(Response::Error { code, message }),
    ensures
        ({
            let b1 = esc(code@).push('"');
            let b2 = esc(message@).push('"');
            let j1 = 24 + b1.len() as int;
            let j2 = j1 + 12 + b2.len() as int;
            &&& s.len() == j2 + 1
            &&& s.subrange(0, 24) == "{\"type\":\"error\",\"code\":\""@
            &&& sparse_str(s, 24) == Some((code@, j1))
            &&& s.subrange(j1, j1 + 12) == ",\"message\":\""@
            &&& sparse_str(s, j1 + 12) == Some((message@, j2))
            &&& s[j2] == '}'
            &&& s[9] == 'e'
        }),
{
    reveal_response_literals();
    let a = "{\"type\":\"error\",\"code\":\""@;
    let b1 = esc(code@).push('"');
    let m1 = ",\"message\":\""@;
    let b2 = esc(message@).push('"');
    let j1 = 24 + b1.len() as int;
    let j2 = j1 + 12 + b2.len() as int;
    assert(s == a + b1 + m1 + b2 + "}"@);
    assert(s.subrange(0, 24) =~= a);
    assert(s.subrange(24, j1) =~= b1) by {
        assert forall|k: int| 0 <= k < b1.len() implies s.subrange(24, j1)[k] == b1[k] by {
            assert(s[24 + k] == b1[k]);
        }
    }
    assert(s.subrange(j1, j1 + 12) =~= m1) by {
        assert forall|k: int| 0 <= k < 12 implies s.subrange(j1, j1 + 12)[k] == m1[k] by {
            assert(s[j1 + k] == m1[k]);
        }
    }
    assert(s.subrange(j1 + 12, j2) =~= b2) by {
        assert forall|k: int| 0 <= k < b2.len() implies s.subrange(j1 + 12, j2)[k] == b2[k] by {
            assert(s[j1 + 12 + k] == b2[k]);
        }
    }
    lemma_sparse_str_complete(s, 24, code@);
    lemma_sparse_str_complete(s, j1 + 12, message@);
}

/// Layout facts of a mode change encoding.
proof fn mode_change_facts(s: Seq<char>, mode: Mode, active: bool)
    requires
        s == spec_enc_response(Response::ModeChange { mode, active }),
    ensures
        ({
            let tg = spec_mode_tag(mode);
            let p2 = 30 + tg.len() as int;
            &&& s.len() == p2 + spec_active_tail(active).len()
            &&& s.subrange(0, 30) == "{\"type\":\"mode_change\",\"mode\":\""@
            &&& s.subrange(30, p2) == tg
            &&& s.subrange(p2, p2 + spec_active_tail(active).len() as int) == spec_active_tail(
                active,
            )
            &&& s[9] == 'm'
            &&& s[p2 + 11] == (if active {
                't'
            } else {
                'f'
            })
        }),
{
    reveal_response_literals();
    reveal_mode_tags();
    let a = "{\"type\":\"mode_change\",\"mode\":\""@;
    let tg = spec_mode_tag(mode);
    let tl = spec_active_tail(active);
    let p2 = 30 + tg.len() as int;
    assert(s == a + tg + tl);
    assert(s.subrange(0, 30) =~= a);
    assert(s.subrange(30, p2) =~= tg) by {
        assert forall|k: int| 0 <= k < tg.len() implies s.subrange(30, p2)[k] == tg[k] by {
            assert(s[30 + k] == tg[k]);
        }
    }
    assert(s.subrange(p2, p2 + tl.len() as int) =~= tl) by {
        assert forall|k: int| 0 <= k < tl.len() implies s.subrange(p2, p2 + tl.len() as int)[k]
            == tl[k] by {
            assert(s[p2 + k] == tl[k]);
        }
    }
}

/// Responses are equivalent when they agree everywhere a client can look:
/// same variant, same payload fields, strings compared by contents.
pub open spec fn resp_eqv(a: Response, b: Response) -> bool {
    match (a, b) {
        (Response::Status(x), Response::Status(y)) => x.version@ == y.version@ && x.mode == y.mode
            && x.hotkey_registered == y.hotkey_registered && x.uptime_secs == y.uptime_secs,
        (
            Response::ModeChange { mode: m1, active: a1 },
            Response::ModeChange { mode: m2, active: a2 },
        ) => m1 == m2 && a1 == a2,
        (Response::Pong, Response::Pong) => true,
        (Response::Subscribed, Response::Subscribed) => true,
        (Response::Error { code: c1, message: g1 }, Response::Error { code: c2, message: g2 }) => (
        c1@ == c2@ && g1@ == g2@),
        _ => false,
    }
}

/// Encoding responses is injective up to response equivalence.
pub proof fn lemma_enc_response_injective(a: Response, b: Response)
    requires
        spec_enc_response(a) == spec_enc_response(b),
    ensures
        resp_eqv(a, b),
{
    reveal_response_literals();
    let s = spec_enc_response(a);
    match a {
        Response::Status(st) => {
            status_facts(s, st);
        },
        Response::ModeChange { mode, active } => {
            mode_change_facts(s, mode, active);
        },
        Response::Error { code, message } => {
            error_facts(s, code, message);
        },
        _ => {},
    }
    match b {
        Response::Status(st) => {
            status_facts(s, st);
        },
        Response::ModeChange { mode, active } => {
            mode_change_facts(s, mode, active);
        },
        Response::Error { code, message } => {
            error_facts(s, code, message);
        },
        _ => {},
    }
    match (a, b) {
        (Response::Status(x), Response::Status(y)) => {
            status_facts(s, x);
            status_facts(s, y);
            assert(x.version@ == y.version@);
            let bx = esc(x.version@).push('"');
            let by = esc(y.version@).push('"');
            assert(bx == by);
            lemma_mode_tag_unique(
                s,
                28 + bx.len() as int + 9,
                x.mode,
                y.mode,
            );
            assert(x.hotkey_registered == y.hotkey_registered);
        },
        (
            Response::ModeChange { mode: m1, active: a1 },
            Response::ModeChange { mode: m2, active: a2 },
        ) => {
            lemma_mode_tag_unique(s, 30, m1, m2);
        },
        _ => {},
    }
}

/// Encode a response.
pub fn encode_response(r: &Response) -> (out: String)
    ensures
        out@ == spec_enc_response(*r),
{
    let mut out = String::new();
    match r {
        Response::Status(st) => {
            out.append("{\"type\":\"status\",\"version\":\"");
            push_escaped(&mut out, st.version.as_str());
            out.append("\"");
            out.append(",\"mode\":\"");
            match st.mode {
                Mode::Idle => out.append("idle"),
                Mode::Dictation => out.append("dictation"),
                Mode::Intelligent => out.append("intelligent"),
                Mode::Agent => out.append("agent"),
            }
            if st.hotkey_registered {
                out.append("\",\"hotkey_registered\":true,\"uptime_secs\":");
            } else {
                out.append("\",\"hotkey_registered\":false,\"uptime_secs\":");
            }
            push_u64(&mut out, st.uptime_secs);
            out.append("}");
            proof {
                reveal_strlit("\"");
            }
        },
        Response::ModeChange { mode, active } => {
            out.append("{\"type\":\"mode_change\",\"mode\":\"");
            match mode {
                Mode::Idle => out.append("idle"),
                Mode::Dictation => out.append("dictation"),
                Mode::Intelligent => out.append("intelligent"),
                Mode::Agent => out.append("agent"),
            }
            if *active {
                out.append("\",\"active\":true}");
            } else {
                out.append("\",\"active\":false}");
            }
        },
        Response::Pong => out.append("{\"type\":\"pong\"}"),
        Response::Subscribed => out.append("{\"type\":\"subscribed\"}"),
        Response::Error { code, message } => {
            out.append("{\"type\":\"error\",\"code\":\"");
            push_escaped(&mut out, code.as_str());
            out.append("\"");
            out.append(",\"message\":\"");
            push_escaped(&mut out, message.as_str());
            out.append("\"");
            out.append("}");
            proof {
                reveal_strlit("\"");
            }
        },
    }
    proof {
        assert(out@ =~= spec_enc_response(*r));
    }
    out
}

/// Decode a whole input as one response.  Succeeds exactly on the canonical
/// response encodings; the returned response then re-encodes to the input.
#[verifier::rlimit(60)]
pub fn decode_response(s: &str) -> (r: Option<Response>)
    ensures
        r matches Some(m) ==> s@ == spec_enc_response(m),
        forall|m: Response|
            #![trigger spec_enc_response(m)]
            s@ == spec_enc_response(m) ==> r is Some,
{
    proof {
        reveal_response_literals();
        reveal_mode_tags();
    }
    if eq_lit(s, "{\"type\":\"pong\"}") {
        return Some(Response::Pong);
    }
    if eq_lit(s, "{\"type\":\"subscribed\"}") {
        return Some(Response::Subscribed);
    }
    if match_lit(s, 0, "{\"type\":\"mode_change\",\"mode\":\"") {
        let r = decode_mode_change_tail(s);
        return r;
    }
    if match_lit(s, 0, "{\"type\":\"status\",\"version\":\"") {
        let r = decode_status_tail(s);
        return r;
    }
    if match_lit(s, 0, "{\"type\":\"error\",\"code\":\"") {
        let r = decode_error_tail(s);
        return r;
    }
    proof {
        assert forall|m: Response| #![trigger spec_enc_response(m)]
            s@ == spec_enc_response(m) implies false by {
            match m {
                Response::Status(st) => {
                    status_facts(s@, st);
                },
                Response::ModeChange { mode, active } => {
                    mode_change_facts(s@, mode, active);
                },
                Response::Error { code, message } => {
                    error_facts(s@, code, message);
                },
                _ => {},
            }
        }
    }
    None
}

/// Try the four mode tags at position `i`; on success the tag's mode and
/// its length.
fn parse_mode_tag(s: &str, i: usize) -> (r: Option<(Mode, usize)>)
    requires
        i <= s@.len(),
    ensures
        r matches Some((m, l)) ==> l as nat == spec_mode_tag(m).len() && i + l <= s@.len()
            && s@.subrange(i as int, i + l) == spec_mode_tag(m),
        forall|m: Mode|
            #![trigger spec_mode_tag(m)]
            (i + spec_mode_tag(m).len() <= s@.len() && s@.subrange(
                i as int,
                i + spec_mode_tag(m).len(),
            ) == spec_mode_tag(m)) ==> (r matches Some((m2, l)) && m2 == m),
{
    proof {
        reveal_mode_tags();
    }
    let r: Option<(Mode, usize)> = if match_lit(s, i, "idle") {
        Some((Mode::Idle, 4))
    } else if match_lit(s, i, "dictation") {
        Some((Mode::Dictation, 9))
    } else if match_lit(s, i, "intelligent") {
        Some((Mode::Intelligent, 11))
    } else if match_lit(s, i, "agent") {
        Some((Mode::Agent, 5))
    } else {
        None
    };
    proof {
        match r {
            Some((m0, l0)) => {
                assert forall|m: Mode| #![trigger spec_mode_tag(m)]
                    (i + spec_mode_tag(m).len() <= s@.len() && s@.subrange(
                        i as int,
                        i + spec_mode_tag(m).len(),
                    ) == spec_mode_tag(m)) implies (r matches Some((m2, l)) && m2 == m) by {
                    lemma_mode_tag_unique(s@, i as int, m0, m);
                }
            },
            None => {},
        }
    }
    r
}

/// Decode the rest of a mode change response after its fixed prefix.
fn decode_mode_change_tail(s: &str) -> (r: Option<Response>)
    requires
        30 <= s@.len(),
        s@.subrange(0, 30) == "{\"type\":\"mode_change\",\"mode\":\""@,
    ensures
        r matches Some(m) ==> s@ == spec_enc_response(m),
        forall|m: Response|
            #![trigger spec_enc_response(m)]
            s@ == spec_enc_response(m) ==> r is Some,
{
    let n: usize = s.unicode_len();
    proof {
        reveal_response_literals();
        reveal_mode_tags();
    }
    let tag = parse_mode_tag(s, 30);
    let r: Option<Response> = match tag {
        Some((mode, tl)) => {
            let p2 = 30 + tl;
            if match_lit(s, p2, "\",\"active\":true}") && p2 + 16 == n {
                Some(Response::ModeChange { mode, active: true })
            } else if match_lit(s, p2, "\",\"active\":false}") && p2 + 17 == n {
                Some(Response::ModeChange { mode, active: false })
            } else {
                None
            }
        },
        None => None,
    };
    proof {
        match &r {
            Some(m0) => {
                assert(s@ =~= spec_enc_response(*m0));
            },
            None => {},
        }
        assert forall|m: Response| #![trigger spec_enc_response(m)]
            s@ == spec_enc_response(m) implies r is Some by {
            match m {
                Response::Status(st) => {
                    status_facts(s@, st);
                    lemma_at(s@, 0, "{\"type\":\"status\",\"version\":\""@, 9);
                    lemma_at(s@, 0, "{\"type\":\"mode_change\",\"mode\":\""@, 9);
                },
                Response::ModeChange { mode: m2, active: a2 } => {
                    mode_change_facts(s@, m2, a2);
                    match tag {
                        Some((mode, tl)) => {
                            lemma_mode_tag_unique(s@, 30, mode, m2);
                        },
                        None => {},
                    }
                },
                Response::Error { code, message } => {
                    error_facts(s@, code, message);
                    lemma_at(s@, 0, "{\"type\":\"error\",\"code\":\""@, 9);
                    lemma_at(s@, 0, "{\"type\":\"mode_change\",\"mode\":\""@, 9);
                },
                _ => {},
            }
        }
    }
    r
}

/// Decode the rest of a status response after its fixed prefix.
#[verifier::rlimit(100)]
fn decode_status_tail(s: &str) -> (r: Option<Response>)
    requires
        28 <= s@.len(),
        s@.subrange(0, 28) == "{\"type\":\"status\",\"version\":\""@,
    ensures
        r matches Some(m) ==> s@ == spec_enc_response(m),
        forall|m: Response|
            #![trigger spec_enc_response(m)]
            s@ == spec_enc_response(m) ==> r is Some,
{
    let n: usize = s.unicode_len();
    proof {
        reveal_response_literals();
        reveal_mode_tags();
    }
    let r: Option<Response> = match parse_jstring(s, 28) {
        Some((version, jv)) => {
            if match_lit(s, jv, ",\"mode\":\"") {
                match parse_mode_tag(s, jv + 9) {
                    Some((mode, tl)) => {
                        let p3 = jv + 9 + tl;
                        let hk: Option<(bool, usize)> = if match_lit(
                            s,
                            p3,
                            "\",\"hotkey_registered\":true,\"uptime_secs\":",
                        ) {
                            Some((true, 41))
                        } else if match_lit(
                            s,
                            p3,
                            "\",\"hotkey_registered\":false,\"uptime_secs\":",
                        ) {
                            Some((false, 42))
                        } else {
                            None
                        };
                        match hk {
                            Some((hotkey_registered, hl)) => {
                                let p4 = p3 + hl;
                                match parse_u64(s, p4) {
                                    Some((uptime_secs, jn)) => {
                                        if jn < n && s.get_char(jn) == '}' && jn + 1 == n {
                                            Some(
                                                Response::Status(
                                                    DaemonStatus {
                                                        version,
                                                        mode,
                                                        hotkey_registered,
                                                        uptime_secs,
                                                    },
                                                ),
                                            )
                                        } else {
                                            None
                                        }
                                    },
                                    None => None,
                                }
                            },
                            None => None,
                        }
                    },
                    None => None,
                }
            } else {
                None
            }
        },
        None => None,
    };
    proof {
        match &r {
            Some(m0) => {
                match m0 {
                    Response::Status(st) => {
                        lemma_sparse_str_sound(s@, 28);
                        crate::codec::lemma_sparse_num_sound(
                            s@,
                            28 + esc(st.version@).push('"').len() as int + 9
                                + spec_mode_tag(st.mode).len() as int + spec_hk(
                                st.hotkey_registered,
                            ).len() as int,
                            st.uptime_secs,
                            s@.len() - 1,
                        );
                        assert(s@ =~= spec_enc_response(*m0));
                    },
                    _ => {},
                }
            },
            None => {},
        }
        assert forall|m: Response| #![trigger spec_enc_response(m)]
            s@ == spec_enc_response(m) implies r is Some by {
            match m {
                Response::Status(st) => {
                    status_facts(s@, st);
                },
                Response::ModeChange { mode: m2, active: a2 } => {
                    mode_change_facts(s@, m2, a2);
                    lemma_at(s@, 0, "{\"type\":\"status\",\"version\":\""@, 9);
                    lemma_at(s@, 0, "{\"type\":\"mode_change\",\"mode\":\""@, 9);
                },
                Response::Error { code, message } => {
                    error_facts(s@, code, message);
                    lemma_at(s@, 0, "{\"type\":\"status\",\"version\":\""@, 9);
                    lemma_at(s@, 0, "{\"type\":\"error\",\"code\":\""@, 9);
                },
                _ => {},
            }
        }
    }
    r
}

/// Decode the rest of an error response after its fixed prefix.
fn decode_error_tail(s: &str) -> (r: Option<Response>)
    requires
        24 <= s@.len(),
        s@.subrange(0, 24) == "{\"type\":\"error\",\"code\":\""@,
    ensures
        r matches Some(m) ==> s@ == spec_enc_response(m),
        forall|m: Response|
            #![trigger spec_enc_response(m)]
            s@ == spec_enc_response(m) ==> r is Some,
{
    let n: usize = s.unicode_len();
    proof {
        reveal_response_literals();
    }
    let r: Option<Response> = match parse_jstring(s, 24) {
        Some((code, j1)) => {
            if match_lit(s, j1, ",\"message\":\"") {
                match parse_jstring(s, j1 + 12) {
                    Some((message, j2)) => {
                        if j2 < n && s.get_char(j2) == '}' && j2 + 1 == n {
                            Some(Response::Error { code, message })
                        } else {
                            None
                        }
                    },
                    None => None,
                }
            } else {
                None
            }
        },
        None => None,
    };
    proof {
        match &r {
            Some(m0) => {
                lemma_sparse_str_sound(s@, 24);
                match m0 {
                    Response::Error { code, message } => {
                        lemma_sparse_str_sound(s@, 24 + esc(code@).push('"').len() as int + 12);
                    },
                    _ => {},
                }
                assert(s@ =~= spec_enc_response(*m0));
            },
            None => {},
        }
        assert forall|m: Response| #![trigger spec_enc_response(m)]
            s@ == spec_enc_response(m) implies r is Some by {
            match m {
                Response::Status(st) => {
                    status_facts(s@, st);
                    lemma_at(s@, 0, "{\"type\":\"status\",\"version\":\""@, 9);
                    lemma_at(s@, 0, "{\"type\":\"error\",\"code\":\""@, 9);
                },
                Response::ModeChange { mode: m2, active: a2 } => {
                    mode_change_facts(s@, m2, a2);
                    lemma_at(s@, 0, "{\"type\":\"mode_change\",\"mode\":\""@, 9);
                    lemma_at(s@, 0, "{\"type\":\"error\",\"code\":\""@, 9);
                },
                Response::Error { code, message } => {
                    error_facts(s@, code, message);
                },
                _ => {},
            }
        }
    }
    r
}

// ---------------------------------------------------------------------------
// Notifications
// ---------------------------------------------------------------------------

/// The canonical encoding of a notification.
pub open spec fn spec_enc_notification(nf: Notification) -> Seq<char> {
    match nf {
        Notification::ModeChanged { mode, previous } => (
        "{\"type\":\"mode_changed\",\"mode\":\""@ + spec_mode_tag(mode) + "\",\"previous\":\""@
            + spec_mode_tag(previous) + "\"}"@),
        Notification::StateEvent(e) => (
        "{\"type\":\"state_event\",\"event\":"@ + spec_enc_state_event(e) + "}"@),
    }
}

/// Reveal every literal used by the notification encoding.
proof fn reveal_notification_literals()
    ensures
        "{\"type\":\"mode_changed\",\"mode\":\""@.len() == 31,
        "{\"type\":\"mode_changed\",\"mode\":\""@[9] == 'm',
        "\",\"previous\":\""@.len() == 14,
        "\"}"@.len() == 2,
        "{\"type\":\"state_event\",\"event\":"@.len() == 30,
        "{\"type\":\"state_event\",\"event\":"@[9] == 's',
        "}"@.len() == 1,
        "}"@[0] == '}',
{
    reveal_strlit("{\"type\":\"mode_changed\",\"mode\":\"");
    reveal_strlit("\",\"previous\":\"");
    reveal_strlit("\"}");
    reveal_strlit("{\"type\":\"state_event\",\"event\":");
    reveal_strlit("}");
}

/// Layout facts of a mode changed notification encoding.
proof fn mode_changed_facts(s: Seq<char>, mode: Mode, previous: Mode)
    requires
        s == spec_enc_notification(Notification::ModeChanged { mode, previous }),
    ensures
        ({
            let tg1 = spec_mode_tag(mode);
            let tg2 = spec_mode_tag(previous);
            let p2 = 31 + tg1.len() as int;
            let p3 = p2 + 14 + tg2.len() as int;
            &&& s.len() == p3 + 2
            &&& s.subrange(0, 31) == "{\"type\":\"mode_changed\",\"mode\":\""@
            &&& s.subrange(31, p2) == tg1
            &&& s.subrange(p2, p2 + 14) == "\",\"previous\":\""@
            &&& s.subrange(p2 + 14, p3) == tg2
            &&& s.subrange(p3, p3 + 2) == "\"}"@
            &&& s[9] == 'm'
        }),
{
    reveal_notification_literals();
    reveal_mode_tags();
    let a = "{\"type\":\"mode_changed\",\"mode\":\""@;
    let tg1 = spec_mode_tag(mode);
    let m1 = "\",\"previous\":\""@;
    let tg2 = spec_mode_tag(previous);
    let p2 = 31 + tg1.len() as int;
    let p3 = p2 + 14 + tg2.len() as int;
    assert(s == a + tg1 + m1 + tg2 + "\"}"@);
    assert(s.subrange(0, 31) =~= a);
    assert(s.subrange(31, p2) =~= tg1) by {
        assert forall|k: int| 0 <= k < tg1.len() implies s.subrange(31, p2)[k] == tg1[k] by {
            assert(s[31 + k] == tg1[k]);
        }
    }
    assert(s.subrange(p2, p2 + 14) =~= m1) by {
        assert forall|k: int| 0 <= k < 14 implies s.subrange(p2, p2 + 14)[k] == m1[k] by {
            assert(s[p2 + k] == m1[k]);
        }
    }
    assert(s.subrange(p2 + 14, p3) =~= tg2) by {
        assert forall|k: int| 0 <= k < tg2.len() implies s.subrange(p2 + 14, p3)[k] == tg2[k] by {
            assert(s[p2 + 14 + k] == tg2[k]);
        }
    }
    assert(s.subrange(p3, p3 + 2) =~= "\"}"@) by {
        assert forall|k: int| 0 <= k < 2 implies s.subrange(p3, p3 + 2)[k] == "\"}"@[k] by {
            assert(s[p3 + k] == "\"}"@[k]);
        }
    }
}

/// Layout facts of a state event notification encoding.
proof fn state_event_notif_facts(s: Seq<char>, e: StateEvent)
    requires
        s == spec_enc_notification(Notification::StateEvent(e)),
    ensures
        ({
            let j = 30 + spec_enc_state_event(e).len() as int;
            &&& s.len() == j + 1
            &&& s.subrange(0, 30) == "{\"type\":\"state_event\",\"event\":"@
            &&& event_at(s, 30, e)
            &&& s[j] == '}'
            &&& s[9] == 's'
        }),
{
    reveal_notification_literals();
    let a = "{\"type\":\"state_event\",\"event\":"@;
    let ev = spec_enc_state_event(e);
    let j = 30 + ev.len() as int;
    assert(s == a + ev + "}"@);
    assert(s.subrange(0, 30) =~= a);
    assert(s.subrange(30, j) =~= ev) by {
        assert forall|k: int| 0 <= k < ev.len() implies s.subrange(30, j)[k] == ev[k] by {
            assert(s[30 + k] == ev[k]);
        }
    }
    assert(s[j] == '}');
}

/// Encoding notifications is injective.
pub proof fn lemma_enc_notification_injective(a: Notification, b: Notification)
    requires
        spec_enc_notification(a) == spec_enc_notification(b),
    ensures
        a == b,
{
    let s = spec_enc_notification(a);
    match a {
        Notification::ModeChanged { mode, previous } => {
            mode_changed_facts(s, mode, previous);
        },
        Notification::StateEvent(e) => {
            state_event_notif_facts(s, e);
        },
    }
    match b {
        Notification::ModeChanged { mode, previous } => {
            mode_changed_facts(s, mode, previous);
        },
        Notification::StateEvent(e) => {
            state_event_notif_facts(s, e);
        },
    }
    match (a, b) {
        (
            Notification::ModeChanged { mode: m1, previous: p1 },
            Notification::ModeChanged { mode: m2, previous: p2 },
        ) => {
            lemma_mode_tag_unique(s, 31, m1, m2);
            lemma_mode_tag_unique(
                s,
                31 + spec_mode_tag(m1).len() as int + 14,
                p1,
                p2,
            );
        },
        (Notification::StateEvent(e1), Notification::StateEvent(e2)) => {
            lemma_event_prefix_unique(s, 30, e1, e2);
        },
        _ => {},
    }
}

/// Encode a notification.
pub fn encode_notification(nf: &Notification) -> (out: String)
    ensures
        out@ == spec_enc_notification(*nf),
{
    let mut out = String::new();
    match nf {
        Notification::ModeChanged { mode, previous } => {
            out.append("{\"type\":\"mode_changed\",\"mode\":\"");
            match mode {
                Mode::Idle => out.append("idle"),
                Mode::Dictation => out.append("dictation"),
                Mode::Intelligent => out.append("intelligent"),
                Mode::Agent => out.append("agent"),
            }
            out.append("\",\"previous\":\"");
            match previous {
                Mode::Idle => out.append("idle"),
                Mode::Dictation => out.append("dictation"),
                Mode::Intelligent => out.append("intelligent"),
                Mode::Agent => out.append("agent"),
            }
            out.append("\"}");
        },
        Notification::StateEvent(e) => {
            out.append("{\"type\":\"state_event\",\"event\":");
            let ev = encode_state_event(e);
            out.append(ev.as_str());
            out.append("}");
        },
    }
    proof {
        reveal_mode_tags();
        assert(out@ =~= spec_enc_notification(*nf));
    }
    out
}

/// Decode a whole input as one notification.  Succeeds exactly on the
/// canonical notification encodings.
pub fn decode_notification(s: &str) -> (r: Option<Notification>)
    ensures
        r matches Some(m) ==> s@ == spec_enc_notification(m),
        forall|m: Notification|
            #![trigger spec_enc_notification(m)]
            s@ == spec_enc_notification(m) ==> r == Some(m),
{
    proof {
        reveal_notification_literals();
        reveal_mode_tags();
    }
    if match_lit(s, 0, "{\"type\":\"mode_changed\",\"mode\":\"") {
        let r = decode_mode_changed_tail(s);
        return r;
    }
    if match_lit(s, 0, "{\"type\":\"state_event\",\"event\":") {
        let r = decode_state_event_tail(s);
        return r;
    }
    proof {
        assert forall|m: Notification| #![trigger spec_enc_notification(m)]
            s@ == spec_enc_notification(m) implies false by {
            match m {
                Notification::ModeChanged { mode, previous } => {
                    mode_changed_facts(s@, mode, previous);
                },
                Notification::StateEvent(e) => {
                    state_event_notif_facts(s@, e);
                },
            }
        }
    }
    None
}

/// Decode the rest of a mode changed notification after its fixed prefix.
#[verifier::rlimit(100)]
fn decode_mode_changed_tail(s: &str) -> (r: Option<Notification>)
    requires
        31 <= s@.len(),
        s@.subrange(0, 31) == "{\"type\":\"mode_changed\",\"mode\":\""@,
    ensures
        r matches Some(m) ==> s@ == spec_enc_notification(m),
        forall|m: Notification|
            #![trigger spec_enc_notification(m)]
            s@ == spec_enc_notification(m) ==> r == Some(m),
{
    let n: usize = s.unicode_len();
    proof {
        reveal_notification_literals();
        reveal_mode_tags();
    }
    let r: Option<Notification> = match parse_mode_tag(s, 31) {
        Some((mode, tl)) => {
            let p2 = 31 + tl;
            if match_lit(s, p2, "\",\"previous\":\"") {
                match parse_mode_tag(s, p2 + 14) {
                    Some((previous, tl2)) => {
                        let p3 = p2 + 14 + tl2;
                        if match_lit(s, p3, "\"}") && p3 + 2 == n {
                            Some(Notification::ModeChanged { mode, previous })
                        } else {
                            None
                        }
                    },
                    None => None,
                }
            } else {
                None
            }
        },
        None => None,
    };
    proof {
        match r {
            Some(m0) => {
                assert(s@ =~= spec_enc_notification(m0));
            },
            None => {},
        }
        assert forall|m: Notification| #![trigger spec_enc_notification(m)]
            s@ == spec_enc_notification(m) implies r == Some(m) by {
            match m {
                Notification::ModeChanged { mode: m2, previous: p2x } => {
                    mode_changed_facts(s@, m2, p2x);
                    match r {
                        Some(Notification::ModeChanged { mode, previous }) => {
                            lemma_mode_tag_unique(s@, 31, mode, m2);
                            lemma_mode_tag_unique(
                                s@,
                                31 + spec_mode_tag(m2).len() as int + 14,
                                previous,
                                p2x,
                            );
                        },
                        _ => {},
                    }
                },
                Notification::StateEvent(e) => {
                    state_event_notif_facts(s@, e);
                    lemma_at(s@, 0, "{\"type\":\"mode_changed\",\"mode\":\""@, 9);
                    lemma_at(s@, 0, "{\"type\":\"state_event\",\"event\":"@, 9);
                },
            }
        }
    }
    r
}

/// Decode the rest of a state event notification after its fixed prefix.
fn decode_state_event_tail(s: &str) -> (r: Option<Notification>)
    requires
        30 <= s@.len(),
        s@.subrange(0, 30) == "{\"type\":\"state_event\",\"event\":"@,
    ensures
        r matches Some(m) ==> s@ == spec_enc_notification(m),
        forall|m: Notification|
            #![trigger spec_enc_notification(m)]
            s@ == spec_enc_notification(m) ==> r == Some(m),
{
    let n: usize = s.unicode_len();
    proof {
        reveal_notification_literals();
    }
    let r: Option<Notification> = match parse_event(s, 30) {
        Some((e, j)) => {
            if j < n && s.get_char(j) == '}' && j + 1 == n {
                Some(Notification::StateEvent(e))
            } else {
                None
            }
        },
        None => None,
    };
    proof {
        match r {
            Some(m0) => {
                assert(s@ =~= spec_enc_notification(m0));
            },
            None => {},
        }
        assert forall|m: Notification| #![trigger spec_enc_notification(m)]
            s@ == spec_enc_notification(m) implies r == Some(m) by {
            match m {
                Notification::ModeChanged { mode: m2, previous: p2x } => {
                    mode_changed_facts(s@, m2, p2x);
                    lemma_at(s@, 0, "{\"type\":\"mode_changed\",\"mode\":\""@, 9);
                    lemma_at(s@, 0, "{\"type\":\"state_event\",\"event\":"@, 9);
                },
                Notification::StateEvent(e) => {
                    state_event_notif_facts(s@, e);
                },
            }
        }
    }
    r
}

} // verus!
