use vstd::prelude::*;
use crate::errors::SessionError;

verus! {

/// How long the correlator waits for a reply line before giving up.
pub const REPLY_TIMEOUT_MS: u64 = 5000;

/// The class of an outbound text, decided before any byte is written.
#[derive(Clone, Copy, PartialEq, Eq, Structural, Debug)]
pub enum MessageClass {
    /// The text does not parse as a protocol message.
    Malformed,
    /// A message whose correlation identifier is absent or null:
    /// fire-and-forget, no reply is awaited.
    Notification,
    /// A message carrying a correlation identifier: exactly one reply line is
    /// awaited, bounded by the timeout.
    Request,
}

/// The protocol class of a text. The class depends on the characters alone:
/// a text is malformed unless it is one JSON object whose "jsonrpc" and
/// "method" members are strings; a well-formed message is a request when its
/// "id" member is present and not null, and a notification otherwise.
pub uninterp spec fn classification(raw: Seq<char>) -> MessageClass;

/// Relies on serde_json::from_str::<Value> for parsing, and on
/// serde_json::Value::{get, is_string, is_null} to read the members that the
/// protocol distinguishes. The outcome is a function of the text alone.
#[verifier::external_body]
fn classify_raw(raw: &str) -> (c: MessageClass)
    ensures
        c == classification(raw@),
{
    match serde_json::from_str::<serde_json::Value>(raw) {
        Err(_) => MessageClass::Malformed,
        Ok(v) => {
            if !(v.get("jsonrpc").map_or(false, |t| t.is_string())
                && v.get("method").map_or(false, |t| t.is_string()))
            {
                MessageClass::Malformed
            } else if v.get("id").map_or(false, |t| !t.is_null()) {
                MessageClass::Request
            } else {
                MessageClass::Notification
            }
        },
    }
}

/// First step of a send: inspect the outbound text before anything is
/// written. A malformed text is rejected — the raw text is never written to
/// the process in that case — and a well-formed one is classified as a
/// notification or a request.
pub fn plan_send(raw: &str) -> (r: Result<MessageClass, SessionError>)
    ensures
        classification(raw@) == MessageClass::Malformed ==> r == Err::<
            MessageClass,
            SessionError,
        >(SessionError::MalformedMessage),
        classification(raw@) != MessageClass::Malformed ==> r == Ok::<
            MessageClass,
            SessionError,
        >(classification(raw@)),
{
    let c = classify_raw(raw);
    match c {
        MessageClass::Malformed => Err(SessionError::MalformedMessage),
        _ => Ok(c),
    }
}

/// Concludes a notification send, given the outcome of the write-and-flush.
/// A notification returns an empty reply at once — the caller is never made
/// to wait on the timeout — and a failed write surfaces as `WriteFailure`.
pub fn finish_notification(write: Result<(), String>) -> (r: Result<String, SessionError>)
    ensures
        write matches Err(e) ==> (r matches Err(se) && se == SessionError::WriteFailure(e)),
        write is Ok ==> (r matches Ok(s) && s@ == Seq::<char>::empty()),
{
    match write {
        Err(e) => Err(SessionError::WriteFailure(e)),
        Ok(()) => Ok(String::new()),
    }
}

/// Concludes a request send, given the outcome of the write-and-flush and
/// the line the wait on the session's hand-off channel produced (`None` when
/// the timeout elapsed first). A received line is returned verbatim; a
/// timeout surfaces as `ReplyTimeout`; a failed write surfaces as
/// `WriteFailure` and no wait takes place.
pub fn finish_request(write: Result<(), String>, reply: Option<String>) -> (r: Result<
    String,
    SessionError,
>)
    ensures
        write matches Err(e) ==> (r matches Err(se) && se == SessionError::WriteFailure(e)),
        write is Ok ==> (reply matches Some(line) ==> (r matches Ok(s) && s == line)),
        write is Ok && reply is None ==> (r matches Err(se) && se == SessionError::ReplyTimeout),
{
    match write {
        Err(e) => Err(SessionError::WriteFailure(e)),
        Ok(()) => match reply {
            Some(line) => Ok(line),
            None => Err(SessionError::ReplyTimeout),
        },
    }
}

/// Routes one line read from a process's stdout. The line is delivered to
/// two sinks: the session's hand-off channel — skipped, without error, when
/// the receiving side is gone — and the broadcaster. Each sink gets an
/// independent copy of the very line the process emitted.
pub fn route_stdout_line(line: String, receiver_alive: bool) -> (r: (Option<String>, String))
    ensures
        r.1@ == line@,
        receiver_alive ==> (r.0 matches Some(l) && l@ == line@),
        !receiver_alive ==> r.0 is None,
{
    if receiver_alive {
        let copy = line.clone();
        (Some(copy), line)
    } else {
        (None, line)
    }
}

/// The reply that one sequential exchange takes from the queue of pending
/// stdout lines: the next available line. The correlator does no
/// identifier matching beyond "the next line belongs to this waiter".
pub open spec fn exchange_reply(pending: Seq<Seq<char>>) -> Seq<char>
    recommends
        pending.len() > 0,
{
    pending.first()
}

/// The replies of `n` sequential request/reply exchanges against a queue of
/// pending lines: each exchange consumes the next available line.
pub open spec fn replies_for(pending: Seq<Seq<char>>, n: nat) -> Seq<Seq<char>>
    decreases n,
{
    if n == 0 {
        Seq::empty()
    } else {
        seq![exchange_reply(pending)] + replies_for(pending.drop_first(), (n - 1) as nat)
    }
}

/// Round trip: for `n` sequential (not concurrent) request/reply exchanges
/// on one session, the replies come back in the order the corresponding
/// requests were sent — the k-th exchange returns the k-th line the process
/// emitted. This rests on the one-outstanding-request-per-session
/// discipline and on the hand-off channel delivering lines in emission
/// order.
pub proof fn lemma_replies_in_order(pending: Seq<Seq<char>>, n: nat)
    requires
        n <= pending.len(),
    ensures
        replies_for(pending, n) =~= pending.take(n as int),
    decreases n,
{
    if n == 0 {
    } else {
        lemma_replies_in_order(pending.drop_first(), (n - 1) as nat);
        assert forall|i: int| 0 <= i < n implies replies_for(pending, n)[i] == pending.take(
            n as int,
        )[i] by {
            if i > 0 {
                assert(replies_for(pending, n)[i] == replies_for(
                    pending.drop_first(),
                    (n - 1) as nat,
                )[i - 1]);
                assert(pending.drop_first().take(n - 1)[i - 1] == pending[i]);
            }
        }
    }
}

} // verus!
