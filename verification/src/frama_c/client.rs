//! The client side of a session: which request gets which reply, when a request
//! is given up, and how paged results are gathered.
//!
//! Every function here decides; the socket and the clock are the caller's.

use vstd::prelude::*;
use vstd::string::*;

use super::codec::{CommandView, FramaCCommand, FramaCResponse, ResponseView};
use crate::error::FramaCError;
use crate::json;
use crate::json::{Json, JsonView};
use crate::text;

verus! {

/// The source of request identifiers: `RQ.0`, `RQ.1`, and so on.
pub struct RequestIds {
    pub counter: u64,
}

/// The identifier with number `n`.
pub open spec fn request_id(n: nat) -> Seq<char> {
    "RQ."@ + text::decimal(n)
}

impl RequestIds {
    /// A source that starts at `RQ.0`.
    pub fn new() -> (r: Self)
        ensures
            r.counter == 0,
    {
        RequestIds { counter: 0 }
    }

    /// The next identifier.
    pub fn next_id(&mut self) -> (r: String)
        requires
            old(self).counter < u64::MAX,
        ensures
            r@ == request_id(old(self).counter as nat),
            final(self).counter == old(self).counter + 1,
    {
        let id = "RQ.".to_owned().concat(text::decimal_text(self.counter).as_str());
        self.counter = self.counter + 1;
        id
    }
}

proof fn lemma_decimal_injective(a: nat, b: nat)
    requires
        text::decimal(a) == text::decimal(b),
    ensures
        a == b,
    decreases a,
{
    let x = text::decimal(a);
    let y = text::decimal(b);
    if a < 10 && b < 10 {
        assert(x[0] == y[0]);
    } else if a >= 10 && b >= 10 {
        assert(x.drop_last() =~= text::decimal(a / 10));
        assert(y.drop_last() =~= text::decimal(b / 10));
        assert(x.last() == text::digit(a % 10));
        assert(y.last() == text::digit(b % 10));
        lemma_decimal_injective(a / 10, b / 10);
    } else {
        lemma_decimal_len(a / 10);
        lemma_decimal_len(b / 10);
        assert(x.len() == y.len());
    }
}

proof fn lemma_decimal_len(n: nat)
    ensures
        text::decimal(n).len() > 0,
    decreases n,
{
    if n >= 10 {
        lemma_decimal_len(n / 10);
    }
}

/// Two requests never share an identifier.
pub proof fn request_ids_are_distinct(a: nat, b: nat)
    requires
        a != b,
    ensures
        request_id(a) != request_id(b),
{
    if request_id(a) == request_id(b) {
        assert(request_id(a).subrange(3, request_id(a).len() as int) =~= text::decimal(a)) by {
            reveal_strlit("RQ.");
        }
        assert(request_id(b).subrange(3, request_id(b).len() as int) =~= text::decimal(b)) by {
            reveal_strlit("RQ.");
        }
        lemma_decimal_injective(a, b);
    }
}

/// How a reply is being waited for.
#[derive(Debug, Clone, Copy, PartialEq, Eq, Structural)]
pub enum Waiting {
    /// A GET, which the server answers at once.
    Direct,
    /// A queued request (SET or EXEC), before the first POLL.
    BeforePolling,
    /// A queued request, after a POLL.
    Polling,
}

/// How a reply is waited for once a round has brought none: a queued request is
/// polled for from then on.
pub open spec fn still_waiting(waiting: Waiting) -> Waiting {
    match waiting {
        Waiting::Direct => Waiting::Direct,
        Waiting::BeforePolling | Waiting::Polling => Waiting::Polling,
    }
}

/// What a received reply means for the request that is waited for.
pub enum Verdict {
    Answered(Json),
    Failed(FramaCError),
    /// Go on with another round, waiting in this way.
    KeepWaiting(Waiting),
}

/// The id that a response answers to.
pub open spec fn answers(resp: ResponseView, id: Seq<char>) -> bool {
    match resp {
        ResponseView::Data { id: i, .. } => i == id,
        ResponseView::Error { id: i, .. } => i == id,
        ResponseView::Rejected { id: i } => i == id,
        ResponseView::Killed { id: i } => i == id,
        _ => false,
    }
}

/// What a received reply means. Signals, command-line notices and replies to
/// other requests (stale replies of operations that timed out) are passed over.
/// A GET fails when nothing arrives in its time; a queued request goes on.
pub open spec fn judged(
    v: Verdict,
    waiting: Waiting,
    id: Seq<char>,
    secs: u64,
    nanos: u32,
    reply: Option<ResponseView>,
) -> bool {
    match reply {
        Some(ResponseView::Data { id: i, data }) if i == id => v matches Verdict::Answered(d)
            && d@ == data,
        Some(ResponseView::Error { id: i, msg }) if i == id => v matches Verdict::Failed(
            FramaCError::ServerError { id: j, msg: m },
        ) && j@ == id && m@ == msg,
        Some(ResponseView::Rejected { id: i }) if i == id => v matches Verdict::Failed(
            FramaCError::Rejected { id: j },
        ) && j@ == id,
        Some(ResponseView::Killed { id: i }) if i == id => v matches Verdict::Failed(
            FramaCError::Killed { id: j },
        ) && j@ == id,
        None if waiting == Waiting::Direct => v matches Verdict::Failed(
            FramaCError::Timeout { secs: s, nanos: n },
        ) && s == secs && n == nanos,
        _ => v == Verdict::KeepWaiting(still_waiting(waiting)),
    }
}

/// What a received reply, or none within the time allowed, means for request
/// `id`, whose time limit is `secs` seconds and `nanos` nanoseconds.
pub fn judge_reply(
    waiting: Waiting,
    id: &str,
    secs: u64,
    nanos: u32,
    reply: Option<FramaCResponse>,
) -> (r: Verdict)
    ensures
        judged(
            r,
            waiting,
            id@,
            secs,
            nanos,
            (match reply {
                Some(x) => Some(x@),
                None => None,
            }),
        ),
{
    let next = match waiting {
        Waiting::Direct => Waiting::Direct,
        Waiting::BeforePolling | Waiting::Polling => Waiting::Polling,
    };
    match reply {
        Some(FramaCResponse::Data { id: i, data }) => if text::same_text(i.as_str(), id) {
            Verdict::Answered(data)
        } else {
            Verdict::KeepWaiting(next)
        },
        Some(FramaCResponse::Error { id: i, msg }) => if text::same_text(i.as_str(), id) {
            Verdict::Failed(FramaCError::ServerError { id: i, msg })
        } else {
            Verdict::KeepWaiting(next)
        },
        Some(FramaCResponse::Rejected { id: i }) => if text::same_text(i.as_str(), id) {
            Verdict::Failed(FramaCError::Rejected { id: i })
        } else {
            Verdict::KeepWaiting(next)
        },
        Some(FramaCResponse::Killed { id: i }) => if text::same_text(i.as_str(), id) {
            Verdict::Failed(FramaCError::Killed { id: i })
        } else {
            Verdict::KeepWaiting(next)
        },
        Some(FramaCResponse::Signal { .. })
        | Some(FramaCResponse::CmdLineOn)
        | Some(FramaCResponse::CmdLineOff) => Verdict::KeepWaiting(next),
        None => if waiting == Waiting::Direct {
            Verdict::Failed(FramaCError::Timeout { secs, nanos })
        } else {
            Verdict::KeepWaiting(next)
        },
    }
}

/// How long a round waits for a reply.
#[derive(Debug, Clone, Copy, PartialEq, Eq, Structural)]
pub enum Patience {
    /// What is left of the time limit.
    Remaining,
    /// This many milliseconds.
    Millis(u64),
}

/// How long a reply to a queued request is waited for before the next POLL.
pub const POLL_WAIT_MILLIS: u64 = 500;

/// The pause before a POLL.
pub const POLL_PAUSE_MILLIS: u64 = 100;

/// What to do in a round of waiting.
pub enum Round {
    /// Read the next reply.
    Receive { patience: Patience },
    /// Pause, send this command, then read the next reply.
    Ask { pause_millis: u64, command: FramaCCommand, patience: Patience },
    /// Give up: send the command, if there is one, and fail with the error.
    GiveUp { last_command: Option<FramaCCommand>, error: FramaCError },
}

/// What to do in a round of waiting, given whether the time limit has passed. A
/// GET waits out its limit and is then simply given up. A queued request is
/// waited for a short while, then polled for, and killed when its limit has
/// passed.
pub open spec fn round_of(
    r: Round,
    waiting: Waiting,
    expired: bool,
    id: Seq<char>,
    secs: u64,
    nanos: u32,
) -> bool {
    match waiting {
        Waiting::BeforePolling => r == (Round::Receive {
            patience: Patience::Millis(POLL_WAIT_MILLIS),
        }),
        Waiting::Direct => r == (if expired {
            Round::GiveUp { last_command: None, error: FramaCError::Timeout { secs, nanos } }
        } else {
            Round::Receive { patience: Patience::Remaining }
        }),
        Waiting::Polling => if expired {
            r matches Round::GiveUp { last_command: Some(c), error } && c@ == (CommandView::Kill { id })
                && error == (FramaCError::Timeout { secs, nanos })
        } else {
            r matches Round::Ask { pause_millis, command, patience } && pause_millis
                == POLL_PAUSE_MILLIS && command@ == CommandView::Poll && patience
                == Patience::Millis(POLL_WAIT_MILLIS)
        },
    }
}

/// What to do in a round of waiting for request `id`, whose time limit is `secs`
/// seconds and `nanos` nanoseconds, given whether the limit has passed.
pub fn next_round(waiting: Waiting, expired: bool, id: &str, secs: u64, nanos: u32) -> (r: Round)
    ensures
        round_of(r, waiting, expired, id@, secs, nanos),
{
    match waiting {
        Waiting::BeforePolling => Round::Receive { patience: Patience::Millis(POLL_WAIT_MILLIS) },
        Waiting::Direct => if expired {
            Round::GiveUp { last_command: None, error: FramaCError::Timeout { secs, nanos } }
        } else {
            Round::Receive { patience: Patience::Remaining }
        },
        Waiting::Polling => if expired {
            Round::GiveUp {
                last_command: Some(FramaCCommand::Kill { id: id.to_owned() }),
                error: FramaCError::Timeout { secs, nanos },
            }
        } else {
            Round::Ask {
                pause_millis: POLL_PAUSE_MILLIS,
                command: FramaCCommand::Poll,
                patience: Patience::Millis(POLL_WAIT_MILLIS),
            }
        },
    }
}

/// A reply to another request, a signal or a command-line notice never ends the
/// waiting, and a reply to the request itself (data, an error, a rejection or the
/// notice that it was killed) always does, however it is waited for.
pub proof fn only_own_reply_ends_waiting(
    v: Verdict,
    waiting: Waiting,
    id: Seq<char>,
    secs: u64,
    nanos: u32,
    reply: ResponseView,
)
    requires
        judged(v, waiting, id, secs, nanos, Some(reply)),
    ensures
        v is KeepWaiting <==> !answers(reply, id),
{
}

/// A request whose time limit has passed is waited for in at most one more round:
/// after a round that brings no reply, the next one gives up.
pub proof fn waiting_ends_after_the_limit(
    v: Verdict,
    r: Round,
    waiting: Waiting,
    next: Waiting,
    id: Seq<char>,
    secs: u64,
    nanos: u32,
    reply: Option<ResponseView>,
)
    requires
        judged(v, waiting, id, secs, nanos, reply),
        v == Verdict::KeepWaiting(next),
        round_of(r, next, true, id, secs, nanos),
    ensures
        r is GiveUp,
{
}

/// What a reply means while a connection is being set up.
#[derive(Debug, Clone, Copy, PartialEq, Eq, Structural)]
pub enum Handshake {
    /// The server has left its command line, or says nothing: go on.
    Ready { cmdlineoff_seen: bool },
    KeepReading,
}

/// What a reply means while a connection is being set up: the server is ready
/// when it has left its command line, and taken as ready when it is silent.
/// Everything else (the answer to the probe among it) is read past.
pub fn handshake_reply(reply: &Option<FramaCResponse>) -> (r: Handshake)
    ensures
        r == (match reply {
            Some(x) => if x@ == ResponseView::CmdLineOff {
                Handshake::Ready { cmdlineoff_seen: true }
            } else {
                Handshake::KeepReading
            },
            None => Handshake::Ready { cmdlineoff_seen: false },
        }),
{
    match reply {
        Some(FramaCResponse::CmdLineOff) => Handshake::Ready { cmdlineoff_seen: true },
        Some(_) => Handshake::KeepReading,
        None => Handshake::Ready { cmdlineoff_seen: false },
    }
}

/// What to do when the time for setting up a connection has passed: a first
/// connection fails, a reconnection goes on.
pub fn handshake_expired(reconnecting: bool) -> (r: Option<FramaCError>)
    ensures
        r == (if reconnecting {
            None
        } else {
            Some(FramaCError::ConnectTimeout)
        }),
{
    if reconnecting {
        None
    } else {
        Some(FramaCError::ConnectTimeout)
    }
}

/// The command that makes the server flush what it has queued: a GET of the
/// list of files.
pub fn handshake_probe(id: &str) -> (r: FramaCCommand)
    ensures
        r@ == (CommandView::Get {
            id: id@,
            request: "kernel.ast.getFiles"@,
            data: JsonView::Null,
        }),
{
    FramaCCommand::Get {
        id: id.to_owned(),
        request: "kernel.ast.getFiles".to_owned(),
        data: Json::Null,
    }
}

/// The entries gathered once a page has come: the page's own behind those from
/// before, which a page that reloads drops.
pub open spec fn gathered(before: Seq<JsonView>, page: JsonView) -> Seq<JsonView> {
    let kept = if page.at("reload"@).truth() == Some(true) {
        Seq::empty()
    } else {
        before
    };
    match page.at("updated"@).list() {
        Some(updated) => kept + updated,
        None => kept,
    }
}

/// Whether the page says that more is to come.
pub open spec fn more_pending(page: JsonView) -> bool {
    match page.at("pending"@).unsigned() {
        Some(n) => n != 0,
        None => false,
    }
}

/// Adds a page of an incremental fetch to what was gathered, and says whether
/// more is to come.
pub fn gather_page(entries: &mut Vec<Json>, page: &Json) -> (more: bool)
    ensures
        json::json_views(final(entries)@) == gathered(json::json_views(old(entries)@), page@),
        more == more_pending(page@),
{
    let ghost before = json::json_views(entries@);
    let reload = match page.get("reload") {
        Some(v) => match v.as_bool() {
            Some(b) => b,
            None => false,
        },
        None => false,
    };
    if reload {
        entries.clear();
    }
    let ghost kept = json::json_views(entries@);
    assert(kept =~= if reload {
        Seq::empty()
    } else {
        before
    });
    match page.get_array("updated") {
        Some(updated) => {
            let mut i: usize = 0;
            while i < updated.len()
                invariant
                    i <= updated@.len(),
                    json::json_views(entries@) =~= kept + json::json_views(updated@).take(i as int),
                decreases updated@.len() - i,
            {
                let item = updated[i].clone();
                assert(json::json_views(entries@.push(item)) =~= json::json_views(entries@).push(
                    item@,
                ));
                entries.push(item);
                i = i + 1;
            }
            assert(json::json_views(updated@).take(i as int) =~= json::json_views(updated@));
        },
        None => {},
    }
    match page.get("pending") {
        Some(v) => match v.as_u64() {
            Some(n) => n != 0,
            None => false,
        },
        None => false,
    }
}

/// What a page adds comes behind what was gathered, in the page's order; a page that
/// reloads begins anew. There is more to come exactly where the page counts something
/// as pending.
pub proof fn pages_are_gathered_in_turn(
    before: Seq<JsonView>,
    page: JsonView,
    updated: Seq<JsonView>,
    pending: u64,
)
    requires
        page.at("updated"@) == JsonView::List(updated),
        page.at("pending"@) == JsonView::Number(json::NumberView::Int(pending as int)),
    ensures
        page.at("reload"@) == JsonView::Bool(true) ==> gathered(before, page) == updated,
        page.at("reload"@) != JsonView::Bool(true) ==> gathered(before, page) == before + updated,
        more_pending(page) <==> pending != 0,
{
    assert(Seq::<JsonView>::empty() + updated =~= updated);
}

/// A reply that answers a request is handed on as it is: its data, or its message.
pub proof fn answers_are_handed_on(
    v: Verdict,
    waiting: Waiting,
    id: Seq<char>,
    secs: u64,
    nanos: u32,
    data: JsonView,
    msg: Seq<char>,
)
    ensures
        judged(v, waiting, id, secs, nanos, Some(ResponseView::Data { id, data })) ==> v is Answered
            && v->Answered_0@ == data,
        judged(v, waiting, id, secs, nanos, Some(ResponseView::Error { id, msg })) ==> (v is Failed
            && v->Failed_0 is ServerError),
        judged(v, waiting, id, secs, nanos, Some(ResponseView::Rejected { id })) ==> (v is Failed
            && v->Failed_0 is Rejected),
        judged(v, waiting, id, secs, nanos, Some(ResponseView::Killed { id })) ==> (v is Failed
            && v->Failed_0 is Killed),
        judged(v, Waiting::Direct, id, secs, nanos, None) ==> (v is Failed
            && v->Failed_0 is Timeout),
        judged(v, Waiting::Polling, id, secs, nanos, None) ==> v == Verdict::KeepWaiting(
            Waiting::Polling,
        ),
{
}

/// A page that reloads makes what came before it irrelevant.
pub proof fn reload_forgets(before: Seq<JsonView>, other: Seq<JsonView>, page: JsonView)
    requires
        page.at("reload"@).truth() == Some(true),
    ensures
        gathered(before, page) == gathered(other, page),
{
}

} // verus!
