//! Requests that are sent one after the other.
//!
//! The first failure ends a script with its error. Some requests may fail: what
//! they would have said is then missing among the replies, and the script goes on.

use vstd::prelude::*;

use crate::error::{FramaCError, McpError, McpErrorKind};
use crate::json::{Json, JsonView};
use crate::mcp::request::Request;

verus! {

/// What came of a request: its reply, or the code and the message of its error.
pub type Outcome = Result<JsonView, (McpErrorKind, Seq<char>)>;

/// What came of a request.
pub open spec fn outcome(result: Result<Json, FramaCError>) -> Outcome {
    match result {
        Ok(j) => Ok(j@),
        Err(e) => Err((e.reported_kind(), e.reported_message())),
    }
}

/// A script under way: the first `replies.len()` requests are dealt with.
pub struct Script {
    pub requests: Vec<Request>,
    /// The requests before this place may fail.
    pub needed_from: usize,
    /// A reply for each request that was dealt with, but for those that failed.
    pub replies: Vec<Option<Json>>,
    pub failure: Option<McpError>,
}

/// How far a script is.
pub struct ScriptView {
    pub total: nat,
    pub needed_from: nat,
    pub replies: Seq<Option<JsonView>>,
    pub failure: Option<(McpErrorKind, Seq<char>)>,
}

/// The replies as values.
pub open spec fn reply_views(replies: Seq<Option<Json>>) -> Seq<Option<JsonView>> {
    replies.map_values(
        |r: Option<Json>|
            match r {
                Some(j) => Some(j@),
                None => None,
            },
    )
}

impl View for Script {
    type V = ScriptView;

    open spec fn view(&self) -> ScriptView {
        ScriptView {
            total: self.requests@.len(),
            needed_from: self.needed_from as nat,
            replies: reply_views(self.replies@),
            failure: match self.failure {
                Some(e) => Some((e.kind, e.message@)),
                None => None,
            },
        }
    }
}

impl ScriptView {
    /// Nothing more is sent: a request failed, or all are dealt with.
    pub open spec fn ended(self) -> bool {
        self.failure is Some || self.replies.len() >= self.total
    }

    /// How far it is once the next request is dealt with.
    pub open spec fn after(self, o: Outcome) -> ScriptView {
        match o {
            Ok(v) => ScriptView { replies: self.replies.push(Some(v)), ..self },
            Err(e) => if self.replies.len() < self.needed_from {
                ScriptView { replies: self.replies.push(None), ..self }
            } else {
                ScriptView { failure: Some(e), ..self }
            },
        }
    }
}

/// How far a script is at its start.
pub open spec fn started(total: nat, needed_from: nat) -> ScriptView {
    ScriptView { total, needed_from, replies: Seq::empty(), failure: None }
}

impl Script {
    /// A script of requests that are all needed.
    pub fn all_needed(requests: Vec<Request>) -> (r: Self)
        ensures
            r.requests == requests,
            r@ == started(requests@.len(), 0),
    {
        let r = Script { requests, needed_from: 0, replies: Vec::new(), failure: None };
        assert(r@.replies =~= Seq::empty());
        r
    }

    /// A script of requests of which only the last is needed.
    pub fn last_needed(requests: Vec<Request>) -> (r: Self)
        ensures
            r.requests == requests,
            r@ == started(
                requests@.len(),
                (if requests@.len() > 0 {
                    requests@.len() - 1
                } else {
                    0
                }) as nat,
            ),
    {
        let needed_from: usize = if requests.len() > 0 {
            requests.len() - 1
        } else {
            0
        };
        let r = Script { requests, needed_from, replies: Vec::new(), failure: None };
        assert(r@.replies =~= Seq::empty());
        r
    }

    /// The request to send next, until the script has ended.
    pub fn next(&self) -> (r: Option<&Request>)
        ensures
            match r {
                Some(q) => !self@.ended() && *q == self.requests@[self.replies@.len() as int],
                None => self@.ended(),
            },
    {
        if self.failure.is_none() && self.replies.len() < self.requests.len() {
            Some(&self.requests[self.replies.len()])
        } else {
            None
        }
    }

    /// Notes what came of the request that was sent.
    pub fn record(&mut self, result: Result<Json, FramaCError>)
        requires
            !old(self)@.ended(),
            result matches Err(e) ==> e.valid(),
        ensures
            final(self)@ == old(self)@.after(outcome(result)),
            final(self).requests == old(self).requests,
    {
        match result {
            Ok(j) => {
                self.replies.push(Some(j));
                assert(reply_views(self.replies@) =~= old(self)@.replies.push(Some(j@)));
            },
            Err(e) => if self.replies.len() < self.needed_from {
                self.replies.push(None);
                assert(reply_views(self.replies@) =~= old(self)@.replies.push(None));
            } else {
                self.failure = Some(e.to_mcp());
            },
        }
    }

    /// The replies, one for each request, or the error that ended the script.
    pub fn finish(self) -> (r: Result<Vec<Option<Json>>, McpError>)
        requires
            self@.ended(),
        ensures
            match self@.failure {
                Some(e) => r matches Err(x) && (x.kind, x.message@) == e,
                None => r matches Ok(v) && reply_views(v@) == self@.replies,
            },
    {
        match self.failure {
            Some(e) => Err(e),
            None => Ok(self.replies),
        }
    }
}

/// How far a script is once the outcomes came in, one after the other.
pub open spec fn played(s: ScriptView, outcomes: Seq<Outcome>) -> ScriptView
    decreases outcomes.len(),
{
    if outcomes.len() == 0 {
        s
    } else {
        played(s, outcomes.drop_last()).after(outcomes.last())
    }
}

/// The outcome at place `i` ends a script.
pub open spec fn ends(outcomes: Seq<Outcome>, needed_from: nat, i: int) -> bool {
    outcomes[i] is Err && i >= needed_from
}

/// A script ends with the first error of a request that is needed, and with no
/// other; without one, there is a reply for each request that did not fail.
pub proof fn first_needed_failure_ends(total: nat, needed_from: nat, outcomes: Seq<Outcome>)
    requires
        outcomes.len() <= total,
        forall|i: int|
            0 <= i < outcomes.len() - 1 ==> !#[trigger] ends(outcomes, needed_from, i),
    ensures
        ({
            let s = played(started(total, needed_from), outcomes);
            let n = outcomes.len() as int;
            if n > 0 && ends(outcomes, needed_from, n - 1) {
                s.failure == Some(outcomes[n - 1]->Err_0) && s.replies.len() == n - 1
            } else {
                s.failure is None && s.replies.len() == n && forall|i: int|
                    0 <= i < n ==> #[trigger] s.replies[i] == (match outcomes[i] {
                        Ok(v) => Some(v),
                        Err(_) => None,
                    })
            }
        }),
    decreases outcomes.len(),
{
    if outcomes.len() > 0 {
        let before = outcomes.drop_last();
        let n = outcomes.len() as int;
        assert forall|i: int| 0 <= i < before.len() implies !#[trigger] ends(
            before,
            needed_from,
            i,
        ) by {
            assert(!ends(outcomes, needed_from, i));
        }
        first_needed_failure_ends(total, needed_from, before);
        assert(played(started(total, needed_from), before).needed_from == needed_from) by {
            lemma_played_keeps(started(total, needed_from), before);
        }
    }
}

proof fn lemma_played_keeps(s: ScriptView, outcomes: Seq<Outcome>)
    ensures
        played(s, outcomes).needed_from == s.needed_from,
        played(s, outcomes).total == s.total,
    decreases outcomes.len(),
{
    if outcomes.len() > 0 {
        lemma_played_keeps(s, outcomes.drop_last());
    }
}

} // verus!
