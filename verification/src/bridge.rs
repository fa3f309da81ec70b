//! The request/response bridge.  Raw UI messages are parsed by the
//! host shell into submissions; the bridge records each dispatched
//! request's id, turns malformed messages with a recoverable id
//! into immediate failure responses, collects completed responses
//! in completion order, and hands them out once per cycle.  The
//! accounting lemmas at the bottom state the bridge's law: one
//! response per accepted id-bearing submission, matched by id.

use vstd::prelude::*;
use vstd::multiset::Multiset;
use crate::models::{Request, RequestId, Response, ResponsePayload};

verus! {

/// The outcome of parsing one raw UI message, as handed to the
/// bridge: a well-formed request, or a malformed message with
/// whatever id could still be recovered from the raw payload.
pub enum Submission {
    Parsed(Request),
    Malformed { recovered_id: Option<u32>, error: String },
}

/// The id a submission carries, if one was recovered.
pub open spec fn submission_id(s: Submission) -> Option<u32> {
    match s {
        Submission::Parsed(req) => Some(req.request_id.0),
        Submission::Malformed { recovered_id, .. } => recovered_id,
    }
}

/// The failure text sent back for a message that would not parse.
pub open spec fn parse_failure_message(e: Seq<char>) -> Seq<char> {
    "failed to parse request: "@ + e
}

/// The ids of a run of responses, in order.
pub open spec fn response_ids(rs: Seq<Response>) -> Seq<u32> {
    rs.map_values(|r: Response| r.request_id.0)
}

/// The bridge's state: ids dispatched and not yet answered, and
/// responses finished but not yet drained.
pub struct Bridge {
    pub pending: Vec<u32>,
    pub completed: Vec<Response>,
}

/// How many answers the bridge still owes or holds for an id.
pub open spec fn outstanding(b: Bridge, id: u32) -> nat {
    b.pending@.to_multiset().count(id) + response_ids(b.completed@).to_multiset().count(id)
}

/// What `submit` does: a parsed request is dispatched and its id
/// recorded; a malformed message with a recovered id gets a failure
/// response at once; one without any id is dropped silently.
pub open spec fn submit_post(
    pre: Bridge,
    post: Bridge,
    s: Submission,
    dispatched: Option<Request>,
) -> bool {
    match s {
        Submission::Parsed(req) => {
            &&& post.pending@ == pre.pending@.push(req.request_id.0)
            &&& post.completed@ == pre.completed@
            &&& dispatched == Some(req)
        },
        Submission::Malformed { recovered_id, error } => match recovered_id {
            Option::Some(id) => {
                &&& post.pending@ == pre.pending@
                &&& post.completed@.len() == pre.completed@.len() + 1
                &&& post.completed@.drop_last() == pre.completed@
                &&& post.completed@.last().request_id.0 == id
                &&& post.completed@.last().payload matches Err(m)
                    && m@ == parse_failure_message(error@)
                &&& dispatched is None
            },
            Option::None => {
                &&& post.pending@ == pre.pending@
                &&& post.completed@ == pre.completed@
                &&& dispatched is None
            },
        },
    }
}

/// What `complete` does: the first pending occurrence of the
/// response's id is discharged and the response queued, in
/// completion order.
pub open spec fn complete_post(pre: Bridge, post: Bridge, resp: Response) -> bool {
    exists|i: int|
        {
            &&& 0 <= i < pre.pending@.len()
            &&& pre.pending@[i] == resp.request_id.0
            &&& (forall|j: int| 0 <= j < i ==> pre.pending@[j] != resp.request_id.0)
            &&& post.pending@ == pre.pending@.remove(i)
            &&& post.completed@ == pre.completed@.push(resp)
        }
}

/// What `drain` does: every completed response leaves, in
/// completion order; nothing pending is touched.
pub open spec fn drain_post(pre: Bridge, post: Bridge, drained: Seq<Response>) -> bool {
    &&& drained == pre.completed@
    &&& post.completed@.len() == 0
    &&& post.pending@ == pre.pending@
}

impl Bridge {
    /// A bridge with nothing dispatched and nothing to hand out.
    pub fn new() -> (b: Bridge)
        ensures
            b.pending@ =~= Seq::<u32>::empty(),
            b.completed@ =~= Seq::<Response>::empty(),
    {
        Bridge { pending: Vec::new(), completed: Vec::new() }
    }

    /// Takes one submission.  Returns the request to dispatch, if
    /// the message parsed.
    pub fn submit(&mut self, s: Submission) -> (dispatched: Option<Request>)
        ensures
            submit_post(*old(self), *final(self), s, dispatched),
    {
        match s {
            Submission::Parsed(req) => {
                self.pending.push(req.request_id.0);
                Some(req)
            },
            Submission::Malformed { recovered_id, error } => {
                match recovered_id {
                    Option::Some(id) => {
                        let mut msg = String::new();
                        msg.append("failed to parse request: ");
                        msg.append(error.as_str());
                        let resp = Response {
                            request_id: RequestId(id),
                            payload: Err(msg),
                        };
                        self.completed.push(resp);
                        proof {
                            assert(self.completed@.drop_last() =~= old(self).completed@);
                        }
                        None
                    },
                    Option::None => None,
                }
            },
        }
    }

    /// Records one finished handler result as a response.
    pub fn complete(&mut self, id: RequestId, payload: Result<ResponsePayload, String>)
        requires
            old(self).pending@.contains(id.0),
        ensures
            complete_post(*old(self), *final(self), Response { request_id: id, payload }),
    {
        let ghost resp = Response { request_id: id, payload };
        let mut i: usize = 0;
        while i < self.pending.len()
            invariant
                i <= self.pending@.len(),
                *self == *old(self),
                self.pending@.contains(id.0),
                forall|j: int| 0 <= j < i ==> self.pending@[j] != id.0,
            decreases self.pending@.len() - i,
        {
            if self.pending[i] == id.0 {
                self.pending.remove(i);
                self.completed.push(Response { request_id: id, payload });
                return;
            }
            i += 1;
        }
        proof {
            let w = choose|w: int| 0 <= w < self.pending@.len() && self.pending@[w] == id.0;
            assert(false);
        }
    }

    /// Hands out everything completed since the last cycle, in
    /// completion order, without blocking on anything pending.
    pub fn drain(&mut self) -> (drained: Vec<Response>)
        ensures
            drain_post(*old(self), *final(self), drained@),
    {
        let mut out: Vec<Response> = Vec::new();
        core::mem::swap(&mut self.completed, &mut out);
        out
    }
}

/// Submitting changes the answers owed by exactly one, for exactly
/// the submission's own id; a message without an id owes nothing.
pub proof fn lemma_submit_accounting(
    pre: Bridge,
    post: Bridge,
    s: Submission,
    dispatched: Option<Request>,
)
    requires
        submit_post(pre, post, s, dispatched),
    ensures
        match submission_id(s) {
            Option::Some(id) => outstanding(post, id) == outstanding(pre, id) + 1 && forall|
                other: u32,
            |
                other != id ==> outstanding(post, other) == outstanding(pre, other),
            Option::None => forall|other: u32| outstanding(post, other) == outstanding(pre, other),
        },
{
    broadcast use vstd::seq_lib::group_to_multiset_ensures;

    match s {
        Submission::Parsed(req) => {
            assert(post.pending@.to_multiset() =~= pre.pending@.to_multiset().insert(
                req.request_id.0,
            ));
        },
        Submission::Malformed { recovered_id, error } => match recovered_id {
            Option::Some(id) => {
                let r = post.completed@.last();
                assert(post.completed@ =~= pre.completed@.push(r));
                assert(response_ids(post.completed@) =~= response_ids(pre.completed@).push(id));
                assert(response_ids(post.completed@).to_multiset() =~= response_ids(
                    pre.completed@,
                ).to_multiset().insert(id));
            },
            Option::None => {},
        },
    }
}

/// Completing a dispatched request moves its one owed answer from
/// pending to completed: nothing is owed twice and nothing is lost.
pub proof fn lemma_complete_accounting(pre: Bridge, post: Bridge, resp: Response)
    requires
        complete_post(pre, post, resp),
    ensures
        forall|id: u32| outstanding(post, id) == outstanding(pre, id),
{
    broadcast use vstd::seq_lib::group_to_multiset_ensures;

    let i = choose|i: int|
        {
            &&& 0 <= i < pre.pending@.len()
            &&& pre.pending@[i] == resp.request_id.0
            &&& (forall|j: int| 0 <= j < i ==> pre.pending@[j] != resp.request_id.0)
            &&& post.pending@ == pre.pending@.remove(i)
            &&& post.completed@ == pre.completed@.push(resp)
        };
    assert(post.pending@.to_multiset() =~= pre.pending@.to_multiset().remove(resp.request_id.0));
    assert(response_ids(post.completed@) =~= response_ids(pre.completed@).push(resp.request_id.0));
    assert(response_ids(post.completed@).to_multiset() =~= response_ids(
        pre.completed@,
    ).to_multiset().insert(resp.request_id.0));
    assert(pre.pending@.to_multiset().count(resp.request_id.0) > 0);
}

/// Draining hands out exactly what was completed: afterwards the
/// bridge owes for each id only what is still pending.
pub proof fn lemma_drain_accounting(pre: Bridge, post: Bridge, drained: Seq<Response>)
    requires
        drain_post(pre, post, drained),
    ensures
        forall|id: u32| #![all_triggers]
            outstanding(post, id) + response_ids(drained).to_multiset().count(id) == outstanding(
                pre,
                id,
            ),
        forall|id: u32| #![all_triggers]
            outstanding(post, id) == pre.pending@.to_multiset().count(id),
{
    broadcast use vstd::seq_lib::group_to_multiset_ensures;

    assert(response_ids(post.completed@) =~= Seq::<u32>::empty());
    assert(response_ids(post.completed@).to_multiset() =~= Multiset::<u32>::empty());
}

/// The bridge's law: an id with no answer outstanding that is
/// submitted as a parsed request, completed once, and then drained
/// appears exactly once among the drained responses, and nothing
/// for it remains behind.
pub proof fn lemma_exactly_one_response(
    b0: Bridge,
    b1: Bridge,
    b2: Bridge,
    b3: Bridge,
    req: Request,
    resp: Response,
    drained: Seq<Response>,
)
    requires
        outstanding(b0, req.request_id.0) == 0,
        submit_post(b0, b1, Submission::Parsed(req), Some(req)),
        complete_post(b1, b2, resp),
        resp.request_id == req.request_id,
        drain_post(b2, b3, drained),
    ensures
        response_ids(drained).to_multiset().count(req.request_id.0) == 1,
        outstanding(b3, req.request_id.0) == 0,
{
    lemma_submit_accounting(b0, b1, Submission::Parsed(req), Some(req));
    lemma_complete_accounting(b1, b2, resp);
    lemma_drain_accounting(b2, b3, drained);
    broadcast use vstd::seq_lib::group_to_multiset_ensures;

    let id = req.request_id.0;
    // after completion the one owed answer sits in the completed queue
    let i = choose|i: int|
        {
            &&& 0 <= i < b1.pending@.len()
            &&& b1.pending@[i] == id
            &&& (forall|j: int| 0 <= j < i ==> b1.pending@[j] != id)
            &&& b2.pending@ == b1.pending@.remove(i)
            &&& b2.completed@ == b1.completed@.push(resp)
        };
    assert(b2.pending@.to_multiset() =~= b1.pending@.to_multiset().remove(id));
    assert(b2.pending@.to_multiset().count(id) == 0);
}

} // verus!
