//! What a query sends, and how it ends.

use vstd::prelude::*;

use crate::buffer::be_i32_bytes;
use crate::error::{CCProxyError, CCProxyResult};
use crate::exchange::{
    attempted, exchange_outcome, first_response, law_query_outcome, lemma_first_response,
    new_exchange, replied, stage_request, QueryExchange, QueryStage,
};
use crate::packet::{request_bytes, QueryPacketType};
use crate::response::{QueryResponsePacketPayloadView, QueryResponsePacketView};
use crate::wire_laws::law_request_is_written;

verus! {

/// A new query is about to ask for a handshake, with all its attempts left.
pub proof fn law_query_starts_with_handshake(retry: u32, is_full: bool)
    ensures
        ({
            let x = new_exchange(retry, is_full);
            &&& x.stage is Handshake
            &&& x.attempts_left == retry
            &&& x.retry == retry
            &&& x.is_full == is_full
        }),
{
}

/// A query asks for a handshake first, and then for the stat that it is about,
/// with the token that it was given and under the session ID at hand.
pub proof fn law_query_asks(x: QueryExchange, id: i32, token: i32)
    ensures
        x.stage is Handshake ==> request_bytes(stage_request(x, id)) == seq![0xfeu8, 0xfd, 9]
            + be_i32_bytes(id),
        x.stage == (QueryStage::Stat { challenge_token: token }) && !x.is_full ==> request_bytes(
            stage_request(x, id),
        ) == seq![0xfeu8, 0xfd, 0] + be_i32_bytes(id) + be_i32_bytes(token),
        x.stage == (QueryStage::Stat { challenge_token: token }) && x.is_full ==> request_bytes(
            stage_request(x, id),
        ) == seq![0xfeu8, 0xfd, 0] + be_i32_bytes(id) + be_i32_bytes(token) + seq![0u8, 0, 0, 0],
{
    law_request_is_written(QueryPacketType::Handshake, id, token);
    law_request_is_written(QueryPacketType::Stat, id, token);
}

/// An attempt leaves one attempt fewer and changes nothing else.
pub proof fn law_attempts_count_down(x: QueryExchange)
    requires
        x.attempts_left > 0,
    ensures
        attempted(x).attempts_left == x.attempts_left - 1,
        attempted(x).stage == x.stage,
        attempted(x).retry == x.retry,
        attempted(x).is_full == x.is_full,
{
}

/// A handshake response hands over its token and all attempts anew; another
/// response to a handshake ends the query as invalid. Any response to a stat
/// request ends the query with that response. What is no response changes
/// nothing.
pub proof fn law_replies(
    x: QueryExchange,
    response: QueryResponsePacketView,
    e: CCProxyError,
    token: i32,
)
    ensures
        replied(x, Err(e)) == (x, None::<CCProxyResult<QueryResponsePacketView>>),
        x.stage is Handshake && response.payload == (QueryResponsePacketPayloadView::Handshake {
            challenge_token: token,
        }) ==> {
            let (y, outcome) = replied(x, Ok(response));
            &&& outcome is None
            &&& y.stage == (QueryStage::Stat { challenge_token: token })
            &&& y.attempts_left == x.retry
            &&& y.retry == x.retry
            &&& y.is_full == x.is_full
        },
        x.stage is Handshake && response.payload !is Handshake ==> replied(x, Ok(response)).1
            == Some(Err::<QueryResponsePacketView, CCProxyError>(CCProxyError::QueryInvalid)),
        x.stage is Stat ==> replied(x, Ok(response)).1 == Some(
            Ok::<QueryResponsePacketView, CCProxyError>(response),
        ),
{
}

proof fn lemma_first_response_unique(
    replies: Seq<CCProxyResult<QueryResponsePacketView>>,
    n: int,
)
    requires
        0 <= n <= replies.len(),
        n < replies.len() ==> replies[n] is Ok,
        forall|i: int| 0 <= i < n ==> (#[trigger] replies[i]) is Err,
    ensures
        first_response(replies) == n,
    decreases replies.len(),
{
    if n > 0 {
        let tail = replies.drop_first();
        assert forall|i: int| 0 <= i < n - 1 implies (#[trigger] tail[i]) is Err by {
            assert(tail[i] == replies[i + 1]);
        }
        if n < replies.len() {
            assert(tail[n - 1] == replies[n]);
        }
        assert(replies[0] is Err);
        lemma_first_response_unique(tail, n - 1);
    }
}

proof fn lemma_no_response_before(replies: Seq<CCProxyResult<QueryResponsePacketView>>, n: int)
    requires
        0 <= n <= replies.len(),
        forall|i: int| 0 <= i < n ==> (#[trigger] replies[i]) is Err,
    ensures
        first_response(replies) >= n,
    decreases n,
{
    if n > 0 {
        let tail = replies.drop_first();
        assert forall|i: int| 0 <= i < n - 1 implies (#[trigger] tail[i]) is Err by {
            assert(tail[i] == replies[i + 1]);
        }
        assert(replies[0] is Err);
        lemma_no_response_before(tail, n - 1);
    } else {
        lemma_first_response(replies);
    }
}

/// A query that gets no response to any of its handshakes times out.
pub proof fn law_silence_times_out(
    retry: u32,
    is_full: bool,
    replies: Seq<CCProxyResult<QueryResponsePacketView>>,
)
    requires
        replies.len() >= 2 * retry,
        forall|i: int| 0 <= i < retry ==> (#[trigger] replies[i]) is Err,
    ensures
        exchange_outcome(new_exchange(retry, is_full), replies) == Some(
            Err::<QueryResponsePacketView, CCProxyError>(CCProxyError::QueryTimeout),
        ),
{
    law_query_outcome(retry, is_full, replies);
    lemma_no_response_before(replies, retry as int);
}

/// A query whose first response, after any number of vain attempts short of all,
/// is no handshake ends as invalid.
pub proof fn law_first_response_has_to_be_a_handshake(
    retry: u32,
    is_full: bool,
    replies: Seq<CCProxyResult<QueryResponsePacketView>>,
    at: int,
    response: QueryResponsePacketView,
)
    requires
        replies.len() >= 2 * retry,
        0 <= at < retry,
        forall|i: int| 0 <= i < at ==> (#[trigger] replies[i]) is Err,
        replies[at] == Ok::<QueryResponsePacketView, CCProxyError>(response),
        response.payload !is Handshake,
    ensures
        exchange_outcome(new_exchange(retry, is_full), replies) == Some(
            Err::<QueryResponsePacketView, CCProxyError>(CCProxyError::QueryInvalid),
        ),
{
    law_query_outcome(retry, is_full, replies);
    lemma_first_response_unique(replies, at);
}

/// A query that gets a handshake within its attempts, and then a response within
/// as many attempts again, ends with that response, whatever it is; without one
/// it times out.
pub proof fn law_query_ends_with_its_stat(
    retry: u32,
    is_full: bool,
    replies: Seq<CCProxyResult<QueryResponsePacketView>>,
    at: int,
    response: QueryResponsePacketView,
    later: int,
)
    requires
        replies.len() >= 2 * retry,
        0 <= at < retry,
        forall|i: int| 0 <= i < at ==> (#[trigger] replies[i]) is Err,
        replies[at] == Ok::<QueryResponsePacketView, CCProxyError>(response),
        response.payload is Handshake,
        0 <= later <= retry,
        forall|i: int| at < i <= at + later ==> (#[trigger] replies[i]) is Err,
    ensures
        later < retry && replies[at + 1 + later] is Ok ==> exchange_outcome(
            new_exchange(retry, is_full),
            replies,
        ) == Some(replies[at + 1 + later]),
        later == retry ==> exchange_outcome(new_exchange(retry, is_full), replies) == Some(
            Err::<QueryResponsePacketView, CCProxyError>(CCProxyError::QueryTimeout),
        ),
{
    law_query_outcome(retry, is_full, replies);
    lemma_first_response_unique(replies, at);
    let rest = replies.skip(at + 1);
    assert forall|i: int| 0 <= i < later implies (#[trigger] rest[i]) is Err by {
        assert(rest[i] == replies[at + 1 + i]);
    }
    lemma_no_response_before(rest, later);
    if later < retry && replies[at + 1 + later] is Ok {
        assert(rest[later] == replies[at + 1 + later]);
        lemma_first_response_unique(rest, later);
    }
}

} // verus!
