//! The client side of the Query Protocol: a handshake, then a stat, each with a
//! number of attempts.

use vstd::prelude::*;

use crate::buffer::PacketBuffer;
use crate::error::{CCProxyError, CCProxyResult};
use crate::handler::QueryHandler;
use crate::packet::{
    request_bytes, QueryPacketType, QueryRequestPacket, QueryRequestPacketPayload, SESSION_ID_MASK,
};
use crate::response::{
    response_result, take_response, QueryResponsePacket, QueryResponsePacketPayload,
    QueryResponsePacketPayloadView, QueryResponsePacketView,
};

verus! {

/// The number of bytes that a response is received into.
pub const RESPONSE_BUFFER_LEN: usize = 1024;

/// The buffer that a datagram was received into: its start, followed by zeros.
pub open spec fn response_buffer(datagram: Seq<u8>) -> Seq<u8> {
    Seq::new(
        RESPONSE_BUFFER_LEN as nat,
        |i: int|
            if i < datagram.len() {
                datagram[i]
            } else {
                0
            },
    )
}

/// The outcome of waiting for a response. The whole buffer is read, and a stat is
/// taken for a full one.
pub open spec fn received_response(datagram: Option<Seq<u8>>) -> CCProxyResult<
    QueryResponsePacketView,
> {
    match datagram {
        Some(bytes) => take_response(response_buffer(bytes), true).0,
        None => Err(CCProxyError::QueryTimeout),
    }
}

/// The bytes of a datagram, where there is one.
pub open spec fn datagram_view(datagram: Option<&[u8]>) -> Option<Seq<u8>> {
    match datagram {
        Some(bytes) => Some(bytes@),
        None => None,
    }
}

fn fill_buffer(datagram: &[u8]) -> (buffer: Vec<u8>)
    ensures
        buffer@ == response_buffer(datagram@),
{
    let mut buffer: Vec<u8> = Vec::new();
    let mut i: usize = 0;
    while i < RESPONSE_BUFFER_LEN
        invariant
            i <= RESPONSE_BUFFER_LEN,
            buffer@ == response_buffer(datagram@).take(i as int),
        decreases RESPONSE_BUFFER_LEN - i,
    {
        if i < datagram.len() {
            buffer.push(datagram[i]);
        } else {
            buffer.push(0);
        }
        i = i + 1;
        assert(buffer@ =~= response_buffer(datagram@).take(i as int));
    }
    assert(buffer@ =~= response_buffer(datagram@));
    buffer
}

/// What an exchange is about to ask for.
#[derive(Debug, Clone, Copy, PartialEq, Eq, Structural)]
pub enum QueryStage {
    Handshake,
    Stat { challenge_token: i32 },
}

/// A query in progress.
#[derive(Debug, Clone, Copy, PartialEq, Eq, Structural)]
pub struct QueryExchange {
    /// The number of attempts at each stage.
    pub retry: u32,
    /// True for a full stat.
    pub is_full: bool,
    pub stage: QueryStage,
    /// The number of attempts that are left at this stage.
    pub attempts_left: u32,
}

/// The exchange before its first datagram.
pub open spec fn new_exchange(retry: u32, is_full: bool) -> QueryExchange {
    QueryExchange { retry, is_full, stage: QueryStage::Handshake, attempts_left: retry }
}

/// The request of an exchange at its stage.
pub open spec fn stage_request(x: QueryExchange, session_id: i32) -> QueryRequestPacket {
    match x.stage {
        QueryStage::Handshake => QueryRequestPacket {
            ty: QueryPacketType::Handshake,
            session_id,
            payload: QueryRequestPacketPayload::Handshake,
        },
        QueryStage::Stat { challenge_token } => QueryRequestPacket {
            ty: QueryPacketType::Stat,
            session_id,
            payload: if x.is_full {
                QueryRequestPacketPayload::FullStat { challenge_token }
            } else {
                QueryRequestPacketPayload::BasicStat { challenge_token }
            },
        },
    }
}

/// The exchange after one more attempt.
pub open spec fn attempted(x: QueryExchange) -> QueryExchange {
    QueryExchange { attempts_left: (x.attempts_left - 1) as u32, ..x }
}

/// The exchange after a reply, and its outcome where it is over. A reply that is
/// no response leads to the next attempt.
pub open spec fn replied(x: QueryExchange, reply: CCProxyResult<QueryResponsePacketView>) -> (
    QueryExchange,
    Option<CCProxyResult<QueryResponsePacketView>>,
) {
    match reply {
        Err(_) => (x, None),
        Ok(response) => match x.stage {
            QueryStage::Handshake => match response.payload {
                QueryResponsePacketPayloadView::Handshake { challenge_token } => (
                    QueryExchange {
                        stage: QueryStage::Stat { challenge_token },
                        attempts_left: x.retry,
                        ..x
                    },
                    None,
                ),
                _ => (x, Some(Err(CCProxyError::QueryInvalid))),
            },
            QueryStage::Stat { .. } => (x, Some(Ok(response))),
        },
    }
}

/// The outcome of an exchange whose attempts get `replies` one after another;
/// none where more are needed.
pub open spec fn exchange_outcome(
    x: QueryExchange,
    replies: Seq<CCProxyResult<QueryResponsePacketView>>,
) -> Option<CCProxyResult<QueryResponsePacketView>>
    decreases replies.len(),
{
    if x.attempts_left == 0 {
        Some(Err(CCProxyError::QueryTimeout))
    } else if replies.len() == 0 {
        None
    } else {
        match replied(attempted(x), replies[0]) {
            (_, Some(outcome)) => Some(outcome),
            (next, None) => exchange_outcome(next, replies.drop_first()),
        }
    }
}

/// The outcome of an exchange step, over texts.
pub open spec fn outcome_view(outcome: Option<CCProxyResult<QueryResponsePacket>>) -> Option<
    CCProxyResult<QueryResponsePacketView>,
> {
    match outcome {
        Some(res) => Some(response_result(res)),
        None => None,
    }
}

impl QueryHandler {
    /// Starts a query with `retry` attempts at the handshake and at the stat.
    pub fn query(retry: u32, is_full: bool) -> (exchange: QueryExchange)
        ensures
            exchange == new_exchange(retry, is_full),
    {
        QueryExchange { retry, is_full, stage: QueryStage::Handshake, attempts_left: retry }
    }

    /// The response in a received datagram; there is none where the wait for it
    /// was in vain.
    pub fn recv_response_packet(datagram: Option<&[u8]>) -> (res: CCProxyResult<
        QueryResponsePacket,
    >)
        ensures
            response_result(res) == received_response(datagram_view(datagram)),
    {
        match datagram {
            Some(bytes) => {
                let mut buf: PacketBuffer = PacketBuffer::new(fill_buffer(bytes));
                QueryResponsePacket::decode(&mut buf, true)
            },
            None => Err(CCProxyError::QueryTimeout),
        }
    }
}

impl QueryExchange {
    /// The next datagram to send, under `session_id`. Where no attempts are left
    /// the query has failed.
    pub fn next_request_with(&mut self, session_id: i32) -> (res: CCProxyResult<Vec<u8>>)
        ensures
            match res {
                Ok(bytes) => {
                    &&& old(self).attempts_left > 0
                    &&& bytes@ == request_bytes(stage_request(*old(self), session_id))
                    &&& *final(self) == attempted(*old(self))
                },
                Err(e) => {
                    &&& old(self).attempts_left == 0
                    &&& e == CCProxyError::QueryTimeout
                    &&& *final(self) == *old(self)
                },
            },
    {
        if self.attempts_left == 0 {
            return Err(CCProxyError::QueryTimeout);
        }
        let request: QueryRequestPacket = match self.stage {
            QueryStage::Handshake => QueryRequestPacket {
                ty: QueryPacketType::Handshake,
                session_id,
                payload: QueryRequestPacketPayload::Handshake,
            },
            QueryStage::Stat { challenge_token } => QueryRequestPacket {
                ty: QueryPacketType::Stat,
                session_id,
                payload: if !self.is_full {
                    QueryRequestPacketPayload::BasicStat { challenge_token }
                } else {
                    QueryRequestPacketPayload::FullStat { challenge_token }
                },
            },
        };
        let buf: PacketBuffer = request.encode()?;
        self.attempts_left = self.attempts_left - 1;
        Ok(buf.into_inner())
    }

    /// The next datagram to send, under a session ID drawn at random. Where no
    /// attempts are left the query has failed.
    pub fn next_request(&mut self) -> (res: CCProxyResult<Vec<u8>>)
        ensures
            match res {
                Ok(bytes) => {
                    &&& old(self).attempts_left > 0
                    &&& exists|session_id: i32|
                        {
                            &&& session_id & SESSION_ID_MASK == session_id
                            &&& bytes@ == request_bytes(
                                #[trigger] stage_request(*old(self), session_id),
                            )
                        }
                    &&& *final(self) == attempted(*old(self))
                },
                Err(e) => {
                    &&& old(self).attempts_left == 0
                    &&& e == CCProxyError::QueryTimeout
                    &&& *final(self) == *old(self)
                },
            },
    {
        let session_id: i32 = QueryRequestPacket::generate_session_id();
        self.next_request_with(session_id)
    }

    /// Takes the datagram that came in reply, or none where the wait for it was
    /// in vain, and returns the outcome of the query where it is over.
    pub fn receive(&mut self, datagram: Option<&[u8]>) -> (outcome: Option<
        CCProxyResult<QueryResponsePacket>,
    >)
        ensures
            (*final(self), outcome_view(outcome)) == replied(
                *old(self),
                received_response(datagram_view(datagram)),
            ),
    {
        match QueryHandler::recv_response_packet(datagram) {
            Err(_) => None,
            Ok(response) => match self.stage {
                QueryStage::Handshake => match response.payload {
                    QueryResponsePacketPayload::Handshake { challenge_token } => {
                        self.stage = QueryStage::Stat { challenge_token };
                        self.attempts_left = self.retry;
                        None
                    },
                    _ => Some(Err(CCProxyError::QueryInvalid)),
                },
                QueryStage::Stat { .. } => Some(Ok(response)),
            },
        }
    }
}

/// The index of the first reply that is a response, or the number of replies.
pub open spec fn first_response(replies: Seq<CCProxyResult<QueryResponsePacketView>>) -> int
    decreases replies.len(),
{
    if replies.len() == 0 || replies[0] is Ok {
        0
    } else {
        1 + first_response(replies.drop_first())
    }
}

/// The outcome of a query whose attempts get `replies` one after another.
///
/// The first response among as many replies as there are attempts has to be a
/// handshake; then the first response among as many replies again is the
/// outcome. Without a response the query times out.
pub open spec fn query_outcome(
    retry: u32,
    replies: Seq<CCProxyResult<QueryResponsePacketView>>,
) -> CCProxyResult<QueryResponsePacketView> {
    let shake = first_response(replies);
    if shake >= retry {
        Err(CCProxyError::QueryTimeout)
    } else if replies[shake].unwrap().payload !is Handshake {
        Err(CCProxyError::QueryInvalid)
    } else {
        let rest = replies.skip(shake + 1);
        let stat = first_response(rest);
        if stat >= retry {
            Err(CCProxyError::QueryTimeout)
        } else {
            rest[stat]
        }
    }
}

proof fn lemma_stat_outcome(
    x: QueryExchange,
    replies: Seq<CCProxyResult<QueryResponsePacketView>>,
)
    requires
        x.stage is Stat,
        replies.len() >= x.attempts_left,
    ensures
        exchange_outcome(x, replies) == Some(
            if first_response(replies) >= x.attempts_left {
                Err(CCProxyError::QueryTimeout)
            } else {
                replies[first_response(replies)]
            },
        ),
        0 <= first_response(replies) <= replies.len(),
    decreases replies.len(),
{
    if replies.len() > 0 {
        let tail = replies.drop_first();
        if x.attempts_left > 0 && replies[0] is Err {
            lemma_stat_outcome(attempted(x), tail);
            if first_response(tail) < x.attempts_left - 1 {
                assert(tail[first_response(tail)] == replies[first_response(replies)]);
            }
        } else if replies[0] is Err {
            lemma_first_response(replies);
        }
    }
}

pub(crate) proof fn lemma_first_response(replies: Seq<CCProxyResult<QueryResponsePacketView>>)
    ensures
        0 <= first_response(replies) <= replies.len(),
    decreases replies.len(),
{
    if replies.len() > 0 && replies[0] is Err {
        lemma_first_response(replies.drop_first());
    }
}

proof fn lemma_handshake_outcome(
    x: QueryExchange,
    replies: Seq<CCProxyResult<QueryResponsePacketView>>,
)
    requires
        x.stage is Handshake,
        replies.len() >= x.attempts_left + x.retry,
    ensures
        ({
            let shake = first_response(replies);
            let rest = replies.skip(shake + 1);
            let stat = first_response(rest);
            exchange_outcome(x, replies) == Some(
                if shake >= x.attempts_left {
                    Err(CCProxyError::QueryTimeout)
                } else if replies[shake].unwrap().payload !is Handshake {
                    Err(CCProxyError::QueryInvalid)
                } else if stat >= x.retry {
                    Err(CCProxyError::QueryTimeout)
                } else {
                    rest[stat]
                },
            )
        }),
    decreases replies.len(),
{
    lemma_first_response(replies);
    if x.attempts_left > 0 {
        let tail = replies.drop_first();
        if replies[0] is Err {
            lemma_handshake_outcome(attempted(x), tail);
            lemma_first_response(tail);
            if first_response(tail) < tail.len() {
                assert(tail[first_response(tail)] == replies[first_response(replies)]);
                assert(tail.skip(first_response(tail) + 1) =~= replies.skip(
                    first_response(replies) + 1,
                ));
            }
        } else {
            assert(tail =~= replies.skip(1));
            let (next, outcome) = replied(attempted(x), replies[0]);
            if outcome is None {
                lemma_stat_outcome(next, tail);
            }
        }
    }
}

/// A query is over after at most twice as many replies as it has attempts, and
/// its outcome is `query_outcome`.
pub proof fn law_query_outcome(
    retry: u32,
    is_full: bool,
    replies: Seq<CCProxyResult<QueryResponsePacketView>>,
)
    requires
        replies.len() >= 2 * retry,
    ensures
        exchange_outcome(new_exchange(retry, is_full), replies) == Some(
            query_outcome(retry, replies),
        ),
{
    lemma_handshake_outcome(new_exchange(retry, is_full), replies);
}

} // verus!
